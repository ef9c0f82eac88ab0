use vstd::prelude::*;

use crate::codec::{PropertyKey, PropertyValue};

verus! {

/// What a node's `Source` property holds.
pub enum SourceText {
    /// A text value.
    Text(String),
    /// A value of some other type.
    Other,
    /// No such property.
    Missing,
}

/// One node of an instance tree.
pub struct Node {
    pub class: String,
    pub name: String,
    pub source: SourceText,
    /// The node's properties, carried unchanged into encoded models.
    pub properties: Vec<(PropertyKey, PropertyValue)>,
    /// Indices of the children in the tree's arena, in order.
    pub children: Vec<usize>,
}

/// An instance tree as an arena: node 0 is the root, and every child stands
/// after its parent.
pub struct Tree {
    pub nodes: Vec<Node>,
}

impl Node {
    /// A node with no properties and no children.
    pub fn new(class: String, name: String, source: SourceText) -> (r: Node)
        ensures
            r.class == class,
            r.name == name,
            r.source == source,
            r.properties@.len() == 0,
            r.children@.len() == 0,
    {
        Node { class, name, source, properties: Vec::new(), children: Vec::new() }
    }
}

impl Tree {
    pub open spec fn len(&self) -> int {
        self.nodes@.len() as int
    }

    pub open spec fn n_children(&self, i: int) -> int {
        self.nodes@[i].children@.len() as int
    }

    /// The `k`th child of node `i`.
    pub open spec fn child(&self, i: int, k: int) -> int {
        self.nodes@[i].children@[k] as int
    }

    pub open spec fn class_of(&self, i: int) -> Seq<char> {
        self.nodes@[i].class@
    }

    pub open spec fn name_of(&self, i: int) -> Seq<char> {
        self.nodes@[i].name@
    }

    /// A root exists, and every child index lies after its parent and inside the arena.
    pub open spec fn wf(&self) -> bool {
        &&& self.len() > 0
        &&& forall|i: int, k: int|
            0 <= i < self.len() && 0 <= k < self.n_children(i) ==> i < #[trigger] self.child(i, k)
                < self.len()
    }

    /// A tree of one root node.
    pub fn new(root: Node) -> (r: Tree)
        requires
            root.children@.len() == 0,
        ensures
            r.wf(),
            r.nodes@ == seq![root],
    {
        let mut nodes = Vec::new();
        nodes.push(root);
        let r = Tree { nodes };
        assert(r.nodes@ =~= seq![root]);
        r
    }

    /// Adds `node` as the last child of `parent`, and returns its index.
    pub fn add_child(&mut self, parent: usize, node: Node) -> (r: usize)
        requires
            old(self).wf(),
            parent < old(self).len(),
            node.children@.len() == 0,
            old(self).len() < usize::MAX,
        ensures
            final(self).wf(),
            r == old(self).len(),
            final(self).len() == old(self).len() + 1,
            final(self).nodes@[r as int] == node,
            final(self).nodes@[parent as int].children@ == old(self).nodes@[
                parent as int
            ].children@.push(r),
            forall|i: int|
                0 <= i < old(self).len() && i != parent ==> #[trigger] final(self).nodes@[i]
                    == old(self).nodes@[i],
            forall|i: int|
                0 <= i < old(self).len() ==> #[trigger] final(self).nodes@[i].class == old(
                    self,
                ).nodes@[i].class && final(self).nodes@[i].name == old(self).nodes@[i].name
                    && final(self).nodes@[i].source == old(self).nodes@[i].source,
    {
        let r = self.nodes.len();
        self.nodes.push(node);
        let mut p = self.nodes.remove(parent);
        p.children.push(r);
        self.nodes.insert(parent, p);
        proof {
            assert forall|i: int, k: int|
                0 <= i < self.len() && 0 <= k < self.n_children(i) implies i < #[trigger] self.child(
                i,
                k,
            ) < self.len() by {
                if i != parent as int && i < r as int {
                    assert(self.nodes@[i] == old(self).nodes@[i]);
                    assert(self.child(i, k) == old(self).child(i, k));
                }
                if i == parent as int && k < old(self).n_children(i) {
                    assert(self.child(i, k) == old(self).child(i, k));
                }
            }
        }
        r
    }
}

/// The script classes: server, client and module scripts.
pub open spec fn is_script_class_spec(c: Seq<char>) -> bool {
    c == "Script"@ || c == "LocalScript"@ || c == "ModuleScript"@
}

/// Whether a class is one of the script classes.
pub fn is_script_class(class_name: &str) -> (r: bool)
    ensures
        r == is_script_class_spec(class_name@),
{
    str_eq(class_name, "Script") || str_eq(class_name, "LocalScript") || str_eq(
        class_name,
        "ModuleScript",
    )
}

/// Character-wise equality of two strings.
pub fn str_eq(a: &str, b: &str) -> (r: bool)
    ensures
        r == (a@ == b@),
{
    let x = crate::sanitize::chars_of(a);
    let y = crate::sanitize::chars_of(b);
    if x.len() != y.len() {
        return false;
    }
    let mut i: usize = 0;
    while i < x.len()
        invariant
            x@ == a@,
            y@ == b@,
            x.len() == y.len(),
            i <= x.len(),
            forall|j: int| 0 <= j < i ==> x@[j] == y@[j],
        decreases x.len() - i,
    {
        if x[i] != y[i] {
            return false;
        }
        i += 1;
    }
    assert(x@ =~= y@);
    true
}

/// Whether the subtree of node `i` holds a node of a script class, `i` included.
pub open spec fn has_script(t: Tree, i: int) -> bool
    decreases t.len() - i, 1int, 0int,
{
    if 0 <= i < t.len() {
        is_script_class_spec(t.class_of(i)) || children_have_script(t, i, t.n_children(i))
    } else {
        false
    }
}

/// Whether one of the first `k` children of node `i` has a script in its subtree.
pub open spec fn children_have_script(t: Tree, i: int, k: int) -> bool
    decreases t.len() - i, 0int, k,
{
    if k <= 0 || !(0 <= i < t.len()) {
        false
    } else {
        let c = t.child(i, k - 1);
        children_have_script(t, i, k - 1) || (i < c < t.len() && has_script(t, c))
    }
}

/// The containment map of a tree: for each node, whether its subtree holds a script.
pub open spec fn containment(t: Tree) -> Seq<bool> {
    Seq::new(t.len() as nat, |i: int| has_script(t, i))
}

/// Computes, bottom-up, whether each node's subtree holds a script.
pub fn check_has_scripts(tree: &Tree) -> (r: Vec<bool>)
    requires
        tree.wf(),
    ensures
        r@ == containment(*tree),
{
    let n = tree.nodes.len();
    let mut map: Vec<bool> = Vec::new();
    let mut j: usize = 0;
    while j < n
        invariant
            j <= n,
            map@.len() == j,
        decreases n - j,
    {
        map.push(false);
        j += 1;
    }
    let mut i: usize = n;
    while i > 0
        invariant
            tree.wf(),
            n == tree.len(),
            i <= n,
            map@.len() == n,
            forall|j: int| i <= j < n ==> map@[j] == has_script(*tree, j),
        decreases i,
    {
        i -= 1;
        let node = &tree.nodes[i];
        let mut any = false;
        let mut k: usize = 0;
        while k < node.children.len()
            invariant
                tree.wf(),
                n == tree.len(),
                i < n,
                *node == tree.nodes@[i as int],
                map@.len() == n,
                forall|j: int| i < j < n ==> map@[j] == has_script(*tree, j),
                k <= node.children@.len(),
                any == children_have_script(*tree, i as int, k as int),
            decreases node.children.len() - k,
        {
            let c = node.children[k];
            assert(c as int == tree.child(i as int, k as int));
            assert(i < c < n);
            assert(map@[c as int] == has_script(*tree, c as int));
            let hc = map[c];
            assert(children_have_script(*tree, i as int, k as int + 1) == (children_have_script(
                *tree,
                i as int,
                k as int,
            ) || has_script(*tree, c as int)));
            any = any || hc;
            assert(any == children_have_script(*tree, i as int, k as int + 1));
            k += 1;
        }
        let result = is_script_class(node.class.as_str()) || any;
        map.set(i, result);
    }
    assert(map@ =~= containment(*tree));
    map
}

} // verus!
