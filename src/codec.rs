use vstd::prelude::*;

use crate::tree::{is_script_class, is_script_class_spec, str_eq, Tree};

verus! {

/// A property name of an instance.
pub type PropertyKey = ustr::Ustr;

/// A property value of an instance.
pub type PropertyValue = rbx_dom_weak::types::Variant;

#[verifier::external_type_specification]
#[verifier::external_body]
pub struct ExUstr(ustr::Ustr);

#[verifier::external_type_specification]
#[verifier::external_body]
pub struct ExVariant(rbx_dom_weak::types::Variant);

#[verifier::external_type_specification]
#[verifier::external_body]
pub struct ExInstanceBuilder(rbx_dom_weak::InstanceBuilder);

/// A copy of a node and of the subtree below it, as handed to the encoder.
pub struct ModelView {
    pub class: Seq<char>,
    pub name: Seq<char>,
    pub properties: Seq<(PropertyKey, PropertyValue)>,
    pub children: Seq<ModelView>,
}

/// What an instance builder holds.
pub uninterp spec fn builder_model(b: rbx_dom_weak::InstanceBuilder) -> ModelView;

/// The XML model file that the encoder writes for a data model holding `m`, or
/// `None` where it reports an error.
pub uninterp spec fn rbxm_of(m: ModelView) -> Option<Seq<u8>>;

/// What the encoder makes of a property value.
pub enum ValueClass {
    /// A value that is written as it is.
    Writable,
    /// A content value that refers to an object, which the encoder cannot write.
    Unwritable,
    /// A unique id: index, time and random part.
    UniqueId(u32, u32, i64),
}

/// The class of a property value.
pub uninterp spec fn value_class(v: PropertyValue) -> ValueClass;

/// Relies on `Variant` and `Content::value`: a content value is writable when it is
/// empty or a URI; a `UniqueId` is given by its three parts; any other value is
/// writable.
#[verifier::external_body]
fn classify_value(v: &PropertyValue) -> (r: ValueClass)
    ensures
        r == value_class(*v),
{
    match v {
        rbx_dom_weak::types::Variant::Content(c) => match c.value() {
            rbx_dom_weak::types::ContentType::None => ValueClass::Writable,
            rbx_dom_weak::types::ContentType::Uri(_) => ValueClass::Writable,
            _ => ValueClass::Unwritable,
        },
        rbx_dom_weak::types::Variant::UniqueId(u) => ValueClass::UniqueId(u.index(), u.time(), u.random()),
        _ => ValueClass::Writable,
    }
}

/// The characters of a property name.
pub uninterp spec fn key_chars(k: PropertyKey) -> Seq<char>;

/// Relies on `Ustr::as_str`: the interned string's characters.
#[verifier::external_body]
fn key_text(k: &PropertyKey) -> (r: &str)
    ensures
        r@ == key_chars(*k),
{
    k.as_str()
}

/// Relies on `InstanceBuilder::new`, `with_name` and `with_properties`: a childless
/// instance of the given class, name and properties.
#[verifier::external_body]
fn instance_builder(
    class: &str,
    name: &str,
    properties: &Vec<(PropertyKey, PropertyValue)>,
) -> (r: rbx_dom_weak::InstanceBuilder)
    ensures
        builder_model(r) == (ModelView {
            class: class@,
            name: name@,
            properties: properties@,
            children: seq![],
        }),
{
    rbx_dom_weak::InstanceBuilder::new(class).with_name(name).with_properties(
        properties.iter().cloned(),
    )
}

/// Relies on `InstanceBuilder::add_child`: appends `child` to the children of `parent`.
#[verifier::external_body]
fn add_child(parent: &mut rbx_dom_weak::InstanceBuilder, child: rbx_dom_weak::InstanceBuilder)
    ensures
        builder_model(*final(parent)) == (ModelView {
            children: builder_model(*old(parent)).children.push(builder_model(child)),
            ..builder_model(*old(parent))
        }),
{
    parent.add_child(child)
}

/// Relies on `WeakDom::new` and `rbx_xml::to_writer_default`: the XML model file of a
/// data model holding `model`, or `None` where the encoder reports an error. The
/// model must be a script-free copy of a subtree with no object-referring content
/// value and no two instances with one `UniqueId`: the encoder panics on the first,
/// and on the second `WeakDom` makes a new id from the clock and a random number,
/// so the output would no longer be a function of the model. The encoder's other panicking arms follow the bundled
/// class database's own entries, not the model.
#[verifier::external_body]
fn encode_model(model: rbx_dom_weak::InstanceBuilder) -> (r: Option<Vec<u8>>)
    requires
        exists|t: Tree, id: int|
            t.wf() && 0 <= id < t.len() && builder_model(model) == excised(t, id) && writable(
                t,
                id,
            ),
    ensures
        opt_bytes(r) == rbxm_of(builder_model(model)),
{
    let root = rbx_dom_weak::InstanceBuilder::new("DataModel").with_name("DataModel");
    let dom = rbx_dom_weak::WeakDom::new(root.with_child(model));
    let ids = dom.root().children().to_vec();
    let mut bytes = Vec::new();
    match rbx_xml::to_writer_default(&mut bytes, &dom, &ids) {
        Ok(()) => Some(bytes),
        Err(_) => None,
    }
}

pub open spec fn opt_bytes(r: Option<Vec<u8>>) -> Option<Seq<u8>> {
    match r {
        Some(b) => Some(b@),
        None => None,
    }
}

/// The copy of the subtree of node `id` from which every script, with all that
/// lies below it, is cut.
pub open spec fn excised(t: Tree, id: int) -> ModelView
    decreases t.len() - id, 1int, 0int,
{
    if 0 <= id < t.len() {
        ModelView {
            class: t.class_of(id),
            name: t.name_of(id),
            properties: t.nodes@[id].properties@,
            children: excised_children(t, id, t.n_children(id)),
        }
    } else {
        ModelView { class: seq![], name: seq![], properties: seq![], children: seq![] }
    }
}

/// The copies of the first `k` children of node `id` that are not scripts.
pub open spec fn excised_children(t: Tree, id: int, k: int) -> Seq<ModelView>
    decreases t.len() - id, 0int, k,
{
    if k <= 0 || !(0 <= id < t.len()) {
        seq![]
    } else {
        let c = t.child(id, k - 1);
        let prev = excised_children(t, id, k - 1);
        if id < c < t.len() && !is_script_class_spec(t.class_of(c)) {
            prev.push(excised(t, c))
        } else {
            prev
        }
    }
}

/// The nodes of the script-free copy of the subtree of `id`, in pre-order.
pub open spec fn excised_nodes(t: Tree, id: int) -> Seq<int>
    decreases t.len() - id, 1int, 0int,
{
    if !(0 <= id < t.len()) || is_script_class_spec(t.class_of(id)) {
        seq![]
    } else {
        seq![id] + excised_nodes_below(t, id, t.n_children(id))
    }
}

pub open spec fn excised_nodes_below(t: Tree, id: int, k: int) -> Seq<int>
    decreases t.len() - id, 0int, k,
{
    if k <= 0 || !(0 <= id < t.len()) {
        seq![]
    } else {
        let c = t.child(id, k - 1);
        excised_nodes_below(t, id, k - 1) + if id < c < t.len() {
            excised_nodes(t, c)
        } else {
            seq![]
        }
    }
}

/// Whether a property is the instance's unique id: `WeakDom` looks only at the
/// property of that name.
pub open spec fn is_unique_id_key(k: PropertyKey) -> bool {
    key_chars(k) == "UniqueId"@
}

/// Scanning the first `k` properties of node `j`: `None` where one of them cannot be
/// written, else the node's unique id so far (none, or one). A later property
/// of the id's name replaces an earlier one, as it does in the instance built from
/// them.
pub open spec fn scan_properties(t: Tree, j: int, k: int) -> Option<Seq<(u32, u32, i64)>>
    decreases k,
{
    if k <= 0 {
        Some(seq![])
    } else {
        match scan_properties(t, j, k - 1) {
            None => None,
            Some(ids) => {
                let p = t.nodes@[j].properties@[k - 1];
                match value_class(p.1) {
                    ValueClass::Unwritable => None,
                    ValueClass::UniqueId(a, b, c) => if is_unique_id_key(p.0) {
                        Some(seq![(a, b, c)])
                    } else {
                        Some(ids)
                    },
                    ValueClass::Writable => if is_unique_id_key(p.0) {
                        Some(seq![])
                    } else {
                        Some(ids)
                    },
                }
            },
        }
    }
}

/// The unique ids of the given nodes, or `None` where a value cannot be written.
pub open spec fn scan_nodes(t: Tree, nodes: Seq<int>) -> Option<Seq<(u32, u32, i64)>>
    decreases nodes.len(),
{
    if nodes.len() == 0 {
        Some(seq![])
    } else {
        let j = nodes.last();
        match (scan_nodes(t, nodes.drop_last()), scan_properties(t, j, t.nodes@[j].properties@.len() as int)) {
            (Some(a), Some(b)) => Some(a + b),
            _ => None,
        }
    }
}

/// The script-free copy of the subtree of `id` can be handed to the encoder: every
/// value is writable, and no two of its nodes carry the same `UniqueId`.
pub open spec fn writable(t: Tree, id: int) -> bool {
    match scan_nodes(t, excised_nodes(t, id)) {
        Some(ids) => ids.no_duplicates(),
        None => false,
    }
}

/// What the codec gives for node `id`: the model file of its script-free subtree, or
/// `None` for a script, a subtree that cannot be written, or an encoder error.
pub open spec fn encoded(t: Tree, id: int) -> Option<Seq<u8>> {
    if !(0 <= id < t.len()) || is_script_class_spec(t.class_of(id)) || !writable(t, id) {
        None
    } else {
        rbxm_of(excised(t, id))
    }
}

/// Appends the nodes of the script-free copy of the subtree of `id` to `out`.
fn collect_excised(tree: &Tree, id: usize, out: &mut Vec<usize>)
    requires
        tree.wf(),
        id < tree.len(),
    ensures
        final(out)@.map_values(|x: usize| x as int) == old(out)@.map_values(|x: usize| x as int)
            + excised_nodes(*tree, id as int),
        forall|i: int| 0 <= i < final(out)@.len() ==> #[trigger] final(out)@[i] < tree.len() || (
        i < old(out)@.len() && final(out)@[i] == old(out)@[i]),
    decreases tree.len() - id,
{
    let node = &tree.nodes[id];
    if is_script_class(node.class.as_str()) {
        assert(out@.map_values(|x: usize| x as int) =~= out@.map_values(|x: usize| x as int) + seq![]);
        return;
    }
    let ghost start = out@;
    out.push(id);
    assert(out@.map_values(|x: usize| x as int) =~= start.map_values(|x: usize| x as int) + seq![id as int]);
    let mut k: usize = 0;
    while k < node.children.len()
        invariant
            tree.wf(),
            id < tree.len(),
            *node == tree.nodes@[id as int],
            !is_script_class_spec(tree.class_of(id as int)),
            k <= node.children@.len(),
            out@.map_values(|x: usize| x as int) == start.map_values(|x: usize| x as int) + seq![id as int]
                + excised_nodes_below(*tree, id as int, k as int),
            forall|i: int| 0 <= i < out@.len() ==> #[trigger] out@[i] < tree.len() || (
            i < start.len() && out@[i] == start[i]),
        decreases node.children.len() - k,
    {
        let c = node.children[k];
        assert(c as int == tree.child(id as int, k as int));
        let ghost before = out@.map_values(|x: usize| x as int);
        collect_excised(tree, c, out);
        assert(out@.map_values(|x: usize| x as int) =~= start.map_values(|x: usize| x as int) + seq![id as int]
            + excised_nodes_below(*tree, id as int, k as int + 1));
        k += 1;
    }
    assert(seq![id as int] + excised_nodes_below(*tree, id as int, node.children@.len() as int)
        == excised_nodes(*tree, id as int));
    assert(out@.map_values(|x: usize| x as int) =~= start.map_values(|x: usize| x as int)
        + excised_nodes(*tree, id as int));
}

/// The unique ids of node `j`'s properties, or `None` where one cannot be written.
fn scan_node(tree: &Tree, j: usize) -> (r: Option<Vec<(u32, u32, i64)>>)
    requires
        j < tree.len(),
    ensures
        match r {
            Some(v) => scan_properties(*tree, j as int, tree.nodes@[j as int].properties@.len() as int)
                == Some(v@),
            None => scan_properties(*tree, j as int, tree.nodes@[j as int].properties@.len() as int)
                is None,
        },
{
    let props = &tree.nodes[j].properties;
    let mut ids: Vec<(u32, u32, i64)> = Vec::new();
    let mut k: usize = 0;
    while k < props.len()
        invariant
            j < tree.len(),
            *props == tree.nodes@[j as int].properties,
            k <= props@.len(),
            scan_properties(*tree, j as int, k as int) == Some(ids@),
        decreases props.len() - k,
    {
        let id_key = str_eq(key_text(&props[k].0), "UniqueId");
        match classify_value(&props[k].1) {
            ValueClass::Unwritable => {
                assert(scan_properties(*tree, j as int, k as int + 1) is None);
                proof {
                    lemma_scan_properties_none(*tree, j as int, k as int + 1, props@.len() as int);
                }
                return None;
            },
            ValueClass::UniqueId(a, b, c) => {
                if id_key {
                    ids = Vec::new();
                    ids.push((a, b, c));
                    assert(ids@ =~= seq![(a, b, c)]);
                }
            },
            ValueClass::Writable => {
                if id_key {
                    ids = Vec::new();
                    assert(ids@ =~= seq![]);
                }
            },
        }
        k += 1;
    }
    Some(ids)
}

proof fn lemma_scan_properties_none(t: Tree, j: int, k: int, n: int)
    requires
        k <= n,
        scan_properties(t, j, k) is None,
    ensures
        scan_properties(t, j, n) is None,
    decreases n - k,
{
    if k < n {
        lemma_scan_properties_none(t, j, k + 1, n);
    }
}

proof fn lemma_scan_nodes_none(t: Tree, nodes: Seq<int>, m: int)
    requires
        0 <= m <= nodes.len(),
        scan_nodes(t, nodes.subrange(0, m)) is None,
    ensures
        scan_nodes(t, nodes) is None,
    decreases nodes.len() - m,
{
    if m < nodes.len() {
        assert(nodes.subrange(0, m + 1).drop_last() =~= nodes.subrange(0, m));
        lemma_scan_nodes_none(t, nodes, m + 1);
    } else {
        assert(nodes.subrange(0, m) =~= nodes);
    }
}

fn no_repeats(v: &Vec<(u32, u32, i64)>) -> (r: bool)
    ensures
        r == v@.no_duplicates(),
{
    let mut i: usize = 0;
    while i < v.len()
        invariant
            i <= v.len(),
            forall|a: int, b: int| 0 <= a < b < v@.len() && a < i ==> v@[a] != v@[b],
        decreases v.len() - i,
    {
        let mut j: usize = i + 1;
        while j < v.len()
            invariant
                i < v.len(),
                i < j <= v.len(),
                forall|a: int, b: int| 0 <= a < b < v@.len() && a < i ==> v@[a] != v@[b],
                forall|b: int| i < b < j ==> v@[i as int] != v@[b],
            decreases v.len() - j,
        {
            if v[i].0 == v[j].0 && v[i].1 == v[j].1 && v[i].2 == v[j].2 {
                assert(v@[i as int] == v@[j as int]);
                return false;
            }
            j += 1;
        }
        i += 1;
    }
    true
}

/// Whether the script-free copy of the subtree of `id` can be handed to the encoder.
pub fn subtree_writable(tree: &Tree, id: usize) -> (r: bool)
    requires
        tree.wf(),
        id < tree.len(),
    ensures
        r == writable(*tree, id as int),
{
    let mut nodes: Vec<usize> = Vec::new();
    collect_excised(tree, id, &mut nodes);
    let ghost ns = nodes@.map_values(|x: usize| x as int);
    assert(ns =~= excised_nodes(*tree, id as int));
    let mut ids: Vec<(u32, u32, i64)> = Vec::new();
    let mut m: usize = 0;
    assert(ns.subrange(0, 0) =~= seq![]);
    while m < nodes.len()
        invariant
            tree.wf(),
            ns == nodes@.map_values(|x: usize| x as int),
            ns == excised_nodes(*tree, id as int),
            forall|i: int| 0 <= i < nodes@.len() ==> #[trigger] nodes@[i] < tree.len(),
            m <= nodes@.len(),
            scan_nodes(*tree, ns.subrange(0, m as int)) == Some(ids@),
        decreases nodes.len() - m,
    {
        let j = nodes[m];
        assert(ns.subrange(0, m as int + 1).drop_last() =~= ns.subrange(0, m as int));
        assert(ns.subrange(0, m as int + 1).last() == j as int);
        match scan_node(tree, j) {
            None => {
                proof {
                    assert(scan_nodes(*tree, ns.subrange(0, m as int + 1)) is None);
                    lemma_scan_nodes_none(*tree, ns, m as int + 1);
                    assert(scan_nodes(*tree, excised_nodes(*tree, id as int)) is None);
                }
                return false;
            },
            Some(mut found) => {
                let ghost prev = ids@;
                ids.append(&mut found);
                assert(ids@ =~= prev + scan_properties(*tree, j as int, tree.nodes@[j as int].properties@.len() as int).unwrap());
            },
        }
        m += 1;
    }
    assert(ns.subrange(0, m as int) =~= ns);
    no_repeats(&ids)
}

/// A copy of the subtree of node `id` from which every script, with all that lies
/// below it, is cut; `None` where `id` is itself a script.
pub fn clone_without_scripts(tree: &Tree, id: usize) -> (r: Option<rbx_dom_weak::InstanceBuilder>)
    requires
        tree.wf(),
        id < tree.len(),
    ensures
        r.is_none() == is_script_class_spec(tree.class_of(id as int)),
        r.is_some() ==> builder_model(r.unwrap()) == excised(*tree, id as int),
    decreases tree.len() - id,
{
    let node = &tree.nodes[id];
    if is_script_class(node.class.as_str()) {
        return None;
    }
    let mut builder = instance_builder(node.class.as_str(), node.name.as_str(), &node.properties);
    let mut k: usize = 0;
    while k < node.children.len()
        invariant
            tree.wf(),
            id < tree.len(),
            *node == tree.nodes@[id as int],
            k <= node.children@.len(),
            builder_model(builder) == (ModelView {
                class: tree.class_of(id as int),
                name: tree.name_of(id as int),
                properties: tree.nodes@[id as int].properties@,
                children: excised_children(*tree, id as int, k as int),
            }),
        decreases node.children.len() - k,
    {
        let c = node.children[k];
        assert(c as int == tree.child(id as int, k as int));
        if let Some(child) = clone_without_scripts(tree, c) {
            add_child(&mut builder, child);
        }
        k += 1;
    }
    Some(builder)
}

/// The XML model file of the subtree of node `id` without its scripts; `None` for a
/// script, for a subtree that the encoder cannot write, or where it reports an error.
pub fn serialize_instance_to_rbxm(tree: &Tree, id: usize) -> (r: Option<Vec<u8>>)
    requires
        tree.wf(),
        id < tree.len(),
    ensures
        opt_bytes(r) == encoded(*tree, id as int),
{
    if is_script_class(tree.nodes[id].class.as_str()) {
        return None;
    }
    if !subtree_writable(tree, id) {
        return None;
    }
    match clone_without_scripts(tree, id) {
        Some(model) => encode_model(model),
        None => None,
    }
}

} // verus!
