use vstd::prelude::*;
use vstd::string::*;
use vstd::utf8::encode_utf8;

use crate::sanitize::{copy_path, join_raw, path_view, sanitize, sanitized_join, RelPath};
use crate::structures::{
    meta_text, steps_view, Instruction, InstructionView, MetaFile, PartitionEntry,
    PartitionView, Step, StepView, TreePartition,
};
use crate::tree::{containment, is_script_class, is_script_class_spec, str_eq, SourceText, Tree};
use crate::ExportMode;

verus! {

/// The allow and deny lists of service classes, loaded once per run.
pub struct ServiceLists {
    /// Service classes that are materialized at all.
    pub respected: Vec<String>,
    /// Respected service classes that get a folder but no manifest entry.
    pub non_tree: Vec<String>,
}

pub open spec fn in_list(v: Seq<String>, s: Seq<char>) -> bool {
    exists|j: int| 0 <= j < v.len() && #[trigger] v[j]@ == s
}

/// Whether `s` is one of the names in `v`.
pub fn list_contains(v: &Vec<String>, s: &str) -> (r: bool)
    ensures
        r == in_list(v@, s@),
{
    let mut j: usize = 0;
    while j < v.len()
        invariant
            j <= v.len(),
            forall|i: int| 0 <= i < j ==> v@[i]@ != s@,
        decreases v.len() - j,
    {
        if str_eq(v[j].as_str(), s) {
            return true;
        }
        j += 1;
    }
    false
}

/// Whether the engine's class metadata tags a class as a service.
pub uninterp spec fn service_tagged(class: Seq<char>) -> bool;

/// Relies on `rbx_reflection_database::get` and the class descriptor's `tags`: a class
/// is a service when the bundled database lists it with `ClassTag::Service`; a class
/// that the database does not know is no service.
#[verifier::external_body]
fn class_is_service(class_name: &str) -> (r: bool)
    ensures
        r == service_tagged(class_name@),
{
    match rbx_reflection_database::get().classes.get(class_name) {
        Some(descriptor) => descriptor.tags.contains(&rbx_reflection::ClassTag::Service),
        None => false,
    }
}

/// A service class that is left out of the output altogether.
pub open spec fn skips_service(lists: ServiceLists, class: Seq<char>) -> bool {
    service_tagged(class) && !in_list(lists.respected@, class)
}

/// Whether a node of this class is dropped before it is resolved: a service
/// outside the respected list.
pub fn should_skip_service(class_name: &str, lists: &ServiceLists) -> (r: bool)
    ensures
        r == skips_service(*lists, class_name@),
{
    class_is_service(class_name) && !list_contains(&lists.respected, class_name)
}

/// How the traversal goes on below a node.
#[derive(Clone, Copy, PartialEq, Eq, Structural)]
pub enum ChildTraversal {
    Normal,
    ScriptsOnly,
    Skip,
}

/// How one node is materialized, and where its children go.
pub struct Representation {
    pub steps: Vec<Step>,
    pub path: RelPath,
    pub traversal: ChildTraversal,
}

pub struct ReprView {
    pub steps: Seq<StepView>,
    pub path: Seq<Seq<char>>,
    pub traversal: ChildTraversal,
}

impl View for Representation {
    type V = ReprView;

    open spec fn view(&self) -> ReprView {
        ReprView { steps: steps_view(self.steps@), path: path_view(self.path), traversal: self.traversal }
    }
}

pub open spec fn opt_repr_view(r: Option<Representation>) -> Option<ReprView> {
    match r {
        Some(r) => Some(r@),
        None => None,
    }
}

pub open spec fn folder_step(dir: Seq<Seq<char>>) -> StepView {
    StepView::Apply(InstructionView::CreateFolder { folder: dir })
}

pub open spec fn file_step(file: Seq<Seq<char>>, contents: Seq<u8>) -> StepView {
    StepView::Apply(InstructionView::CreateFile { filename: file, contents })
}

/// The meta sidecar of a directory, marking unknown instances as ignored.
pub open spec fn meta_step(dir: Seq<Seq<char>>) -> StepView {
    file_step(dir.push("init.meta.json"@), encode_utf8(meta_text(true)))
}

/// The file extension of each script class.
pub open spec fn script_ext(class: Seq<char>) -> Seq<char> {
    if class == "Script"@ {
        ".server.luau"@
    } else if class == "LocalScript"@ {
        ".client.luau"@
    } else {
        ".luau"@
    }
}

/// The bytes of a script's source; empty where the property is missing or not text.
pub open spec fn source_bytes(s: SourceText) -> Seq<u8> {
    match s {
        SourceText::Text(x) => encode_utf8(x@),
        _ => seq![],
    }
}

/// Every direct child of node `i` has a script in its subtree.
pub open spec fn all_children_have_scripts(t: Tree, has: Seq<bool>, i: int) -> bool {
    forall|k: int| 0 <= k < t.n_children(i) ==> #[trigger] has[t.child(i, k)]
}

/// The representation of node `i` under `base`, or `None` where it is dropped.
pub open spec fn repr(
    t: Tree,
    has: Seq<bool>,
    mode: ExportMode,
    lists: ServiceLists,
    base: Seq<Seq<char>>,
    i: int,
) -> Option<ReprView> {
    let class = t.class_of(i);
    let name = t.name_of(i);
    let contains = has[i];
    let pruned = mode == ExportMode::ScriptsOnly && !contains;
    let dir = base.push(sanitize(name));
    if class == "Folder"@ {
        if pruned {
            None
        } else {
            Some(
                ReprView {
                    steps: seq![folder_step(dir), meta_step(dir)],
                    path: dir,
                    traversal: ChildTraversal::Normal,
                },
            )
        }
    } else if is_script_class_spec(class) {
        let ext = script_ext(class);
        let src = source_bytes(t.nodes@[i].source);
        if t.n_children(i) == 0 {
            Some(
                ReprView {
                    steps: seq![file_step(base.push(sanitize(name + ext)), src)],
                    path: base,
                    traversal: ChildTraversal::Skip,
                },
            )
        } else {
            let head = seq![folder_step(dir), file_step(dir.push("init"@ + ext + ".lua"@), src)];
            Some(
                ReprView {
                    steps: if all_children_have_scripts(t, has, i) {
                        head
                    } else {
                        head.push(meta_step(dir))
                    },
                    path: dir,
                    traversal: ChildTraversal::Normal,
                },
            )
        }
    } else if service_tagged(class) {
        if pruned || !in_list(lists.respected@, class) {
            None
        } else {
            let partition = PartitionView {
                class_name: class,
                children: seq![],
                ignore_unknown_instances: true,
                path: Some(dir),
            };
            let add = if in_list(lists.non_tree@, class) {
                seq![]
            } else {
                seq![StepView::Apply(InstructionView::AddToTree { name, partition })]
            };
            Some(
                ReprView {
                    steps: add.push(folder_step(dir)),
                    path: dir,
                    traversal: ChildTraversal::Normal,
                },
            )
        }
    } else if pruned {
        None
    } else if !contains {
        Some(ReprView { steps: seq![folder_step(dir)], path: dir, traversal: ChildTraversal::Skip })
    } else if mode == ExportMode::ScriptsOnly {
        Some(
            ReprView {
                steps: seq![folder_step(dir)],
                path: dir,
                traversal: ChildTraversal::ScriptsOnly,
            },
        )
    } else {
        Some(
            ReprView {
                steps: seq![
                    folder_step(dir),
                    StepView::EncodeModel { filename: dir.push("init.rbxmx"@), node: i },
                ],
                path: dir,
                traversal: ChildTraversal::ScriptsOnly,
            },
        )
    }
}

fn folder_instruction(dir: &RelPath) -> (r: Step)
    ensures
        r@ == folder_step(path_view(*dir)),
{
    Step::Apply(Instruction::CreateFolder { folder: copy_path(dir) })
}

fn meta_instruction(dir: &RelPath) -> (r: Step)
    ensures
        r@ == meta_step(path_view(*dir)),
{
    let meta = MetaFile { ignore_unknown_instances: true };
    Step::Apply(
        Instruction::CreateFile {
            filename: join_raw(dir, String::from_str("init.meta.json")),
            contents: meta.to_json(),
        },
    )
}

fn script_extension(class_name: &str) -> (r: &'static str)
    ensures
        r@ == script_ext(class_name@),
{
    if str_eq(class_name, "Script") {
        ".server.luau"
    } else if str_eq(class_name, "LocalScript") {
        ".client.luau"
    } else {
        ".luau"
    }
}

fn source_contents(s: &SourceText) -> (r: Vec<u8>)
    ensures
        r@ == source_bytes(*s),
{
    match s {
        SourceText::Text(x) => x.as_str().as_bytes_vec(),
        _ => Vec::new(),
    }
}

fn every_child_has_scripts(tree: &Tree, has_scripts: &Vec<bool>, id: usize) -> (r: bool)
    requires
        tree.wf(),
        id < tree.len(),
        has_scripts@.len() == tree.len(),
    ensures
        r == all_children_have_scripts(*tree, has_scripts@, id as int),
{
    let children = &tree.nodes[id].children;
    let mut k: usize = 0;
    while k < children.len()
        invariant
            tree.wf(),
            id < tree.len(),
            has_scripts@.len() == tree.len(),
            *children == tree.nodes@[id as int].children,
            k <= children.len(),
            forall|j: int| 0 <= j < k ==> #[trigger] has_scripts@[tree.child(id as int, j)],
        decreases children.len() - k,
    {
        let c = children[k];
        assert(c as int == tree.child(id as int, k as int));
        if !has_scripts[c] {
            return false;
        }
        k += 1;
    }
    true
}

/// Decides how one node is materialized.
pub fn repr_instance(
    tree: &Tree,
    base: &RelPath,
    id: usize,
    has_scripts: &Vec<bool>,
    mode: ExportMode,
    lists: &ServiceLists,
) -> (r: Option<Representation>)
    requires
        tree.wf(),
        id < tree.len(),
        has_scripts@ == containment(*tree),
    ensures
        opt_repr_view(r) == repr(*tree, has_scripts@, mode, *lists, path_view(*base), id as int),
{
    let node = &tree.nodes[id];
    let class = node.class.as_str();
    let contains = has_scripts[id];
    let pruned = mode == ExportMode::ScriptsOnly && !contains;
    if str_eq(class, "Folder") {
        if pruned {
            return None;
        }
        let dir = sanitized_join(base, node.name.as_str());
        let steps = vec![folder_instruction(&dir), meta_instruction(&dir)];
        let r = Representation { steps, path: dir, traversal: ChildTraversal::Normal };
        assert(r@.steps =~= seq![folder_step(r@.path), meta_step(r@.path)]);
        return Some(r);
    }
    if is_script_class(class) {
        let ext = script_extension(class);
        let src = source_contents(&node.source);
        if node.children.len() == 0 {
            let file = sanitized_join(base, node.name.clone().concat(ext).as_str());
            let steps = vec![Step::Apply(Instruction::CreateFile { filename: file, contents: src })];
            let r = Representation {
                steps,
                path: copy_path(base),
                traversal: ChildTraversal::Skip,
            };
            assert(r@.steps =~= seq![
                file_step(path_view(*base).push(sanitize(node.name@ + ext@)), src@),
            ]);
            return Some(r);
        }
        let dir = sanitized_join(base, node.name.as_str());
        let init_name = String::from_str("init").concat(ext).concat(".lua");
        let init = Step::Apply(
            Instruction::CreateFile { filename: join_raw(&dir, init_name), contents: src },
        );
        let mut steps = vec![folder_instruction(&dir), init];
        let ghost head = steps@;
        if !every_child_has_scripts(tree, has_scripts, id) {
            steps.push(meta_instruction(&dir));
        }
        let r = Representation { steps, path: dir, traversal: ChildTraversal::Normal };
        assert(steps_view(head) =~= seq![
            folder_step(r@.path),
            file_step(r@.path.push("init"@ + ext@ + ".lua"@), src@),
        ]);
        assert(r@.steps =~= steps_view(head) || r@.steps =~= steps_view(head).push(
            meta_step(r@.path),
        ));
        return Some(r);
    }
    if class_is_service(class) {
        if pruned || !list_contains(&lists.respected, class) {
            return None;
        }
        let dir = sanitized_join(base, node.name.as_str());
        let mut steps: Vec<Step> = Vec::new();
        if !list_contains(&lists.non_tree, class) {
            let partition = TreePartition {
                class_name: node.class.clone(),
                children: Vec::new(),
                ignore_unknown_instances: true,
                path: Some(copy_path(&dir)),
            };
            assert(partition.children@ =~= Seq::<(String, PartitionEntry)>::empty());
            assert(partition@.children =~= seq![]);
            steps.push(
                Step::Apply(Instruction::AddToTree { name: node.name.clone(), partition }),
            );
            assert(steps_view(steps@) =~= seq![
                StepView::Apply(
                    InstructionView::AddToTree {
                        name: node.name@,
                        partition: PartitionView {
                            class_name: node.class@,
                            children: seq![],
                            ignore_unknown_instances: true,
                            path: Some(path_view(dir)),
                        },
                    },
                ),
            ]);
        } else {
            assert(steps_view(steps@) =~= seq![]);
        }
        let ghost head = steps@;
        steps.push(folder_instruction(&dir));
        let r = Representation { steps, path: dir, traversal: ChildTraversal::Normal };
        assert(r@.steps =~= steps_view(head).push(folder_step(r@.path)));
        return Some(r);
    }
    if pruned {
        return None;
    }
    let dir = sanitized_join(base, node.name.as_str());
    if !contains {
        let steps = vec![folder_instruction(&dir)];
        let r = Representation { steps, path: dir, traversal: ChildTraversal::Skip };
        assert(r@.steps =~= seq![folder_step(r@.path)]);
        return Some(r);
    }
    if mode == ExportMode::ScriptsOnly {
        let steps = vec![folder_instruction(&dir)];
        let r = Representation { steps, path: dir, traversal: ChildTraversal::ScriptsOnly };
        assert(r@.steps =~= seq![folder_step(r@.path)]);
        return Some(r);
    }
    let model = Step::EncodeModel {
        filename: join_raw(&dir, String::from_str("init.rbxmx")),
        node: id,
    };
    let steps = vec![folder_instruction(&dir), model];
    let r = Representation { steps, path: dir, traversal: ChildTraversal::ScriptsOnly };
    assert(r@.steps =~= seq![
        folder_step(r@.path),
        StepView::EncodeModel { filename: r@.path.push("init.rbxmx"@), node: id as int },
    ]);
    Some(r)
}

} // verus!
