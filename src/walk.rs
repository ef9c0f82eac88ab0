use vstd::prelude::*;

use crate::resolve::{
    folder_step, repr, repr_instance, should_skip_service, skips_service, ChildTraversal,
    ReprView, Representation, ServiceLists,
};
use crate::sanitize::{path_view, sanitize, sanitized_join, RelPath};
use crate::structures::{
    entries_view, steps_view, unique_names, EntryView, Instruction, InstructionView, PartitionEntry,
    PartitionView, Step, StepView, TreePartition,
};
use crate::tree::{containment, is_script_class, is_script_class_spec, str_eq, Tree};
use crate::codec::{encoded, serialize_instance_to_rbxm};
use crate::structures::InstructionReader;
use crate::ExportMode;

verus! {

/// The index of the last entry named `k`, or -1.
pub open spec fn find_key(s: Seq<(Seq<char>, EntryView)>, k: Seq<char>) -> int
    decreases s.len(),
{
    if s.len() == 0 {
        -1
    } else if s.last().0 == k {
        s.len() - 1
    } else {
        find_key(s.drop_last(), k)
    }
}

/// Sets the entry named `k` to `v`, in place where one exists, else at the end.
pub open spec fn upsert(s: Seq<(Seq<char>, EntryView)>, k: Seq<char>, v: EntryView) -> Seq<
    (Seq<char>, EntryView),
> {
    let j = find_key(s, k);
    if j >= 0 {
        s.update(j, (k, v))
    } else {
        s.push((k, v))
    }
}

/// The manifest entries of the first `k` children of node `i`, whose folder is `dir`.
pub open spec fn player_entries(t: Tree, i: int, dir: Seq<Seq<char>>, k: int) -> Seq<
    (Seq<char>, EntryView),
>
    decreases k,
{
    if k <= 0 {
        seq![]
    } else {
        let c = t.child(i, k - 1);
        upsert(
            player_entries(t, i, dir, k - 1),
            t.name_of(c),
            EntryView {
                class_name: t.class_of(c),
                ignore_unknown_instances: true,
                path: Some(dir.push(sanitize(t.name_of(c)))),
            },
        )
    }
}

/// The class of the player-scripts root, whose children the sync tool knows by name.
pub open spec fn is_player_root(class: Seq<char>) -> bool {
    class == "StarterPlayer"@
}

/// The player-scripts root: a folder, and a manifest entry listing its children.
pub open spec fn player_root_repr(t: Tree, base: Seq<Seq<char>>, i: int) -> ReprView {
    let dir = base.push(sanitize(t.name_of(i)));
    let partition = PartitionView {
        class_name: t.class_of(i),
        children: player_entries(t, i, dir, t.n_children(i)),
        ignore_unknown_instances: true,
        path: None,
    };
    ReprView {
        steps: seq![
            folder_step(dir),
            StepView::Apply(InstructionView::AddToTree { name: t.name_of(i), partition }),
        ],
        path: dir,
        traversal: ChildTraversal::Normal,
    }
}

/// The plan for the first `k` children of node `i`, under `base`.
pub open spec fn walk_children(
    t: Tree,
    has: Seq<bool>,
    mode: ExportMode,
    lists: ServiceLists,
    i: int,
    k: int,
    base: Seq<Seq<char>>,
    scripts_only: bool,
) -> Seq<StepView>
    decreases t.len() - i, 1int, k,
{
    if k <= 0 || !(0 <= i < t.len()) {
        seq![]
    } else {
        let c = t.child(i, k - 1);
        walk_children(t, has, mode, lists, i, k - 1, base, scripts_only) + if i < c < t.len() {
            visit(t, has, mode, lists, c, base, scripts_only)
        } else {
            seq![]
        }
    }
}

/// The plan for node `c` and its subtree, under `base`.
pub open spec fn visit(
    t: Tree,
    has: Seq<bool>,
    mode: ExportMode,
    lists: ServiceLists,
    c: int,
    base: Seq<Seq<char>>,
    scripts_only: bool,
) -> Seq<StepView>
    decreases t.len() - c, 2int, 0int,
{
    if !(0 <= c < t.len()) {
        seq![]
    } else if mode == ExportMode::ScriptsOnly && !(has[c]) {
        seq![]
    } else if scripts_only && !is_script_class_spec(t.class_of(c)) {
        if has[c] {
            walk_children(
                t,
                has,
                mode,
                lists,
                c,
                t.n_children(c),
                base.push(sanitize(t.name_of(c))),
                true,
            )
        } else {
            seq![]
        }
    } else if !is_player_root(t.class_of(c)) && skips_service(lists, t.class_of(c)) {
        seq![]
    } else {
        let r = if is_player_root(t.class_of(c)) {
            Some(player_root_repr(t, base, c))
        } else {
            repr(t, has, mode, lists, base, c)
        };
        match r {
            None => seq![],
            Some(r) => r.steps + match r.traversal {
                ChildTraversal::Normal => walk_children(
                    t,
                    has,
                    mode,
                    lists,
                    c,
                    t.n_children(c),
                    r.path,
                    scripts_only,
                ),
                ChildTraversal::ScriptsOnly => walk_children(
                    t,
                    has,
                    mode,
                    lists,
                    c,
                    t.n_children(c),
                    r.path,
                    true,
                ),
                ChildTraversal::Skip => seq![],
            },
        }
    }
}

/// The whole plan of a run: the root's children, under the empty path.
pub open spec fn plan(t: Tree, mode: ExportMode, lists: ServiceLists) -> Seq<StepView> {
    walk_children(t, containment(t), mode, lists, 0, t.n_children(0), seq![], false)
}

proof fn lemma_find_key(s: Seq<(Seq<char>, EntryView)>, k: Seq<char>)
    ensures
        -1 <= find_key(s, k) < s.len(),
        find_key(s, k) >= 0 ==> s[find_key(s, k)].0 == k,
        find_key(s, k) == -1 ==> forall|i: int| 0 <= i < s.len() ==> #[trigger] s[i].0 != k,
    decreases s.len(),
{
    if s.len() > 0 && s.last().0 != k {
        lemma_find_key(s.drop_last(), k);
        if find_key(s, k) == -1 {
            assert forall|i: int| 0 <= i < s.len() implies #[trigger] s[i].0 != k by {
                if i < s.len() - 1 {
                    assert(s[i] == s.drop_last()[i]);
                }
            }
        }
    }
}

/// The entries of the player-scripts root are keyed by name: a later child of a
/// taken name replaces the entry in place.
pub proof fn lemma_player_entries_unique(t: Tree, i: int, dir: Seq<Seq<char>>, k: int)
    ensures
        unique_names(player_entries(t, i, dir, k)),
    decreases k,
{
    if k > 0 {
        let prev = player_entries(t, i, dir, k - 1);
        lemma_player_entries_unique(t, i, dir, k - 1);
        let c = t.child(i, k - 1);
        lemma_find_key(prev, t.name_of(c));
        let r = player_entries(t, i, dir, k);
        assert forall|a: int, b: int| 0 <= a < b < r.len() implies #[trigger] r[a].0 != #[trigger] r[b].0 by {
            if find_key(prev, t.name_of(c)) == -1 && b == prev.len() {
                assert(prev[a].0 != t.name_of(c));
            } else if find_key(prev, t.name_of(c)) >= 0 {
                assert(prev[a].0 != prev[b].0);
            } else {
                assert(prev[a].0 != prev[b].0);
            }
        }
    }
}

fn find_entry(v: &Vec<(String, PartitionEntry)>, k: &str) -> (r: Option<usize>)
    ensures
        match r {
            Some(j) => j < v@.len() && find_key(entries_view(v@), k@) == j,
            None => find_key(entries_view(v@), k@) == -1,
        },
{
    let ghost ev = entries_view(v@);
    let mut j: usize = v.len();
    assert(ev.subrange(0, j as int) =~= ev);
    while j > 0
        invariant
            j <= v.len(),
            ev == entries_view(v@),
            find_key(ev, k@) == find_key(ev.subrange(0, j as int), k@),
        decreases j,
    {
        let ghost sub = ev.subrange(0, j as int);
        assert(sub.last() == ev[j - 1]);
        if str_eq(v[j - 1].0.as_str(), k) {
            return Some(j - 1);
        }
        assert(sub.drop_last() =~= ev.subrange(0, j - 1));
        j -= 1;
    }
    None
}

/// The representation of the player-scripts root node `id`.
pub fn player_root_instance(tree: &Tree, base: &RelPath, id: usize) -> (r: Representation)
    requires
        tree.wf(),
        id < tree.len(),
    ensures
        r@ == player_root_repr(*tree, path_view(*base), id as int),
        unique_names(
            player_entries(
                *tree,
                id as int,
                path_view(*base).push(sanitize(tree.name_of(id as int))),
                tree.n_children(id as int),
            ),
        ),
{
    proof {
        lemma_player_entries_unique(
            *tree,
            id as int,
            path_view(*base).push(sanitize(tree.name_of(id as int))),
            tree.n_children(id as int),
        );
    }
    let node = &tree.nodes[id];
    let dir = sanitized_join(base, node.name.as_str());
    let mut entries: Vec<(String, PartitionEntry)> = Vec::new();
    let mut k: usize = 0;
    while k < node.children.len()
        invariant
            tree.wf(),
            id < tree.len(),
            *node == tree.nodes@[id as int],
            k <= node.children@.len(),
            entries_view(entries@) == player_entries(*tree, id as int, path_view(dir), k as int),
        decreases node.children.len() - k,
    {
        let c = node.children[k];
        assert(c as int == tree.child(id as int, k as int));
        let child = &tree.nodes[c];
        let entry = PartitionEntry {
            class_name: child.class.clone(),
            ignore_unknown_instances: true,
            path: Some(sanitized_join(&dir, child.name.as_str())),
        };
        let ghost ev = entries_view(entries@);
        let ghost item = (child.name@, entry@);
        match find_entry(&entries, child.name.as_str()) {
            Some(j) => {
                entries.set(j, (child.name.clone(), entry));
                assert(entries_view(entries@) =~= ev.update(j as int, item));
            },
            None => {
                entries.push((child.name.clone(), entry));
                assert(entries_view(entries@) =~= ev.push(item));
            },
        }
        k += 1;
    }
    let partition = TreePartition {
        class_name: node.class.clone(),
        children: entries,
        ignore_unknown_instances: true,
        path: None,
    };
    let add = Step::Apply(Instruction::AddToTree { name: node.name.clone(), partition });
    let folder = Step::Apply(Instruction::CreateFolder { folder: crate::sanitize::copy_path(&dir) });
    let steps = vec![folder, add];
    let r = Representation { steps, path: dir, traversal: ChildTraversal::Normal };
    assert(r@.steps =~= player_root_repr(*tree, path_view(*base), id as int).steps);
    r
}

/// Appends the plan for the children of node `id`, under `base`, to `out`.
fn visit_instructions(
    tree: &Tree,
    id: usize,
    base: &RelPath,
    has_scripts: &Vec<bool>,
    mode: ExportMode,
    lists: &ServiceLists,
    scripts_only: bool,
    out: &mut Vec<Step>,
)
    requires
        tree.wf(),
        id < tree.len(),
        has_scripts@ == containment(*tree),
    ensures
        steps_view(final(out)@) == steps_view(old(out)@) + walk_children(
            *tree,
            has_scripts@,
            mode,
            *lists,
            id as int,
            tree.n_children(id as int),
            path_view(*base),
            scripts_only,
        ),
    decreases tree.len() - id,
{
    let ghost has = has_scripts@;
    let ghost bv = path_view(*base);
    let children = &tree.nodes[id].children;
    let mut k: usize = 0;
    while k < children.len()
        invariant
            tree.wf(),
            id < tree.len(),
            has_scripts@ == containment(*tree),
            has == has_scripts@,
            bv == path_view(*base),
            *children == tree.nodes@[id as int].children,
            k <= children@.len(),
            steps_view(out@) == steps_view(old(out)@) + walk_children(
                *tree,
                has,
                mode,
                *lists,
                id as int,
                k as int,
                bv,
                scripts_only,
            ),
        decreases children.len() - k,
    {
        let c = children[k];
        assert(c as int == tree.child(id as int, k as int));
        assert(id < c < tree.len());
        let ghost before = steps_view(out@);
        let ghost expected = visit(*tree, has, mode, *lists, c as int, bv, scripts_only);
        let node = &tree.nodes[c];
        let class = node.class.as_str();
        if mode == ExportMode::ScriptsOnly && !has_scripts[c] {
        } else if scripts_only && !is_script_class(class) {
            if has_scripts[c] {
                let next = sanitized_join(base, node.name.as_str());
                visit_instructions(tree, c, &next, has_scripts, mode, lists, true, out);
            }
        } else if !str_eq(class, "StarterPlayer") && should_skip_service(class, lists) {
        } else {
            let r = if str_eq(class, "StarterPlayer") {
                Some(player_root_instance(tree, base, c))
            } else {
                repr_instance(tree, base, c, has_scripts, mode, lists)
            };
            match r {
                None => {},
                Some(r) => {
                    let Representation { steps, path, traversal } = r;
                    let ghost sv = steps_view(steps@);
                    let mut steps = steps;
                    out.append(&mut steps);
                    assert(steps_view(out@) =~= before + sv);
                    match traversal {
                        ChildTraversal::Normal => {
                            visit_instructions(
                                tree,
                                c,
                                &path,
                                has_scripts,
                                mode,
                                lists,
                                scripts_only,
                                out,
                            );
                        },
                        ChildTraversal::ScriptsOnly => {
                            visit_instructions(tree, c, &path, has_scripts, mode, lists, true, out);
                        },
                        ChildTraversal::Skip => {},
                    }
                },
            }
        }
        assert(steps_view(out@) =~= before + expected);
        k += 1;
    }
}

/// The plan of a run: every instruction, in order, with the model files to encode.
pub fn plan_instructions(tree: &Tree, mode: ExportMode, lists: &ServiceLists) -> (r: Vec<Step>)
    requires
        tree.wf(),
    ensures
        steps_view(r@) == plan(*tree, mode, *lists),
{
    let has_scripts = crate::tree::check_has_scripts(tree);
    let mut out: Vec<Step> = Vec::new();
    assert(steps_view(out@) =~= seq![]);
    let base: RelPath = Vec::new();
    visit_instructions(tree, 0, &base, &has_scripts, mode, lists, false, &mut out);
    assert(path_view(base) =~= seq![]);
    assert(steps_view(out@) =~= plan(*tree, mode, *lists));
    out
}

pub open spec fn instructions_view(s: Seq<Instruction>) -> Seq<InstructionView> {
    s.map_values(|x: Instruction| x@)
}

/// The instruction stream of `plan` on tree `t`: every instruction is kept, in
/// order; a model request becomes a file holding the codec's answer for its node,
/// or nothing where the codec gives none.
pub open spec fn realized(plan: Seq<StepView>, t: Tree) -> Seq<InstructionView>
    decreases plan.len(),
{
    if plan.len() == 0 {
        seq![]
    } else {
        let prev = realized(plan.drop_last(), t);
        match plan.last() {
            StepView::Apply(i) => prev.push(i),
            StepView::EncodeModel { filename, node } => match encoded(t, node) {
                Some(bytes) => prev.push(
                    InstructionView::CreateFile { filename, contents: bytes },
                ),
                None => prev,
            },
        }
    }
}

/// The instruction stream of a run: the plan, with each requested model file
/// encoded; a model that cannot be encoded is left out, and its folder stays.
pub fn collect_instructions(tree: &Tree, mode: ExportMode, lists: &ServiceLists) -> (r: Vec<
    Instruction,
>)
    requires
        tree.wf(),
    ensures
        instructions_view(r@) == realized(plan(*tree, mode, *lists), *tree),
{
    let mut rest = plan_instructions(tree, mode, lists);
    let ghost pv = steps_view(rest@);
    let mut out: Vec<Instruction> = Vec::new();
    let ghost mut done: int = 0;
    assert(pv.subrange(0, 0) =~= seq![]);
    assert(instructions_view(out@) =~= seq![]);
    assert(steps_view(rest@) =~= pv.subrange(0, pv.len() as int));
    while rest.len() > 0
        invariant
            tree.wf(),
            0 <= done <= pv.len(),
            steps_view(rest@) == pv.subrange(done, pv.len() as int),
            instructions_view(out@) == realized(pv.subrange(0, done), *tree),
        decreases rest.len(),
    {
        let ghost prev = instructions_view(out@);
        let ghost rest_before = rest@;
        assert(steps_view(rest_before).len() == rest_before.len());
        assert(done < pv.len());
        assert(steps_view(rest_before)[0] == pv[done]);
        let step = rest.remove(0);
        assert(step == rest_before[0]);
        assert(step@ == pv[done]);
        assert(rest@ =~= rest_before.subrange(1, rest_before.len() as int));
        assert(steps_view(rest@) =~= steps_view(rest_before).subrange(
            1,
            rest_before.len() as int,
        ));
        assert(steps_view(rest@) =~= pv.subrange(done + 1, pv.len() as int));
        assert(pv.subrange(0, done + 1).drop_last() =~= pv.subrange(0, done));
        assert(pv.subrange(0, done + 1).last() == pv[done]);
        match step {
            Step::Apply(i) => {
                out.push(i);
                assert(instructions_view(out@) =~= prev.push(i@));
            },
            Step::EncodeModel { filename, node } => {
                let ghost fv = path_view(filename);
                if node < tree.nodes.len() {
                    match serialize_instance_to_rbxm(tree, node) {
                        Some(bytes) => {
                            out.push(Instruction::CreateFile { filename, contents: bytes });
                            assert(instructions_view(out@) =~= prev.push(
                                InstructionView::CreateFile { filename: fv, contents: bytes@ },
                            ));
                        },
                        None => {},
                    }
                }
            },
        }
        proof {
            done = done + 1;
        }
    }
    assert(pv.subrange(0, done) =~= pv);
    out
}

/// Runs the whole conversion: every instruction of the run goes to `reader` in
/// order, and then `finish_instructions` is called once.
pub fn process_instructions<R: InstructionReader>(
    tree: &Tree,
    reader: &mut R,
    mode: ExportMode,
    lists: &ServiceLists,
)
    requires
        tree.wf(),
    ensures
        final(reader).received() == old(reader).received() + realized(
            plan(*tree, mode, *lists),
            *tree,
        ),
        final(reader).finishes() == old(reader).finishes().push(
            old(reader).received().len() + realized(plan(*tree, mode, *lists), *tree).len(),
        ),
{
    let mut instructions = collect_instructions(tree, mode, lists);
    let ghost stream = instructions_view(instructions@);
    let ghost start = reader.received();
    let ghost mut done: int = 0;
    assert(stream.subrange(0, 0) =~= seq![]);
    assert(start + stream.subrange(0, 0) =~= start);
    assert(instructions_view(instructions@) =~= stream.subrange(0, stream.len() as int));
    while instructions.len() > 0
        invariant
            0 <= done <= stream.len(),
            instructions_view(instructions@) == stream.subrange(done, stream.len() as int),
            reader.received() == start + stream.subrange(0, done),
            reader.finishes() == old(reader).finishes(),
        decreases instructions.len(),
    {
        let ghost before = instructions@;
        assert(instructions_view(before).len() == before.len());
        assert(instructions_view(before)[0] == stream[done]);
        let instruction = instructions.remove(0);
        assert(instruction == before[0]);
        assert(instructions@ =~= before.subrange(1, before.len() as int));
        assert(instructions_view(instructions@) =~= instructions_view(before).subrange(
            1,
            before.len() as int,
        ));
        reader.read_instruction(instruction);
        assert(start + stream.subrange(0, done + 1) =~= (start + stream.subrange(0, done)).push(
            stream[done],
        ));
        proof {
            done = done + 1;
        }
    }
    assert(stream.subrange(0, done) =~= stream);
    reader.finish_instructions();
}

} // verus!
