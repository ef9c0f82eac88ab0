use vstd::prelude::*;

use crate::filesystem::{candidate, entry_added, first_free, keys_of, FileSystem};
use crate::resolve::{
    all_children_have_scripts, folder_step, in_list, meta_step, repr, script_ext,
    service_tagged, ServiceLists,
};
use crate::sanitize::{
    is_forbidden_spec, is_reserved_spec, replace_forbidden, sanitize, strip_trailing,
};
use crate::structures::{InstructionView, PartitionView, StepView};
use crate::tree::{children_have_script, containment, has_script, is_script_class_spec, Tree};
use crate::walk::{
    is_player_root, plan, player_entries, player_root_repr, realized, visit, walk_children,
};
use crate::ExportMode;

verus! {

proof fn lemma_strip_prefix(s: Seq<char>)
    ensures
        strip_trailing(s).len() <= s.len(),
        strip_trailing(s) =~= s.subrange(0, strip_trailing(s).len() as int),
        strip_trailing(s).len() > 0 ==> strip_trailing(s).last() != ' ' && strip_trailing(
            s,
        ).last() != '.',
    decreases s.len(),
{
    if s.len() > 0 && (s.last() == ' ' || s.last() == '.') {
        lemma_strip_prefix(s.drop_last());
    }
}

/// Sanitizing is total: the result is never empty, is never a reserved device
/// name, and holds no forbidden character.
pub proof fn sanitize_is_safe(name: Seq<char>)
    ensures
        sanitize(name).len() > 0,
        !is_reserved_spec(sanitize(name)),
        forall|i: int| 0 <= i < sanitize(name).len() ==> !is_forbidden_spec(#[trigger] sanitize(name)[i]),
{
    let m = name.map_values(|c: char| replace_forbidden(c));
    let t = strip_trailing(m);
    lemma_strip_prefix(m);
    assert forall|i: int| 0 <= i < t.len() implies !is_forbidden_spec(#[trigger] t[i]) by {
        assert(t[i] == m[i]);
    }
    let u = if t.len() == 0 {
        seq!['_']
    } else {
        t
    };
    assert forall|i: int| 0 <= i < u.len() implies !is_forbidden_spec(#[trigger] u[i]) by {}
    if is_reserved_spec(u) {
        let r = seq!['_'] + u;
        assert(r[0] == '_');
        assert forall|i: int| 0 <= i < r.len() implies !is_forbidden_spec(#[trigger] r[i]) by {
            if i > 0 {
                assert(r[i] == u[i - 1]);
            }
        }
    }
}

/// Node `j` lies in the subtree of node `i` (`i` itself included).
pub open spec fn reaches(t: Tree, i: int, j: int) -> bool
    decreases j - i,
{
    i == j || (i < j && exists|k: int|
        0 <= k < t.n_children(i) && i < #[trigger] t.child(i, k) <= j && reaches(
            t,
            t.child(i, k),
            j,
        ))
}

proof fn lemma_children_have_script(t: Tree, i: int, k: int)
    requires
        t.wf(),
        0 <= i < t.len(),
        0 <= k <= t.n_children(i),
    ensures
        children_have_script(t, i, k) <==> exists|m: int|
            0 <= m < k && has_script(t, #[trigger] t.child(i, m)),
    decreases k,
{
    if k > 0 {
        lemma_children_have_script(t, i, k - 1);
        let c = t.child(i, k - 1);
        assert(i < c < t.len());
        if has_script(t, c) {
            assert(exists|m: int| 0 <= m < k && has_script(t, #[trigger] t.child(i, m)));
        }
        if exists|m: int| 0 <= m < k && has_script(t, #[trigger] t.child(i, m)) {
            let m = choose|m: int| 0 <= m < k && has_script(t, #[trigger] t.child(i, m));
            if m < k - 1 {
                assert(children_have_script(t, i, k - 1));
            }
        }
    }
}

/// A node is marked as containing scripts exactly when it or one of its
/// descendants is of a script class.
pub proof fn containment_is_reachability(t: Tree, i: int)
    requires
        t.wf(),
        0 <= i < t.len(),
    ensures
        containment(t)[i] <==> exists|j: int|
            #[trigger] reaches(t, i, j) && 0 <= j < t.len() && is_script_class_spec(t.class_of(j)),
    decreases t.len() - i,
{
    lemma_children_have_script(t, i, t.n_children(i));
    if has_script(t, i) {
        if is_script_class_spec(t.class_of(i)) {
            assert(reaches(t, i, i));
        } else {
            let m = choose|m: int| 0 <= m < t.n_children(i) && has_script(t, #[trigger] t.child(i, m));
            let c = t.child(i, m);
            assert(i < c < t.len());
            containment_is_reachability(t, c);
            assert(containment(t)[c] == has_script(t, c));
            let j = choose|j: int|
                #[trigger] reaches(t, c, j) && 0 <= j < t.len() && is_script_class_spec(t.class_of(j));
            lemma_reaches_order(t, c, j);
            assert(reaches(t, i, j));
        }
    }
    if exists|j: int|
        #[trigger] reaches(t, i, j) && 0 <= j < t.len() && is_script_class_spec(t.class_of(j)) {
        let j = choose|j: int|
            #[trigger] reaches(t, i, j) && 0 <= j < t.len() && is_script_class_spec(t.class_of(j));
        if i != j {
            let k = choose|k: int|
                0 <= k < t.n_children(i) && i < #[trigger] t.child(i, k) <= j && reaches(
                    t,
                    t.child(i, k),
                    j,
                );
            let c = t.child(i, k);
            containment_is_reachability(t, c);
            assert(containment(t)[c] == has_script(t, c));
            assert(has_script(t, c));
        }
    }
}

proof fn lemma_reaches_order(t: Tree, i: int, j: int)
    requires
        reaches(t, i, j),
    ensures
        i <= j,
{
}

/// Running the analysis twice on one tree gives the same map: the map is a
/// function of the tree alone, and each entry is the node's own script-ness or
/// that of one of its children's subtrees.
pub proof fn analysis_is_idempotent(t: Tree, first: Seq<bool>, second: Seq<bool>)
    requires
        t.wf(),
        first == containment(t),
        second == containment(t),
    ensures
        first == second,
        forall|i: int|
            0 <= i < t.len() ==> (#[trigger] first[i] <==> (is_script_class_spec(t.class_of(i))
                || exists|k: int| 0 <= k < t.n_children(i) && first[#[trigger] t.child(i, k)])),
{
    assert forall|i: int|
        0 <= i < t.len() implies (#[trigger] first[i] <==> (is_script_class_spec(t.class_of(i))
        || exists|k: int| 0 <= k < t.n_children(i) && first[#[trigger] t.child(i, k)])) by {
        lemma_children_have_script(t, i, t.n_children(i));
        if exists|k: int| 0 <= k < t.n_children(i) && first[#[trigger] t.child(i, k)] {
            let k = choose|k: int| 0 <= k < t.n_children(i) && first[#[trigger] t.child(i, k)];
            assert(has_script(t, t.child(i, k)));
        }
        if children_have_script(t, i, t.n_children(i)) {
            let k = choose|k: int|
                0 <= k < t.n_children(i) && has_script(t, #[trigger] t.child(i, k));
            assert(first[t.child(i, k)]);
        }
    }
}

/// Two runs on one tree, in one mode, with the same service lists, plan the same
/// steps and emit the same instruction stream, model files included.
pub proof fn pipeline_is_deterministic(
    t: Tree,
    mode: ExportMode,
    lists: ServiceLists,
    first: Seq<InstructionView>,
    second: Seq<InstructionView>,
)
    requires
        t.wf(),
        first == realized(plan(t, mode, lists), t),
        second == realized(plan(t, mode, lists), t),
    ensures
        first == second,
{
}

/// A second entry under a taken name is stored as `name_2`, or as `name_3`
/// where `name_2` is taken too.
pub proof fn collision_suffix(keys: Seq<Seq<char>>, name: Seq<char>, n: nat)
    requires
        keys.contains(name),
        first_free(keys, name, n),
    ensures
        !keys.contains(candidate(name, 2)) ==> n == 2,
        keys.contains(candidate(name, 2)) && !keys.contains(candidate(name, 3)) ==> n == 3,
{
    if !keys.contains(candidate(name, 2)) && n != 2 {
        assert(keys.contains(candidate(name, 2)));
    }
    if keys.contains(candidate(name, 2)) && !keys.contains(candidate(name, 3)) && n != 3 {
        if n > 3 {
            assert(keys.contains(candidate(name, 3)));
        }
    }
}

/// A script with children gets a meta sidecar exactly when some child's subtree
/// holds no script.
pub proof fn script_meta_omission(
    t: Tree,
    has: Seq<bool>,
    mode: ExportMode,
    lists: ServiceLists,
    base: Seq<Seq<char>>,
    i: int,
)
    requires
        t.wf(),
        0 <= i < t.len(),
        has == containment(t),
        is_script_class_spec(t.class_of(i)),
        t.n_children(i) > 0,
    ensures
        repr(t, has, mode, lists, base, i) is Some,
        repr(t, has, mode, lists, base, i).unwrap().steps.contains(
            meta_step(base.push(sanitize(t.name_of(i)))),
        ) <==> !all_children_have_scripts(t, has, i),
{
    reveal_strlit("Folder");
    reveal_strlit("Script");
    reveal_strlit("LocalScript");
    reveal_strlit("ModuleScript");
    reveal_strlit("init");
    reveal_strlit(".lua");
    reveal_strlit(".server.luau");
    reveal_strlit(".client.luau");
    reveal_strlit(".luau");
    reveal_strlit("init.meta.json");
    let class = t.class_of(i);
    assert(class != "Folder"@) by {
        assert(class.len() != 6 || class[0] != 'F');
    }
    let dir = base.push(sanitize(t.name_of(i)));
    let ext = script_ext(class);
    let init = dir.push("init"@ + ext + ".lua"@);
    let meta = dir.push("init.meta.json"@);
    assert(init.last() != meta.last()) by {
        assert(("init"@ + ext + ".lua"@).len() != 14);
    }
    let steps = repr(t, has, mode, lists, base, i).unwrap().steps;
    if !all_children_have_scripts(t, has, i) {
        assert(steps.last() == meta_step(dir));
    } else if steps.contains(meta_step(dir)) {
        let j = choose|j: int| 0 <= j < steps.len() && steps[j] == meta_step(dir);
        assert(j == 1);
    }
}

/// A service outside the respected list yields no instruction and no visit of
/// its subtree. This holds where the traversal is not in its scripts-only pass:
/// there a non-script node is only passed through on the way to scripts.
pub proof fn unrespected_service_is_dropped(
    t: Tree,
    has: Seq<bool>,
    mode: ExportMode,
    lists: ServiceLists,
    c: int,
    base: Seq<Seq<char>>,
)
    requires
        t.wf(),
        0 <= c < t.len(),
        has == containment(t),
        service_tagged(t.class_of(c)),
        !in_list(lists.respected@, t.class_of(c)),
        !is_player_root(t.class_of(c)),
    ensures
        visit(t, has, mode, lists, c, base, false) == Seq::<StepView>::empty(),
{
}

/// In scripts-only mode a node with no script in its subtree yields nothing.
pub proof fn scriptless_subtree_is_dropped(
    t: Tree,
    lists: ServiceLists,
    c: int,
    base: Seq<Seq<char>>,
    scripts_only: bool,
)
    requires
        t.wf(),
        0 <= c < t.len(),
        !has_script(t, c),
    ensures
        visit(t, containment(t), ExportMode::ScriptsOnly, lists, c, base, scripts_only)
            == Seq::<StepView>::empty(),
{
}

/// The player-scripts root, whatever the service lists say, yields its folder and
/// then its manifest entry listing its children, followed by the plan of each child
/// under that folder.
pub proof fn player_root_is_materialized(
    t: Tree,
    has: Seq<bool>,
    mode: ExportMode,
    lists: ServiceLists,
    c: int,
    base: Seq<Seq<char>>,
)
    requires
        t.wf(),
        0 <= c < t.len(),
        has == containment(t),
        is_player_root(t.class_of(c)),
        mode == ExportMode::Full || has[c],
    ensures
        visit(t, has, mode, lists, c, base, false) == player_root_repr(t, base, c).steps
            + walk_children(
            t,
            has,
            mode,
            lists,
            c,
            t.n_children(c),
            base.push(sanitize(t.name_of(c))),
            false,
        ),
        player_root_repr(t, base, c).steps[0] == folder_step(base.push(sanitize(t.name_of(c)))),
        player_root_repr(t, base, c).steps[1] == StepView::Apply(
            InstructionView::AddToTree {
                name: t.name_of(c),
                partition: PartitionView {
                    class_name: t.class_of(c),
                    children: player_entries(
                        t,
                        c,
                        base.push(sanitize(t.name_of(c))),
                        t.n_children(c),
                    ),
                    ignore_unknown_instances: true,
                    path: None,
                },
            },
        ),
{
}

/// Inserting a top-level entry under a taken name never overwrites the entry that
/// holds it, and stores the new one as `name_2`, or as `name_3` where `name_2` is
/// taken too.
pub proof fn collision_keeps_first(
    before: FileSystem,
    after: FileSystem,
    name: Seq<char>,
    partition: PartitionView,
)
    requires
        entry_added(before, after, name, partition),
        keys_of(before.project.tree@).contains(name),
    ensures
        forall|j: int|
            0 <= j < before.project.tree@.len() ==> #[trigger] after.project.tree@[j]
                == before.project.tree@[j],
        !keys_of(before.project.tree@).contains(candidate(name, 2))
            ==> after.project.tree@.last().0@ == candidate(name, 2),
        keys_of(before.project.tree@).contains(candidate(name, 2)) && !keys_of(
            before.project.tree@,
        ).contains(candidate(name, 3)) ==> after.project.tree@.last().0@ == candidate(name, 3),
{
    let keys = keys_of(before.project.tree@);
    let n = choose|n: nat|
        first_free(keys, name, n) && after.project.tree@.last().0@ == #[trigger] candidate(
            name,
            n,
        );
    collision_suffix(keys, name, n);
}

} // verus!
