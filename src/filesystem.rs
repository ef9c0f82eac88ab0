use vstd::prelude::*;
use vstd::set_lib::{lemma_int_range, lemma_len_subset, lemma_map_size, set_int_range};
use vstd::string::*;

use crate::sanitize::{copy_path, path_view, string_from_chars, RelPath};
use crate::structures::{
    Instruction, PartitionView,
    entries_view, opt_path_view, EntryView, PartitionEntry, TreePartition,
};
use crate::tree::str_eq;

verus! {

/// The decimal digit of `d`.
pub open spec fn digit(d: nat) -> char {
    if d == 0 {
        '0'
    } else if d == 1 {
        '1'
    } else if d == 2 {
        '2'
    } else if d == 3 {
        '3'
    } else if d == 4 {
        '4'
    } else if d == 5 {
        '5'
    } else if d == 6 {
        '6'
    } else if d == 7 {
        '7'
    } else if d == 8 {
        '8'
    } else {
        '9'
    }
}

/// The decimal form of `n`, without leading zeros.
pub open spec fn decimal(n: nat) -> Seq<char>
    decreases n,
{
    if n < 10 {
        seq![digit(n)]
    } else {
        decimal(n / 10).push(digit(n % 10))
    }
}

/// The `n`th name tried for an entry whose name is taken: `name_n`.
pub open spec fn candidate(name: Seq<char>, n: nat) -> Seq<char> {
    name + "_"@ + decimal(n)
}

/// The names of a manifest's entries, in order.
pub open spec fn keys_of(m: Seq<(String, TreePartition)>) -> Seq<Seq<char>> {
    m.map_values(|e: (String, TreePartition)| e.0@)
}

/// The path of a renamed entry: its last component becomes the new name.
pub open spec fn renamed_path(p: Seq<Seq<char>>, name: Seq<char>) -> Seq<Seq<char>> {
    if p.len() == 0 {
        seq![name]
    } else {
        p.drop_last().push(name)
    }
}

/// A path under the output's source directory.
pub open spec fn under_src(p: Seq<Seq<char>>) -> Seq<Seq<char>> {
    seq!["src"@] + p
}

pub open spec fn opt_under_src(p: Option<Seq<Seq<char>>>) -> Option<Seq<Seq<char>>> {
    match p {
        Some(p) => Some(under_src(p)),
        None => None,
    }
}

/// Child entries with their paths moved under the source directory.
pub open spec fn entries_under_src(s: Seq<(Seq<char>, EntryView)>) -> Seq<(Seq<char>, EntryView)> {
    s.map_values(
        |e: (Seq<char>, EntryView)|
            (
                e.0,
                EntryView {
                    class_name: e.1.class_name,
                    ignore_unknown_instances: e.1.ignore_unknown_instances,
                    path: opt_under_src(e.1.path),
                },
            ),
    )
}

/// `n` is the first number from 2 on whose candidate name is free.
pub open spec fn first_free(keys: Seq<Seq<char>>, name: Seq<char>, n: nat) -> bool {
    &&& n >= 2
    &&& !keys.contains(candidate(name, n))
    &&& forall|m: nat| 2 <= m < n ==> keys.contains(#[trigger] candidate(name, m))
}

proof fn lemma_digit_injective(a: nat, b: nat)
    requires
        a < 10,
        b < 10,
        digit(a) == digit(b),
    ensures
        a == b,
{
}

proof fn lemma_decimal_injective(a: nat, b: nat)
    requires
        decimal(a) == decimal(b),
    ensures
        a == b,
    decreases a,
{
    if a < 10 && b < 10 {
        assert(decimal(a)[0] == digit(a));
        assert(decimal(b)[0] == digit(b));
        lemma_digit_injective(a, b);
    } else if a >= 10 && b >= 10 {
        assert(decimal(a).last() == digit(a % 10));
        assert(decimal(b).last() == digit(b % 10));
        lemma_digit_injective(a % 10, b % 10);
        assert(decimal(a).drop_last() =~= decimal(a / 10));
        assert(decimal(b).drop_last() =~= decimal(b / 10));
        lemma_decimal_injective(a / 10, b / 10);
    } else {
        lemma_decimal_len(a);
        lemma_decimal_len(b);
    }
}

proof fn lemma_decimal_len(n: nat)
    ensures
        n < 10 ==> decimal(n).len() == 1,
        n >= 10 ==> decimal(n).len() >= 2,
    decreases n,
{
    if n >= 10 {
        lemma_decimal_len(n / 10);
    }
}

proof fn lemma_candidate_injective(name: Seq<char>, a: nat, b: nat)
    requires
        candidate(name, a) == candidate(name, b),
    ensures
        a == b,
{
    let p = name + "_"@;
    assert(candidate(name, a).subrange(p.len() as int, candidate(name, a).len() as int)
        =~= decimal(a));
    assert(candidate(name, b).subrange(p.len() as int, candidate(name, b).len() as int)
        =~= decimal(b));
    lemma_decimal_injective(a, b);
}

/// Where the candidates 2 to `n` are all taken, there are at least `n - 1` keys.
proof fn lemma_taken_candidates_bound(keys: Seq<Seq<char>>, name: Seq<char>, n: nat)
    requires
        n >= 2,
        forall|m: nat| 2 <= m <= n ==> keys.contains(#[trigger] candidate(name, m)),
    ensures
        n - 1 <= keys.len(),
{
    let r = set_int_range(2, n as int + 1);
    lemma_int_range(2, n as int + 1);
    let f = |k: int| candidate(name, k as nat);
    let c = r.map(f);
    assert forall|a: int, b: int| r.contains(a) && r.contains(b) && #[trigger] f(a) == #[trigger] f(
        b,
    ) implies a == b by {
        lemma_candidate_injective(name, a as nat, b as nat);
    }
    lemma_map_size(r, c, f);
    assert forall|x: Seq<char>| c.contains(x) implies keys.to_set().contains(x) by {
        let k = choose|k: int| r.contains(k) && f(k) == x;
        assert(keys.contains(candidate(name, k as nat)));
    }
    vstd::seq_lib::seq_to_set_is_finite(keys);
    lemma_len_subset(c, keys.to_set());
    keys.lemma_cardinality_of_set();
}

fn digit_char(d: u64) -> (r: char)
    requires
        d < 10,
    ensures
        r == digit(d as nat),
{
    if d == 0 {
        '0'
    } else if d == 1 {
        '1'
    } else if d == 2 {
        '2'
    } else if d == 3 {
        '3'
    } else if d == 4 {
        '4'
    } else if d == 5 {
        '5'
    } else if d == 6 {
        '6'
    } else if d == 7 {
        '7'
    } else if d == 8 {
        '8'
    } else {
        '9'
    }
}

/// The decimal digits of `n`.
pub fn decimal_chars(n: u64) -> (r: Vec<char>)
    ensures
        r@ == decimal(n as nat),
    decreases n,
{
    if n < 10 {
        let mut v: Vec<char> = Vec::new();
        v.push(digit_char(n));
        assert(v@ =~= seq![digit(n as nat)]);
        v
    } else {
        let mut v = decimal_chars(n / 10);
        v.push(digit_char(n % 10));
        v
    }
}

/// The project manifest: a name, and the top-level entries, no two of the same name.
pub struct Project {
    pub name: String,
    pub tree: Vec<(String, TreePartition)>,
}

impl Project {
    pub open spec fn wf(&self) -> bool {
        keys_of(self.tree@).no_duplicates()
    }

    /// An empty manifest named `project`.
    pub fn new() -> (r: Project)
        ensures
            r.wf(),
            r.name@ == "project"@,
            r.tree@.len() == 0,
    {
        let r = Project { name: String::from_str("project"), tree: Vec::new() };
        assert(keys_of(r.tree@) =~= seq![]);
        r
    }

    /// Whether an entry is named `name`.
    pub fn contains_key(&self, name: &str) -> (r: bool)
        ensures
            r == keys_of(self.tree@).contains(name@),
    {
        let mut j: usize = 0;
        while j < self.tree.len()
            invariant
                j <= self.tree@.len(),
                forall|i: int| 0 <= i < j ==> keys_of(self.tree@)[i] != name@,
            decreases self.tree.len() - j,
        {
            if str_eq(self.tree[j].0.as_str(), name) {
                assert(keys_of(self.tree@)[j as int] == name@);
                return true;
            }
            j += 1;
        }
        false
    }
}

fn under_source(p: &RelPath) -> (r: RelPath)
    ensures
        path_view(r) == under_src(path_view(*p)),
{
    let mut r: RelPath = Vec::new();
    r.push(String::from_str("src"));
    let mut i: usize = 0;
    while i < p.len()
        invariant
            i <= p.len(),
            path_view(r) == under_src(path_view(*p).subrange(0, i as int)),
        decreases p.len() - i,
    {
        let s = p[i].clone();
        assert(s@ == path_view(*p)[i as int]);
        let ghost prev = r@;
        r.push(s);
        assert(r@ == prev.push(s));
        assert(path_view(r) =~= under_src(path_view(*p).subrange(0, i as int)).push(s@));
        assert(path_view(r) =~= under_src(path_view(*p).subrange(0, i + 1)));
        i += 1;
    }
    assert(path_view(*p).subrange(0, i as int) =~= path_view(*p));
    r
}

fn opt_under_source(p: Option<RelPath>) -> (r: Option<RelPath>)
    ensures
        opt_path_view(r) == opt_under_src(opt_path_view(p)),
{
    match p {
        Some(p) => Some(under_source(&p)),
        None => None,
    }
}

fn rename_last(p: &RelPath, name: &String) -> (r: RelPath)
    ensures
        path_view(r) == renamed_path(path_view(*p), name@),
{
    let mut r = copy_path(p);
    if r.len() > 0 {
        r.pop();
    }
    r.push(name.clone());
    assert(path_view(r) =~= renamed_path(path_view(*p), name@));
    r
}

/// `after` is `before` with one more top-level entry for `name` and `partition`: a
/// taken name gets the first free suffix `_2`, `_3`, ..., and then the last
/// component of the entry's path becomes the new name; the entry's path and its
/// children's paths move under `src`. Every earlier entry is kept as it was.
pub open spec fn entry_added(
    before: FileSystem,
    after: FileSystem,
    name: Seq<char>,
    partition: PartitionView,
) -> bool {
    &&& after.project.wf()
    &&& after.project.name == before.project.name
    &&& after.root == before.root
    &&& after.project.tree@.len() == before.project.tree@.len() + 1
    &&& forall|j: int|
        0 <= j < before.project.tree@.len() ==> #[trigger] after.project.tree@[j]
            == before.project.tree@[j]
    &&& {
        let keys = keys_of(before.project.tree@);
        let stored = after.project.tree@.last();
        let k = stored.0@;
        let p = stored.1@;
        &&& !keys.contains(name) ==> k == name
        &&& keys.contains(name) ==> exists|n: nat|
            first_free(keys, name, n) && k == #[trigger] candidate(name, n)
        &&& p.class_name == partition.class_name
        &&& p.ignore_unknown_instances == partition.ignore_unknown_instances
        &&& p.children == entries_under_src(partition.children)
        &&& p.path == match partition.path {
            Some(q) => Some(under_src(if keys.contains(name) {
                renamed_path(q, k)
            } else {
                q
            })),
            None => None,
        }
    }
}

/// The manifest side of the output: collects the entries to be written as the
/// project file. The files and folders themselves are written by the caller.
pub struct FileSystem {
    pub project: Project,
    pub root: String,
}

impl FileSystem {
    /// An empty manifest for output under `root`.
    pub fn from_root(root: String) -> (r: FileSystem)
        ensures
            r.project.wf(),
            r.project.name@ == "project"@,
            r.project.tree@.len() == 0,
            r.root == root,
    {
        FileSystem { project: Project::new(), root }
    }

    /// Takes one instruction of a run: a manifest entry is added to the manifest
    /// (see `add_to_tree`), and a file or folder instruction is handed back for the
    /// caller to write.
    pub fn read_instruction(&mut self, instruction: Instruction) -> (r: Option<Instruction>)
        requires
            old(self).project.wf(),
            old(self).project.tree@.len() + 3 < u64::MAX,
        ensures
            match instruction {
                Instruction::AddToTree { name, partition } => r is None && entry_added(
                    *old(self),
                    *final(self),
                    name@,
                    partition@,
                ),
                _ => r == Some(instruction) && *final(self) == *old(self),
            },
    {
        match instruction {
            Instruction::AddToTree { name, partition } => {
                self.add_to_tree(name, partition);
                None
            },
            other => Some(other),
        }
    }

    /// Adds a top-level manifest entry.
    pub fn add_to_tree(&mut self, name: String, partition: TreePartition)
        requires
            old(self).project.wf(),
            old(self).project.tree@.len() + 3 < u64::MAX,
        ensures
            entry_added(*old(self), *final(self), name@, partition@),
    {
        let ghost keys = keys_of(self.project.tree@);
        let ghost pv = partition@;
        let TreePartition { class_name, children, ignore_unknown_instances, path } = partition;
        let mut name = name;
        let mut path = path;
        let ghost orig = name@;
        let collided = self.project.contains_key(name.as_str());
        if collided {
            let mut counter: u64 = 2;
            let mut cand = string_from_chars(&decimal_chars(counter));
            cand = name.clone().concat("_").concat(cand.as_str());
            while self.project.contains_key(cand.as_str())
                invariant
                    keys == keys_of(self.project.tree@),
                    name@ == orig,
                    2 <= counter,
                    counter <= keys.len() + 2,
                    keys.len() + 3 < u64::MAX,
                    cand@ == candidate(orig, counter as nat),
                    forall|m: nat| 2 <= m < counter ==> keys.contains(#[trigger] candidate(orig, m)),
                decreases keys.len() + 2 - counter,
            {
                proof {
                    assert forall|m: nat| 2 <= m <= counter implies keys.contains(
                        #[trigger] candidate(orig, m),
                    ) by {}
                    lemma_taken_candidates_bound(keys, orig, counter as nat);
                }
                counter = counter + 1;
                let digits = string_from_chars(&decimal_chars(counter));
                cand = name.clone().concat("_").concat(digits.as_str());
            }
            assert(first_free(keys, orig, counter as nat));
            name = cand;
            path = match path {
                Some(p) => Some(rename_last(&p, &name)),
                None => None,
            };
        }
        let ghost renamed = opt_path_view(path);
        let path = opt_under_source(path);
        let mut rest = children;
        let ghost cv = entries_view(rest@);
        let mut moved: Vec<(String, PartitionEntry)> = Vec::new();
        let ghost mut done: int = 0;
        assert(entries_view(rest@) =~= cv.subrange(0, cv.len() as int));
        assert(entries_view(moved@) =~= entries_under_src(cv.subrange(0, 0)));
        while rest.len() > 0
            invariant
                0 <= done <= cv.len(),
                entries_view(rest@) == cv.subrange(done, cv.len() as int),
                entries_view(moved@) == entries_under_src(cv.subrange(0, done)),
            decreases rest.len(),
        {
            let ghost before = rest@;
            assert(entries_view(before).len() == before.len());
            assert(entries_view(before)[0] == cv[done]);
            let (child_name, entry) = rest.remove(0);
            assert(rest@ =~= before.subrange(1, before.len() as int));
            assert(entries_view(rest@) =~= entries_view(before).subrange(1, before.len() as int));
            assert(entries_view(rest@) =~= cv.subrange(done + 1, cv.len() as int));
            let PartitionEntry { class_name: c, ignore_unknown_instances: ig, path: p } = entry;
            let moved_entry = PartitionEntry {
                class_name: c,
                ignore_unknown_instances: ig,
                path: opt_under_source(p),
            };
            let ghost prev = entries_view(moved@);
            moved.push((child_name, moved_entry));
            assert(entries_view(moved@) =~= prev.push((child_name@, moved_entry@)));
            assert(cv.subrange(0, done + 1) =~= cv.subrange(0, done).push(cv[done]));
            assert(entries_view(moved@) =~= entries_under_src(cv.subrange(0, done + 1)));
            proof {
                done = done + 1;
            }
        }
        assert(cv.subrange(0, done) =~= cv);
        let stored = TreePartition {
            class_name,
            children: moved,
            ignore_unknown_instances,
            path,
        };
        let ghost old_tree = self.project.tree@;
        self.project.tree.push((name, stored));
        proof {
            let nk = keys_of(self.project.tree@);
            assert(nk =~= keys.push(self.project.tree@.last().0@));
            assert(!keys.contains(self.project.tree@.last().0@));
            assert forall|i: int, j: int|
                0 <= i < nk.len() && 0 <= j < nk.len() && i != j implies nk[i] != nk[j] by {
                if i < keys.len() && j < keys.len() {
                    assert(nk[i] == keys[i] && nk[j] == keys[j]);
                } else if i == keys.len() {
                    assert(nk[j] == keys[j]);
                } else {
                    assert(nk[i] == keys[i]);
                }
            }
        }
    }
}

} // verus!
