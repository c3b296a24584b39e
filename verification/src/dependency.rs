//! The dependency graph between files.
//!
//! An edge `A -> B` means that `A` depends on `B`: `A` can only be processed
//! once `B` is. Files are told apart by their absolute paths.
use crate::path::{abs_views, paths, spec_path_string_from_base, AbsPath, AbsPathView};
use vstd::prelude::*;

verus! {

/// A dependency graph as a set of edges, each from the depender to what it
/// depends on, and the set of files that are finished.
pub struct DepGraph {
    pub edges: Set<(Seq<char>, Seq<char>)>,
    pub finished: Set<Seq<char>>,
}

impl DepGraph {
    /// Whether `a` still waits for a file.
    pub open spec fn blocked(self, a: Seq<char>) -> bool {
        exists|b: Seq<char>| self.edges.contains((a, b))
    }

    /// Whether one of the files is not finished yet.
    pub open spec fn has_unfinished(self, dependencies: Seq<Seq<char>>) -> bool {
        exists|i: int|
            0 <= i < dependencies.len() && !self.finished.contains(#[trigger] dependencies[i])
    }

    /// The graph with an edge from `depender` to each of the files that is
    /// not finished.
    pub open spec fn add_dependency(
        self,
        depender: Seq<char>,
        dependencies: Seq<Seq<char>>,
    ) -> DepGraph {
        DepGraph {
            edges: Set::new(
                |e: (Seq<char>, Seq<char>)|
                    self.edges.contains(e) || (e.0 == depender && dependencies.contains(e.1)
                        && !self.finished.contains(e.1)),
            ),
            finished: self.finished,
        }
    }

    /// The graph once `f` is finished: no edge leads to `f` any more.
    pub open spec fn notify_finish(self, f: Seq<char>) -> DepGraph {
        DepGraph {
            edges: Set::new(|e: (Seq<char>, Seq<char>)| self.edges.contains(e) && e.1 != f),
            finished: self.finished.insert(f),
        }
    }

    /// Whether `a` waited for `f` and for nothing else.
    pub open spec fn released_by(self, f: Seq<char>, a: Seq<char>) -> bool {
        self.edges.contains((a, f)) && !self.notify_finish(f).blocked(a)
    }

    /// No edge leads to a finished file.
    pub open spec fn wf(self) -> bool {
        forall|e: (Seq<char>, Seq<char>)| self.edges.contains(e) ==> !self.finished.contains(e.1)
    }
}

/// Edge lists as plain values: files by their absolute paths, each with
/// the files at the other end of its edges.
pub type EdgeLists = Seq<(Seq<char>, Seq<Seq<char>>)>;

/// A file, and the files at the other end of its edges: for a dependency,
/// the files that depend on it; in what remains of a graph, for a depender,
/// the files that it waits for.
#[derive(Debug)]
pub struct EdgeList {
    pub vertex: AbsPath,
    pub others: Vec<AbsPath>,
}

impl EdgeList {
    /// Whether the list holds the path with this base, as its file or as
    /// one of the others.
    pub open spec fn holds(self, x: AbsPathView) -> bool {
        self.vertex@ == x || abs_views(self.others@).contains(x)
    }
}

/// Whether one of the lists holds the path with this base.
pub open spec fn holds_path(v: Seq<EdgeList>, x: AbsPathView) -> bool {
    exists|i: int| 0 <= i < v.len() && (#[trigger] v[i]).holds(x)
}

/// How many files a file waits for.
struct OutCount {
    depender: AbsPath,
    count: usize,
}

/// Dependency Manager
///
/// A directed dependency graph that track dependencies between files. An edge `A -> B` means that `A` depends on `B`.
pub struct DepManager {
    /// Count how many dependencies one vertex has
    out_edge_counts: Vec<OutCount>,
    /// For each vertex, the vertices that depend on it
    in_edges: Vec<EdgeList>,
    /// Finished vertices
    finished: Vec<AbsPath>,
}

/// Edge lists as plain values: each file with the files at the other end.
pub open spec fn ins_of(v: Seq<EdgeList>) -> EdgeLists {
    Seq::new(v.len(), |i: int| (v[i].vertex.path(), paths(v[i].others@)))
}

/// The counts as plain values: for each depender, its count.
spec fn counts_of(v: Seq<OutCount>) -> Seq<(Seq<char>, nat)> {
    Seq::new(v.len(), |i: int| (v[i].depender.path(), v[i].count as nat))
}

/// Whether the in-edges hold the edge from `a` to `b`.
pub open spec fn has_edge(ins: EdgeLists, a: Seq<char>, b: Seq<char>) -> bool {
    exists|i: int| 0 <= i < ins.len() && (#[trigger] ins[i]).0 == b && ins[i].1.contains(a)
}

/// In how many of the in-edge lists `a` stands.
pub open spec fn out_degree(ins: EdgeLists, a: Seq<char>) -> nat
    decreases ins.len(),
{
    if ins.len() == 0 {
        0
    } else {
        out_degree(ins.drop_last(), a) + if ins.last().1.contains(a) {
            1nat
        } else {
            0nat
        }
    }
}

/// The count that is kept for `a`, 0 where none is.
pub open spec fn count_of(counts: Seq<(Seq<char>, nat)>, a: Seq<char>) -> nat {
    if exists|i: int| 0 <= i < counts.len() && (#[trigger] counts[i]).0 == a {
        counts[choose|i: int| 0 <= i < counts.len() && (#[trigger] counts[i]).0 == a].1
    } else {
        0
    }
}

/// No key stands twice.
pub open spec fn distinct_keys<V>(s: Seq<(Seq<char>, V)>) -> bool {
    forall|i: int, j: int|
        0 <= i < s.len() && 0 <= j < s.len() && i != j ==> (#[trigger] s[i]).0 != (#[trigger] s[j]).0
}

/// A file stands in no more lists than there are.
proof fn lemma_degree_bound(ins: EdgeLists, a: Seq<char>)
    ensures
        out_degree(ins, a) <= ins.len(),
    decreases ins.len(),
{
    if ins.len() > 0 {
        lemma_degree_bound(ins.drop_last(), a);
    }
}

/// A file stands in no list if and only if its degree is 0.
proof fn lemma_degree_zero(ins: EdgeLists, a: Seq<char>)
    ensures
        out_degree(ins, a) == 0 <==> forall|i: int|
            0 <= i < ins.len() ==> !(#[trigger] ins[i]).1.contains(a),
    decreases ins.len(),
{
    if ins.len() > 0 {
        lemma_degree_zero(ins.drop_last(), a);
        if out_degree(ins, a) == 0 {
            assert forall|i: int| 0 <= i < ins.len() implies !(#[trigger] ins[i]).1.contains(a) by {
                if i < ins.len() - 1 {
                    assert(ins.drop_last()[i] == ins[i]);
                }
            }
        } else {
            if !ins.last().1.contains(a) {
                let i = choose|i: int|
                    0 <= i < ins.drop_last().len() && (#[trigger] ins.drop_last()[i]).1.contains(a);
                assert(ins[i] == ins.drop_last()[i]);
            }
        }
    }
}

/// One more list adds one to the degree of each file in it.
proof fn lemma_degree_push(
    ins: EdgeLists,
    e: (Seq<char>, Seq<Seq<char>>),
    a: Seq<char>,
)
    ensures
        out_degree(ins.push(e), a) == out_degree(ins, a) + if e.1.contains(a) {
            1nat
        } else {
            0nat
        },
{
    assert(ins.push(e).drop_last() =~= ins);
}

/// One list less takes one from the degree of each file in it.
proof fn lemma_degree_remove(ins: EdgeLists, i: int, a: Seq<char>)
    requires
        0 <= i < ins.len(),
    ensures
        out_degree(ins.remove(i), a) + (if ins[i].1.contains(a) {
            1nat
        } else {
            0nat
        }) == out_degree(ins, a),
    decreases ins.len(),
{
    if i == ins.len() - 1 {
        assert(ins.remove(i) =~= ins.drop_last());
    } else {
        lemma_degree_remove(ins.drop_last(), i, a);
        assert(ins.remove(i).drop_last() =~= ins.drop_last().remove(i));
        assert(ins.remove(i).last() == ins.last());
    }
}

/// Where no key stands twice, the count of a key is the one that stands beside it.
proof fn lemma_count_at(counts: Seq<(Seq<char>, nat)>, i: int)
    requires
        distinct_keys(counts),
        0 <= i < counts.len(),
    ensures
        count_of(counts, counts[i].0) == counts[i].1,
{
}

/// Without one of its entries the counts give 0 for its key, and for every
/// other key what they gave before.
proof fn lemma_count_remove(counts: Seq<(Seq<char>, nat)>, i: int, x: Seq<char>)
    requires
        distinct_keys(counts),
        0 <= i < counts.len(),
    ensures
        distinct_keys(counts.remove(i)),
        count_of(counts.remove(i), x) == if x == counts[i].0 {
            0
        } else {
            count_of(counts, x)
        },
{
    let new = counts.remove(i);
    assert forall|j: int| 0 <= j < new.len() implies #[trigger] new[j] == counts[if j < i {
        j
    } else {
        j + 1
    }] by {}
    if exists|j: int| 0 <= j < new.len() && (#[trigger] new[j]).0 == x {
        let j = choose|j: int| 0 <= j < new.len() && (#[trigger] new[j]).0 == x;
        let j0 = if j < i { j } else { j + 1 };
        assert(counts[j0] == new[j]);
        lemma_count_at(counts, j0);
        lemma_count_at(new, j);
    } else {
        if x != counts[i].0 {
            if exists|j: int| 0 <= j < counts.len() && (#[trigger] counts[j]).0 == x {
                let j0 = choose|j: int| 0 <= j < counts.len() && (#[trigger] counts[j]).0 == x;
                let j = if j0 < i { j0 } else { j0 - 1 };
                assert(new[j] == counts[j0]);
            }
        }
    }
}

/// With an entry for a new key the counts give its count for that key, and
/// for every other key what they gave before.
proof fn lemma_count_push(counts: Seq<(Seq<char>, nat)>, a: Seq<char>, c: nat, x: Seq<char>)
    requires
        distinct_keys(counts),
        forall|j: int| 0 <= j < counts.len() ==> (#[trigger] counts[j]).0 != a,
    ensures
        distinct_keys(counts.push((a, c))),
        count_of(counts.push((a, c)), x) == if x == a {
            c
        } else {
            count_of(counts, x)
        },
{
    let new = counts.push((a, c));
    assert forall|j: int| 0 <= j < counts.len() implies #[trigger] new[j] == counts[j] by {}
    if x == a {
        assert(new[counts.len() as int].0 == a);
        lemma_count_at(new, counts.len() as int);
    } else {
        if exists|j: int| 0 <= j < new.len() && (#[trigger] new[j]).0 == x {
            let j = choose|j: int| 0 <= j < new.len() && (#[trigger] new[j]).0 == x;
            assert(counts[j] == new[j]);
            lemma_count_at(counts, j);
            lemma_count_at(new, j);
        } else {
            if exists|j: int| 0 <= j < counts.len() && (#[trigger] counts[j]).0 == x {
                let j = choose|j: int| 0 <= j < counts.len() && (#[trigger] counts[j]).0 == x;
                assert(new[j] == counts[j]);
            }
        }
    }
}

/// Where the in-edges lose the entry `i`, they lose the edges to its key.
proof fn lemma_ins_remove(ins: EdgeLists, i: int)
    requires
        distinct_keys(ins),
        0 <= i < ins.len(),
    ensures
        distinct_keys(ins.remove(i)),
        forall|j: int| 0 <= j < ins.remove(i).len() ==> (#[trigger] ins.remove(i)[j]).0 != ins[i].0,
        forall|x: Seq<char>, y: Seq<char>| #[trigger]
            has_edge(ins.remove(i), x, y) <==> has_edge(ins, x, y) && y != ins[i].0,
        forall|x: Seq<char>| has_edge(ins, x, ins[i].0) <==> ins[i].1.contains(x),
{
    let new = ins.remove(i);
    assert forall|j: int| 0 <= j < new.len() implies #[trigger] new[j] == ins[if j < i {
        j
    } else {
        j + 1
    }] by {}
    assert forall|x: Seq<char>, y: Seq<char>| #[trigger]
        has_edge(new, x, y) <==> has_edge(ins, x, y) && y != ins[i].0 by {
        if has_edge(new, x, y) {
            let j = choose|j: int| 0 <= j < new.len() && (#[trigger] new[j]).0 == y && new[j].1.contains(x);
            let j0 = if j < i { j } else { j + 1 };
            assert(ins[j0] == new[j]);
        }
        if has_edge(ins, x, y) && y != ins[i].0 {
            let j0 = choose|j: int| 0 <= j < ins.len() && (#[trigger] ins[j]).0 == y && ins[j].1.contains(x);
            let j = if j0 < i { j0 } else { j0 - 1 };
            assert(new[j] == ins[j0]);
        }
    }
    assert forall|x: Seq<char>| has_edge(ins, x, ins[i].0) <==> ins[i].1.contains(x) by {
        if has_edge(ins, x, ins[i].0) {
            let j = choose|j: int| 0 <= j < ins.len() && (#[trigger] ins[j]).0 == ins[i].0 && ins[j].1.contains(x);
            assert(j == i);
        }
        if ins[i].1.contains(x) {
            assert(ins[i].0 == ins[i].0);
        }
    }
}

/// Where the in-edges get a new entry, they get the edges that it holds.
proof fn lemma_ins_push(ins: EdgeLists, e: (Seq<char>, Seq<Seq<char>>))
    requires
        distinct_keys(ins),
        forall|j: int| 0 <= j < ins.len() ==> (#[trigger] ins[j]).0 != e.0,
    ensures
        distinct_keys(ins.push(e)),
        forall|x: Seq<char>, y: Seq<char>| #[trigger]
            has_edge(ins.push(e), x, y) <==> has_edge(ins, x, y) || (y == e.0 && e.1.contains(x)),
{
    let new = ins.push(e);
    assert forall|j: int| 0 <= j < ins.len() implies #[trigger] new[j] == ins[j] by {}
    assert forall|x: Seq<char>, y: Seq<char>| #[trigger]
        has_edge(new, x, y) <==> has_edge(ins, x, y) || (y == e.0 && e.1.contains(x)) by {
        if has_edge(new, x, y) {
            let j = choose|j: int| 0 <= j < new.len() && (#[trigger] new[j]).0 == y && new[j].1.contains(x);
            if j < ins.len() {
                assert(ins[j] == new[j]);
            }
        }
        if has_edge(ins, x, y) {
            let j = choose|j: int| 0 <= j < ins.len() && (#[trigger] ins[j]).0 == y && ins[j].1.contains(x);
            assert(new[j] == ins[j]);
        }
        if y == e.0 && e.1.contains(x) {
            assert(new[ins.len() as int] == e);
        }
    }
}

/// Position of a path in a list of paths.
pub fn position(v: &Vec<AbsPath>, p: &AbsPath) -> (r: Option<usize>)
    ensures
        match r {
            Some(i) => i < v.len() && v@[i as int].path() == p.path(),
            None => !paths(v@).contains(p.path()),
        },
{
    let mut i: usize = 0;
    while i < v.len()
        invariant
            i <= v.len(),
            forall|j: int| 0 <= j < i ==> (#[trigger] paths(v@)[j]) != p.path(),
        decreases v.len() - i,
    {
        if v[i] == *p {
            return Some(i);
        }
        assert(paths(v@)[i as int] == v@[i as int].path());
        i += 1;
    }
    None
}

/// Whether the edge lists keep a list for `p`.
pub open spec fn has_key(ins: EdgeLists, p: Seq<char>) -> bool {
    exists|i: int| 0 <= i < ins.len() && (#[trigger] ins[i]).0 == p
}

/// No file stands twice in a list.
pub open spec fn distinct_others(ins: EdgeLists) -> bool {
    forall|i: int| 0 <= i < ins.len() ==> (#[trigger] ins[i]).1.no_duplicates()
}

/// Position of the list that is kept for `p`.
fn find_key(map: &Vec<EdgeList>, p: &AbsPath) -> (r: Option<usize>)
    ensures
        match r {
            Some(i) => i < map.len() && ins_of(map@)[i as int].0 == p.path(),
            None => forall|j: int|
                0 <= j < map.len() ==> (#[trigger] ins_of(map@)[j]).0 != p.path(),
        },
{
    let mut i: usize = 0;
    while i < map.len()
        invariant
            i <= map.len(),
            forall|j: int| 0 <= j < i ==> (#[trigger] ins_of(map@)[j]).0 != p.path(),
        decreases map.len() - i,
    {
        if map[i].vertex == *p {
            return Some(i);
        }
        i += 1;
    }
    None
}

/// No list is empty.
pub open spec fn nonempty_others(ins: EdgeLists) -> bool {
    forall|i: int| 0 <= i < ins.len() ==> (#[trigger] ins[i]).1.len() > 0
}

/// Add `item` to the list that is kept for `key`, unless it stands there.
/// Returns whether it did not.
fn insert_edge(map: &mut Vec<EdgeList>, key: &AbsPath, item: &AbsPath) -> (fresh: bool)
    requires
        distinct_keys(ins_of(old(map)@)),
        distinct_others(ins_of(old(map)@)),
        nonempty_others(ins_of(old(map)@)),
    ensures
        distinct_keys(ins_of(final(map)@)),
        distinct_others(ins_of(final(map)@)),
        nonempty_others(ins_of(final(map)@)),
        fresh == !has_edge(ins_of(old(map)@), item.path(), key.path()),
        forall|x: Seq<char>, y: Seq<char>| #[trigger]
            has_edge(ins_of(final(map)@), x, y) <==> has_edge(ins_of(old(map)@), x, y) || (x
                == item.path() && y == key.path()),
        forall|x: Seq<char>| #[trigger]
            out_degree(ins_of(final(map)@), x) == out_degree(ins_of(old(map)@), x) + if fresh && x
                == item.path() {
                1nat
            } else {
                0nat
            },
        forall|j: int|
            0 <= j < ins_of(final(map)@).len() ==> (#[trigger] ins_of(final(map)@)[j]).0
                == key.path() || has_key(ins_of(old(map)@), ins_of(final(map)@)[j].0),
        forall|x: AbsPathView|
            holds_path(final(map)@, x) ==> holds_path(old(map)@, x) || x == key@ || x == item@,
{
    let ghost before = map@;
    let ghost a = item.path();
    let ghost b = key.path();
    let ghost ins0 = ins_of(map@);
    let ghost list0: Seq<Seq<char>>;
    let ghost ins1: EdgeLists;
    let at = find_key(map, key);
    let mut entry = match at {
        Some(i) => {
            proof {
                list0 = ins0[i as int].1;
                ins1 = ins0.remove(i as int);
                lemma_ins_remove(ins0, i as int);
                assert forall|x: Seq<char>| #[trigger]
                    out_degree(ins1, x) + (if list0.contains(x) {
                        1nat
                    } else {
                        0nat
                    }) == out_degree(ins0, x) by {
                    lemma_degree_remove(ins0, i as int, x);
                }
                assert forall|j: int| 0 <= j < ins1.len() implies (#[trigger] ins1[j]).1.no_duplicates()
                    && ins1[j].1.len() > 0 && has_key(ins0, ins1[j].0) by {
                    let j0 = if j < i { j } else { j + 1 };
                    assert(ins1[j] == ins0[j0]);
                }
            }
            let e = map.remove(i);
            assert(ins_of(map@) =~= ins1);
            assert(e == before[i as int]);
            e
        },
        None => {
            proof {
                list0 = Seq::empty();
                ins1 = ins0;
                assert forall|x: Seq<char>| !has_edge(ins0, x, b) by {}
                assert forall|j: int| 0 <= j < ins1.len() implies has_key(
                    ins0,
                    (#[trigger] ins1[j]).0,
                ) by {}
            }
            let e = EdgeList { vertex: key.clone(), others: Vec::new() };
            assert(paths(e.others@) =~= list0);
            e
        },
    };
    assert(paths(entry.others@) == list0);
    assert(forall|x: Seq<char>| has_edge(ins0, x, b) <==> list0.contains(x));
    let ghost rest = map@;
    let ghost found_entry = entry;
    let found = position(&entry.others, item);
    let fresh = found.is_none();
    if fresh {
        entry.others.push(item.clone());
        assert(paths(entry.others@) =~= list0.push(a));
        assert(abs_views(entry.others@) =~= abs_views(found_entry.others@).push(item@));
    }
    let ghost list1 = paths(entry.others@);
    assert(list1.no_duplicates());
    assert forall|x: Seq<char>| list1.contains(x) <==> list0.contains(x) || x == a by {
        if fresh {
            if list0.contains(x) {
                let k = choose|k: int| 0 <= k < list0.len() && list0[k] == x;
                assert(list1[k] == x);
            }
            if x == a {
                assert(list1[list0.len() as int] == x);
            }
        } else {
            assert(list0[found->0 as int] == a);
        }
    }
    map.push(entry);
    let ghost ins2 = ins_of(map@);
    proof {
        assert(ins2 =~= ins1.push((b, list1)));
        lemma_ins_push(ins1, (b, list1));
        assert forall|x: Seq<char>| #[trigger]
            out_degree(ins2, x) == out_degree(ins0, x) + if fresh && x == a {
                1nat
            } else {
                0nat
            } by {
            lemma_degree_push(ins1, (b, list1), x);
        }
        assert(list1.contains(a));
        assert forall|j: int| 0 <= j < ins2.len() implies (#[trigger] ins2[j]).1.no_duplicates()
            && ins2[j].1.len() > 0 && (ins2[j].0 == b || has_key(ins0, ins2[j].0)) by {
            if j < ins1.len() {
                assert(ins2[j] == ins1[j]);
            }
        }
        assert forall|x: Seq<char>, y: Seq<char>| #[trigger]
            has_edge(ins2, x, y) <==> has_edge(ins0, x, y) || (x == a && y == b) by {}
        assert forall|x: AbsPathView| holds_path(map@, x) implies holds_path(before, x) || x
            == key@ || x == item@ by {
            let j = choose|j: int| 0 <= j < map@.len() && (#[trigger] map@[j]).holds(x);
            if j < rest.len() {
                assert(map@[j] == rest[j]);
                match at {
                    Some(i) => {
                        assert(rest[j] == before[if j < i { j } else { j + 1 }]);
                    },
                    None => {},
                }
            } else {
                if x != key@ && x != item@ {
                    let others = abs_views(found_entry.others@);
                    if abs_views(entry.others@).contains(x) {
                        let k = choose|k: int|
                            0 <= k < abs_views(entry.others@).len() && abs_views(entry.others@)[k]
                                == x;
                        assert(others[k] == x);
                    }
                    assert(found_entry.holds(x));
                    assert(at is Some);
                    assert(before[at->0 as int].holds(x));
                }
            }
        }
    }
    fresh
}

impl View for DepManager {
    type V = DepGraph;

    closed spec fn view(&self) -> DepGraph {
        DepGraph {
            edges: Set::new(|e: (Seq<char>, Seq<char>)| has_edge(self.ins(), e.0, e.1)),
            finished: Set::new(|f: Seq<char>| self.done().contains(f)),
        }
    }
}

impl DepManager {
    /// The in-edges as plain values.
    closed spec fn ins(&self) -> EdgeLists {
        ins_of(self.in_edges@)
    }

    /// The counts as plain values.
    closed spec fn counts(&self) -> Seq<(Seq<char>, nat)> {
        counts_of(self.out_edge_counts@)
    }

    /// The finished files as plain values.
    closed spec fn done(&self) -> Seq<Seq<char>> {
        paths(self.finished@)
    }

    /// The paths that the graph holds, each with its base: those that
    /// stand at either end of an edge.
    pub closed spec fn held(&self) -> Set<AbsPathView> {
        Set::new(|x: AbsPathView| holds_path(self.in_edges@, x))
    }

    /// The count that the graph keeps for `a`: 0 where it keeps none.
    pub closed spec fn out_count(&self, a: Seq<char>) -> nat {
        count_of(self.counts(), a)
    }

    /// What holds of the parts except that the counts are right.
    closed spec fn wf_edges(&self) -> bool {
        &&& distinct_keys(self.ins())
        &&& distinct_others(self.ins())
        &&& nonempty_others(self.ins())
        &&& forall|i: int|
            0 <= i < self.ins().len() ==> !self.done().contains((#[trigger] self.ins()[i]).0)
        &&& distinct_keys(self.counts())
    }

    /// The invariant of the graph: each dependency is kept once, with each of
    /// its dependers once; none of them is finished; and the count of each
    /// file is the number of dependencies that it waits for.
    pub closed spec fn wf(&self) -> bool {
        &&& self.wf_edges()
        &&& forall|a: Seq<char>| count_of(self.counts(), a) == #[trigger] out_degree(self.ins(), a)
    }

    /// Create empty dependency manager
    pub fn new() -> (r: Self)
        ensures
            r.wf(),
            r@.edges == Set::<(Seq<char>, Seq<char>)>::empty(),
            r@.finished == Set::<Seq<char>>::empty(),
            r.held() == Set::<AbsPathView>::empty(),
    {
        let r = Self { out_edge_counts: Vec::new(), in_edges: Vec::new(), finished: Vec::new() };
        proof {
            assert(r.ins() =~= Seq::empty());
            assert(r.counts() =~= Seq::empty());
            assert(r.done() =~= Seq::empty());
            assert(r@.edges =~= Set::<(Seq<char>, Seq<char>)>::empty());
            assert(r@.finished =~= Set::<Seq<char>>::empty());
            assert(r.held() =~= Set::<AbsPathView>::empty());
        }
        r
    }

    /// Position of the count of a file.
    fn find_count(&self, p: &AbsPath) -> (r: Option<usize>)
        ensures
            match r {
                Some(i) => i < self.counts().len() && self.counts()[i as int].0 == p.path(),
                None => forall|j: int|
                    0 <= j < self.counts().len() ==> (#[trigger] self.counts()[j]).0 != p.path(),
            },
    {
        let mut i: usize = 0;
        while i < self.out_edge_counts.len()
            invariant
                i <= self.out_edge_counts.len(),
                forall|j: int| 0 <= j < i ==> (#[trigger] self.counts()[j]).0 != p.path(),
            decreases self.out_edge_counts.len() - i,
        {
            if self.out_edge_counts[i].depender == *p {
                return Some(i);
            }
            i += 1;
        }
        None
    }

    /// Count one more dependency for `a`.
    fn increment(&mut self, a: &AbsPath)
        requires
            distinct_keys(old(self).counts()),
            count_of(old(self).counts(), a.path()) < usize::MAX,
        ensures
            distinct_keys(final(self).counts()),
            forall|x: Seq<char>| #[trigger]
                count_of(final(self).counts(), x) == count_of(old(self).counts(), x) + if x
                    == a.path() {
                    1nat
                } else {
                    0nat
                },
            final(self).in_edges == old(self).in_edges,
            final(self).finished == old(self).finished,
    {
        let ghost before = self.counts();
        match self.find_count(a) {
            Some(i) => {
                proof {
                    lemma_count_at(before, i as int);
                }
                let e = self.out_edge_counts.remove(i);
                let n = OutCount { depender: e.depender, count: e.count + 1 };
                self.out_edge_counts.push(n);
                proof {
                    let c = (e.count + 1) as nat;
                    assert(self.counts() =~= before.remove(i as int).push((a.path(), c)));
                    assert forall|x: Seq<char>| #[trigger]
                        count_of(self.counts(), x) == count_of(before, x) + if x == a.path() {
                            1nat
                        } else {
                            0nat
                        } by {
                        lemma_count_remove(before, i as int, x);
                        lemma_count_remove(before, i as int, a.path());
                        assert forall|j: int| 0 <= j < before.remove(i as int).len() implies (
                        #[trigger] before.remove(i as int)[j]).0 != a.path() by {
                            let j0 = if j < i { j } else { j + 1 };
                            assert(before.remove(i as int)[j] == before[j0]);
                        }
                        lemma_count_push(before.remove(i as int), a.path(), c, x);
                    }
                    lemma_count_remove(before, i as int, a.path());
                    assert forall|j: int| 0 <= j < before.remove(i as int).len() implies (
                    #[trigger] before.remove(i as int)[j]).0 != a.path() by {
                        let j0 = if j < i { j } else { j + 1 };
                        assert(before.remove(i as int)[j] == before[j0]);
                    }
                    lemma_count_push(before.remove(i as int), a.path(), c, a.path());
                }
            },
            None => {
                self.out_edge_counts.push(OutCount { depender: a.clone(), count: 1 });
                proof {
                    assert(self.counts() =~= before.push((a.path(), 1nat)));
                    assert forall|x: Seq<char>| #[trigger]
                        count_of(self.counts(), x) == count_of(before, x) + if x == a.path() {
                            1nat
                        } else {
                            0nat
                        } by {
                        lemma_count_push(before, a.path(), 1nat, x);
                    }
                    lemma_count_push(before, a.path(), 1nat, a.path());
                }
            },
        }
    }

    /// Count one dependency less for `a`, and say whether none is left.
    fn decrement(&mut self, a: &AbsPath) -> (r: bool)
        requires
            distinct_keys(old(self).counts()),
            count_of(old(self).counts(), a.path()) >= 1,
        ensures
            distinct_keys(final(self).counts()),
            forall|x: Seq<char>| #[trigger]
                count_of(final(self).counts(), x) + (if x == a.path() {
                    1nat
                } else {
                    0nat
                }) == count_of(old(self).counts(), x),
            r == (count_of(final(self).counts(), a.path()) == 0),
            final(self).in_edges == old(self).in_edges,
            final(self).finished == old(self).finished,
    {
        let ghost before = self.counts();
        let i = match self.find_count(a) {
            Some(i) => i,
            // a count that is not kept is 0, which this one is not
            None => {
                return true;
            },
        };
        proof {
            lemma_count_at(before, i as int);
        }
        let e = self.out_edge_counts.remove(i);
        proof {
            assert(self.counts() =~= before.remove(i as int));
            lemma_count_remove(before, i as int, a.path());
            assert forall|j: int| 0 <= j < before.remove(i as int).len() implies (
            #[trigger] before.remove(i as int)[j]).0 != a.path() by {
                let j0 = if j < i { j } else { j + 1 };
                assert(before.remove(i as int)[j] == before[j0]);
            }
        }
        if e.count <= 1 {
            proof {
                assert forall|x: Seq<char>| #[trigger]
                    count_of(self.counts(), x) + (if x == a.path() {
                        1nat
                    } else {
                        0nat
                    }) == count_of(before, x) by {
                    lemma_count_remove(before, i as int, x);
                }
            }
            true
        } else {
            let n = OutCount { depender: e.depender, count: e.count - 1 };
            self.out_edge_counts.push(n);
            proof {
                let c = (e.count - 1) as nat;
                assert(self.counts() =~= before.remove(i as int).push((a.path(), c)));
                assert forall|x: Seq<char>| #[trigger]
                    count_of(self.counts(), x) + (if x == a.path() {
                        1nat
                    } else {
                        0nat
                    }) == count_of(before, x) by {
                    lemma_count_remove(before, i as int, x);
                    lemma_count_push(before.remove(i as int), a.path(), c, x);
                }
                lemma_count_push(before.remove(i as int), a.path(), c, a.path());
            }
            false
        }
    }

    /// Add the edge from `depender` to `dependency`, unless the graph has it.
    fn add_edge(&mut self, depender: &AbsPath, dependency: &AbsPath)
        requires
            old(self).wf(),
            !old(self).done().contains(dependency.path()),
        ensures
            final(self).wf(),
            final(self)@.edges == old(self)@.edges.insert((depender.path(), dependency.path())),
            final(self).finished == old(self).finished,
            forall|x: AbsPathView|
                final(self).held().contains(x) ==> old(self).held().contains(x) || x == depender@
                    || x == dependency@,
    {
        let ghost ins0 = self.ins();
        let ghost counts0 = self.counts();
        let fresh = insert_edge(&mut self.in_edges, dependency, depender);
        if fresh {
            proof {
                lemma_degree_bound(self.ins(), depender.path());
                assert(count_of(counts0, depender.path()) == out_degree(ins0, depender.path()));
            }
            let n = self.in_edges.len();
            self.increment(depender);
        }
        proof {
            assert forall|x: Seq<char>|
                count_of(self.counts(), x) == #[trigger] out_degree(self.ins(), x) by {
                assert(count_of(counts0, x) == out_degree(ins0, x));
            }
            assert(self@.edges =~= old(self)@.edges.insert((depender.path(), dependency.path())));
        }
    }

    /// Add multiple dependencies to a file
    ///
    /// The first argument `A` depends on all of the file `B`s in the second argument.
    /// This will add `A -> B` edges to the graph for every B in the second argument
    /// that is not finished. An edge that the graph has already is not added again.
    ///
    /// Return true if one of the `B`s is not finished.
    pub fn add_dependency(&mut self, depender: &AbsPath, dependencies: &[AbsPath]) -> (added: bool)
        requires
            old(self).wf(),
        ensures
            final(self).wf(),
            final(self)@ == old(self)@.add_dependency(depender.path(), paths(dependencies@)),
            added == old(self)@.has_unfinished(paths(dependencies@)),
            forall|x: AbsPathView|
                final(self).held().contains(x) ==> old(self).held().contains(x) || x == depender@
                    || abs_views(dependencies@).contains(x),
    {
        let mut added = false;
        let ghost deps = paths(dependencies@);
        let ghost start = self@;
        let mut i: usize = 0;
        assert(self@.edges =~= start.add_dependency(depender.path(), deps.take(0)).edges);
        while i < dependencies.len()
            invariant
                i <= dependencies.len(),
                deps == paths(dependencies@),
                self.wf(),
                start == old(self)@,
                self@.finished == start.finished,
                self@.edges == start.add_dependency(depender.path(), deps.take(i as int)).edges,
                added == start.has_unfinished(deps.take(i as int)),
                forall|x: AbsPathView|
                    self.held().contains(x) ==> old(self).held().contains(x) || x == depender@
                        || abs_views(dependencies@).contains(x),
            decreases dependencies.len() - i,
        {
            let dependency = &dependencies[i];
            assert(abs_views(dependencies@)[i as int] == dependency@);
            let ghost before = self@;
            let ghost sofar = deps.take(i as int);
            let ghost next = deps.take(i + 1);
            proof {
                assert(next =~= sofar.push(dependency.path()));
                assert forall|x: Seq<char>| next.contains(x) <==> sofar.contains(x) || x
                    == dependency.path() by {
                    if sofar.contains(x) {
                        let k = choose|k: int| 0 <= k < sofar.len() && sofar[k] == x;
                        assert(next[k] == x);
                    }
                    if x == dependency.path() {
                        assert(next[i as int] == x);
                    }
                }
            }
            let done = position(&self.finished, dependency);
            if done.is_none() {
                self.add_edge(depender, dependency);
                added = true;
                proof {
                    assert(!start.finished.contains(next[i as int]));
                    assert(self@.edges =~= start.add_dependency(depender.path(), next).edges);
                }
            } else {
                proof {
                    assert(self.done()[done->0 as int] == dependency.path());
                    assert(start.finished.contains(dependency.path()));
                    assert(self@.edges =~= start.add_dependency(depender.path(), next).edges);
                    if start.has_unfinished(next) {
                        let k = choose|k: int|
                            0 <= k < next.len() && !start.finished.contains(#[trigger] next[k]);
                        assert(sofar[k] == next[k]);
                    }
                    if start.has_unfinished(sofar) {
                        let k = choose|k: int|
                            0 <= k < sofar.len() && !start.finished.contains(#[trigger] sofar[k]);
                        assert(sofar[k] == next[k]);
                    }
                }
            }
            i += 1;
        }
        assert(deps.take(dependencies.len() as int) =~= deps);
        added
    }

    /// In a graph that is well formed no edge leads to a finished file.
    pub proof fn lemma_no_edge_to_finished(&self)
        requires
            self.wf(),
        ensures
            self@.wf(),
    {
        assert forall|e: (Seq<char>, Seq<char>)| self@.edges.contains(e) implies !self@.finished.contains(
            e.1,
        ) by {
            let i = choose|i: int|
                0 <= i < self.ins().len() && (#[trigger] self.ins()[i]).0 == e.1 && self.ins()[i].1.contains(
                    e.0,
                );
            assert(!self.done().contains(self.ins()[i].0));
        }
    }

    /// Notify a file `B` has finished processing
    ///
    /// This removes all (in) edges of `B`.
    /// For each `A -> B` edge removed, if `A` has no more out edges after the removal, `A` is added to the output.
    pub fn notify_finish(&mut self, finished: &AbsPath) -> (released: Vec<AbsPath>)
        requires
            old(self).wf(),
        ensures
            final(self).wf(),
            final(self)@ == old(self)@.notify_finish(finished.path()),
            paths(released@).no_duplicates(),
            forall|a: Seq<char>|
                paths(released@).contains(a) <==> old(self)@.released_by(finished.path(), a),
            forall|i: int|
                0 <= i < released@.len() ==> old(self).held().contains(#[trigger] released@[i]@),
            forall|x: AbsPathView| final(self).held().contains(x) ==> old(self).held().contains(x),
    {
        let ghost f = finished.path();
        let ghost start = self@;
        let ghost ins0 = self.ins();
        let ghost done0 = self.done();
        let ghost edges0 = self.in_edges@;
        let mut output: Vec<AbsPath> = Vec::new();
        let known = position(&self.finished, finished);
        if known.is_some() {
            assert(done0[known->0 as int] == f);
        } else {
            self.finished.push(finished.clone());
            proof {
                assert(self.done() =~= done0.push(f));
                assert forall|x: Seq<char>| self.done().contains(x) <==> done0.contains(x) || x
                    == f by {
                    if done0.contains(x) {
                        let k = choose|k: int| 0 <= k < done0.len() && done0[k] == x;
                        assert(self.done()[k] == x);
                    }
                    if x == f {
                        assert(self.done()[done0.len() as int] == x);
                    }
                }
            }
        }
        assert(self@.finished =~= start.finished.insert(f));
        // Get all dependers of finished
        let idx = match find_key(&self.in_edges, finished) {
            Some(i) => i,
            None => {
                proof {
                    assert(self@.edges =~= start.notify_finish(f).edges);
                    assert(paths(output@) =~= Seq::empty());
                    assert forall|a: Seq<char>| !start.released_by(f, a) by {
                        assert(!has_edge(ins0, a, f));
                    }
                }
                return output;
            },
        };
        let entry = self.in_edges.remove(idx);
        let ghost list = ins0[idx as int].1;
        let ghost ins1 = self.ins();
        let ghost edges1 = self.in_edges@;
        proof {
            assert(entry == edges0[idx as int]);
            assert forall|x: AbsPathView| holds_path(edges1, x) implies holds_path(edges0, x) by {
                let j = choose|j: int| 0 <= j < edges1.len() && (#[trigger] edges1[j]).holds(x);
                assert(edges1[j] == edges0[if j < idx { j } else { j + 1 }]);
            }
            assert(ins1 =~= ins0.remove(idx as int));
            assert(paths(entry.others@) == list);
            lemma_ins_remove(ins0, idx as int);
            assert forall|j: int| 0 <= j < ins1.len() implies (#[trigger] ins1[j]).1.no_duplicates()
                && ins1[j].1.len() > 0 && !self.done().contains(ins1[j].0) by {
                let j0 = if j < idx { j } else { j + 1 };
                assert(ins1[j] == ins0[j0]);
            }
            assert forall|x: Seq<char>|
                count_of(self.counts(), x) == #[trigger] out_degree(ins1, x) + if list.skip(
                    0,
                ).contains(x) {
                    1nat
                } else {
                    0nat
                } by {
                lemma_degree_remove(ins0, idx as int, x);
                assert(list.skip(0) =~= list);
                assert(count_of(self.counts(), x) == out_degree(ins0, x));
            }
            assert(self@.edges =~= start.notify_finish(f).edges);
            assert(paths(output@) =~= Seq::empty());
        }
        let mut k: usize = 0;
        while k < entry.others.len()
            invariant
                k <= entry.others.len(),
                paths(entry.others@) == list,
                list.no_duplicates(),
                self.wf_edges(),
                self.ins() == ins1,
                self.in_edges@ == edges1,
                forall|i: int|
                    0 <= i < output@.len() ==> abs_views(entry.others@).contains(
                        #[trigger] output@[i]@,
                    ),
                self@ == start.notify_finish(f),
                forall|x: Seq<char>|
                    count_of(self.counts(), x) == #[trigger] out_degree(ins1, x) + if list.skip(
                        k as int,
                    ).contains(x) {
                        1nat
                    } else {
                        0nat
                    },
                paths(output@).no_duplicates(),
                forall|x: Seq<char>| #[trigger]
                    paths(output@).contains(x) <==> list.take(k as int).contains(x) && out_degree(
                        ins1,
                        x,
                    ) == 0,
            decreases entry.others.len() - k,
        {
            let depender = &entry.others[k];
            let ghost a = depender.path();
            let ghost out0 = paths(output@);
            let ghost counts0 = self.counts();
            let ghost cur = list.skip(k as int);
            let ghost tail = list.skip(k + 1);
            let ghost head = list.take(k as int);
            let ghost head1 = list.take(k + 1);
            proof {
                assert(list[k as int] == a);
                assert(cur[0] == a);
                assert(count_of(counts0, a) == out_degree(ins1, a) + 1);
                assert forall|x: Seq<char>| cur.contains(x) <==> x == a || tail.contains(x) by {
                    if cur.contains(x) {
                        let m = choose|m: int| 0 <= m < cur.len() && #[trigger] cur[m] == x;
                        if m > 0 {
                            assert(tail[m - 1] == x);
                        }
                    }
                    if tail.contains(x) {
                        let m = choose|m: int| 0 <= m < tail.len() && #[trigger] tail[m] == x;
                        assert(cur[m + 1] == x);
                    }
                }
                assert(!tail.contains(a)) by {
                    if tail.contains(a) {
                        let m = choose|m: int| 0 <= m < tail.len() && #[trigger] tail[m] == a;
                        assert(list[k + 1 + m] == a);
                    }
                }
                assert forall|x: Seq<char>| head1.contains(x) <==> x == a || head.contains(x) by {
                    if head1.contains(x) {
                        let m = choose|m: int| 0 <= m < head1.len() && #[trigger] head1[m] == x;
                        if m < k {
                            assert(head[m] == x);
                        }
                    }
                    if head.contains(x) {
                        let m = choose|m: int| 0 <= m < head.len() && #[trigger] head[m] == x;
                        assert(head1[m] == x);
                    }
                    if x == a {
                        assert(head1[k as int] == x);
                    }
                }
                assert(!head.contains(a)) by {
                    if head.contains(a) {
                        let m = choose|m: int| 0 <= m < head.len() && #[trigger] head[m] == a;
                        assert(list[m] == a);
                    }
                }
            }
            assert(abs_views(entry.others@)[k as int] == depender@);
            let free = self.decrement(depender);
            assert(count_of(self.counts(), a) + 1 == count_of(counts0, a));
            assert(free == (out_degree(ins1, a) == 0));
            if free {
                output.push(depender.clone());
                proof {
                    let new = paths(output@);
                    assert(new =~= out0.push(a));
                    assert(!out0.contains(a));
                    assert forall|i: int, j: int|
                        0 <= i < new.len() && 0 <= j < new.len() && i != j implies new[i]
                        != new[j] by {
                        if i < out0.len() {
                            assert(out0.contains(out0[i]));
                        }
                        if j < out0.len() {
                            assert(out0.contains(out0[j]));
                        }
                    }
                    assert forall|x: Seq<char>| paths(output@).contains(x) <==> out0.contains(x)
                        || x == a by {
                        if out0.contains(x) {
                            let m = choose|m: int| 0 <= m < out0.len() && #[trigger] out0[m] == x;
                            assert(paths(output@)[m] == x);
                        }
                        if x == a {
                            assert(paths(output@)[out0.len() as int] == x);
                        }
                    }
                }
            }
            proof {
                assert(self@.edges =~= start.notify_finish(f).edges);
                assert(self@.finished =~= start.notify_finish(f).finished);
                assert forall|x: Seq<char>| #[trigger]
                    paths(output@).contains(x) <==> head1.contains(x) && out_degree(ins1, x)
                        == 0 by {
                    assert(out0.contains(x) <==> head.contains(x) && out_degree(ins1, x) == 0);
                    assert(head1.contains(x) <==> x == a || head.contains(x));
                    if free {
                        assert(paths(output@).contains(x) <==> out0.contains(x) || x == a);
                    } else {
                        assert(paths(output@) == out0);
                    }
                }
                assert forall|x: Seq<char>|
                    count_of(self.counts(), x) == #[trigger] out_degree(ins1, x) + if list.skip(
                        k + 1,
                    ).contains(x) {
                        1nat
                    } else {
                        0nat
                    } by {
                    assert(count_of(counts0, x) == out_degree(ins1, x) + if cur.contains(x) {
                        1nat
                    } else {
                        0nat
                    });
                }
            }
            k += 1;
        }
        proof {
            assert(list.skip(list.len() as int) =~= Seq::empty());
            assert(list.take(list.len() as int) =~= list);
            assert forall|x: Seq<char>|
                count_of(self.counts(), x) == #[trigger] out_degree(self.ins(), x) by {
                assert(!list.skip(list.len() as int).contains(x));
            }
            assert forall|i: int| 0 <= i < output@.len() implies old(self).held().contains(
                #[trigger] output@[i]@,
            ) by {
                assert(edges0[idx as int].holds(output@[i]@));
            }
            assert forall|a: Seq<char>| paths(output@).contains(a) <==> start.released_by(
                f,
                a,
            ) by {
                lemma_degree_zero(ins1, a);
                if out_degree(ins1, a) == 0 {
                    assert forall|b: Seq<char>| !has_edge(ins1, a, b) by {}
                } else {
                    let i = choose|i: int| 0 <= i < ins1.len() && (#[trigger] ins1[i]).1.contains(a);
                    assert(has_edge(ins1, a, ins1[i].0));
                    assert(start.notify_finish(f).edges.contains((a, ins1[i].0)));
                }
            }
        }
        output
    }

    /// Convert the remaining graph to a list of `depender -> [dependencies]`
    ///
    /// Each file that still waits stands in it once, with each file that it
    /// waits for once. The list is empty where the graph has no edge.
    pub fn take_remaining(self) -> (r: Vec<EdgeList>)
        requires
            self.wf(),
        ensures
            distinct_keys(ins_of(r@)),
            distinct_others(ins_of(r@)),
            nonempty_others(ins_of(r@)),
            forall|a: Seq<char>, b: Seq<char>| #[trigger]
                has_edge(ins_of(r@), b, a) <==> self@.edges.contains((a, b)),
            r@.len() == 0 <==> self@.edges == Set::<(Seq<char>, Seq<char>)>::empty(),
            forall|x: AbsPathView| holds_path(r@, x) ==> self.held().contains(x),
    {
        let ghost ins = self.ins();
        let mut out_edges: Vec<EdgeList> = Vec::new();
        let mut i: usize = 0;
        assert(ins_of(out_edges@) =~= Seq::empty());
        while i < self.in_edges.len()
            invariant
                i <= self.in_edges.len(),
                ins == self.ins(),
                self.wf(),
                distinct_keys(ins_of(out_edges@)),
                distinct_others(ins_of(out_edges@)),
                nonempty_others(ins_of(out_edges@)),
                forall|a: Seq<char>, b: Seq<char>| #[trigger]
                    has_edge(ins_of(out_edges@), b, a) <==> seen(ins, i as int, 0, a, b),
                forall|x: AbsPathView| holds_path(out_edges@, x) ==> self.held().contains(x),
            decreases self.in_edges.len() - i,
        {
            let entry = &self.in_edges[i];
            let mut j: usize = 0;
            while j < entry.others.len()
                invariant
                    i < self.in_edges.len(),
                    j <= entry.others.len(),
                    ins == self.ins(),
                    *entry == self.in_edges@[i as int],
                    distinct_keys(ins_of(out_edges@)),
                    distinct_others(ins_of(out_edges@)),
                    nonempty_others(ins_of(out_edges@)),
                    forall|a: Seq<char>, b: Seq<char>| #[trigger]
                        has_edge(ins_of(out_edges@), b, a) <==> seen(ins, i as int, j as int, a, b),
                    forall|x: AbsPathView| holds_path(out_edges@, x) ==> self.held().contains(x),
                decreases entry.others.len() - j,
            {
                let ghost before = ins_of(out_edges@);
                proof {
                    assert(abs_views(entry.others@)[j as int] == entry.others@[j as int]@);
                    assert(self.in_edges@[i as int].holds(entry.others@[j as int]@));
                    assert(self.in_edges@[i as int].holds(entry.vertex@));
                }
                insert_edge(&mut out_edges, &entry.others[j], &entry.vertex);
                proof {
                    let k = entry.vertex.path();
                    let d = entry.others@[j as int].path();
                    assert(ins[i as int].0 == k);
                    assert(ins[i as int].1[j as int] == d);
                    assert forall|a: Seq<char>, b: Seq<char>| #[trigger]
                        has_edge(ins_of(out_edges@), b, a) <==> seen(ins, i as int, j + 1, a, b) by {
                        assert(has_edge(before, b, a) <==> seen(ins, i as int, j as int, a, b));
                        if seen(ins, i as int, j + 1, a, b) {
                            let (i1, j1) = choose|i1: int, j1: int| at(ins, i1, j1, a, b) && (i1 < i
                                || (i1 == i && j1 < j + 1));
                            if !(i1 == i && j1 == j) {
                                assert(at(ins, i1, j1, a, b) && (i1 < i || (i1 == i && j1 < j)));
                            }
                        }
                        if seen(ins, i as int, j as int, a, b) {
                            let (i1, j1) = choose|i1: int, j1: int| at(ins, i1, j1, a, b) && (i1 < i
                                || (i1 == i && j1 < j));
                            assert(at(ins, i1, j1, a, b) && (i1 < i || (i1 == i && j1 < j + 1)));
                        }
                        if a == d && b == k {
                            assert(at(ins, i as int, j as int, a, b) && (i < i || (i == i && j < j
                                + 1)));
                        }
                    }
                }
                j += 1;
            }
            proof {
                assert forall|a: Seq<char>, b: Seq<char>| #[trigger]
                    has_edge(ins_of(out_edges@), b, a) <==> seen(ins, i + 1, 0, a, b) by {
                    let n = entry.others.len() as int;
                    assert(has_edge(ins_of(out_edges@), b, a) <==> seen(ins, i as int, n, a, b));
                    if seen(ins, i + 1, 0, a, b) {
                        let (i1, j1) = choose|i1: int, j1: int| at(ins, i1, j1, a, b) && (i1 < i + 1
                            || (i1 == i + 1 && j1 < 0));
                        assert(at(ins, i1, j1, a, b) && (i1 < i || (i1 == i && j1 < n)));
                    }
                    if seen(ins, i as int, n, a, b) {
                        let (i1, j1) = choose|i1: int, j1: int| at(ins, i1, j1, a, b) && (i1 < i
                            || (i1 == i && j1 < n));
                        assert(at(ins, i1, j1, a, b) && (i1 < i + 1 || (i1 == i + 1 && j1 < 0)));
                    }
                }
            }
            i += 1;
        }
        proof {
            let outs = ins_of(out_edges@);
            assert forall|a: Seq<char>, b: Seq<char>| #[trigger]
                has_edge(outs, b, a) <==> self@.edges.contains((a, b)) by {
                if seen(ins, ins.len() as int, 0, a, b) {
                    let (i1, j1) = choose|i1: int, j1: int| at(ins, i1, j1, a, b) && (i1 < ins.len()
                        || (i1 == ins.len() && j1 < 0));
                    assert(ins[i1].1.contains(a));
                }
                if has_edge(ins, a, b) {
                    let i1 = choose|i1: int|
                        0 <= i1 < ins.len() && (#[trigger] ins[i1]).0 == b && ins[i1].1.contains(a);
                    let j1 = choose|j1: int| 0 <= j1 < ins[i1].1.len() && ins[i1].1[j1] == a;
                    assert(at(ins, i1, j1, a, b) && (i1 < ins.len() || (i1 == ins.len() && j1 < 0)));
                }
            }
            if outs.len() > 0 {
                let a = outs[0].0;
                let b = outs[0].1[0];
                assert(outs[0].1.contains(b));
                assert(has_edge(outs, b, a));
                assert(self@.edges.contains((a, b)));
            } else {
                assert forall|e: (Seq<char>, Seq<char>)| !self@.edges.contains(e) by {
                    assert(!has_edge(outs, e.1, e.0));
                }
                assert(self@.edges =~= Set::<(Seq<char>, Seq<char>)>::empty());
            }
        }
        out_edges
    }
}

/// Whether the edge lists hold the edge from `a` to `b` at the place `j` of the list `i`.
pub open spec fn at(
    ins: EdgeLists,
    i: int,
    j: int,
    a: Seq<char>,
    b: Seq<char>,
) -> bool {
    0 <= i < ins.len() && 0 <= j < ins[i].1.len() && ins[i].0 == b && ins[i].1[j] == a
}

/// Whether the edge lists hold the edge from `a` to `b` before the place
/// `j` of the list `i`.
pub open spec fn seen(
    ins: EdgeLists,
    i: int,
    j: int,
    a: Seq<char>,
    b: Seq<char>,
) -> bool {
    exists|i1: int, j1: int| #[trigger] at(ins, i1, j1, a, b) && (i1 < i || (i1 == i && j1 < j))
}

/// The files that `a` waits for, going by the edge lists.
pub open spec fn targets(ins: EdgeLists, a: Seq<char>) -> Set<Seq<char>> {
    Set::new(|b: Seq<char>| has_edge(ins, a, b))
}

/// Where no key stands twice, the degree of a file is the number of files
/// that it waits for.
proof fn lemma_degree_is_cardinality(ins: EdgeLists, a: Seq<char>)
    requires
        distinct_keys(ins),
    ensures
        targets(ins, a).finite(),
        targets(ins, a).len() == out_degree(ins, a),
    decreases ins.len(),
{
    if ins.len() == 0 {
        assert(targets(ins, a) =~= Set::empty());
    } else {
        let init = ins.drop_last();
        let last = ins.last();
        assert forall|j: int| 0 <= j < init.len() implies #[trigger] init[j] == ins[j] by {}
        lemma_degree_is_cardinality(init, a);
        assert forall|b: Seq<char>|
            has_edge(ins, a, b) <==> has_edge(init, a, b) || (b == last.0 && last.1.contains(
                a,
            )) by {
            if has_edge(ins, a, b) {
                let i = choose|i: int|
                    0 <= i < ins.len() && (#[trigger] ins[i]).0 == b && ins[i].1.contains(a);
                if i < init.len() {
                    assert(init[i] == ins[i]);
                }
            }
            if has_edge(init, a, b) {
                let i = choose|i: int|
                    0 <= i < init.len() && (#[trigger] init[i]).0 == b && init[i].1.contains(a);
                assert(ins[i] == init[i]);
            }
            if b == last.0 && last.1.contains(a) {
                assert(ins[ins.len() - 1] == last);
            }
        }
        if last.1.contains(a) {
            assert(!has_edge(init, a, last.0)) by {
                if has_edge(init, a, last.0) {
                    let i = choose|i: int|
                        0 <= i < init.len() && (#[trigger] init[i]).0 == last.0 && init[i].1.contains(
                            a,
                        );
                    assert(ins[i].0 == ins[ins.len() - 1].0);
                }
            }
            assert(targets(ins, a) =~= targets(init, a).insert(last.0));
        } else {
            assert(targets(ins, a) =~= targets(init, a));
        }
    }
}

impl DepGraph {
    /// The files that `a` waits for.
    pub open spec fn dependencies_of(self, a: Seq<char>) -> Set<Seq<char>> {
        Set::new(|b: Seq<char>| self.edges.contains((a, b)))
    }

    /// Whether `a` waits for one of the files.
    pub open spec fn waits_in(self, files: Set<Seq<char>>, a: Seq<char>) -> bool {
        exists|b: Seq<char>| files.contains(b) && #[trigger] self.edges.contains((a, b))
    }

    /// Whether each file of the set waits for a file of the set. The files
    /// on a cycle of dependencies are such a set.
    pub open spec fn closed_under_waiting(self, files: Set<Seq<char>>) -> bool {
        forall|a: Seq<char>| files.contains(a) ==> #[trigger] self.waits_in(files, a)
    }
}

impl DepManager {
    /// The count that is kept for a file is the number of unfinished files
    /// that it waits for.
    pub proof fn lemma_out_count(&self, a: Seq<char>)
        requires
            self.wf(),
        ensures
            self@.dependencies_of(a).finite(),
            self.out_count(a) == self@.dependencies_of(a).len(),
            forall|b: Seq<char>| self@.dependencies_of(a).contains(b) ==> !self@.finished.contains(b),
    {
        lemma_degree_is_cardinality(self.ins(), a);
        assert(self@.dependencies_of(a) =~= targets(self.ins(), a));
        assert(self.out_count(a) == out_degree(self.ins(), a));
        self.lemma_no_edge_to_finished();
    }
}

/// Files that wait for each other are never released: while only files
/// outside of such a set finish, each file of the set goes on waiting for a
/// file of the set, and the graph keeps an edge for each of them.
pub proof fn lemma_cycle_is_never_released(g: DepGraph, cycle: Set<Seq<char>>, f: Seq<char>)
    requires
        g.closed_under_waiting(cycle),
        !cycle.contains(f),
    ensures
        g.notify_finish(f).closed_under_waiting(cycle),
        forall|a: Seq<char>| cycle.contains(a) ==> !g.released_by(f, a),
        forall|a: Seq<char>| cycle.contains(a) ==> g.notify_finish(f).blocked(a),
{
    let h = g.notify_finish(f);
    assert forall|a: Seq<char>| cycle.contains(a) implies #[trigger] h.waits_in(cycle, a) by {
        assert(g.waits_in(cycle, a));
        let b = choose|b: Seq<char>| cycle.contains(b) && #[trigger] g.edges.contains((a, b));
        assert(h.edges.contains((a, b)));
    }
    assert forall|a: Seq<char>| cycle.contains(a) implies h.blocked(a) by {
        assert(h.waits_in(cycle, a));
    }
    assert forall|a: Seq<char>| cycle.contains(a) implies !g.released_by(f, a) by {
        assert(h.blocked(a));
    }
}

/// New dependencies release nothing: files that wait for each other still do
/// once edges are added.
pub proof fn lemma_cycle_survives_add(
    g: DepGraph,
    cycle: Set<Seq<char>>,
    depender: Seq<char>,
    dependencies: Seq<Seq<char>>,
)
    requires
        g.closed_under_waiting(cycle),
    ensures
        g.add_dependency(depender, dependencies).closed_under_waiting(cycle),
{
    let h = g.add_dependency(depender, dependencies);
    assert forall|a: Seq<char>| cycle.contains(a) implies #[trigger] h.waits_in(cycle, a) by {
        assert(g.waits_in(cycle, a));
        let b = choose|b: Seq<char>| cycle.contains(b) && #[trigger] g.edges.contains((a, b));
        assert(h.edges.contains((a, b)));
    }
}

/// Each path as it is shown beside its base.
pub open spec fn shown(v: Seq<AbsPath>) -> Seq<Seq<char>> {
    Seq::new(v.len(), |i: int| spec_path_string_from_base(v[i].base(), v[i].path()))
}

/// A line for each file, each marked as one of several.
pub open spec fn spec_branches(deps: Seq<Seq<char>>) -> Seq<char>
    decreases deps.len(),
{
    if deps.len() == 0 {
        Seq::empty()
    } else {
        spec_branches(deps.drop_last()) + "├╴"@ + deps.last() + "\n"@
    }
}

/// A file and what it waits for: a line for the file, a line for each
/// file that it waits for, the last of them marked as the last, and an
/// empty line.
pub open spec fn spec_print_entry(file: Seq<char>, deps: Seq<Seq<char>>) -> Seq<char> {
    file + "\n"@ + (if deps.len() == 0 {
        Seq::empty()
    } else {
        spec_branches(deps.drop_last()) + "╰╴"@ + deps.last() + "\n"@
    }) + "\n"@
}

/// The edges that are left of a graph, as they are reported.
pub open spec fn spec_print_dep_map(map: Seq<EdgeList>) -> Seq<char>
    decreases map.len(),
{
    if map.len() == 0 {
        Seq::empty()
    } else {
        spec_print_dep_map(map.drop_last()) + spec_print_entry(
            spec_path_string_from_base(map.last().vertex.base(), map.last().vertex.path()),
            shown(map.last().others@),
        )
    }
}

/// The edges that are left of a graph, as they are reported: see [`spec_print_entry`].
pub fn print_dep_map(map: &Vec<EdgeList>) -> (out: String)
    ensures
        out@ == spec_print_dep_map(map@),
{
    let mut out = String::new();
    let mut n: usize = 0;
    assert(map@.take(0) =~= Seq::empty());
    while n < map.len()
        invariant
            n <= map.len(),
            out@ == spec_print_dep_map(map@.take(n as int)),
        decreases map.len() - n,
    {
        let k = &map[n].vertex;
        let v = &map[n].others;
        let ghost before = out@;
        let ghost deps = shown(v@);
        out.append(k.to_string().as_str());
        out.append("\n");
        let ghost head = out@;
        let mut i: usize = 0;
        assert(deps.take(0) =~= Seq::empty());
        assert(head + spec_branches(deps.take(0)) =~= head);
        while i < v.len()
            invariant
                i <= v.len(),
                deps == shown(v@),
                i < v.len() ==> out@ == head + spec_branches(deps.take(i as int)),
                i == v.len() ==> out@ == head + if deps.len() == 0 {
                    Seq::empty()
                } else {
                    spec_branches(deps.drop_last()) + "╰╴"@ + deps.last() + "\n"@
                },
            decreases v.len() - i,
        {
            let ghost sofar = out@;
            if i == v.len() - 1 {
                out.append("╰╴");
                assert(deps.take(i as int) =~= deps.drop_last());
            } else {
                out.append("├╴");
                assert(deps.take(i + 1).drop_last() =~= deps.take(i as int));
                assert(deps.take(i + 1).last() == deps[i as int]);
            }
            out.append(v[i].to_string().as_str());
            out.append("\n");
            proof {
                if i == v.len() - 1 {
                    assert(out@ =~= head + (spec_branches(deps.drop_last()) + "╰╴"@ + deps.last()
                        + "\n"@));
                } else {
                    assert(out@ =~= head + spec_branches(deps.take(i + 1)));
                }
            }
            i += 1;
        }
        out.append("\n");
        proof {
            let next = map@.take(n + 1);
            assert(next.drop_last() =~= map@.take(n as int));
            assert(next.last() == map@[n as int]);
            let file = spec_path_string_from_base(k.base(), k.path());
            assert(out@ =~= before + spec_print_entry(file, deps));
        }
        n += 1;
    }
    assert(map@.take(map.len() as int) =~= map@);
    out
}

/// What is told to a graph in the course of a run.
pub enum GraphEvent {
    /// The file was found to depend on these files.
    HasDeps(Seq<char>, Seq<Seq<char>>),
    /// The file is finished.
    Finished(Seq<char>),
}

impl DepGraph {
    /// The graph after it was told of the events, one after the other.
    pub open spec fn after(self, events: Seq<GraphEvent>) -> DepGraph
        decreases events.len(),
    {
        if events.len() == 0 {
            self
        } else {
            let g = self.after(events.drop_last());
            match events.last() {
                GraphEvent::HasDeps(depender, dependencies) => g.add_dependency(
                    depender,
                    dependencies,
                ),
                GraphEvent::Finished(f) => g.notify_finish(f),
            }
        }
    }
}

/// Files that wait for each other do so to the end of a run: whatever
/// dependencies are found and whatever other files are finished, none of
/// them finishing themselves, each of them still waits for one of them
/// afterwards. So the graph that is left is not empty, and holds an edge
/// for each of them.
pub proof fn lemma_cycle_survives_a_run(
    g: DepGraph,
    cycle: Set<Seq<char>>,
    events: Seq<GraphEvent>,
)
    requires
        g.closed_under_waiting(cycle),
        forall|i: int|
            0 <= i < events.len() && (#[trigger] events[i]) is Finished ==> !cycle.contains(
                events[i]->Finished_0,
            ),
    ensures
        g.after(events).closed_under_waiting(cycle),
        forall|a: Seq<char>| cycle.contains(a) ==> g.after(events).blocked(a),
    decreases events.len(),
{
    if events.len() > 0 {
        let init = events.drop_last();
        assert forall|i: int| 0 <= i < init.len() && (#[trigger] init[i]) is Finished implies !cycle.contains(
            init[i]->Finished_0,
        ) by {
            assert(init[i] == events[i]);
        }
        lemma_cycle_survives_a_run(g, cycle, init);
        let h = g.after(init);
        assert(events[events.len() - 1] == events.last());
        match events.last() {
            GraphEvent::HasDeps(depender, dependencies) => {
                lemma_cycle_survives_add(h, cycle, depender, dependencies);
            },
            GraphEvent::Finished(f) => {
                lemma_cycle_is_never_released(h, cycle, f);
            },
        }
    }
    let last = g.after(events);
    assert forall|a: Seq<char>| cycle.contains(a) implies last.blocked(a) by {
        assert(last.waits_in(cycle, a));
        let b = choose|b: Seq<char>| cycle.contains(b) && #[trigger] last.edges.contains((a, b));
        assert(last.edges.contains((a, b)));
    }
}

} // verus!
