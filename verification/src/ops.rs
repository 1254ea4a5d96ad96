//! The set-operation engine: given two directory indices, compute which
//! files are identical, which are unique to either side, and which
//! duplicates a prune pass would delete.

use vstd::prelude::*;
use crate::index::DirectoryIndex;
use crate::index::IndexEntry;
use crate::index::distinct_digests;
use crate::index::has_digest;
use crate::index::lemma_map_of_at_all;
use crate::index::lemma_map_of_dom_all;
use crate::index::lemma_map_of_dom_finite;
use crate::index::map_of;
use crate::paths::dest_of;
use crate::paths::dest_path;

verus! {

/// One planned move of the merge action: rename the file at `src` to
/// `dest`.
pub struct MoveOp {
    pub src: String,
    pub dest: String,
}

/// A pair of paths, one per directory, whose files have the same digest.
pub struct PathPair {
    pub path_a: String,
    pub path_b: String,
}

/// The pairs of identical files of the indices `a` and `b`: a pair of paths
/// belongs to the set iff the two files share a digest recorded in both
/// indices, the first path recorded in `a` and the second in `b`.
pub open spec fn matched_pair_set(
    a: Map<Seq<char>, Seq<char>>,
    b: Map<Seq<char>, Seq<char>>,
) -> Set<(Seq<char>, Seq<char>)> {
    Set::new(
        |p: (Seq<char>, Seq<char>)|
            exists|d: Seq<char>|
                #![auto]
                a.dom().contains(d) && b.dom().contains(d) && p.0 == a[d] && p.1 == b[d],
    )
}

/// The paths of `a` whose digest has no match in `b`: the files unique to
/// `a`'s directory.
pub open spec fn unique_path_set(
    a: Map<Seq<char>, Seq<char>>,
    b: Map<Seq<char>, Seq<char>>,
) -> Set<Seq<char>> {
    Set::new(
        |p: Seq<char>|
            exists|d: Seq<char>|
                #![auto]
                a.dom().contains(d) && !b.dom().contains(d) && p == a[d],
    )
}

/// The paths of `prune` whose digest also stands in `keep`: the duplicates
/// that pruning in favour of `keep` deletes from `prune`'s directory.
pub open spec fn duplicate_path_set(
    keep: Map<Seq<char>, Seq<char>>,
    prune: Map<Seq<char>, Seq<char>>,
) -> Set<Seq<char>> {
    Set::new(
        |p: Seq<char>|
            exists|d: Seq<char>|
                #![auto]
                keep.dom().contains(d) && prune.dom().contains(d) && p == prune[d],
    )
}

/// The set of path pairs that a report holds.
pub open spec fn pair_set(r: Seq<PathPair>) -> Set<(Seq<char>, Seq<char>)> {
    Set::new(
        |p: (Seq<char>, Seq<char>)|
            exists|i: int|
                #![auto]
                0 <= i < r.len() && p.0 == r[i].path_a@ && p.1 == r[i].path_b@,
    )
}

/// The set of paths that a report holds.
pub open spec fn path_set(r: Seq<String>) -> Set<Seq<char>> {
    Set::new(|p: Seq<char>| exists|i: int| #![auto] 0 <= i < r.len() && p == r[i]@)
}

/// How many of the first `i` entries carry a digest that `ds` holds.
spec fn matched_count(entries: Seq<IndexEntry>, ds: Set<Seq<char>>, i: int) -> int
    decreases i,
{
    if i <= 0 {
        0
    } else {
        matched_count(entries, ds, i - 1) + if ds.contains(entries[i - 1].digest@) {
            1int
        } else {
            0int
        }
    }
}

/// How many of the first `i` entries carry a digest that `ds` lacks.
spec fn unmatched_count(entries: Seq<IndexEntry>, ds: Set<Seq<char>>, i: int) -> int
    decreases i,
{
    if i <= 0 {
        0
    } else {
        unmatched_count(entries, ds, i - 1) + if !ds.contains(entries[i - 1].digest@) {
            1int
        } else {
            0int
        }
    }
}

/// Under distinct digests, the matched count over the first `i` entries is
/// the cardinality of the intersection of their digest set with `ds`, and
/// the unmatched count that of the difference.
proof fn lemma_counts_are_cards(entries: Seq<IndexEntry>, ds: Set<Seq<char>>, i: int)
    requires
        distinct_digests(entries),
        0 <= i <= entries.len(),
    ensures
        map_of(entries.take(i)).dom().intersect(ds).len() == matched_count(entries, ds, i),
        map_of(entries.take(i)).dom().difference(ds).len() == unmatched_count(entries, ds, i),
    decreases i,
{
    broadcast use vstd::set::group_set_axioms;

    if i == 0 {
        assert(entries.take(0) =~= Seq::<IndexEntry>::empty());
        assert(map_of(entries.take(0)).dom().intersect(ds) =~= Set::<Seq<char>>::empty());
        assert(map_of(entries.take(0)).dom().difference(ds) =~= Set::<Seq<char>>::empty());
    } else {
        lemma_counts_are_cards(entries, ds, i - 1);
        let t = entries.take(i);
        let tp = entries.take(i - 1);
        assert(t.drop_last() =~= tp);
        assert(t.last() == entries[i - 1]);
        let d = entries[i - 1].digest@;
        let s_prev = map_of(tp).dom();
        assert(map_of(t).dom() =~= s_prev.insert(d));
        lemma_map_of_dom_finite(tp);
        lemma_map_of_dom_all(tp);
        assert(!s_prev.contains(d)) by {
            if has_digest(tp, d) {
                let j = choose|j: int| 0 <= j < tp.len() && #[trigger] tp[j].digest@ == d;
                assert(entries[j].digest@ == d);
                assert(entries[j].digest@ != entries[i - 1].digest@);
            }
        }
        if ds.contains(d) {
            assert(!s_prev.intersect(ds).contains(d));
            assert(s_prev.insert(d).intersect(ds) =~= s_prev.intersect(ds).insert(d));
            assert(s_prev.insert(d).difference(ds) =~= s_prev.difference(ds));
        } else {
            assert(!s_prev.difference(ds).contains(d));
            assert(s_prev.insert(d).intersect(ds) =~= s_prev.intersect(ds));
            assert(s_prev.insert(d).difference(ds) =~= s_prev.difference(ds).insert(d));
        }
    }
}

/// Against the empty digest set, every entry counts as unmatched.
proof fn lemma_unmatched_count_empty(entries: Seq<IndexEntry>, i: int)
    requires
        0 <= i,
    ensures
        unmatched_count(entries, Set::<Seq<char>>::empty(), i) == i,
    decreases i,
{
    broadcast use vstd::set::group_set_axioms;

    if i > 0 {
        lemma_unmatched_count_empty(entries, i - 1);
    }
}

/// Report the identical files of `a` and `b`: for every digest present in
/// both indices, the pair of recorded paths, in `a`'s entry order.
#[verifier::loop_isolation(false)]
pub fn same_files(a: &DirectoryIndex, b: &DirectoryIndex) -> (r: Vec<PathPair>)
    requires
        a.wf(),
        b.wf(),
    ensures
        pair_set(r@) == matched_pair_set(a@, b@),
        r@.len() == a@.dom().intersect(b@.dom()).len(),
{
    proof {
        lemma_map_of_dom_all(a.entries@);
        lemma_map_of_at_all(a.entries@);
    }
    let mut r: Vec<PathPair> = Vec::new();
    let n = a.entries.len();
    let mut i: usize = 0;
    while i < n
        invariant
            i <= n,
            r@.len() == matched_count(a.entries@, b@.dom(), i as int),
            forall|k: int| #![trigger r@[k]] 0 <= k < r@.len() ==> exists|d: Seq<char>|
                #![auto]
                a@.dom().contains(d) && b@.dom().contains(d) && r@[k].path_a@ == a@[d]
                    && r@[k].path_b@ == b@[d],
            forall|j: int| #![trigger a.entries@[j]]
                0 <= j < i && b@.dom().contains(a.entries@[j].digest@) ==> exists|k: int|
                    #![auto]
                    0 <= k < r@.len() && r@[k].path_a@ == a.entries@[j].path@ && r@[k].path_b@
                        == b@[a.entries@[j].digest@],
        decreases n - i,
    {
        let ghost r_prev = r@;
        let matched = b.contains_digest(&a.entries[i].digest);
        if matched {
            let pb = b.get_path(&a.entries[i].digest);
            let pa = a.entries[i].path.clone();
            r.push(PathPair { path_a: pa, path_b: pb });
        }
        proof {
            let d_i = a.entries@[i as int].digest@;
            assert forall|k: int| #![trigger r@[k]] 0 <= k < r@.len() implies exists|d: Seq<char>|
                #![auto]
                a@.dom().contains(d) && b@.dom().contains(d) && r@[k].path_a@ == a@[d]
                    && r@[k].path_b@ == b@[d] by {
                if k < r_prev.len() {
                    assert(r@[k] == r_prev[k]);
                } else {
                    assert(matched && k == r@.len() - 1);
                    assert(a@.dom().contains(d_i) && b@.dom().contains(d_i) && r@[k].path_a@
                        == a@[d_i] && r@[k].path_b@ == b@[d_i]);
                }
            }
            assert forall|j: int| #![trigger a.entries@[j]]
                0 <= j < i + 1 && b@.dom().contains(a.entries@[j].digest@) implies exists|k: int|
                #![auto]
                0 <= k < r@.len() && r@[k].path_a@ == a.entries@[j].path@ && r@[k].path_b@
                    == b@[a.entries@[j].digest@] by {
                if j == i {
                    assert(matched);
                    assert(r@[r@.len() - 1].path_a@ == a.entries@[j].path@ && r@[r@.len()
                        - 1].path_b@ == b@[a.entries@[j].digest@]);
                } else {
                    let k = choose|k: int|
                        #![auto]
                        0 <= k < r_prev.len() && r_prev[k].path_a@ == a.entries@[j].path@
                            && r_prev[k].path_b@ == b@[a.entries@[j].digest@];
                    assert(r@[k] == r_prev[k]);
                }
            }
        }
        i += 1;
    }
    proof {
        assert forall|p: (Seq<char>, Seq<char>)| pair_set(r@).contains(p) implies matched_pair_set(
            a@,
            b@,
        ).contains(p) by {
            let k = choose|k: int|
                #![auto]
                0 <= k < r@.len() && p.0 == r@[k].path_a@ && p.1 == r@[k].path_b@;
            let d = choose|d: Seq<char>|
                #![auto]
                a@.dom().contains(d) && b@.dom().contains(d) && r@[k].path_a@ == a@[d]
                    && r@[k].path_b@ == b@[d];
            assert(a@.dom().contains(d) && b@.dom().contains(d) && p.0 == a@[d] && p.1 == b@[d]);
        }
        assert forall|p: (Seq<char>, Seq<char>)| matched_pair_set(a@, b@).contains(p) implies
            pair_set(r@).contains(p) by {
            let d = choose|d: Seq<char>|
                #![auto]
                a@.dom().contains(d) && b@.dom().contains(d) && p.0 == a@[d] && p.1 == b@[d];
            assert(has_digest(a.entries@, d));
            let j = choose|j: int|
                0 <= j < a.entries@.len() && #[trigger] a.entries@[j].digest@ == d;
            assert(a@[d] == a.entries@[j].path@);
            let k = choose|k: int|
                #![auto]
                0 <= k < r@.len() && r@[k].path_a@ == a.entries@[j].path@ && r@[k].path_b@
                    == b@[a.entries@[j].digest@];
            assert(p.0 == r@[k].path_a@ && p.1 == r@[k].path_b@);
        }
        assert(pair_set(r@) =~= matched_pair_set(a@, b@));
        lemma_counts_are_cards(a.entries@, b@.dom(), n as int);
        assert(a.entries@.take(n as int) =~= a.entries@);
    }
    r
}

/// Report the paths of `a` whose digest has no match in `b`: the files
/// unique to `a`'s directory, in `a`'s entry order.
#[verifier::loop_isolation(false)]
pub fn unique_paths(a: &DirectoryIndex, b: &DirectoryIndex) -> (r: Vec<String>)
    requires
        a.wf(),
        b.wf(),
    ensures
        path_set(r@) == unique_path_set(a@, b@),
        r@.len() == a@.dom().difference(b@.dom()).len(),
{
    proof {
        lemma_map_of_dom_all(a.entries@);
        lemma_map_of_at_all(a.entries@);
    }
    let mut r: Vec<String> = Vec::new();
    let n = a.entries.len();
    let mut i: usize = 0;
    while i < n
        invariant
            i <= n,
            r@.len() == unmatched_count(a.entries@, b@.dom(), i as int),
            forall|k: int| #![trigger r@[k]] 0 <= k < r@.len() ==> exists|d: Seq<char>|
                #![auto]
                a@.dom().contains(d) && !b@.dom().contains(d) && r@[k]@ == a@[d],
            forall|j: int| #![trigger a.entries@[j]]
                0 <= j < i && !b@.dom().contains(a.entries@[j].digest@) ==> exists|k: int|
                    #![auto]
                    0 <= k < r@.len() && r@[k]@ == a.entries@[j].path@,
        decreases n - i,
    {
        let ghost r_prev = r@;
        let matched = b.contains_digest(&a.entries[i].digest);
        if !matched {
            let pa = a.entries[i].path.clone();
            r.push(pa);
        }
        proof {
            let d_i = a.entries@[i as int].digest@;
            assert forall|k: int| #![trigger r@[k]] 0 <= k < r@.len() implies exists|d: Seq<char>|
                #![auto]
                a@.dom().contains(d) && !b@.dom().contains(d) && r@[k]@ == a@[d] by {
                if k < r_prev.len() {
                    assert(r@[k] == r_prev[k]);
                } else {
                    assert(!matched && k == r@.len() - 1);
                    assert(a@.dom().contains(d_i) && !b@.dom().contains(d_i) && r@[k]@ == a@[d_i]);
                }
            }
            assert forall|j: int| #![trigger a.entries@[j]]
                0 <= j < i + 1 && !b@.dom().contains(a.entries@[j].digest@) implies exists|k: int|
                #![auto]
                0 <= k < r@.len() && r@[k]@ == a.entries@[j].path@ by {
                if j == i {
                    assert(!matched);
                    assert(r@[r@.len() - 1]@ == a.entries@[j].path@);
                } else {
                    let k = choose|k: int|
                        #![auto]
                        0 <= k < r_prev.len() && r_prev[k]@ == a.entries@[j].path@;
                    assert(r@[k] == r_prev[k]);
                }
            }
        }
        i += 1;
    }
    proof {
        assert forall|p: Seq<char>| path_set(r@).contains(p) implies unique_path_set(
            a@,
            b@,
        ).contains(p) by {
            let k = choose|k: int| #![auto] 0 <= k < r@.len() && p == r@[k]@;
            let d = choose|d: Seq<char>|
                #![auto]
                a@.dom().contains(d) && !b@.dom().contains(d) && r@[k]@ == a@[d];
            assert(a@.dom().contains(d) && !b@.dom().contains(d) && p == a@[d]);
        }
        assert forall|p: Seq<char>| unique_path_set(a@, b@).contains(p) implies path_set(
            r@,
        ).contains(p) by {
            let d = choose|d: Seq<char>|
                #![auto]
                a@.dom().contains(d) && !b@.dom().contains(d) && p == a@[d];
            assert(has_digest(a.entries@, d));
            let j = choose|j: int|
                0 <= j < a.entries@.len() && #[trigger] a.entries@[j].digest@ == d;
            assert(a@[d] == a.entries@[j].path@);
            let k = choose|k: int| #![auto] 0 <= k < r@.len() && r@[k]@ == a.entries@[j].path@;
            assert(p == r@[k]@);
        }
        assert(path_set(r@) =~= unique_path_set(a@, b@));
        lemma_counts_are_cards(a.entries@, b@.dom(), n as int);
        assert(a.entries@.take(n as int) =~= a.entries@);
    }
    r
}

/// Report the paths of `prune` whose digest also stands in `keep`: the
/// files that pruning duplicates in favour of `keep` deletes from `prune`'s
/// directory. Paths of `prune` with no match in `keep` are not reported and
/// stay untouched.
#[verifier::loop_isolation(false)]
pub fn duplicate_paths(keep: &DirectoryIndex, prune: &DirectoryIndex) -> (r: Vec<String>)
    requires
        keep.wf(),
        prune.wf(),
    ensures
        path_set(r@) == duplicate_path_set(keep@, prune@),
        r@.len() == keep@.dom().intersect(prune@.dom()).len(),
{
    proof {
        lemma_map_of_dom_all(prune.entries@);
        lemma_map_of_at_all(prune.entries@);
    }
    let mut r: Vec<String> = Vec::new();
    let n = prune.entries.len();
    let mut i: usize = 0;
    while i < n
        invariant
            i <= n,
            r@.len() == matched_count(prune.entries@, keep@.dom(), i as int),
            forall|k: int| #![trigger r@[k]] 0 <= k < r@.len() ==> exists|d: Seq<char>|
                #![auto]
                keep@.dom().contains(d) && prune@.dom().contains(d) && r@[k]@ == prune@[d],
            forall|j: int| #![trigger prune.entries@[j]]
                0 <= j < i && keep@.dom().contains(prune.entries@[j].digest@) ==> exists|k: int|
                    #![auto]
                    0 <= k < r@.len() && r@[k]@ == prune.entries@[j].path@,
        decreases n - i,
    {
        let ghost r_prev = r@;
        let matched = keep.contains_digest(&prune.entries[i].digest);
        if matched {
            let p = prune.entries[i].path.clone();
            r.push(p);
        }
        proof {
            let d_i = prune.entries@[i as int].digest@;
            assert forall|k: int| #![trigger r@[k]] 0 <= k < r@.len() implies exists|d: Seq<char>|
                #![auto]
                keep@.dom().contains(d) && prune@.dom().contains(d) && r@[k]@ == prune@[d] by {
                if k < r_prev.len() {
                    assert(r@[k] == r_prev[k]);
                } else {
                    assert(matched && k == r@.len() - 1);
                    assert(keep@.dom().contains(d_i) && prune@.dom().contains(d_i) && r@[k]@
                        == prune@[d_i]);
                }
            }
            assert forall|j: int| #![trigger prune.entries@[j]]
                0 <= j < i + 1 && keep@.dom().contains(prune.entries@[j].digest@) implies exists|
                k: int,
            |
                #![auto]
                0 <= k < r@.len() && r@[k]@ == prune.entries@[j].path@ by {
                if j == i {
                    assert(matched);
                    assert(r@[r@.len() - 1]@ == prune.entries@[j].path@);
                } else {
                    let k = choose|k: int|
                        #![auto]
                        0 <= k < r_prev.len() && r_prev[k]@ == prune.entries@[j].path@;
                    assert(r@[k] == r_prev[k]);
                }
            }
        }
        i += 1;
    }
    proof {
        assert forall|p: Seq<char>| path_set(r@).contains(p) implies duplicate_path_set(
            keep@,
            prune@,
        ).contains(p) by {
            let k = choose|k: int| #![auto] 0 <= k < r@.len() && p == r@[k]@;
            let d = choose|d: Seq<char>|
                #![auto]
                keep@.dom().contains(d) && prune@.dom().contains(d) && r@[k]@ == prune@[d];
            assert(keep@.dom().contains(d) && prune@.dom().contains(d) && p == prune@[d]);
        }
        assert forall|p: Seq<char>| duplicate_path_set(keep@, prune@).contains(p) implies path_set(
            r@,
        ).contains(p) by {
            let d = choose|d: Seq<char>|
                #![auto]
                keep@.dom().contains(d) && prune@.dom().contains(d) && p == prune@[d];
            assert(has_digest(prune.entries@, d));
            let j = choose|j: int|
                0 <= j < prune.entries@.len() && #[trigger] prune.entries@[j].digest@ == d;
            assert(prune@[d] == prune.entries@[j].path@);
            let k = choose|k: int| #![auto] 0 <= k < r@.len() && r@[k]@ == prune.entries@[j].path@;
            assert(p == r@[k]@);
        }
        assert(path_set(r@) =~= duplicate_path_set(keep@, prune@));
        lemma_counts_are_cards(prune.entries@, keep@.dom(), n as int);
        assert(prune.entries@.take(n as int) =~= prune.entries@);
        assert(prune@.dom().intersect(keep@.dom()) =~= keep@.dom().intersect(prune@.dom()));
    }
    r
}

/// The set of every path recorded in an index.
pub open spec fn all_path_set(a: Map<Seq<char>, Seq<char>>) -> Set<Seq<char>> {
    Set::new(|p: Seq<char>| exists|d: Seq<char>| #![auto] a.dom().contains(d) && p == a[d])
}

/// The paths that the merge action moves into the output directory: every
/// path of `a`, and every path of `b` whose digest is absent from `a`.
/// Paths of `b` whose digest duplicates one of `a` do not belong to the
/// set: those files are left in place, neither moved nor deleted.
pub open spec fn merge_source_set(
    a: Map<Seq<char>, Seq<char>>,
    b: Map<Seq<char>, Seq<char>>,
) -> Set<Seq<char>> {
    all_path_set(a).union(unique_path_set(b, a))
}

/// The set of source paths that a move plan holds.
pub open spec fn move_src_set(r: Seq<MoveOp>) -> Set<Seq<char>> {
    Set::new(|p: Seq<char>| exists|i: int| #![auto] 0 <= i < r.len() && p == r[i].src@)
}

/// Report every path recorded in `a`, in entry order.
#[verifier::loop_isolation(false)]
pub fn all_paths(a: &DirectoryIndex) -> (r: Vec<String>)
    requires
        a.wf(),
    ensures
        path_set(r@) == all_path_set(a@),
        r@.len() == a@.dom().len(),
{
    proof {
        lemma_map_of_dom_all(a.entries@);
        lemma_map_of_at_all(a.entries@);
    }
    let mut r: Vec<String> = Vec::new();
    let n = a.entries.len();
    let mut i: usize = 0;
    while i < n
        invariant
            i <= n,
            r@.len() == i,
            forall|j: int| #![trigger r@[j]] 0 <= j < i ==> r@[j]@ == a.entries@[j].path@,
        decreases n - i,
    {
        let pa = a.entries[i].path.clone();
        r.push(pa);
        i += 1;
    }
    proof {
        assert forall|p: Seq<char>| path_set(r@).contains(p) implies all_path_set(a@).contains(
            p,
        ) by {
            let k = choose|k: int| #![auto] 0 <= k < r@.len() && p == r@[k]@;
            let d = a.entries@[k].digest@;
            assert(a@.dom().contains(d) && p == a@[d]);
        }
        assert forall|p: Seq<char>| all_path_set(a@).contains(p) implies path_set(r@).contains(
            p,
        ) by {
            let d = choose|d: Seq<char>| #![auto] a@.dom().contains(d) && p == a@[d];
            assert(has_digest(a.entries@, d));
            let j = choose|j: int|
                0 <= j < a.entries@.len() && #[trigger] a.entries@[j].digest@ == d;
            assert(a@[d] == a.entries@[j].path@);
            assert(p == r@[j]@);
        }
        assert(path_set(r@) =~= all_path_set(a@));
        lemma_counts_are_cards(a.entries@, Set::<Seq<char>>::empty(), n as int);
        lemma_unmatched_count_empty(a.entries@, n as int);
        assert(a.entries@.take(n as int) =~= a.entries@);
        assert(a@.dom().difference(Set::<Seq<char>>::empty()) =~= a@.dom());
    }
    r
}

/// Joining two reports joins the sets of paths they hold.
proof fn lemma_path_set_concat(s1: Seq<String>, s2: Seq<String>)
    ensures
        path_set(s1 + s2) == path_set(s1).union(path_set(s2)),
{
    assert forall|p: Seq<char>| path_set(s1 + s2).contains(p) implies path_set(s1).union(
        path_set(s2),
    ).contains(p) by {
        let i = choose|i: int| #![auto] 0 <= i < (s1 + s2).len() && p == (s1 + s2)[i]@;
        if i < s1.len() {
            assert(p == s1[i]@);
        } else {
            assert(p == s2[i - s1.len()]@);
        }
    }
    assert forall|p: Seq<char>| path_set(s1).union(path_set(s2)).contains(p) implies path_set(
        s1 + s2,
    ).contains(p) by {
        if path_set(s1).contains(p) {
            let i = choose|i: int| #![auto] 0 <= i < s1.len() && p == s1[i]@;
            assert(p == (s1 + s2)[i]@);
        } else {
            let i = choose|i: int| #![auto] 0 <= i < s2.len() && p == s2[i]@;
            assert(p == (s1 + s2)[s1.len() + i]@);
        }
    }
    assert(path_set(s1 + s2) =~= path_set(s1).union(path_set(s2)));
}

/// Turn a list of source paths into a move plan: each file goes into the
/// merge directory under its base file name.
#[verifier::loop_isolation(false)]
fn to_moves(srcs: &Vec<String>, merge_dir: &str) -> (r: Vec<MoveOp>)
    ensures
        move_src_set(r@) == path_set(srcs@),
        r@.len() == srcs@.len(),
        forall|i: int| #![trigger r@[i]] 0 <= i < r@.len() ==> r@[i].src@ == srcs@[i]@,
        forall|i: int| #![trigger r@[i]]
            0 <= i < r@.len() ==> r@[i].dest@ == dest_of(merge_dir@, r@[i].src@),
{
    let mut r: Vec<MoveOp> = Vec::new();
    let n = srcs.len();
    let mut i: usize = 0;
    while i < n
        invariant
            i <= n,
            r@.len() == i,
            forall|j: int| #![trigger r@[j]] 0 <= j < i ==> r@[j].src@ == srcs@[j]@,
            forall|j: int| #![trigger r@[j]]
                0 <= j < i ==> r@[j].dest@ == dest_of(merge_dir@, r@[j].src@),
        decreases n - i,
    {
        let src = srcs[i].clone();
        let dest = dest_path(merge_dir, srcs[i].as_str());
        r.push(MoveOp { src, dest });
        i += 1;
    }
    proof {
        assert forall|p: Seq<char>| move_src_set(r@).contains(p) implies path_set(srcs@).contains(
            p,
        ) by {
            let k = choose|k: int| #![auto] 0 <= k < r@.len() && p == r@[k].src@;
            assert(p == srcs@[k]@);
        }
        assert forall|p: Seq<char>| path_set(srcs@).contains(p) implies move_src_set(r@).contains(
            p,
        ) by {
            let k = choose|k: int| #![auto] 0 <= k < srcs@.len() && p == srcs@[k]@;
            assert(p == r@[k].src@);
        }
        assert(move_src_set(r@) =~= path_set(srcs@));
    }
    r
}

/// Plan the merge of `a` and `b` into the directory `merge_dir`: move every
/// file of `a`, then every file of `b` whose digest is absent from `a`,
/// each into the merge directory under its base file name. The plan holds
/// one move per planned file, all of `a`'s moves before any of `b`'s. A
/// file of `b` whose digest duplicates one of `a` is not planned: it is
/// left in place, neither moved nor deleted.
pub fn merge_plan(a: &DirectoryIndex, b: &DirectoryIndex, merge_dir: &str) -> (r: Vec<MoveOp>)
    requires
        a.wf(),
        b.wf(),
    ensures
        move_src_set(r@) == merge_source_set(a@, b@),
        forall|i: int| #![trigger r@[i]]
            0 <= i < r@.len() ==> r@[i].dest@ == dest_of(merge_dir@, r@[i].src@),
        r@.len() == a@.dom().len() + b@.dom().difference(a@.dom()).len(),
        move_src_set(r@.take(a@.dom().len() as int)) == all_path_set(a@),
        move_src_set(r@.skip(a@.dom().len() as int)) == unique_path_set(b@, a@),
{
    let mut srcs = all_paths(a);
    let ghost srcs_a = srcs@;
    let mut from_b = unique_paths(b, a);
    let ghost srcs_b = from_b@;
    srcs.append(&mut from_b);
    proof {
        lemma_path_set_concat(srcs_a, srcs_b);
    }
    let r = to_moves(&srcs, merge_dir);
    proof {
        let k = a@.dom().len() as int;
        assert(srcs_a.len() == k);
        assert(srcs@ == srcs_a + srcs_b);
        assert forall|p: Seq<char>| move_src_set(r@.take(k)).contains(p) implies path_set(
            srcs_a,
        ).contains(p) by {
            let i = choose|i: int| #![auto] 0 <= i < r@.take(k).len() && p == r@.take(k)[i].src@;
            assert(r@.take(k)[i] == r@[i]);
            assert(r@[i].src@ == srcs@[i]@);
            assert(srcs@[i] == srcs_a[i]);
        }
        assert forall|p: Seq<char>| path_set(srcs_a).contains(p) implies move_src_set(
            r@.take(k),
        ).contains(p) by {
            let i = choose|i: int| #![auto] 0 <= i < srcs_a.len() && p == srcs_a[i]@;
            assert(srcs@[i] == srcs_a[i]);
            assert(r@[i].src@ == p);
            assert(r@.take(k)[i] == r@[i]);
        }
        assert(move_src_set(r@.take(k)) =~= path_set(srcs_a));
        assert forall|p: Seq<char>| move_src_set(r@.skip(k)).contains(p) implies path_set(
            srcs_b,
        ).contains(p) by {
            let i = choose|i: int| #![auto] 0 <= i < r@.skip(k).len() && p == r@.skip(k)[i].src@;
            assert(r@.skip(k)[i] == r@[k + i]);
            assert(r@[k + i].src@ == srcs@[k + i]@);
            assert(srcs@[k + i] == srcs_b[i]);
        }
        assert forall|p: Seq<char>| path_set(srcs_b).contains(p) implies move_src_set(
            r@.skip(k),
        ).contains(p) by {
            let i = choose|i: int| #![auto] 0 <= i < srcs_b.len() && p == srcs_b[i]@;
            assert(srcs@[k + i] == srcs_b[i]);
            assert(r@[k + i].src@ == p);
            assert(r@.skip(k)[i] == r@[k + i]);
        }
        assert(move_src_set(r@.skip(k)) =~= path_set(srcs_b));
    }
    r
}

/// Running the identical-files report twice on unchanged indices yields the
/// same set of pairs, whatever the order in which either run listed them.
pub proof fn lemma_same_report_idempotent(
    a: Map<Seq<char>, Seq<char>>,
    b: Map<Seq<char>, Seq<char>>,
    r1: Seq<PathPair>,
    r2: Seq<PathPair>,
)
    requires
        pair_set(r1) == matched_pair_set(a, b),
        pair_set(r2) == matched_pair_set(a, b),
    ensures
        pair_set(r1) == pair_set(r2),
{
}

/// Running the unique-files report twice on unchanged indices yields the
/// same set of paths, whatever the order in which either run listed them.
pub proof fn lemma_unique_report_idempotent(
    a: Map<Seq<char>, Seq<char>>,
    b: Map<Seq<char>, Seq<char>>,
    r1: Seq<String>,
    r2: Seq<String>,
)
    requires
        path_set(r1) == unique_path_set(a, b),
        path_set(r2) == unique_path_set(a, b),
    ensures
        path_set(r1) == path_set(r2),
{
}

/// The two halves of the unique-files report are disjoint. The indices of
/// two distinct directories record disjoint path sets; then no path is
/// reported as unique to both sides.
pub proof fn lemma_unique_halves_disjoint(
    a: Map<Seq<char>, Seq<char>>,
    b: Map<Seq<char>, Seq<char>>,
)
    requires
        all_path_set(a).disjoint(all_path_set(b)),
    ensures
        unique_path_set(a, b).disjoint(unique_path_set(b, a)),
{
    assert forall|p: Seq<char>| unique_path_set(a, b).contains(p) implies !unique_path_set(
        b,
        a,
    ).contains(p) by {
        let d = choose|d: Seq<char>|
            #![auto]
            a.dom().contains(d) && !b.dom().contains(d) && p == a[d];
        assert(all_path_set(a).contains(p));
        if unique_path_set(b, a).contains(p) {
            let d2 = choose|d2: Seq<char>|
                #![auto]
                b.dom().contains(d2) && !a.dom().contains(d2) && p == b[d2];
            assert(all_path_set(b).contains(p));
        }
    }
}

/// A file of `b` whose digest duplicates one of `a` is never a merge
/// source. The indices of two distinct directories record disjoint path
/// sets, and a scan records distinct paths under distinct digests; then
/// every duplicate path of `b` stays outside the move plan, so those files
/// are left in place, neither moved nor deleted.
pub proof fn lemma_duplicates_left_in_place(
    a: Map<Seq<char>, Seq<char>>,
    b: Map<Seq<char>, Seq<char>>,
)
    requires
        all_path_set(a).disjoint(all_path_set(b)),
        forall|d1: Seq<char>, d2: Seq<char>| #![trigger b[d1], b[d2]]
            b.dom().contains(d1) && b.dom().contains(d2) && b[d1] == b[d2] ==> d1 == d2,
    ensures
        duplicate_path_set(a, b).disjoint(merge_source_set(a, b)),
{
    assert forall|p: Seq<char>| duplicate_path_set(a, b).contains(p) implies !merge_source_set(
        a,
        b,
    ).contains(p) by {
        let d = choose|d: Seq<char>|
            #![auto]
            a.dom().contains(d) && b.dom().contains(d) && p == b[d];
        assert(all_path_set(b).contains(p));
        if merge_source_set(a, b).contains(p) {
            if all_path_set(a).contains(p) {
            } else {
                assert(unique_path_set(b, a).contains(p));
                let d2 = choose|d2: Seq<char>|
                    #![auto]
                    b.dom().contains(d2) && !a.dom().contains(d2) && p == b[d2];
                assert(b[d] == b[d2]);
                assert(d == d2);
            }
        }
    }
}

} // verus!
