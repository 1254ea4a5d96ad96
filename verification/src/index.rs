//! The content index: a digest-to-path mapping built from one directory's
//! immediate entries.

use vstd::prelude::*;
use crate::hashing::digest_of;
use crate::hashing::sha256_hex;

verus! {

/// One file handed to the indexer: its path and its full byte content.
pub struct FileEntry {
    pub path: String,
    pub bytes: Vec<u8>,
}

/// One entry of a `DirectoryIndex`: a content digest and the path of the
/// file it was computed from.
pub struct IndexEntry {
    pub digest: String,
    pub path: String,
}

/// A digest-to-path mapping. Each digest occurs at most once; inserting a
/// digest that is already present overwrites the recorded path, so when two
/// files share a digest the most recently inserted path wins, silently.
pub struct DirectoryIndex {
    pub entries: Vec<IndexEntry>,
}

/// No two entries carry the same digest.
pub open spec fn distinct_digests(entries: Seq<IndexEntry>) -> bool {
    forall|i: int, j: int|
        0 <= i < j < entries.len() ==> #[trigger] entries[i].digest@ != #[trigger] entries[j].digest@
}

/// Some entry carries the digest `d`.
pub open spec fn has_digest(entries: Seq<IndexEntry>, d: Seq<char>) -> bool {
    exists|i: int| 0 <= i < entries.len() && #[trigger] entries[i].digest@ == d
}

/// The mapping that a sequence of entries denotes, later entries
/// overwriting earlier ones with the same digest.
pub open spec fn map_of(entries: Seq<IndexEntry>) -> Map<Seq<char>, Seq<char>>
    decreases entries.len(),
{
    if entries.len() == 0 {
        Map::empty()
    } else {
        map_of(entries.drop_last()).insert(entries.last().digest@, entries.last().path@)
    }
}

impl View for DirectoryIndex {
    type V = Map<Seq<char>, Seq<char>>;

    open spec fn view(&self) -> Map<Seq<char>, Seq<char>> {
        map_of(self.entries@)
    }
}

/// The mapping denotes exactly the digests of its entries.
proof fn lemma_map_of_dom(entries: Seq<IndexEntry>, d: Seq<char>)
    ensures
        map_of(entries).dom().contains(d) <==> has_digest(entries, d),
    decreases entries.len(),
{
    if entries.len() == 0 {
        assert(!has_digest(entries, d));
    } else {
        let prefix = entries.drop_last();
        lemma_map_of_dom(prefix, d);
        if entries.last().digest@ == d {
            assert(entries[entries.len() - 1].digest@ == d);
            assert(has_digest(entries, d));
        } else {
            if has_digest(prefix, d) {
                let i = choose|i: int| 0 <= i < prefix.len() && prefix[i].digest@ == d;
                assert(entries[i].digest@ == d);
                assert(has_digest(entries, d));
            }
            if has_digest(entries, d) {
                let i = choose|i: int| 0 <= i < entries.len() && entries[i].digest@ == d;
                assert(i < entries.len() - 1);
                assert(prefix[i].digest@ == d);
                assert(has_digest(prefix, d));
            }
        }
    }
}

pub proof fn lemma_map_of_dom_all(entries: Seq<IndexEntry>)
    ensures
        forall|d: Seq<char>|
            #[trigger] map_of(entries).dom().contains(d) <==> has_digest(entries, d),
{
    assert forall|d: Seq<char>|
        #[trigger] map_of(entries).dom().contains(d) <==> has_digest(entries, d) by {
        lemma_map_of_dom(entries, d);
    }
}

/// Under distinct digests, the mapping sends each entry's digest to that
/// entry's path.
proof fn lemma_map_of_at(entries: Seq<IndexEntry>, i: int)
    requires
        distinct_digests(entries),
        0 <= i < entries.len(),
    ensures
        map_of(entries).dom().contains(entries[i].digest@),
        map_of(entries)[entries[i].digest@] == entries[i].path@,
    decreases entries.len(),
{
    let prefix = entries.drop_last();
    if i == entries.len() - 1 {
    } else {
        assert(distinct_digests(prefix));
        assert(prefix[i].digest@ == entries[i].digest@);
        lemma_map_of_at(prefix, i);
        assert(entries[i].digest@ != entries.last().digest@);
    }
}

pub proof fn lemma_map_of_at_all(entries: Seq<IndexEntry>)
    requires
        distinct_digests(entries),
    ensures
        forall|i: int| 0 <= i < entries.len() ==> {
            &&& map_of(entries).dom().contains(#[trigger] entries[i].digest@)
            &&& map_of(entries)[entries[i].digest@] == entries[i].path@
        },
{
    assert forall|i: int| 0 <= i < entries.len() implies {
        &&& map_of(entries).dom().contains(#[trigger] entries[i].digest@)
        &&& map_of(entries)[entries[i].digest@] == entries[i].path@
    } by {
        lemma_map_of_at(entries, i);
    }
}

/// The mapping's domain is finite: it holds at most one digest per entry.
pub proof fn lemma_map_of_dom_finite(entries: Seq<IndexEntry>)
    ensures
        map_of(entries).dom().finite(),
    decreases entries.len(),
{
    if entries.len() > 0 {
        lemma_map_of_dom_finite(entries.drop_last());
    }
}

impl DirectoryIndex {
    /// The index is well formed: no digest occurs twice.
    pub open spec fn wf(&self) -> bool {
        distinct_digests(self.entries@)
    }

    /// An empty index.
    pub fn new() -> (r: DirectoryIndex)
        ensures
            r.wf(),
            r@ == Map::<Seq<char>, Seq<char>>::empty(),
    {
        DirectoryIndex { entries: Vec::new() }
    }

    /// Whether some entry carries the digest `d`.
    #[verifier::loop_isolation(false)]
    pub fn contains_digest(&self, d: &String) -> (r: bool)
        ensures
            r == self@.dom().contains(d@),
    {
        proof {
            lemma_map_of_dom_all(self.entries@);
        }
        let n = self.entries.len();
        let mut i: usize = 0;
        while i < n
            invariant
                n == self.entries@.len(),
                i <= n,
                forall|j: int| 0 <= j < i ==> #[trigger] self.entries@[j].digest@ != d@,
            decreases n - i,
        {
            if self.entries[i].digest == *d {
                assert(has_digest(self.entries@, d@));
                return true;
            }
            i += 1;
        }
        assert(!has_digest(self.entries@, d@));
        false
    }

    /// The path recorded for the digest `d`.
    #[verifier::loop_isolation(false)]
    pub fn get_path(&self, d: &String) -> (r: String)
        requires
            self.wf(),
            self@.dom().contains(d@),
        ensures
            r@ == self@[d@],
    {
        proof {
            lemma_map_of_dom_all(self.entries@);
            lemma_map_of_at_all(self.entries@);
        }
        let n = self.entries.len();
        let mut i: usize = 0;
        while i < n
            invariant
                n == self.entries@.len(),
                i <= n,
                forall|j: int| 0 <= j < i ==> #[trigger] self.entries@[j].digest@ != d@,
            decreases n - i,
        {
            if self.entries[i].digest == *d {
                assert(self@[d@] == self.entries@[i as int].path@);
                return self.entries[i].path.clone();
            }
            i += 1;
        }
        proof {
            assert(has_digest(self.entries@, d@));
            assert(false);
        }
        vstd::pervasive::unreached()
    }

    /// Record `path` under `digest`. A digest already present keeps a single
    /// entry: its recorded path is overwritten, so the most recent insertion
    /// wins.
    #[verifier::loop_isolation(false)]
    pub fn insert(&mut self, digest: String, path: String)
        requires
            old(self).wf(),
        ensures
            final(self).wf(),
            final(self)@ == old(self)@.insert(digest@, path@),
    {
        proof {
            lemma_map_of_dom_all(self.entries@);
            lemma_map_of_at_all(self.entries@);
        }
        let ghost e1 = self.entries@;
        let ghost dg = digest@;
        let ghost p = path@;
        let n = self.entries.len();
        let mut i: usize = 0;
        while i < n
            invariant
                self.entries@ == e1,
                i <= n,
                forall|j: int| 0 <= j < i ==> #[trigger] e1[j].digest@ != dg,
            decreases n - i,
        {
            if self.entries[i].digest == digest {
                self.entries[i] = IndexEntry { digest, path };
                proof {
                    let e2 = self.entries@;
                    assert(e1[i as int].digest@ == dg);
                    assert(forall|j: int| 0 <= j < e2.len() && j != i ==> e2[j] == e1[j]);
                    assert(e2[i as int].digest@ == dg && e2[i as int].path@ == p);
                    assert(forall|j: int| 0 <= j < e2.len() ==> #[trigger] e2[j].digest@ == e1[j].digest@);
                    assert(distinct_digests(e2));
                    lemma_map_of_dom_all(e2);
                    lemma_map_of_at_all(e2);
                    assert forall|k: Seq<char>|
                        map_of(e2).dom().contains(k) <==> map_of(e1).insert(dg, p).dom().contains(k) by {
                        if has_digest(e2, k) {
                            let j = choose|j: int| 0 <= j < e2.len() && #[trigger] e2[j].digest@ == k;
                            assert(e1[j].digest@ == k);
                            assert(has_digest(e1, k));
                        }
                        if has_digest(e1, k) {
                            let j = choose|j: int| 0 <= j < e1.len() && #[trigger] e1[j].digest@ == k;
                            assert(e2[j].digest@ == k);
                            assert(has_digest(e2, k));
                        }
                    }
                    assert forall|k: Seq<char>| map_of(e2).dom().contains(k) implies
                        map_of(e2)[k] == map_of(e1).insert(dg, p)[k] by {
                        let j = choose|j: int| 0 <= j < e2.len() && #[trigger] e2[j].digest@ == k;
                        assert(map_of(e2)[k] == e2[j].path@);
                        if k == dg {
                            assert(j == i);
                        } else {
                            assert(j != i);
                            assert(e1[j].digest@ == k);
                            assert(map_of(e1)[k] == e1[j].path@);
                        }
                    }
                    assert(map_of(e2) =~= map_of(e1).insert(dg, p));
                }
                return;
            }
            i += 1;
        }
        self.entries.push(IndexEntry { digest, path });
        proof {
            let e2 = self.entries@;
            assert(e2.drop_last() =~= e1);
            assert(e2.last().digest@ == dg && e2.last().path@ == p);
            assert forall|a: int, b: int| 0 <= a < b < e2.len() implies
                #[trigger] e2[a].digest@ != #[trigger] e2[b].digest@ by {
                if b == e2.len() - 1 {
                    assert(e2[a] == e1[a]);
                } else {
                    assert(e2[a] == e1[a] && e2[b] == e1[b]);
                }
            }
            assert(map_of(e2) == map_of(e1).insert(dg, p));
        }
    }
}

/// The mapping that the indexer builds from a sequence of scanned files:
/// each file's path recorded under the digest of its bytes, in scan order,
/// so on a digest collision the most recently scanned path wins.
pub open spec fn index_of(files: Seq<FileEntry>) -> Map<Seq<char>, Seq<char>>
    decreases files.len(),
{
    if files.len() == 0 {
        Map::empty()
    } else {
        index_of(files.drop_last()).insert(digest_of(files.last().bytes@), files.last().path@)
    }
}

/// Build the digest-to-path index of one directory from its scanned files.
#[verifier::loop_isolation(false)]
pub fn build_index(files: &Vec<FileEntry>) -> (r: DirectoryIndex)
    ensures
        r.wf(),
        r@ == index_of(files@),
{
    let mut idx = DirectoryIndex::new();
    proof {
        assert(files@.take(0) =~= Seq::<FileEntry>::empty());
        assert(idx@ =~= index_of(files@.take(0)));
    }
    let n = files.len();
    let mut i: usize = 0;
    while i < n
        invariant
            n == files@.len(),
            i <= n,
            idx.wf(),
            idx@ == index_of(files@.take(i as int)),
        decreases n - i,
    {
        let h = sha256_hex(&files[i].bytes);
        let path = files[i].path.clone();
        idx.insert(h, path);
        proof {
            let t = files@.take(i + 1);
            assert(t.drop_last() =~= files@.take(i as int));
            assert(t.last() == files@[i as int]);
        }
        i += 1;
    }
    proof {
        assert(files@.take(n as int) =~= files@);
    }
    idx
}

} // verus!
