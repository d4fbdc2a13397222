use fxhash::FxHashMap;
use smallvec::SmallVec;
use vstd::prelude::*;

use crate::params::{markers_of, Sketch};

verus! {

/// Posting lists up to this length are stored inline, without allocation.
pub const KMER_SK_SMALL_VEC_SIZE: usize = 8;

/// Inverted marker index: each marker k-mer maps to the positions of the
/// reference sketches that contain it, once per occurrence, in insertion
/// order.
#[verifier::external_body]
pub struct KmerToSketch {
    map: FxHashMap<u64, SmallVec<[u32; KMER_SK_SMALL_VEC_SIZE]>>,
}

/// The posting lists held by an index.
pub uninterp spec fn index_postings(idx: KmerToSketch) -> Map<u64, Seq<u32>>;

/// The posting list of `kmer`, empty when the marker is absent.
pub open spec fn postings_at(m: Map<u64, Seq<u32>>, kmer: u64) -> Seq<u32> {
    if m.contains_key(kmer) {
        m[kmer]
    } else {
        Seq::empty()
    }
}

/// The index without any marker.
pub open spec fn no_postings() -> Map<u64, Seq<u32>> {
    Map::empty()
}

/// `m` with `id` appended to the posting list of `kmer`.
pub open spec fn append_posting(m: Map<u64, Seq<u32>>, kmer: u64, id: u32) -> Map<u64, Seq<u32>> {
    m.insert(kmer, postings_at(m, kmer).push(id))
}

/// `m` after appending `id` for every marker of `ms`, in order.
pub open spec fn add_markers(m: Map<u64, Seq<u32>>, ms: Seq<u64>, id: u32) -> Map<u64, Seq<u32>>
    decreases ms.len(),
{
    if ms.len() == 0 {
        m
    } else {
        append_posting(add_markers(m, ms.drop_last(), id), ms.last(), id)
    }
}

/// The index built over the marker lists `refs`, reference `i` posted as `i`.
pub open spec fn index_of(refs: Seq<Seq<u64>>) -> Map<u64, Seq<u32>>
    decreases refs.len(),
{
    if refs.len() == 0 {
        Map::empty()
    } else {
        add_markers(index_of(refs.drop_last()), refs.last(), (refs.len() - 1) as u32)
    }
}

/// Number of markers over all lists of `refs`.
pub open spec fn total_markers(refs: Seq<Seq<u64>>) -> nat
    decreases refs.len(),
{
    if refs.len() == 0 {
        0
    } else {
        total_markers(refs.drop_last()) + refs.last().len()
    }
}

/// Largest posting list that can still grow without exceeding the
/// allocation limit of its storage.
pub open spec fn posting_limit() -> nat {
    (usize::MAX / 16) as nat
}

impl KmerToSketch {
    /// Relies on `FxHashMap::default` (std's `HashMap::default` with
    /// fxhash's hasher): the map starts empty.
    #[verifier::external_body]
    fn empty() -> (r: KmerToSketch)
        ensures
            index_postings(r) == no_postings(),
    {
        KmerToSketch { map: FxHashMap::default() }
    }

    /// Relies on `HashMap::entry(..).or_insert_with(SmallVec::new)` and
    /// `SmallVec::push`: `id` is appended to the list of `kmer`, which is
    /// created empty first when absent. `push` panics only when the grown
    /// capacity overflows, which the length bound rules out.
    #[verifier::external_body]
    fn push_posting(&mut self, kmer: u64, id: u32)
        requires
            postings_at(index_postings(*old(self)), kmer).len() < posting_limit(),
        ensures
            index_postings(*final(self)) == append_posting(index_postings(*old(self)), kmer, id),
    {
        self.map.entry(kmer).or_insert_with(SmallVec::new).push(id);
    }

    /// Relies on `HashMap::get` and `SmallVec::len`: the length of the list
    /// of `kmer`, 0 when absent.
    #[verifier::external_body]
    pub(crate) fn posting_len(&self, kmer: u64) -> (r: usize)
        ensures
            r == postings_at(index_postings(*self), kmer).len(),
    {
        self.map.get(&kmer).map_or(0, |p| p.len())
    }

    /// Relies on indexing a `HashMap` and a `SmallVec` (through its slice):
    /// the entry at position `t` of the list of `kmer`.
    #[verifier::external_body]
    pub(crate) fn posting_at(&self, kmer: u64, t: usize) -> (r: u32)
        requires
            t < postings_at(index_postings(*self), kmer).len(),
        ensures
            r == postings_at(index_postings(*self), kmer)[t as int],
    {
        self.map[&kmer][t]
    }

    /// An index without markers, used when screening is switched off.
    pub fn new() -> (r: KmerToSketch)
        ensures
            index_postings(r) == no_postings(),
    {
        KmerToSketch::empty()
    }

    /// The posting list of `kmer` (empty when the marker is absent).
    pub fn postings(&self, kmer: u64) -> (r: Vec<u32>)
        ensures
            r@ == postings_at(index_postings(*self), kmer),
    {
        let n = self.posting_len(kmer);
        let mut out: Vec<u32> = Vec::new();
        let mut t: usize = 0;
        while t < n
            invariant
                n == postings_at(index_postings(*self), kmer).len(),
                t <= n,
                out@ == postings_at(index_postings(*self), kmer).take(t as int),
            decreases n - t,
        {
            out.push(self.posting_at(kmer, t));
            t += 1;
            assert(out@ =~= postings_at(index_postings(*self), kmer).take(t as int));
        }
        assert(out@ =~= postings_at(index_postings(*self), kmer));
        out
    }
}

/// Number of times `kmer` occurs in `ms`.
pub open spec fn count_in(ms: Seq<u64>, kmer: u64) -> nat
    decreases ms.len(),
{
    if ms.len() == 0 {
        0
    } else {
        count_in(ms.drop_last(), kmer) + if ms.last() == kmer {
            1nat
        } else {
            0nat
        }
    }
}

/// Every posting of `m` names one of the first `n` references.
pub open spec fn postings_within(m: Map<u64, Seq<u32>>, n: nat) -> bool {
    forall|k: u64, t: int| 0 <= t < postings_at(m, k).len() ==> (#[trigger] postings_at(m, k)[t]) < n
}

proof fn lemma_add_markers_within(m: Map<u64, Seq<u32>>, ms: Seq<u64>, id: u32, n: nat)
    requires
        postings_within(m, n),
        id < n,
    ensures
        postings_within(add_markers(m, ms, id), n),
    decreases ms.len(),
{
    if ms.len() > 0 {
        lemma_add_markers_within(m, ms.drop_last(), id, n);
        let m2 = add_markers(m, ms.drop_last(), id);
        let r = add_markers(m, ms, id);
        assert forall|k: u64, t: int| 0 <= t < postings_at(r, k).len() implies (#[trigger] postings_at(r, k)[t]) < n by {
            if k == ms.last() && t == postings_at(m2, k).len() {
            } else if k == ms.last() {
                assert(postings_at(r, k)[t] == postings_at(m2, k)[t]);
            } else {
                assert(postings_at(r, k) == postings_at(m2, k));
            }
        }
    }
}

/// Every posting of the index built over `refs` names a position of `refs`.
pub proof fn lemma_index_within(refs: Seq<Seq<u64>>)
    requires
        refs.len() <= u32::MAX as nat + 1,
    ensures
        postings_within(index_of(refs), refs.len()),
    decreases refs.len(),
{
    if refs.len() > 0 {
        lemma_index_within(refs.drop_last());
        lemma_add_markers_within(index_of(refs.drop_last()), refs.last(), (refs.len() - 1) as u32, refs.len());
    }
}

proof fn lemma_add_markers_len(m: Map<u64, Seq<u32>>, ms: Seq<u64>, id: u32, kmer: u64)
    ensures
        postings_at(add_markers(m, ms, id), kmer).len() <= postings_at(m, kmer).len() + ms.len(),
    decreases ms.len(),
{
    if ms.len() > 0 {
        lemma_add_markers_len(m, ms.drop_last(), id, kmer);
    }
}

proof fn lemma_index_len(refs: Seq<Seq<u64>>, kmer: u64)
    ensures
        postings_at(index_of(refs), kmer).len() <= total_markers(refs),
    decreases refs.len(),
{
    if refs.len() > 0 {
        lemma_index_len(refs.drop_last(), kmer);
        lemma_add_markers_len(index_of(refs.drop_last()), refs.last(), (refs.len() - 1) as u32, kmer);
    }
}

proof fn lemma_total_prefix(refs: Seq<Seq<u64>>, i: int)
    requires
        0 <= i <= refs.len(),
    ensures
        total_markers(refs.take(i)) <= total_markers(refs),
    decreases refs.len(),
{
    if i < refs.len() {
        assert(refs.drop_last().take(i) =~= refs.take(i));
        lemma_total_prefix(refs.drop_last(), i);
    } else {
        assert(refs.take(i) =~= refs);
    }
}

/// Builds the marker index over `ref_sketches`: reference `i` is appended to
/// the posting list of each of its markers, once per occurrence.
pub fn kmer_to_sketch_from_refs(ref_sketches: &Vec<Sketch>) -> (r: KmerToSketch)
    requires
        ref_sketches@.len() <= u32::MAX as nat + 1,
        total_markers(markers_of(ref_sketches@)) < posting_limit(),
    ensures
        index_postings(r) == index_of(markers_of(ref_sketches@)),
        postings_within(index_postings(r), ref_sketches@.len()),
{
    let ghost all = markers_of(ref_sketches@);
    let mut ret = KmerToSketch::empty();
    let mut i: usize = 0;
    while i < ref_sketches.len()
        invariant
            all == markers_of(ref_sketches@),
            ref_sketches@.len() <= u32::MAX as nat + 1,
            total_markers(all) < posting_limit(),
            i <= ref_sketches@.len(),
            index_postings(ret) == index_of(all.take(i as int)),
            forall|k: u64| postings_at(index_postings(ret), k).len() <= total_markers(all.take(i as int)),
        decreases ref_sketches@.len() - i,
    {
        let ms = &ref_sketches[i].marker_seeds;
        let ghost start = index_postings(ret);
        proof {
            lemma_total_prefix(all, i + 1);
            assert(all.take(i + 1).drop_last() =~= all.take(i as int));
            assert(all.take(i + 1).last() == ms@);
        }
        let mut p: usize = 0;
        while p < ms.len()
            invariant
                all == markers_of(ref_sketches@),
                ref_sketches@.len() <= u32::MAX as nat + 1,
                i < ref_sketches@.len(),
                ms@ == all[i as int],
                p <= ms@.len(),
                total_markers(all.take(i as int)) + ms@.len() <= total_markers(all),
                total_markers(all) < posting_limit(),
                index_postings(ret) == add_markers(start, ms@.take(p as int), i as u32),
                forall|k: u64| postings_at(index_postings(ret), k).len() <= total_markers(all.take(i as int)) + p,
            decreases ms@.len() - p,
        {
            let kmer = ms[p];
            let ghost before = index_postings(ret);
            ret.push_posting(kmer, i as u32);
            proof {
                assert forall|k: u64|
                    postings_at(index_postings(ret), k).len() <= total_markers(all.take(i as int)) + p
                        + 1 by {
                    if k != kmer {
                        assert(postings_at(index_postings(ret), k) == postings_at(before, k));
                    }
                }
                assert(ms@.take(p + 1).drop_last() =~= ms@.take(p as int));
            }
            p += 1;
        }
        proof {
            assert(ms@.take(p as int) =~= ms@);
        }
        i += 1;
    }
    proof {
        assert(all.take(i as int) =~= all);
        lemma_index_within(all);
    }
    ret
}

} // verus!
