use vstd::prelude::*;

use crate::index::{add_markers, append_posting, count_in, index_of, lemma_index_within, postings_at};
use crate::screen::{
    all_positions, screened, cutoff_pow, lemma_occurrences_bound, marker_k, occurrences, passes_screen, required_shared,
    shared_count, survivors, survivors_below, lemma_survivors_below,
};
use crate::params::{IDENTITY_SCALE, MIN_SCREEN_MARKERS};

verus! {

/// Number of pairs of equal markers, one taken from `a` and one from `b`.
pub open spec fn pair_count(a: Seq<u64>, b: Seq<u64>) -> nat
    decreases a.len(),
{
    if a.len() == 0 {
        0
    } else {
        pair_count(a.drop_last(), b) + count_in(b, a.last())
    }
}

proof fn lemma_occurrences_push(s: Seq<u32>, id: u32, j: int)
    ensures
        occurrences(s.push(id), j) == occurrences(s, j) + if id as int == j {
            1nat
        } else {
            0nat
        },
{
    assert(s.push(id).drop_last() =~= s);
}

proof fn lemma_add_markers_occurrences(m: Map<u64, Seq<u32>>, ms: Seq<u64>, id: u32, k: u64, j: int)
    ensures
        occurrences(postings_at(add_markers(m, ms, id), k), j) == occurrences(postings_at(m, k), j)
            + if id as int == j {
            count_in(ms, k)
        } else {
            0nat
        },
    decreases ms.len(),
{
    if ms.len() > 0 {
        lemma_add_markers_occurrences(m, ms.drop_last(), id, k, j);
        let m2 = add_markers(m, ms.drop_last(), id);
        if k == ms.last() {
            assert(postings_at(append_posting(m2, ms.last(), id), k) == postings_at(m2, k).push(id));
            lemma_occurrences_push(postings_at(m2, k), id, j);
        } else {
            assert(postings_at(append_posting(m2, ms.last(), id), k) == postings_at(m2, k));
        }
    }
}

/// In the index built over `refs`, reference `j` is posted under `k` once
/// per occurrence of `k` among its markers.
proof fn lemma_index_occurrences(refs: Seq<Seq<u64>>, k: u64, j: int)
    requires
        refs.len() <= u32::MAX as nat + 1,
        0 <= j < refs.len(),
    ensures
        occurrences(postings_at(index_of(refs), k), j) == count_in(refs[j], k),
    decreases refs.len(),
{
    let rest = refs.drop_last();
    let id = (refs.len() - 1) as u32;
    lemma_add_markers_occurrences(index_of(rest), refs.last(), id, k, j);
    if j < refs.len() - 1 {
        lemma_index_occurrences(rest, k, j);
    } else {
        lemma_index_within(rest);
        lemma_occurrences_bound(postings_at(index_of(rest), k), j, rest.len());
    }
}

proof fn lemma_shared_is_pair_count(refs: Seq<Seq<u64>>, query: Seq<u64>, j: int)
    requires
        refs.len() <= u32::MAX as nat + 1,
        0 <= j < refs.len(),
    ensures
        shared_count(index_of(refs), query, j) == pair_count(query, refs[j]),
    decreases query.len(),
{
    if query.len() > 0 {
        lemma_shared_is_pair_count(refs, query.drop_last(), j);
        lemma_index_occurrences(refs, query.last(), j);
    }
}

proof fn lemma_pair_count_push(b: Seq<u64>, a: Seq<u64>, x: u64)
    ensures
        pair_count(b, a.push(x)) == pair_count(b, a) + count_in(b, x),
    decreases b.len(),
{
    assert(a.push(x).drop_last() =~= a);
    if b.len() > 0 {
        lemma_pair_count_push(b.drop_last(), a, x);
    }
}

proof fn lemma_pair_count_swap(a: Seq<u64>, b: Seq<u64>)
    ensures
        pair_count(a, b) == pair_count(b, a),
    decreases a.len(),
{
    if a.len() == 0 {
        assert(a =~= Seq::empty());
        lemma_pair_count_empty(b);
    } else {
        assert(a.drop_last().push(a.last()) =~= a);
        lemma_pair_count_swap(a.drop_last(), b);
        lemma_pair_count_push(b, a.drop_last(), a.last());
    }
}

proof fn lemma_pair_count_empty(b: Seq<u64>)
    ensures
        pair_count(b, Seq::empty()) == 0,
    decreases b.len(),
{
    if b.len() > 0 {
        lemma_pair_count_empty(b.drop_last());
    }
}

/// Screening within one set of sketches is symmetric: with the index built
/// over `refs`, `screen_refs` against `refs[i]` returns `j` exactly when
/// `screen_refs` against `refs[j]` returns `i`, provided the small-query
/// bypass applies to both or to neither.
pub proof fn lemma_screen_symmetric(
    identity: nat,
    use_aa: bool,
    refs: Seq<Seq<u64>>,
    i: int,
    j: int,
)
    requires
        refs.len() <= u32::MAX as nat + 1,
        0 <= i < refs.len(),
        0 <= j < refs.len(),
        (refs[i].len() < MIN_SCREEN_MARKERS) == (refs[j].len() < MIN_SCREEN_MARKERS),
    ensures
        screened(identity, use_aa, index_of(refs), refs[i], refs).contains(j as usize)
            == screened(identity, use_aa, index_of(refs), refs[j], refs).contains(i as usize),
        passes_screen(identity, use_aa, index_of(refs), refs[i], refs[j], j) == passes_screen(
            identity,
            use_aa,
            index_of(refs),
            refs[j],
            refs[i],
            i,
        ),
        survivors(identity, use_aa, index_of(refs), refs[i], refs).contains(j as usize)
            == survivors(identity, use_aa, index_of(refs), refs[j], refs).contains(i as usize),
{
    lemma_shared_is_pair_count(refs, refs[i], j);
    lemma_shared_is_pair_count(refs, refs[j], i);
    lemma_pair_count_swap(refs[i], refs[j]);
    lemma_survivors_below(identity, use_aa, index_of(refs), refs[i], refs, refs.len());
    lemma_survivors_below(identity, use_aa, index_of(refs), refs[j], refs, refs.len());
    if refs[i].len() < MIN_SCREEN_MARKERS {
        assert(all_positions(refs.len())[j] == j as usize);
        assert(all_positions(refs.len())[i] == i as usize);
    }
}

proof fn lemma_cutoff_monotone(id1: nat, id2: nat, k: nat)
    requires
        id1 <= id2,
    ensures
        cutoff_pow(id1, k) <= cutoff_pow(id2, k),
    decreases k,
{
    if k > 0 {
        lemma_cutoff_monotone(id1, id2, (k - 1) as nat);
        let c1 = cutoff_pow(id1, (k - 1) as nat);
        let c2 = cutoff_pow(id2, (k - 1) as nat);
        assert(c1 * id1 <= c2 * id2) by (nonlinear_arith)
            requires
                c1 <= c2,
                id1 <= id2,
        ;
        assert(c1 * id1 / (IDENTITY_SCALE as nat) <= c2 * id2 / (IDENTITY_SCALE as nat)) by (nonlinear_arith)
            requires
                c1 * id1 <= c2 * id2,
        ;
    }
}

/// Raising the screening identity never adds survivors: every reference
/// that passes at `id2` also passes at any lower `id1`.
pub proof fn lemma_screen_monotone(
    id1: nat,
    id2: nat,
    use_aa: bool,
    m: Map<u64, Seq<u32>>,
    query: Seq<u64>,
    refs: Seq<Seq<u64>>,
)
    requires
        id1 <= id2,
        refs.len() <= usize::MAX as nat + 1,
    ensures
        forall|j: int|
            0 <= j < refs.len() && passes_screen(id2, use_aa, m, query, refs[j], j) ==> passes_screen(
                id1,
                use_aa,
                m,
                query,
                refs[j],
                j,
            ),
        forall|x: usize|
            survivors(id2, use_aa, m, query, refs).contains(x) ==> survivors(
                id1,
                use_aa,
                m,
                query,
                refs,
            ).contains(x),
        forall|x: usize|
            screened(id2, use_aa, m, query, refs).contains(x) ==> screened(
                id1,
                use_aa,
                m,
                query,
                refs,
            ).contains(x),
{
    let k = marker_k(use_aa);
    lemma_cutoff_monotone(id1, id2, k);
    let c1 = cutoff_pow(id1, k);
    let c2 = cutoff_pow(id2, k);
    assert forall|a: nat, b: nat| required_shared(c1, a, b) <= required_shared(c2, a, b) by {
        let s: nat = if a < b { a } else { b };
        assert(c1 * s <= c2 * s) by (nonlinear_arith)
            requires
                c1 <= c2,
        ;
        assert(c1 * s / (IDENTITY_SCALE as nat) <= c2 * s / (IDENTITY_SCALE as nat)) by (nonlinear_arith)
            requires
                c1 * s <= c2 * s,
        ;
    }
    lemma_survivors_below(id1, use_aa, m, query, refs, refs.len());
    lemma_survivors_below(id2, use_aa, m, query, refs, refs.len());
    assert forall|x: usize| survivors(id2, use_aa, m, query, refs).contains(x) implies survivors(
        id1,
        use_aa,
        m,
        query,
        refs,
    ).contains(x) by {
        let s2 = survivors(id2, use_aa, m, query, refs);
        let t = choose|t: int| 0 <= t < s2.len() && s2[t] == x;
        assert(s2[t] < refs.len());
        let j = x as int;
        assert(required_shared(c1, refs[j].len(), query.len()) <= required_shared(c2, refs[j].len(), query.len()));
        assert(passes_screen(id1, use_aa, m, query, refs[j], j));
    }
}

} // verus!
