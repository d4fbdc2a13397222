use vstd::prelude::*;

use crate::index::{index_postings, postings_at, postings_within, KmerToSketch};
use crate::params::{
    markers_of, Sketch, SketchParams, IDENTITY_SCALE, K_MARKER_AA, K_MARKER_DNA,
    MIN_SCREEN_MARKERS,
};

verus! {

/// Marker k-mer size that the cutoff is raised to.
pub open spec fn marker_k(use_aa: bool) -> nat {
    if use_aa {
        K_MARKER_AA as nat
    } else {
        K_MARKER_DNA as nat
    }
}

/// `identity` raised to the power `k` on the fixed-point scale, rounding
/// down after each factor.
pub open spec fn cutoff_pow(identity: nat, k: nat) -> nat
    decreases k,
{
    if k == 0 {
        IDENTITY_SCALE as nat
    } else {
        cutoff_pow(identity, (k - 1) as nat) * identity / (IDENTITY_SCALE as nat)
    }
}

/// Number of times `r` occurs in `s`.
pub open spec fn occurrences(s: Seq<u32>, r: int) -> nat
    decreases s.len(),
{
    if s.len() == 0 {
        0
    } else {
        occurrences(s.drop_last(), r) + if s.last() as int == r {
            1nat
        } else {
            0nat
        }
    }
}

/// Number of postings of reference `r` reached from the markers of `query`.
pub open spec fn shared_count(m: Map<u64, Seq<u32>>, query: Seq<u64>, r: int) -> nat
    decreases query.len(),
{
    if query.len() == 0 {
        0
    } else {
        shared_count(m, query.drop_last(), r) + occurrences(postings_at(m, query.last()), r)
    }
}

/// `x`, or `usize::MAX` when `x` is larger.
pub open spec fn capped(x: nat) -> nat {
    if x < usize::MAX {
        x
    } else {
        usize::MAX as nat
    }
}

/// Shared markers a pair must exceed: the cutoff times the smaller marker
/// count, rounded down, and at least 1.
pub open spec fn required_shared(cutoff: nat, ref_len: nat, query_len: nat) -> nat {
    let smaller = if ref_len < query_len {
        ref_len
    } else {
        query_len
    };
    let x = cutoff * smaller / (IDENTITY_SCALE as nat);
    if x > 1 {
        x
    } else {
        1
    }
}

/// Whether reference `r`, with markers `ref_markers`, survives screening
/// against `query` at `identity`.
pub open spec fn passes_screen(
    identity: nat,
    use_aa: bool,
    m: Map<u64, Seq<u32>>,
    query: Seq<u64>,
    ref_markers: Seq<u64>,
    r: int,
) -> bool {
    shared_count(m, query, r) > required_shared(
        cutoff_pow(identity, marker_k(use_aa)),
        ref_markers.len(),
        query.len(),
    )
}

/// `s` is strictly increasing.
pub open spec fn increasing(s: Seq<usize>) -> bool {
    forall|a: int, b: int| 0 <= a < b < s.len() ==> s[a] < s[b]
}

/// The screening survivors among the references: positions `j` of `refs`
/// that pass, in increasing order.
pub open spec fn is_survivor_list(
    r: Seq<usize>,
    identity: nat,
    use_aa: bool,
    m: Map<u64, Seq<u32>>,
    query: Seq<u64>,
    refs: Seq<Seq<u64>>,
) -> bool {
    &&& increasing(r)
    &&& forall|t: int| 0 <= t < r.len() ==> (#[trigger] r[t]) < refs.len()
    &&& forall|j: int|
        0 <= j < refs.len() ==> (r.contains(j as usize) <==> passes_screen(
            identity,
            use_aa,
            m,
            query,
            refs[j],
            j,
        ))
}

/// Positions below `n` of the references that pass screening, increasing.
pub open spec fn survivors_below(
    identity: nat,
    use_aa: bool,
    m: Map<u64, Seq<u32>>,
    query: Seq<u64>,
    refs: Seq<Seq<u64>>,
    n: nat,
) -> Seq<usize>
    decreases n,
{
    if n == 0 {
        Seq::empty()
    } else {
        let prev = survivors_below(identity, use_aa, m, query, refs, (n - 1) as nat);
        if passes_screen(identity, use_aa, m, query, refs[n - 1], n - 1) {
            prev.push((n - 1) as usize)
        } else {
            prev
        }
    }
}

/// Positions of all references of `refs` that pass screening, increasing.
pub open spec fn survivors(
    identity: nat,
    use_aa: bool,
    m: Map<u64, Seq<u32>>,
    query: Seq<u64>,
    refs: Seq<Seq<u64>>,
) -> Seq<usize> {
    survivors_below(identity, use_aa, m, query, refs, refs.len())
}

/// What `screen_refs` returns: every position when the query is too small
/// to screen, the survivors otherwise.
pub open spec fn screened(
    identity: nat,
    use_aa: bool,
    m: Map<u64, Seq<u32>>,
    query: Seq<u64>,
    refs: Seq<Seq<u64>>,
) -> Seq<usize> {
    if query.len() < MIN_SCREEN_MARKERS {
        all_positions(refs.len())
    } else {
        survivors(identity, use_aa, m, query, refs)
    }
}

/// Every position of `refs`, in order.
pub open spec fn all_positions(n: nat) -> Seq<usize> {
    Seq::new(n, |j: int| j as usize)
}

pub(crate) proof fn lemma_survivors_below(
    identity: nat,
    use_aa: bool,
    m: Map<u64, Seq<u32>>,
    query: Seq<u64>,
    refs: Seq<Seq<u64>>,
    n: nat,
)
    requires
        n <= refs.len(),
        refs.len() <= usize::MAX as nat + 1,
    ensures
        increasing(survivors_below(identity, use_aa, m, query, refs, n)),
        forall|t: int|
            0 <= t < survivors_below(identity, use_aa, m, query, refs, n).len() ==> (
            #[trigger] survivors_below(identity, use_aa, m, query, refs, n)[t]) < n,
        forall|j: int|
            0 <= j < n ==> (survivors_below(identity, use_aa, m, query, refs, n).contains(
                j as usize,
            ) <==> passes_screen(identity, use_aa, m, query, refs[j], j)),
    decreases n,
{
    if n > 0 {
        lemma_survivors_below(identity, use_aa, m, query, refs, (n - 1) as nat);
        let prev = survivors_below(identity, use_aa, m, query, refs, (n - 1) as nat);
        let cur = survivors_below(identity, use_aa, m, query, refs, n);
        assert forall|j: int| 0 <= j < n implies (cur.contains(j as usize) <==> passes_screen(
            identity,
            use_aa,
            m,
            query,
            refs[j],
            j,
        )) by {
            if cur.contains(j as usize) && j < n - 1 {
                let t = choose|t: int| 0 <= t < cur.len() && cur[t] == j as usize;
                if t < prev.len() {
                    assert(prev[t] == cur[t]);
                }
            }
            if j < n - 1 && prev.contains(j as usize) {
                let t = choose|t: int| 0 <= t < prev.len() && prev[t] == j as usize;
                assert(cur[t] == prev[t]);
            }
            if j == n - 1 && passes_screen(identity, use_aa, m, query, refs[j], j) {
                assert(cur[cur.len() - 1] == j as usize);
            }
        }
    }
}

pub(crate) proof fn lemma_occurrences_bound(s: Seq<u32>, r: int, n: nat)
    requires
        forall|t: int| 0 <= t < s.len() ==> s[t] < n,
        r >= n,
    ensures
        occurrences(s, r) == 0,
    decreases s.len(),
{
    if s.len() > 0 {
        lemma_occurrences_bound(s.drop_last(), r, n);
    }
}

proof fn lemma_cutoff_bound(identity: nat, k: nat)
    requires
        identity <= IDENTITY_SCALE,
    ensures
        cutoff_pow(identity, k) <= IDENTITY_SCALE,
    decreases k,
{
    if k > 0 {
        lemma_cutoff_bound(identity, (k - 1) as nat);
        let c = cutoff_pow(identity, (k - 1) as nat);
        assert(c * identity <= IDENTITY_SCALE as nat * IDENTITY_SCALE as nat) by (nonlinear_arith)
            requires
                c <= IDENTITY_SCALE,
                identity <= IDENTITY_SCALE,
        ;
        assert(c * identity / (IDENTITY_SCALE as nat) <= IDENTITY_SCALE) by (nonlinear_arith)
            requires
                c * identity <= IDENTITY_SCALE as nat * IDENTITY_SCALE as nat,
        ;
    }
}

/// `identity` raised to `k` on the fixed-point scale.
fn cutoff_exec(identity: u64, k: u64) -> (r: u64)
    requires
        identity <= IDENTITY_SCALE,
    ensures
        r == cutoff_pow(identity as nat, k as nat),
{
    let mut c: u64 = IDENTITY_SCALE;
    let mut e: u64 = 0;
    while e < k
        invariant
            identity <= IDENTITY_SCALE,
            e <= k,
            c == cutoff_pow(identity as nat, e as nat),
        decreases k - e,
    {
        proof {
            lemma_cutoff_bound(identity as nat, e as nat);
            assert(c * identity <= IDENTITY_SCALE * IDENTITY_SCALE) by (nonlinear_arith)
                requires
                    c <= IDENTITY_SCALE,
                    identity <= IDENTITY_SCALE,
            ;
        }
        c = c * identity / IDENTITY_SCALE;
        e += 1;
    }
    c
}

/// The number of shared markers a reference with `ref_len` markers must
/// exceed against a query with `query_len` markers.
fn required_shared_exec(cutoff: u64, ref_len: usize, query_len: usize) -> (r: usize)
    requires
        cutoff <= IDENTITY_SCALE,
    ensures
        r == required_shared(cutoff as nat, ref_len as nat, query_len as nat),
        r <= if query_len > 1 { query_len as nat } else { 1 },
{
    let smaller: usize = if ref_len < query_len {
        ref_len
    } else {
        query_len
    };
    assert(cutoff as nat * smaller as nat <= IDENTITY_SCALE as nat * smaller as nat) by (nonlinear_arith)
        requires
            cutoff <= IDENTITY_SCALE,
    ;
    assert(cutoff as nat * smaller as nat / (IDENTITY_SCALE as nat) <= smaller) by (nonlinear_arith)
        requires
            cutoff as nat * smaller as nat <= IDENTITY_SCALE as nat * smaller as nat,
    ;
    let x: u128 = (cutoff as u128) * (smaller as u128) / (IDENTITY_SCALE as u128);
    if x > 1 {
        x as usize
    } else {
        1
    }
}

/// For each reference position below `n`, how many postings the markers of
/// `query` reach, saturating at `usize::MAX`.
fn count_shared(idx: &KmerToSketch, query: &Vec<u64>, n: usize) -> (counts: Vec<usize>)
    requires
        postings_within(index_postings(*idx), n as nat),
    ensures
        counts@.len() == n,
        forall|r: int|
            0 <= r < n ==> #[trigger] counts@[r] as nat == capped(shared_count(index_postings(*idx), query@, r)),
{
    let ghost m = index_postings(*idx);
    let mut counts: Vec<usize> = Vec::new();
    let mut z: usize = 0;
    while z < n
        invariant
            z <= n,
            counts@.len() == z,
            forall|r: int| 0 <= r < z ==> #[trigger] counts@[r] == 0,
        decreases n - z,
    {
        counts.push(0);
        z += 1;
    }
    let mut p: usize = 0;
    while p < query.len()
        invariant
            m == index_postings(*idx),
            postings_within(m, n as nat),
            p <= query@.len(),
            counts@.len() == n,
            forall|r: int|
                0 <= r < n ==> #[trigger] counts@[r] as nat == capped(shared_count(m, query@.take(p as int), r)),
        decreases query@.len() - p,
    {
        let kmer = query[p];
        let len = idx.posting_len(kmer);
        let ghost ps = postings_at(m, kmer);
        proof {
            assert(query@.take(p + 1).drop_last() =~= query@.take(p as int));
        }
        let mut t: usize = 0;
        while t < len
            invariant
                m == index_postings(*idx),
                postings_within(m, n as nat),
                p < query@.len(),
                kmer == query@[p as int],
                ps == postings_at(m, kmer),
                len == ps.len(),
                t <= len,
                counts@.len() == n,
                forall|r: int|
                    0 <= r < n ==> #[trigger] counts@[r] as nat == capped(shared_count(m, query@.take(p as int), r) + occurrences(
                            ps.take(t as int),
                            r,
                        )),
            decreases len - t,
        {
            let id = idx.posting_at(kmer, t) as usize;
            assert(ps[t as int] < n);
            assert(ps.take(t + 1).drop_last() =~= ps.take(t as int));
            let c = counts[id];
            counts.set(id, c.saturating_add(1));
            t += 1;
            assert forall|r: int| 0 <= r < n implies #[trigger] counts@[r] as nat == capped(shared_count(m, query@.take(p as int), r) + occurrences(
                    ps.take(t as int),
                    r,
                )) by {
                assert((ps[t - 1] as int == r) == (r == id as int));
            }
        }
        assert(ps.take(len as int) =~= ps);
        p += 1;
    }
    assert(query@.take(p as int) =~= query@);
    counts
}

/// Positions of the references that pass screening against `query`,
/// increasing (no small-query bypass).
fn survivor_positions(
    identity: u64,
    idx: &KmerToSketch,
    query: &Vec<u64>,
    use_aa: bool,
    ref_sketches: &Vec<Sketch>,
) -> (r: Vec<usize>)
    requires
        identity <= IDENTITY_SCALE,
        query@.len() < usize::MAX,
        postings_within(index_postings(*idx), ref_sketches@.len()),
    ensures
        r@ == survivors(identity as nat, use_aa, index_postings(*idx), query@, markers_of(ref_sketches@)),
{
    let ghost m = index_postings(*idx);
    let ghost refs = markers_of(ref_sketches@);
    let n = ref_sketches.len();
    let counts = count_shared(idx, query, n);
    let k = if use_aa {
        K_MARKER_AA
    } else {
        K_MARKER_DNA
    };
    let cutoff = cutoff_exec(identity, k);
    proof {
        lemma_cutoff_bound(identity as nat, k as nat);
    }
    let mut out: Vec<usize> = Vec::new();
    let mut j: usize = 0;
    while j < n
        invariant
            n == ref_sketches@.len(),
            refs == markers_of(ref_sketches@),
            m == index_postings(*idx),
            query@.len() < usize::MAX,
            counts@.len() == n,
            forall|r: int| 0 <= r < n ==> #[trigger] counts@[r] as nat == capped(shared_count(m, query@, r)),
            cutoff == cutoff_pow(identity as nat, marker_k(use_aa)),
            cutoff <= IDENTITY_SCALE,
            j <= n,
            out@ == survivors_below(identity as nat, use_aa, m, query@, refs, j as nat),
        decreases n - j,
    {
        let need = required_shared_exec(cutoff, ref_sketches[j].marker_seeds.len(), query.len());
        if counts[j] > need {
            out.push(j);
        }
        j += 1;
    }
    out
}

/// Screens the references against `query_sketch` with the marker index:
/// returns the positions of the references expected to reach `identity`
/// (on the fixed-point scale), in increasing order. A query with fewer than
/// `MIN_SCREEN_MARKERS` markers is not screened: every position is returned.
pub fn screen_refs(
    identity: u64,
    kmer_to_sketch: &KmerToSketch,
    query_sketch: &Sketch,
    sketch_params: &SketchParams,
    ref_sketches: &Vec<Sketch>,
) -> (r: Vec<usize>)
    requires
        identity <= IDENTITY_SCALE,
        query_sketch.marker_seeds@.len() < usize::MAX,
        postings_within(index_postings(*kmer_to_sketch), ref_sketches@.len()),
    ensures
        r@ == screened(
            identity as nat,
            sketch_params.use_aa,
            index_postings(*kmer_to_sketch),
            query_sketch.marker_seeds@,
            markers_of(ref_sketches@),
        ),
        query_sketch.marker_seeds@.len() < MIN_SCREEN_MARKERS ==> r@ == all_positions(
            ref_sketches@.len(),
        ),
        query_sketch.marker_seeds@.len() >= MIN_SCREEN_MARKERS ==> r@ == survivors(
            identity as nat,
            sketch_params.use_aa,
            index_postings(*kmer_to_sketch),
            query_sketch.marker_seeds@,
            markers_of(ref_sketches@),
        ),
        query_sketch.marker_seeds@.len() >= MIN_SCREEN_MARKERS ==> is_survivor_list(
            r@,
            identity as nat,
            sketch_params.use_aa,
            index_postings(*kmer_to_sketch),
            query_sketch.marker_seeds@,
            markers_of(ref_sketches@),
        ),
{
    if query_sketch.marker_seeds.len() < MIN_SCREEN_MARKERS {
        let n = ref_sketches.len();
        let mut out: Vec<usize> = Vec::new();
        let mut j: usize = 0;
        while j < n
            invariant
                j <= n,
                out@ == all_positions(j as nat),
            decreases n - j,
        {
            out.push(j);
            j += 1;
            assert(out@ =~= all_positions(j as nat));
        }
        return out;
    }
    let r = survivor_positions(
        identity,
        kmer_to_sketch,
        &query_sketch.marker_seeds,
        sketch_params.use_aa,
        ref_sketches,
    );
    let n_refs = ref_sketches.len();
    proof {
        assert(markers_of(ref_sketches@).len() == n_refs);
        lemma_survivors_below(
            identity as nat,
            sketch_params.use_aa,
            index_postings(*kmer_to_sketch),
            query_sketch.marker_seeds@,
            markers_of(ref_sketches@),
            ref_sketches@.len(),
        );
    }
    r
}

/// Names of the references that pass screening against `query_sketch`, in
/// order of position. Unlike `screen_refs`, small queries are screened too.
pub fn screen_refs_filenames<'a>(
    identity: u64,
    kmer_to_sketch: &KmerToSketch,
    query_sketch: &Sketch,
    sketch_params: &SketchParams,
    ref_sketches: &'a Vec<Sketch>,
) -> (r: Vec<&'a String>)
    requires
        identity <= IDENTITY_SCALE,
        query_sketch.marker_seeds@.len() < usize::MAX,
        postings_within(index_postings(*kmer_to_sketch), ref_sketches@.len()),
    ensures
        r@.len() == survivors(
            identity as nat,
            sketch_params.use_aa,
            index_postings(*kmer_to_sketch),
            query_sketch.marker_seeds@,
            markers_of(ref_sketches@),
        ).len(),
        forall|t: int|
            0 <= t < r@.len() ==> *r@[t] == ref_sketches@[survivors(
                identity as nat,
                sketch_params.use_aa,
                index_postings(*kmer_to_sketch),
                query_sketch.marker_seeds@,
                markers_of(ref_sketches@),
            )[t] as int].file_name,
{
    let pos = survivor_positions(
        identity,
        kmer_to_sketch,
        &query_sketch.marker_seeds,
        sketch_params.use_aa,
        ref_sketches,
    );
    let n_refs = ref_sketches.len();
    proof {
        assert(markers_of(ref_sketches@).len() == n_refs);
        lemma_survivors_below(
            identity as nat,
            sketch_params.use_aa,
            index_postings(*kmer_to_sketch),
            query_sketch.marker_seeds@,
            markers_of(ref_sketches@),
            ref_sketches@.len(),
        );
    }
    let mut out: Vec<&'a String> = Vec::new();
    let mut t: usize = 0;
    while t < pos.len()
        invariant
            t <= pos@.len(),
            forall|u: int| 0 <= u < pos@.len() ==> (#[trigger] pos@[u]) < ref_sketches@.len(),
            out@.len() == t,
            forall|u: int| 0 <= u < t ==> *out@[u] == ref_sketches@[pos@[u] as int].file_name,
        decreases pos@.len() - t,
    {
        out.push(&ref_sketches[pos[t]].file_name);
        t += 1;
    }
    out
}

} // verus!
