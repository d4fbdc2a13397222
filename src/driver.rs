use vstd::prelude::*;

use crate::index::{index_postings, postings_within, KmerToSketch};
use crate::params::{
    markers_of, Sketch, SketchParams, IDENTITY_SCALE, SEARCH_AAI_CUTOFF_DEFAULT,
    SEARCH_ANI_CUTOFF_DEFAULT,
};
use crate::screen::{all_positions, screen_refs, screened};

verus! {

/// Fatal conditions of a pairwise run.
#[derive(Clone, Copy, Debug, PartialEq, Eq, Structural)]
pub enum RunError {
    /// The reference or the query set is empty.
    EmptyInput,
    /// Loaded query sketches and loaded reference sketches were made with
    /// different parameters.
    ParamsMismatch,
}

/// The parameters a run goes on with, and whether loaded sketches
/// disagreed with the command-line parameters (a warning).
#[derive(Clone, Copy, Debug, PartialEq, Eq, Structural)]
pub struct ResolvedParams {
    pub params: SketchParams,
    pub warn_ref_mismatch: bool,
    pub warn_query_mismatch: bool,
}

/// The screening identity of a run: the mode's default when none was given
/// (0), the given one otherwise.
pub open spec fn screen_identity(screen_val: u64, use_aa: bool) -> u64 {
    if screen_val == 0 {
        if use_aa {
            SEARCH_AAI_CUTOFF_DEFAULT
        } else {
            SEARCH_ANI_CUTOFF_DEFAULT
        }
    } else {
        screen_val
    }
}

/// The screening identity of a run: `screen_val`, or the default of the
/// mode when `screen_val` is 0.
pub fn effective_screen_val(screen_val: u64, use_aa: bool) -> (r: u64)
    ensures
        r == screen_identity(screen_val, use_aa),
{
    if screen_val == 0 {
        if use_aa {
            SEARCH_AAI_CUTOFF_DEFAULT
        } else {
            SEARCH_ANI_CUTOFF_DEFAULT
        }
    } else {
        screen_val
    }
}

/// Fails with `EmptyInput` iff there is no reference or no query.
pub fn check_nonempty(n_refs: usize, n_queries: usize) -> (r: Result<(), RunError>)
    ensures
        r is Err <==> (n_refs == 0 || n_queries == 0),
        r is Err ==> r == Err::<(), RunError>(RunError::EmptyInput),
{
    if n_refs == 0 || n_queries == 0 {
        Err(RunError::EmptyInput)
    } else {
        Ok(())
    }
}

/// Parameters of a pairwise run. Parameters loaded with the references
/// replace the command-line ones (a warning when they differ). Loaded query
/// parameters must then equal them when the references were loaded too,
/// else the run fails; when only the queries were loaded a difference is a
/// warning.
pub fn resolve_dist_params(
    cli: SketchParams,
    loaded_ref: Option<SketchParams>,
    loaded_query: Option<SketchParams>,
) -> (r: Result<ResolvedParams, RunError>)
    ensures
        ({
            let params = match loaded_ref {
                Some(p) => p,
                None => cli,
            };
            match loaded_query {
                Some(q) if q != params && loaded_ref is Some => r == Err::<ResolvedParams, RunError>(
                    RunError::ParamsMismatch,
                ),
                _ => r == Ok::<ResolvedParams, RunError>(
                    ResolvedParams {
                        params,
                        warn_ref_mismatch: loaded_ref is Some && params != cli,
                        warn_query_mismatch: loaded_query is Some && loaded_query != Some(params),
                    },
                ),
            }
        }),
{
    let params = match loaded_ref {
        Some(p) => p,
        None => cli,
    };
    let warn_ref_mismatch = loaded_ref.is_some() && params != cli;
    let mut warn_query_mismatch = false;
    match loaded_query {
        Some(q) => {
            if q != params {
                if loaded_ref.is_some() {
                    return Err(RunError::ParamsMismatch);
                }
                warn_query_mismatch = true;
            }
        },
        None => {},
    }
    Ok(ResolvedParams { params, warn_ref_mismatch, warn_query_mismatch })
}

/// Parameters of an all-versus-all run: loaded parameters replace the
/// command-line ones, with a warning when their sampling density differs.
pub fn resolve_triangle_params(cli: SketchParams, loaded: Option<SketchParams>) -> (r: ResolvedParams)
    ensures
        r == (match loaded {
            Some(p) => ResolvedParams {
                params: p,
                warn_ref_mismatch: p.c != cli.c,
                warn_query_mismatch: false,
            },
            None => ResolvedParams { params: cli, warn_ref_mismatch: false, warn_query_mismatch: false },
        }),
{
    match loaded {
        Some(p) => ResolvedParams { params: p, warn_ref_mismatch: p.c != cli.c, warn_query_mismatch: false },
        None => ResolvedParams { params: cli, warn_ref_mismatch: false, warn_query_mismatch: false },
    }
}

/// The references a query is chained against in a pairwise run: the
/// screening result when screening is on, every reference otherwise (each
/// is then checked pair by pair).
pub fn dist_candidates(
    screen: bool,
    identity: u64,
    kmer_to_sketch: &KmerToSketch,
    query_sketch: &Sketch,
    sketch_params: &SketchParams,
    ref_sketches: &Vec<Sketch>,
) -> (r: Vec<usize>)
    requires
        identity <= IDENTITY_SCALE,
        query_sketch.marker_seeds@.len() < usize::MAX,
        screen ==> postings_within(index_postings(*kmer_to_sketch), ref_sketches@.len()),
    ensures
        screen ==> r@ == screened(
            identity as nat,
            sketch_params.use_aa,
            index_postings(*kmer_to_sketch),
            query_sketch.marker_seeds@,
            markers_of(ref_sketches@),
        ),
        !screen ==> r@ == all_positions(ref_sketches@.len()),
{
    if screen {
        screen_refs(identity, kmer_to_sketch, query_sketch, sketch_params, ref_sketches)
    } else {
        let n = ref_sketches.len();
        let mut out: Vec<usize> = Vec::new();
        let mut j: usize = 0;
        while j < n
            invariant
                j <= n,
                out@ == all_positions(j as nat),
            decreases n - j,
        {
            out.push(j);
            j += 1;
            assert(out@ =~= all_positions(j as nat));
        }
        out
    }
}

/// The elements of `s` greater than `i`, in order.
pub open spec fn keep_above(s: Seq<usize>, i: usize) -> Seq<usize>
    decreases s.len(),
{
    if s.len() == 0 {
        Seq::empty()
    } else if s.last() > i {
        keep_above(s.drop_last(), i).push(s.last())
    } else {
        keep_above(s.drop_last(), i)
    }
}

/// The columns chained in row `i` of an all-versus-all run: the references
/// that survive screening against `refs[i]`, restricted to positions after
/// `i` (the upper triangle).
pub fn triangle_candidates(
    identity: u64,
    kmer_to_sketch: &KmerToSketch,
    sketch_params: &SketchParams,
    ref_sketches: &Vec<Sketch>,
    i: usize,
) -> (r: Vec<usize>)
    requires
        identity <= IDENTITY_SCALE,
        i < ref_sketches@.len(),
        ref_sketches@[i as int].marker_seeds@.len() < usize::MAX,
        postings_within(index_postings(*kmer_to_sketch), ref_sketches@.len()),
    ensures
        r@ == keep_above(
            screened(
                identity as nat,
                sketch_params.use_aa,
                index_postings(*kmer_to_sketch),
                ref_sketches@[i as int].marker_seeds@,
                markers_of(ref_sketches@),
            ),
            i,
        ),
        forall|t: int| 0 <= t < r@.len() ==> (#[trigger] r@[t]) > i,
{
    let all = screen_refs(identity, kmer_to_sketch, &ref_sketches[i], sketch_params, ref_sketches);
    let mut out: Vec<usize> = Vec::new();
    let mut t: usize = 0;
    while t < all.len()
        invariant
            t <= all@.len(),
            out@ == keep_above(all@.take(t as int), i),
            forall|u: int| 0 <= u < out@.len() ==> (#[trigger] out@[u]) > i,
        decreases all@.len() - t,
    {
        assert(all@.take(t + 1).drop_last() =~= all@.take(t as int));
        if all[t] > i {
            out.push(all[t]);
        }
        t += 1;
    }
    assert(all@.take(t as int) =~= all@);
    out
}

} // verus!
