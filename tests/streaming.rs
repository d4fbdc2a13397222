use skani::driver::{
    check_nonempty, dist_candidates, effective_screen_val, resolve_dist_params,
    resolve_triangle_params, triangle_candidates, RunError,
};
use skani::index::{kmer_to_sketch_from_refs, KmerToSketch};
use skani::params::{Sketch, SketchParams, DISCARD_ANI};
use skani::stream::{DistRun, FlushSchedule, ResultBuffer, TriangleMap, TriangleRun};

fn params(c: usize, use_aa: bool) -> SketchParams {
    SketchParams { c, k: 15, use_aa }
}

#[test]
fn discard_threshold_is_strict() {
    let mut b: ResultBuffer<&str> = ResultBuffer::new();
    assert!(!b.offer(DISCARD_ANI, "at"));
    assert!(!b.offer(0, "zero"));
    assert!(b.offer(DISCARD_ANI + 1, "above"));
    assert_eq!(b.len(), 1);
    let out = b.drain();
    assert_eq!(out.len(), 1);
    assert_eq!(out[0].item, "above");
    assert_eq!(b.len(), 0);
}

#[test]
fn triangle_map_keeps_upper_pairs_only() {
    let mut m: TriangleMap<u32> = TriangleMap::new();
    assert!(!m.offer(2, 1, 900_000_000, 1));
    assert!(!m.offer(1, 1, 900_000_000, 2));
    assert!(!m.offer(0, 3, 100_000_000, 3));
    assert!(m.offer(0, 2, 900_000_000, 4));
    assert!(m.offer(0, 3, 950_000_000, 5));
    assert!(m.offer(1, 3, 990_000_000, 6));
    let rows = m.drain();
    assert_eq!(rows.len(), 2);
    assert_eq!(rows[&0].len(), 2);
    assert_eq!(rows[&0][&3].item, 5);
    assert_eq!(rows[&1][&3].ani, 990_000_000);
    assert!(m.drain().is_empty());
}

#[test]
fn flushes_overwrite_once_then_append() {
    let mut s = FlushSchedule::new(3);
    let mut got = Vec::new();
    for _ in 0..7 {
        got.push(s.complete_unit());
    }
    assert_eq!(got, vec![None, None, Some(false), None, None, Some(true), None]);
    assert!(s.final_append());
    assert_eq!(s.count(), 7);
}

#[test]
fn final_flush_overwrites_without_intermediate_flush() {
    let mut s = FlushSchedule::new(10);
    for _ in 0..4 {
        assert_eq!(s.complete_unit(), None);
    }
    assert!(!s.final_append());
}

#[test]
fn dist_run_flushes_whole_epochs() {
    let mut run: DistRun<usize> = DistRun::new(2);
    assert!(run.offer(500_000_000, 1));
    assert!(run.complete_query().is_none());
    assert!(!run.offer(50_000_000, 2));
    assert!(run.offer(600_000_000, 3));
    let (batch, append) = run.complete_query().unwrap();
    assert_eq!(batch.iter().map(|s| s.item).collect::<Vec<_>>(), vec![1, 3]);
    assert!(!append);
    assert!(run.offer(700_000_000, 4));
    let (last, append) = run.finish();
    assert_eq!(last.len(), 1);
    assert_eq!(last[0].item, 4);
    assert!(append);
}

#[test]
fn triangle_run_flushes_whole_epochs() {
    let mut run: TriangleRun<u8> = TriangleRun::new(1);
    assert!(run.offer(0, 1, 990_000_000, 7));
    let (rows, append) = run.complete_row().unwrap();
    assert!(!append);
    assert_eq!(rows[&0][&1].item, 7);
    let (rows, append) = run.finish();
    assert!(rows.is_empty());
    assert!(append);
}

#[test]
fn default_screen_identity_by_mode() {
    assert_eq!(effective_screen_val(0, false), 800_000_000);
    assert_eq!(effective_screen_val(0, true), 600_000_000);
    assert_eq!(effective_screen_val(123, true), 123);
}

#[test]
fn empty_inputs_are_fatal() {
    assert_eq!(check_nonempty(0, 3), Err(RunError::EmptyInput));
    assert_eq!(check_nonempty(2, 0), Err(RunError::EmptyInput));
    assert_eq!(check_nonempty(2, 3), Ok(()));
}

#[test]
fn dist_params_resolution() {
    let cli = params(125, false);
    let loaded = params(200, false);
    let r = resolve_dist_params(cli, None, None).unwrap();
    assert_eq!(r.params, cli);
    assert!(!r.warn_ref_mismatch && !r.warn_query_mismatch);
    let r = resolve_dist_params(cli, Some(loaded), None).unwrap();
    assert_eq!(r.params, loaded);
    assert!(r.warn_ref_mismatch);
    assert_eq!(resolve_dist_params(cli, Some(loaded), Some(cli)), Err(RunError::ParamsMismatch));
    let r = resolve_dist_params(cli, Some(loaded), Some(loaded)).unwrap();
    assert!(!r.warn_query_mismatch);
    let r = resolve_dist_params(cli, None, Some(loaded)).unwrap();
    assert_eq!(r.params, cli);
    assert!(r.warn_query_mismatch);
}

#[test]
fn triangle_params_warn_on_density_only() {
    let cli = params(125, false);
    let r = resolve_triangle_params(cli, Some(SketchParams { c: 125, k: 19, use_aa: false }));
    assert_eq!(r.params.k, 19);
    assert!(!r.warn_ref_mismatch);
    let r = resolve_triangle_params(cli, Some(params(30, false)));
    assert_eq!(r.params.c, 30);
    assert!(r.warn_ref_mismatch);
    assert_eq!(resolve_triangle_params(cli, None).params, cli);
}

#[test]
fn candidates_without_screening_are_all_references() {
    let refs = vec![
        Sketch { file_name: "a".to_string(), marker_seeds: vec![] },
        Sketch { file_name: "b".to_string(), marker_seeds: vec![1] },
    ];
    let q = Sketch { file_name: "q".to_string(), marker_seeds: (0..50).collect() };
    let idx = KmerToSketch::new();
    assert_eq!(dist_candidates(false, 800_000_000, &idx, &q, &params(125, false), &refs), vec![0, 1]);
}

#[test]
fn triangle_candidates_lie_above_the_row() {
    let refs: Vec<Sketch> = (0..4)
        .map(|i| Sketch { file_name: format!("s{}", i), marker_seeds: (0..30).collect() })
        .collect();
    let idx = kmer_to_sketch_from_refs(&refs);
    let p = params(125, false);
    assert_eq!(triangle_candidates(800_000_000, &idx, &p, &refs, 1), vec![2, 3]);
    assert_eq!(triangle_candidates(800_000_000, &idx, &p, &refs, 3), Vec::<usize>::new());
    let q = &refs[0];
    assert_eq!(dist_candidates(true, 800_000_000, &idx, q, &p, &refs), vec![0, 1, 2, 3]);
}
