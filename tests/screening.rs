use skani::index::{kmer_to_sketch_from_refs, KmerToSketch};
use skani::params::{Sketch, SketchParams, IDENTITY_SCALE};
use skani::screen::{screen_refs, screen_refs_filenames};

fn sketch(name: &str, markers: Vec<u64>) -> Sketch {
    Sketch { file_name: name.to_string(), marker_seeds: markers }
}

fn dna() -> SketchParams {
    SketchParams { c: 125, k: 15, use_aa: false }
}

fn aa() -> SketchParams {
    SketchParams { c: 15, k: 6, use_aa: true }
}

/// Markers `0..shared` followed by `total - shared` markers found nowhere else.
fn partial(name: &str, shared: u64, total: u64, salt: u64) -> Sketch {
    let mut m: Vec<u64> = (0..shared).collect();
    m.extend((0..total - shared).map(|x| salt * 100_000 + x));
    sketch(name, m)
}

#[test]
fn index_lists_each_occurrence_in_order() {
    let refs = vec![sketch("a", vec![1, 2, 2]), sketch("b", vec![2, 3])];
    let idx = kmer_to_sketch_from_refs(&refs);
    assert_eq!(idx.postings(1), vec![0]);
    assert_eq!(idx.postings(2), vec![0, 0, 1]);
    assert_eq!(idx.postings(3), vec![1]);
    assert_eq!(idx.postings(9), Vec::<u32>::new());
}

#[test]
fn empty_index_has_no_postings() {
    let idx = KmerToSketch::new();
    assert!(idx.postings(0).is_empty());
    let idx = kmer_to_sketch_from_refs(&Vec::new());
    assert!(idx.postings(42).is_empty());
}

#[test]
fn small_query_returns_every_reference() {
    let refs = vec![sketch("a", vec![1]), sketch("b", vec![]), sketch("c", vec![7, 8])];
    let idx = kmer_to_sketch_from_refs(&refs);
    let q = sketch("q", (100..119).collect());
    assert_eq!(screen_refs(800_000_000, &idx, &q, &dna(), &refs), vec![0, 1, 2]);
}

#[test]
fn screening_keeps_related_references() {
    let refs = vec![
        sketch("same", (0..20).collect()),
        sketch("half", (0..10).collect()),
        sketch("none", (500..540).collect()),
    ];
    let idx = kmer_to_sketch_from_refs(&refs);
    let q = sketch("q", (0..20).collect());
    assert_eq!(screen_refs(800_000_000, &idx, &q, &dna(), &refs), vec![0, 1]);
    // At identity 1 a reference must share more markers than the smaller count.
    assert_eq!(screen_refs(IDENTITY_SCALE, &idx, &q, &dna(), &refs), Vec::<usize>::new());
}

#[test]
fn screening_cutoff_is_strict_and_floored() {
    // 0.95^21 on the fixed-point scale is 0.340561622: 100 markers need more than 34.
    let refs = vec![partial("x", 34, 100, 1), partial("y", 35, 100, 2)];
    let idx = kmer_to_sketch_from_refs(&refs);
    let q = sketch("q", (0..100).collect());
    assert_eq!(screen_refs(950_000_000, &idx, &q, &dna(), &refs), vec![1]);
    // 0.95^10 is 0.598736937: 100 markers need more than 59.
    assert_eq!(screen_refs(950_000_000, &idx, &q, &aa(), &refs), Vec::<usize>::new());
}

#[test]
fn screening_at_least_one_shared_marker_is_not_enough() {
    let refs = vec![partial("one", 1, 30, 1), partial("two", 2, 30, 2)];
    let idx = kmer_to_sketch_from_refs(&refs);
    let q = sketch("q", (0..30).collect());
    assert_eq!(screen_refs(800_000_000, &idx, &q, &dna(), &refs), vec![1]);
}

#[test]
fn raising_identity_never_adds_survivors() {
    let refs: Vec<Sketch> = (0..8).map(|s| partial("r", 10 + 10 * s, 100, s + 1)).collect();
    let idx = kmer_to_sketch_from_refs(&refs);
    let q = sketch("q", (0..100).collect());
    let mut prev = screen_refs(0, &idx, &q, &dna(), &refs);
    for id in [500_000_000u64, 900_000_000, 950_000_000, 990_000_000, IDENTITY_SCALE] {
        let cur = screen_refs(id, &idx, &q, &dna(), &refs);
        assert!(cur.iter().all(|j| prev.contains(j)));
        prev = cur;
    }
}

#[test]
fn screening_is_symmetric_within_one_set() {
    let refs: Vec<Sketch> = vec![
        partial("a", 40, 60, 1),
        partial("b", 25, 40, 2),
        partial("c", 12, 100, 3),
        partial("d", 60, 60, 4),
        sketch("e", (1000..1030).collect()),
    ];
    let idx = kmer_to_sketch_from_refs(&refs);
    for i in 0..refs.len() {
        for j in 0..refs.len() {
            let ij = screen_refs(950_000_000, &idx, &refs[i], &dna(), &refs).contains(&j);
            let ji = screen_refs(950_000_000, &idx, &refs[j], &dna(), &refs).contains(&i);
            assert_eq!(ij, ji, "pair {} {}", i, j);
        }
    }
}

#[test]
fn filenames_screen_small_queries_too() {
    let refs = vec![sketch("a", vec![1, 2, 3, 4, 5]), sketch("b", vec![9]), sketch("c", vec![1, 2])];
    let idx = kmer_to_sketch_from_refs(&refs);
    let q = sketch("q", vec![1, 2, 3, 4, 5]);
    let names: Vec<String> = screen_refs_filenames(800_000_000, &idx, &q, &dna(), &refs)
        .into_iter()
        .cloned()
        .collect();
    assert_eq!(names, vec!["a".to_string(), "c".to_string()]);
}
