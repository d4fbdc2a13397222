use vstd::prelude::*;

verus! {

/// Identities are fixed-point numbers: `IDENTITY_SCALE` stands for 1.0.
pub const IDENTITY_SCALE: u64 = 1_000_000_000;

/// Marker k-mer size used by the screening cutoff in amino-acid mode.
pub const K_MARKER_AA: u64 = 10;

/// Marker k-mer size used by the screening cutoff in nucleotide mode.
pub const K_MARKER_DNA: u64 = 21;

/// Default screening identity for nucleotide comparisons (0.80).
pub const SEARCH_ANI_CUTOFF_DEFAULT: u64 = 800_000_000;

/// Default screening identity for amino-acid comparisons (0.60).
pub const SEARCH_AAI_CUTOFF_DEFAULT: u64 = 600_000_000;

/// Queries with fewer markers than this are never screened.
pub const MIN_SCREEN_MARKERS: usize = 20;

/// Number of completed outer units between two intermediate flushes.
pub const INTERMEDIATE_WRITE_COUNT: usize = 5000;

/// Results whose identity is at or below this value (on the fixed-point
/// scale, i.e. 0.1) are discarded.
pub const DISCARD_ANI: u64 = 100_000_000;

/// Per-run sketching parameters.
#[derive(Clone, Copy, Debug, PartialEq, Eq, Structural)]
pub struct SketchParams {
    /// Sampling density.
    pub c: usize,
    /// Seed k-mer length.
    pub k: usize,
    /// Amino-acid rather than nucleotide mode.
    pub use_aa: bool,
}

/// A reference or query item as the core sees it.
#[derive(Clone, Debug)]
pub struct Sketch {
    pub file_name: String,
    pub marker_seeds: Vec<u64>,
}

/// Marker k-mers of every sketch, in order.
pub open spec fn markers_of(refs: Seq<Sketch>) -> Seq<Seq<u64>> {
    refs.map_values(|s: Sketch| s.marker_seeds@)
}

} // verus!
