//! Core of a genome-similarity estimator: the marker index, reference
//! screening, and the bookkeeping of the pairwise drivers.
pub mod index;
pub mod params;
pub mod screen;
pub mod driver;
pub mod stream;
pub mod screen_laws;
