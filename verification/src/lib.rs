//! Approximate semantic-similarity search over binary fingerprints.
//!
//! Free-text records are embedded (by an external provider), sign-quantized
//! into fixed-width bit vectors, and matched against named context filters by
//! Hamming distance. A corpus can be baked into an on-disk binary index plus a
//! raw-text blob and scanned later by memory-mapping both files.

pub mod bake;
pub mod csv_source;
pub mod errors;
pub mod filter;
pub mod fingerprint;
pub mod index;
pub mod pipeline;
pub mod scan;
pub mod thesaurus;
