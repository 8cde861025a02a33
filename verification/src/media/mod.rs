//! Reading, writing and working with media files: exact timing metadata,
//! frame addressing and the synthetic test-clip matrix.
pub mod metadata;
pub mod probe;
pub mod fixtures;
pub mod random;
pub mod generation;
pub mod read;
pub mod stamp;
pub mod registry;
pub mod encode;
