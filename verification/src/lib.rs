//! Verified core of a zero-knowledge image-transformation pipeline: an image
//! model with its transformations, the decode/encode boundary to PNG bytes,
//! the composition of chained transformation steps, vertical stitching of
//! image strips, and the naming and argument rules of the host programs.
pub mod chain;
pub mod cli;
pub mod codec;
pub mod journal;
pub mod names;
pub mod ops;
pub mod pipeline;
pub mod prover_input;
pub mod raster;
pub mod receipts;
pub mod stitch;
pub mod transform;
