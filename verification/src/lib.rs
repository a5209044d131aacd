//! Decoder for the STEL binary container format and its run-length model.

pub mod container;
pub mod cursor;
pub mod error;
pub mod metadata;
pub mod report;
pub mod rle;
pub mod text;

pub use container::{StelData, MAGIC_BYTES0, MAGIC_BYTES1};
pub use error::ParseError;
pub use metadata::HumanMetadata;
