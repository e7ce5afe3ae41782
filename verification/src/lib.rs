//! Bisects a binary file into two halves, each tagged with the byte range it
//! covers in the original, unsplit file.

pub mod bisect;
pub mod cli;
pub mod decimal;
pub mod error;
pub mod naming;
pub mod signature;
pub mod split;

pub use cli::Cli;
pub use error::SplitError;
pub use signature::Signature;
pub use split::{run, HalfFile, SplitFile, SplitHalf, SplitOutput};
