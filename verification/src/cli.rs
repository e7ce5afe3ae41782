//! What one invocation is asked to do.

use std::path::PathBuf;
use vstd::prelude::*;

verus! {

/// `std::path::PathBuf`, carried through as it is: nothing here looks inside
/// a path.
#[verifier::external_type_specification]
#[verifier::external_body]
pub struct ExPathBuf(PathBuf);

/// The arguments of one invocation.
#[derive(Debug)]
pub struct Cli {
    /// path to the file to split in half
    pub infile: PathBuf,
}

} // verus!
