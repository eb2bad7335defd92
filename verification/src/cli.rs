//! The arguments of an invocation.

use vstd::prelude::*;

verus! {

#[verifier::external_type_specification]
#[verifier::external_body]
pub struct ExPathBuf(std::path::PathBuf);

/// The buffer size that is used where the user gives none: 128 MiB.
pub const DEFAULT_BUFF_SIZE: usize = 1024 * 1024 * 128;

/// The user input of an invocation.
pub struct Cli {
    /// The path to the query input file
    pub input_path: std::path::PathBuf,
    /// The path to the datafile to process
    pub data_path: std::path::PathBuf,
    /// Optional buffer size in kb
    pub buff_size: Option<usize>,
}

impl Cli {
    /// The buffer size to use: the one that the user gave, or the default.
    pub fn buffer_size(&self) -> (r: usize)
        ensures
            r == match self.buff_size {
                Some(n) => n,
                None => DEFAULT_BUFF_SIZE,
            },
    {
        match self.buff_size {
            Some(n) => n,
            None => DEFAULT_BUFF_SIZE,
        }
    }
}

} // verus!
