//! The ways in which a resolution fails.

use vstd::prelude::*;

verus! {

/// Which of the two files an error is about.
#[derive(Debug, Clone, Copy, PartialEq, Eq)]
pub enum SourceFile {
    Config,
    Credentials,
}

/// A failure of parsing or of chain resolution.
#[derive(Debug)]
pub enum ConfigError {
    /// The file is missing or could not be read.
    FileUnreadable { file: SourceFile },
    /// The file's text is not valid INI.
    MalformedSection { file: SourceFile, line: usize, col: usize, message: String },
    /// Following `source_profile` links came back to a profile already visited.
    /// `chain` holds the names in the order visited, ending with the repeated one.
    CyclicProfileChain { chain: Vec<String> },
}

} // verus!
