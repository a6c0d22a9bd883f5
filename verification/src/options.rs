//! Output options that the chunk core reads.

use vstd::prelude::*;

verus! {

/// A pattern from which the name of an output file is made.
#[derive(Debug)]
pub struct FileNameTemplate {
    pub template: String,
}

/// The two naming templates of a build.
#[derive(Debug)]
pub struct OutputOptions {
    /// Governs the files of the entries that the user asked for.
    pub entry_file_names: FileNameTemplate,
    /// Governs the files of every other chunk.
    pub chunk_file_names: FileNameTemplate,
}

} // verus!
