//! What a run is asked to do.

use vstd::prelude::*;

verus! {

/// The stage of the pipeline to run.
#[derive(Copy, Clone, PartialEq, Eq, PartialOrd, Ord, Structural, Debug)]
pub enum Mode {
    /// Unpack the archives and annotate their documents.
    Format,
    /// Pack the formatted folders.
    Compress,
    /// Send the archives to the service.
    Upload,
}

impl Default for Mode {
    fn default() -> (mode: Mode)
        ensures
            mode == Mode::Format,
    {
        Mode::Format
    }
}

/// The settings of a run, as plain values.
#[derive(Debug, Clone, PartialEq, Eq)]
pub struct Args {
    /// The stage to run.
    pub mode: Mode,
    /// The directory to work in.
    pub directory: String,
    /// Where compress mode writes, and upload mode reads.
    pub output: Option<String>,
    /// The base URL of the service.
    pub base_url: Option<String>,
    /// The token for uploads.
    pub token: Option<String>,
    /// The name that replaces the first segment of an uploaded file's name.
    pub upload_name: Option<String>,
}

} // verus!
