//! The output formats the writer side can produce, as marker types, and
//! the scratch buffer the format functions write into.

use vstd::prelude::*;

verus! {

/// Logfmt following <https://www.brandur.org/logfmt>.
#[derive(Debug)]
pub struct LogFmt;

/// Structured logging using JSON.
#[derive(Debug)]
pub struct Json;

/// Google Cloud Platform structured logging using JSON, following
/// <https://cloud.google.com/logging/docs/structured-logging>.
#[derive(Debug)]
pub struct Gcloud;

/// Number of output slices the format functions require.
pub const BUFS_SIZE: usize = 16;

/// Formatting buffer: scratch bytes for the parts of a message that need
/// formatting, and the indices where its sections (message, key-value
/// pairs, file and line) end.
#[derive(Debug)]
pub struct Buffer {
    buf: Vec<u8>,
    indices: [usize; 3],
}

impl Buffer {
    /// The scratch bytes.
    pub closed spec fn bytes(&self) -> Seq<u8> {
        self.buf@
    }

    /// Create a new format `Buffer` with its initial scratch size.
    pub fn new() -> (r: Buffer)
        ensures
            r.bytes().len() == 1024,
    {
        let buf = vec![0u8; 1024];
        let indices: [usize; 3] = [0, 0, 0];
        Buffer { buf, indices }
    }
}

} // verus!
