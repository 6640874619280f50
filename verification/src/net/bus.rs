//! What a streaming fetch reports as it goes.

use vstd::prelude::*;

verus! {

/// An event of a streaming fetch: the response head, a piece of the body,
/// or a failure.
#[derive(Debug, Clone)]
pub enum ResourceBusEvent {
    /// The status line and headers arrived.
    HeaderReceived {
        url: String,
        status_code: u16,
        content_length: Option<usize>,
        content_type: Option<String>,
    },
    /// A piece of the body arrived, `offset` bytes into it.
    ChunkReceived { url: String, chunk_data: Vec<u8>, offset: usize, is_final: bool },
    /// The fetch failed.
    FetchError { url: String, message: String },
}

} // verus!
