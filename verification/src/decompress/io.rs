//! The decompress stage of the actor pipeline: its per-chunk core.
//!
//! The stage itself is a task that receives chunks from an inbound
//! mailbox, decodes each, and sends every record onward; the mailbox loop
//! lives with the caller. What the stage decides per chunk stands here.

use vstd::prelude::*;
use crate::Error;
use crate::chunk_records;
use crate::frame::frame_payload;
use crate::record::{Record, views_of};
use crate::decompress::ProstDecoder;

verus! {

/// The decompress stage: one chunk in, its records out.
pub struct Decompressor;

impl Decompressor {
    /// Decodes one chunk into its records, in order. A decompression or
    /// parse failure is fatal for the chunk: no partial record list is
    /// handed out.
    pub fn decode_chunk(compressed: &[u8]) -> (r: Result<Vec<Record>, Error>)
        ensures
            match r {
                Ok(recs) => chunk_records(compressed@) == Some(views_of(recs@)),
                Err(e) => {
                    &&& chunk_records(compressed@) is None
                    &&& (frame_payload(compressed@) is None ==> e is Zstd)
                    &&& (frame_payload(compressed@) is Some ==> e is ProstDecode)
                },
            },
    {
        match ProstDecoder::new_decompressed(compressed) {
            Ok(d) => d.read_all(),
            Err(e) => Err(e),
        }
    }
}

} // verus!
