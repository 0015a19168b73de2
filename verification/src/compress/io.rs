//! The compress stage of the actor pipeline: its per-event core.
//!
//! The stage itself is a task between two mailboxes: it receives records,
//! and sends a chunk whenever the compressed output reaches the caller's
//! chunk-size threshold, plus one trailing chunk on closure. The mailbox
//! loop lives with the caller; what the stage decides per event stands
//! here.

use vstd::prelude::*;
use crate::Error;
use crate::chunk_records;
use crate::compress::ProstEncoder;
use crate::frame::frame_payload;
use crate::record::{Record, RecordV, record_encoding, encoded_seq};

verus! {

/// The compress stage: records in, size-bounded chunks out.
pub struct Compressor {
    encoder: ProstEncoder,
    chunk_size: usize,
    level: i32,
}

impl Compressor {
    pub closed spec fn wf(&self) -> bool {
        self.encoder.wf()
    }

    /// The records accepted since the last sealed chunk, in order.
    pub closed spec fn pending(&self) -> Seq<RecordV> {
        self.encoder.records()
    }

    /// The caller-chosen chunk-size threshold.
    pub closed spec fn threshold(&self) -> usize {
        self.chunk_size
    }

    /// The compressed bytes produced for the current chunk so far.
    pub closed spec fn compressed(&self) -> Seq<u8> {
        self.encoder.compressed()
    }

    /// The bytes serialized for the current chunk but not yet handed to
    /// the compressor.
    pub closed spec fn pending_bytes(&self) -> nat {
        self.encoder.pending_len()
    }

    /// The encoder's pending-buffer flush threshold.
    pub closed spec fn flush_limit(&self) -> usize {
        self.encoder.flush_threshold()
    }

    /// Opens the stage with a chunk-size threshold and a compression
    /// level.
    pub fn new(chunk_size: usize, level: i32) -> (r: Result<Compressor, Error>)
        ensures
            r is Ok ==> {
                &&& r->Ok_0.wf()
                &&& r->Ok_0.pending() == Seq::<RecordV>::empty()
                &&& r->Ok_0.threshold() == chunk_size
                &&& r->Ok_0.compressed().len() == 0
            },
            r is Err ==> r->Err_0 is Zstd,
    {
        match ProstEncoder::new(level) {
            Ok(encoder) => Ok(Compressor { encoder, chunk_size, level }),
            Err(e) => Err(e),
        }
    }

    /// Accepts one record, then checks the seal trigger — only between
    /// records, never mid-record: the chunk is sealed exactly when the
    /// compressed output after the write has reached the threshold. The
    /// threshold is a trigger point, not a cap: a record larger than it
    /// still lands whole in one chunk. Compressed output only grows, so
    /// output already at the threshold before the write guarantees a
    /// seal; when no flush intervened, a seal conversely means the output
    /// had already reached it.
    pub fn push(&mut self, message: &Record) -> (r: Result<Option<Vec<u8>>, Error>)
        requires
            old(self).wf(),
            message@.data.len() + 32 <= u64::MAX,
        ensures
            match r {
                Ok(o) => {
                    &&& final(self).wf()
                    &&& final(self).threshold() == old(self).threshold()
                    &&& match o {
                        None => {
                            &&& final(self).pending() == old(self).pending() + seq![message@]
                            &&& final(self).compressed().len() < old(self).threshold()
                        },
                        Some(chunk) => {
                            &&& frame_payload(chunk@)
                                == Some(encoded_seq(old(self).pending() + seq![message@]))
                            &&& chunk_records(chunk@) == Some(old(self).pending() + seq![message@])
                            &&& final(self).pending() == Seq::<RecordV>::empty()
                        },
                    }
                },
                Err(e) => e is Zstd,
            },
            (r is Ok && old(self).compressed().len() >= old(self).threshold())
                ==> r->Ok_0 is Some,
            (r is Ok && r->Ok_0 is Some
                && old(self).pending_bytes() + record_encoding(message@).len()
                    < old(self).flush_limit())
                ==> old(self).compressed().len() >= old(self).threshold(),
    {
        match self.encoder.write(message) {
            Ok(written) => {},
            Err(e) => {
                return Err(e);
            },
        }
        if self.encoder.compressed_len() >= self.chunk_size {
            let mut sealed = match ProstEncoder::new(self.level) {
                Ok(fresh) => fresh,
                Err(e) => {
                    return Err(e);
                },
            };
            core::mem::swap(&mut self.encoder, &mut sealed);
            match sealed.finish() {
                Ok(chunk) => Ok(Some(chunk)),
                Err(e) => Err(e),
            }
        } else {
            Ok(None)
        }
    }

    /// Closes the stage on inbound closure: seals and returns the
    /// trailing chunk, or nothing — with success owed — when no record
    /// was written, so an empty input yields no chunk at all.
    pub fn close(self) -> (r: Result<Option<Vec<u8>>, Error>)
        requires
            self.wf(),
        ensures
            match r {
                Ok(o) => match o {
                    None => self.pending().len() == 0,
                    Some(chunk) => {
                        &&& self.pending().len() > 0
                        &&& frame_payload(chunk@) == Some(encoded_seq(self.pending()))
                        &&& chunk_records(chunk@) == Some(self.pending())
                    },
                },
                Err(e) => e is Zstd,
            },
            self.pending().len() == 0 ==> r is Ok && r->Ok_0 is None,
    {
        if self.encoder.is_empty() {
            Ok(None)
        } else {
            match self.encoder.finish() {
                Ok(chunk) => Ok(Some(chunk)),
                Err(e) => Err(e),
            }
        }
    }
}

} // verus!
