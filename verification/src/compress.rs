//! The chunk encoder: buffers serialized records and seals them into one
//! compressed chunk.
//!
//! Records are serialized into a pending buffer; when the buffer reaches
//! the flush threshold (the compressor's recommended input size, fixed at
//! construction) it is pushed into the compression stream — an
//! amortization step only, which never ends the chunk. Finishing the
//! encoder seals the stream into one self-contained chunk whose
//! decompressed payload is exactly the concatenation of the serialized
//! records, in order.

use vstd::prelude::*;
use crate::Error;
use crate::chunk_records;
use crate::frame::{ZstdStream, frame_payload, stream_bytes, stream_out, stream_new,
    stream_write, stream_out_len, stream_out_ref, stream_finish, recommended_input_size};
use crate::record::{Record, RecordV, record_body, record_encoding, encoded_seq, records_fit,
    record_fits, encode_varint, lemma_encoded_seq_snoc, lemma_round_trip};

pub mod io;
pub mod stream;

verus! {

/// Buffers records and compresses them into one chunk.
pub struct ProstEncoder {
    protobuf: Vec<u8>,
    inner: ZstdStream,
    flush_threshold: usize,
    wrote_any: bool,
    history: Ghost<Seq<RecordV>>,
}

impl ProstEncoder {
    /// The records written into the current chunk, in order.
    pub closed spec fn records(&self) -> Seq<RecordV> {
        self.history@
    }

    /// The bytes serialized but not yet pushed into the compression stream.
    pub closed spec fn pending_len(&self) -> nat {
        self.protobuf@.len()
    }

    /// The compressed bytes the stream has produced so far. Compression
    /// output is opaque: only its identity and length are spoken of.
    pub closed spec fn compressed(&self) -> Seq<u8> {
        stream_out(self.inner)
    }

    /// The pending-buffer size at which a flush into the compression
    /// stream happens; fixed at construction.
    pub closed spec fn flush_threshold(&self) -> usize {
        self.flush_threshold
    }

    /// Well-formed: the compression stream followed by the pending buffer
    /// holds exactly the serialized records, each record fits, and the
    /// flush threshold is positive.
    pub closed spec fn wf(&self) -> bool {
        &&& stream_bytes(self.inner) + self.protobuf@ == encoded_seq(self.history@)
        &&& records_fit(self.history@)
        &&& self.wrote_any == (self.history@.len() != 0)
        &&& self.flush_threshold >= 1
    }

    /// Opens a fresh encoder over a new compression stream: no record
    /// written, nothing pending, nothing yet compressed.
    pub fn new(level: i32) -> (r: Result<ProstEncoder, Error>)
        ensures
            r is Ok ==> {
                &&& r->Ok_0.wf()
                &&& r->Ok_0.records() == Seq::<RecordV>::empty()
                &&& r->Ok_0.pending_len() == 0
                &&& r->Ok_0.compressed() == Seq::<u8>::empty()
            },
            r is Err ==> r->Err_0 is Zstd,
    {
        match stream_new(level) {
            Ok(s) => {
                let enc = ProstEncoder {
                    protobuf: Vec::new(),
                    inner: s,
                    flush_threshold: recommended_input_size(),
                    wrote_any: false,
                    history: Ghost(Seq::empty()),
                };
                proof {
                    assert(encoded_seq(Seq::<RecordV>::empty()) == Seq::<u8>::empty());
                    assert(stream_bytes(enc.inner) + enc.protobuf@
                        =~= encoded_seq(Seq::<RecordV>::empty()));
                }
                Ok(enc)
            },
            Err(e) => Err(Error::Zstd(e)),
        }
    }

    /// True when no record has been written into the current chunk.
    pub fn is_empty(&self) -> (r: bool)
        requires
            self.wf(),
        ensures
            r == (self.records().len() == 0),
    {
        !self.wrote_any
    }

    /// Serializes one record into the pending buffer; once the buffer has
    /// reached the flush threshold it is pushed whole into the
    /// compression stream and cleared. Returns the record's serialized
    /// body length. Success is owed whenever no flush is due: only the
    /// flush makes an outside call.
    pub fn write(&mut self, message: &Record) -> (r: Result<usize, Error>)
        requires
            old(self).wf(),
            message@.data.len() + 32 <= u64::MAX,
        ensures
            match r {
                Ok(n) => {
                    &&& final(self).wf()
                    &&& final(self).records() == old(self).records() + seq![message@]
                    &&& n == record_body(message@).len()
                    &&& final(self).flush_threshold() == old(self).flush_threshold()
                    &&& final(self).pending_len() < final(self).flush_threshold()
                    &&& old(self).compressed().is_prefix_of(final(self).compressed())
                    &&& if old(self).pending_len() + record_encoding(message@).len()
                            >= old(self).flush_threshold() {
                        final(self).pending_len() == 0
                    } else {
                        &&& final(self).pending_len()
                            == old(self).pending_len() + record_encoding(message@).len()
                        &&& final(self).compressed() == old(self).compressed()
                    }
                },
                Err(e) => e is Zstd,
            },
            old(self).pending_len() + record_encoding(message@).len()
                < old(self).flush_threshold() ==> r is Ok,
    {
        let mut body: Vec<u8> = Vec::new();
        message.encode_body(&mut body);
        let n = body.len();
        encode_varint(n as u64, &mut self.protobuf);
        self.protobuf.append(&mut body);
        self.wrote_any = true;
        self.history = Ghost(self.history@ + seq![message@]);
        proof {
            lemma_encoded_seq_snoc(old(self).records(), message@);
            assert(record_fits(message@));
            assert(records_fit(self.history@)) by {
                assert(forall|i: int| 0 <= i < old(self).records().len()
                    ==> #[trigger] self.history@[i] == old(self).records()[i]);
                assert(self.history@[self.history@.len() - 1] == message@);
            }
            assert(stream_bytes(self.inner) + self.protobuf@ =~= encoded_seq(self.history@));
        }
        if self.protobuf.len() >= self.flush_threshold {
            match self.flush() {
                Ok(u) => Ok(n),
                Err(e) => Err(e),
            }
        } else {
            proof {
                assert(self.compressed().is_prefix_of(self.compressed()));
            }
            Ok(n)
        }
    }

    /// Pushes the pending buffer into the compression stream. This only
    /// amortizes compressor calls; it does not seal the chunk, and the
    /// output produced so far only grows.
    pub fn flush(&mut self) -> (r: Result<(), Error>)
        requires
            old(self).wf(),
        ensures
            match r {
                Ok(u) => {
                    &&& final(self).wf()
                    &&& final(self).records() == old(self).records()
                    &&& final(self).pending_len() == 0
                    &&& final(self).flush_threshold() == old(self).flush_threshold()
                    &&& old(self).compressed().is_prefix_of(final(self).compressed())
                },
                Err(e) => e is Zstd,
            },
    {
        match stream_write(&mut self.inner, self.protobuf.as_slice()) {
            Ok(u) => {
                self.protobuf.clear();
                proof {
                    assert(stream_bytes(self.inner) + self.protobuf@
                        =~= encoded_seq(self.history@));
                }
                Ok(())
            },
            Err(e) => Err(Error::Zstd(e)),
        }
    }

    /// The number of compressed bytes produced for the current chunk so
    /// far; callers use it as the chunk-size trigger.
    pub fn compressed_len(&self) -> (r: usize)
        ensures
            r == self.compressed().len(),
    {
        stream_out_len(&self.inner)
    }

    /// A read-only view of the compressed bytes produced so far.
    pub fn get_ref(&self) -> (r: &Vec<u8>)
        ensures
            r@ == self.compressed(),
    {
        stream_out_ref(&self.inner)
    }

    /// Flushes the pending buffer, finalizes the compression stream and
    /// seals the chunk: its decompressed payload is exactly the
    /// concatenation of the records' length-delimited encodings, which
    /// parses back to exactly the records written, in order. Consumes the
    /// encoder.
    pub fn finish(self) -> (r: Result<Vec<u8>, Error>)
        requires
            self.wf(),
        ensures
            match r {
                Ok(chunk) => {
                    &&& frame_payload(chunk@) == Some(encoded_seq(self.records()))
                    &&& chunk_records(chunk@) == Some(self.records())
                },
                Err(e) => e is Zstd,
            },
    {
        let mut me = self;
        if me.protobuf.len() != 0 {
            match me.flush() {
                Ok(u) => {},
                Err(e) => {
                    return Err(e);
                },
            }
        }
        proof {
            assert(stream_bytes(me.inner) + me.protobuf@ =~= stream_bytes(me.inner));
        }
        let ProstEncoder { protobuf: _, inner, flush_threshold: _, wrote_any: _, history } = me;
        match stream_finish(inner) {
            Ok(chunk) => {
                proof {
                    lemma_round_trip(history@);
                }
                Ok(chunk)
            },
            Err(e) => Err(Error::Zstd(e)),
        }
    }
}

} // verus!
