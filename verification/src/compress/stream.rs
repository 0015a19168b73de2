//! The compress side of the sequence-transform pipeline: its cores.
//!
//! The transform itself is a lazy sequence of chunks over a lazy sequence
//! of records; its per-pull decisions stand here, over an optional
//! encoder slot, exactly as the transform's internal state holds one.
//! After the input's natural exhaustion one final flush seals the
//! trailing chunk, yielded only when it holds at least one record.

use vstd::prelude::*;
use crate::Error;
use crate::{chunk_records, chunk_views, chunks_records, lemma_chunks_records_snoc};
use crate::compress::ProstEncoder;
use crate::frame::frame_payload;
use crate::record::{Record, RecordV, record_encoding, encoded_seq, views_of};

verus! {

/// The compress transform: records in, size-bounded chunks out.
pub struct Compressor;

impl Compressor {
    /// One pull step while the input is live: write the record, then
    /// seal exactly when the compressed output after the write has
    /// reached the threshold. Output only grows, so output already at the
    /// threshold before the write guarantees a seal; when no flush
    /// intervened, a seal conversely means the output had already reached
    /// it.
    pub fn write_produce(encoder: &mut Option<ProstEncoder>, message: &Record, level: i32, chunk_size: usize) -> (r: Result<Option<Vec<u8>>, Error>)
        requires
            (*old(encoder)) is Some,
            (*old(encoder))->Some_0.wf(),
            message@.data.len() + 32 <= u64::MAX,
        ensures
            match r {
                Ok(o) => {
                    &&& (*final(encoder)) is Some
                    &&& (*final(encoder))->Some_0.wf()
                    &&& match o {
                        None => {
                            &&& (*final(encoder))->Some_0.records()
                                == (*old(encoder))->Some_0.records() + seq![message@]
                            &&& (*final(encoder))->Some_0.compressed().len() < chunk_size
                        },
                        Some(chunk) => {
                            &&& frame_payload(chunk@) == Some(encoded_seq(
                                (*old(encoder))->Some_0.records() + seq![message@]))
                            &&& chunk_records(chunk@)
                                == Some((*old(encoder))->Some_0.records() + seq![message@])
                            &&& (*final(encoder))->Some_0.records() == Seq::<RecordV>::empty()
                        },
                    }
                },
                Err(e) => e is Zstd,
            },
            (r is Ok && (*old(encoder))->Some_0.compressed().len() >= chunk_size)
                ==> r->Ok_0 is Some,
            (r is Ok && r->Ok_0 is Some
                && (*old(encoder))->Some_0.pending_len() + record_encoding(message@).len()
                    < (*old(encoder))->Some_0.flush_threshold())
                ==> (*old(encoder))->Some_0.compressed().len() >= chunk_size,
    {
        let mut enc = encoder.take().unwrap();
        match enc.write(message) {
            Ok(written) => {},
            Err(e) => {
                return Err(e);
            },
        }
        *encoder = Some(enc);
        Self::maybe_produce(encoder, level, chunk_size)
    }

    /// Seals and yields the current chunk exactly when the compressed
    /// output has reached the threshold, replacing the encoder with a
    /// fresh one; below the threshold the encoder is left untouched.
    pub fn maybe_produce(encoder: &mut Option<ProstEncoder>, level: i32, chunk_size: usize) -> (r: Result<Option<Vec<u8>>, Error>)
        requires
            (*old(encoder)) is Some,
            (*old(encoder))->Some_0.wf(),
        ensures
            match r {
                Ok(o) => {
                    &&& (*final(encoder)) is Some
                    &&& (*final(encoder))->Some_0.wf()
                    &&& match o {
                        None => *final(encoder) == *old(encoder),
                        Some(chunk) => {
                            &&& frame_payload(chunk@) == Some(encoded_seq(
                                (*old(encoder))->Some_0.records()))
                            &&& chunk_records(chunk@) == Some((*old(encoder))->Some_0.records())
                            &&& (*final(encoder))->Some_0.records() == Seq::<RecordV>::empty()
                        },
                    }
                },
                Err(e) => e is Zstd,
            },
            r is Ok ==> (r->Ok_0 is Some
                <==> (*old(encoder))->Some_0.compressed().len() >= chunk_size),
    {
        let compressed_len = match encoder.as_ref() {
            Some(enc) => enc.compressed_len(),
            None => 0,
        };
        if compressed_len >= chunk_size {
            let enc = encoder.take().unwrap();
            let chunk = match enc.finish() {
                Ok(chunk) => chunk,
                Err(e) => {
                    return Err(e);
                },
            };
            let fresh = match ProstEncoder::new(level) {
                Ok(fresh) => fresh,
                Err(e) => {
                    return Err(e);
                },
            };
            *encoder = Some(fresh);
            Ok(Some(chunk))
        } else {
            Ok(None)
        }
    }

    /// The terminal step after the input's exhaustion: seals the trailing
    /// chunk, or yields nothing — with success owed — when no record was
    /// written, so an empty input yields no chunk at all.
    pub fn finish(encoder: ProstEncoder) -> (r: Result<Option<Vec<u8>>, Error>)
        requires
            encoder.wf(),
        ensures
            match r {
                Ok(o) => match o {
                    None => encoder.records().len() == 0,
                    Some(chunk) => {
                        &&& encoder.records().len() > 0
                        &&& frame_payload(chunk@) == Some(encoded_seq(encoder.records()))
                        &&& chunk_records(chunk@) == Some(encoder.records())
                    },
                },
                Err(e) => e is Zstd,
            },
            encoder.records().len() == 0 ==> r is Ok && r->Ok_0 is None,
    {
        if encoder.is_empty() {
            Ok(None)
        } else {
            match encoder.finish() {
                Ok(chunk) => Ok(Some(chunk)),
                Err(e) => Err(e),
            }
        }
    }

    /// The whole transform over a finite input: every record is written,
    /// chunks are sealed at the threshold, and the trailing chunk comes
    /// only when it holds at least one record. The chunks decode back to
    /// exactly the input records, in order; an empty input yields no
    /// chunks; and with a zero threshold a chunk is sealed after — never
    /// during — every record, so each input record lands alone in its own
    /// chunk.
    #[verifier::loop_isolation(false)]
    pub fn encode_all(messages: &Vec<Record>, level: i32, chunk_size: usize) -> (r: Result<Vec<Vec<u8>>, Error>)
        requires
            forall|i: int| 0 <= i < messages@.len()
                ==> (#[trigger] messages@[i])@.data.len() + 32 <= u64::MAX,
        ensures
            match r {
                Ok(chunks) => {
                    &&& chunks_records(chunk_views(chunks@)) == Some(views_of(messages@))
                    &&& (messages@.len() == 0 ==> chunks@.len() == 0)
                    &&& forall|i: int| 0 <= i < chunks@.len()
                        ==> (#[trigger] chunk_records(chunks@[i]@)) is Some
                            && chunk_records(chunks@[i]@)->Some_0.len() > 0
                    &&& (chunk_size == 0 ==> chunks@.len() == messages@.len()
                        && forall|i: int| 0 <= i < chunks@.len()
                            ==> (#[trigger] chunk_records(chunks@[i]@))
                                == Some(seq![messages@[i]@]))
                },
                Err(e) => e is Zstd,
            },
    {
        let mut encoder = match ProstEncoder::new(level) {
            Ok(enc) => Some(enc),
            Err(e) => {
                return Err(e);
            },
        };
        let mut chunks: Vec<Vec<u8>> = Vec::new();
        let mut i: usize = 0;
        while i < messages.len()
            invariant
                i <= messages@.len(),
                encoder is Some,
                encoder->Some_0.wf(),
                chunks_records(chunk_views(chunks@)) is Some,
                chunks_records(chunk_views(chunks@))->Some_0 + encoder->Some_0.records()
                    == views_of(messages@.subrange(0, i as int)),
                forall|j: int| 0 <= j < chunks@.len()
                    ==> (#[trigger] chunk_records(chunks@[j]@)) is Some
                        && chunk_records(chunks@[j]@)->Some_0.len() > 0,
                chunk_size == 0 ==> encoder->Some_0.records() == Seq::<RecordV>::empty(),
                chunk_size == 0 ==> chunks@.len() == i,
                chunk_size == 0 ==> forall|j: int| 0 <= j < chunks@.len()
                    ==> (#[trigger] chunk_records(chunks@[j]@)) == Some(seq![messages@[j]@]),
            decreases messages@.len() - i,
        {
            let ghost done = chunks_records(chunk_views(chunks@))->Some_0;
            let ghost held = encoder->Some_0.records();
            let ghost msg = messages@[i as int]@;
            let ghost prev = chunks@;
            match Self::write_produce(&mut encoder, &messages[i], level, chunk_size) {
                Ok(None) => {
                    proof {
                        if chunk_size == 0 {
                            assert(false);
                        }
                        assert(views_of(messages@.subrange(0, i + 1))
                            =~= views_of(messages@.subrange(0, i as int)) + seq![msg]);
                        assert(done + (held + seq![msg]) =~= (done + held) + seq![msg]);
                    }
                },
                Ok(Some(chunk)) => {
                    chunks.push(chunk);
                    proof {
                        assert(chunk_views(chunks@) =~= chunk_views(prev) + seq![chunk@]);
                        lemma_chunks_records_snoc(chunk_views(prev), chunk@);
                        assert(views_of(messages@.subrange(0, i + 1))
                            =~= views_of(messages@.subrange(0, i as int)) + seq![msg]);
                        assert(done + (held + seq![msg]) =~= (done + held) + seq![msg]);
                        assert((done + (held + seq![msg])) + Seq::<RecordV>::empty()
                            =~= done + (held + seq![msg]));
                        assert forall|j: int| 0 <= j < chunks@.len()
                            implies (#[trigger] chunk_records(chunks@[j]@)) is Some
                                && chunk_records(chunks@[j]@)->Some_0.len() > 0
                        by {
                            if j < prev.len() {
                                assert(chunks@[j] == prev[j]);
                            } else {
                                assert(chunks@[j] == chunk);
                            }
                        }
                        if chunk_size == 0 {
                            assert(held + seq![msg] =~= seq![msg]);
                            assert forall|j: int| 0 <= j < chunks@.len()
                                implies (#[trigger] chunk_records(chunks@[j]@))
                                    == Some(seq![messages@[j]@])
                            by {
                                if j < prev.len() {
                                    assert(chunks@[j] == prev[j]);
                                } else {
                                    assert(chunks@[j] == chunk);
                                }
                            }
                        }
                    }
                },
                Err(e) => {
                    return Err(e);
                },
            }
            i = i + 1;
        }
        let enc = encoder.unwrap();
        let ghost done = chunks_records(chunk_views(chunks@))->Some_0;
        let ghost held = enc.records();
        let ghost prev = chunks@;
        proof {
            assert(messages@.subrange(0, messages@.len() as int) =~= messages@);
        }
        match Self::finish(enc) {
            Ok(None) => {
                proof {
                    assert(done + held =~= done);
                }
                Ok(chunks)
            },
            Ok(Some(chunk)) => {
                chunks.push(chunk);
                proof {
                    if chunk_size == 0 {
                        assert(false);
                    }
                    assert(chunk_views(chunks@) =~= chunk_views(prev) + seq![chunk@]);
                    lemma_chunks_records_snoc(chunk_views(prev), chunk@);
                    assert(views_of(messages@).len() == messages@.len());
                    assert forall|j: int| 0 <= j < chunks@.len()
                        implies (#[trigger] chunk_records(chunks@[j]@)) is Some
                            && chunk_records(chunks@[j]@)->Some_0.len() > 0
                    by {
                        if j < prev.len() {
                            assert(chunks@[j] == prev[j]);
                        } else {
                            assert(chunks@[j] == chunk);
                        }
                    }
                }
                Ok(chunks)
            },
            Err(e) => Err(e),
        }
    }
}

} // verus!
