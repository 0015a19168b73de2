//! The decompress side of the sequence-transform pipeline: its cores.
//!
//! The transforms themselves are lazy sequences; their decisions stand
//! here as functions over the items already pulled. The total variant
//! flattens the records of a sequence of chunks in order and
//! short-circuits on the first failure; the fallible variant passes an
//! upstream failure through tagged as upstream, never conflated with this
//! codec's own failures.

use vstd::prelude::*;
use crate::{Error, StreamError, chunk_records, chunk_views, chunks_records,
    lemma_chunks_records_snoc};
use crate::frame::frame_payload;
use crate::record::{Record, RecordV, views_of};

verus! {

/// The records a fallible input sequence yields before its first failing
/// or undecodable item.
pub open spec fn fallible_records<E>(inputs: Seq<Result<Vec<u8>, E>>) -> Seq<RecordV>
    decreases inputs.len(),
{
    if inputs.len() == 0 {
        Seq::<RecordV>::empty()
    } else {
        match inputs[0] {
            Ok(c) => match chunk_records(c@) {
                Some(rs) => rs + fallible_records(inputs.skip(1)),
                None => Seq::<RecordV>::empty(),
            },
            Err(e) => Seq::<RecordV>::empty(),
        }
    }
}

/// The position of the first failing or undecodable item of a fallible
/// input sequence, if any.
pub open spec fn fallible_stop<E>(inputs: Seq<Result<Vec<u8>, E>>) -> Option<int>
    decreases inputs.len(),
{
    if inputs.len() == 0 {
        None
    } else {
        match inputs[0] {
            Ok(c) => if chunk_records(c@) is Some {
                match fallible_stop(inputs.skip(1)) {
                    Some(j) => Some(j + 1),
                    None => None,
                }
            } else {
                Some(0int)
            },
            Err(e) => Some(0int),
        }
    }
}

/// The position of the first chunk of a sequence that fails to decode,
/// if any.
pub open spec fn chunks_stop(cs: Seq<Seq<u8>>) -> Option<int>
    decreases cs.len(),
{
    if cs.len() == 0 {
        None
    } else if chunk_records(cs[0]) is None {
        Some(0int)
    } else {
        match chunks_stop(cs.skip(1)) {
            Some(j) => Some(j + 1),
            None => None,
        }
    }
}

/// A sequence whose first bad chunk sits at a known position stops there.
proof fn lemma_chunks_stop_at(cs: Seq<Seq<u8>>, i: int)
    requires
        0 <= i < cs.len(),
        forall|j: int| 0 <= j < i ==> (#[trigger] chunk_records(cs[j])) is Some,
        chunk_records(cs[i]) is None,
    ensures
        chunks_stop(cs) == Some(i),
    decreases cs.len(),
{
    if i > 0 {
        assert(forall|j: int| 0 <= j < i - 1
            ==> (#[trigger] chunk_records(cs.skip(1)[j])) == chunk_records(cs[j + 1]));
        assert(cs.skip(1)[i - 1] == cs[i]);
        lemma_chunks_stop_at(cs.skip(1), i - 1);
    }
}

/// The decompress transforms.
pub struct Decompressor;

impl Decompressor {
    /// Total variant: decodes each chunk and flattens the records in
    /// order. The first failure short-circuits the whole output with
    /// that failure.
    #[verifier::loop_isolation(false)]
    pub fn decode_chunks(chunks: &Vec<Vec<u8>>) -> (r: Result<Vec<Record>, Error>)
        ensures
            match r {
                Ok(recs) => chunks_records(chunk_views(chunks@)) == Some(views_of(recs@)),
                Err(e) => {
                    &&& chunks_records(chunk_views(chunks@)) is None
                    &&& match chunks_stop(chunk_views(chunks@)) {
                        Some(j) => {
                            &&& 0 <= j < chunks@.len()
                            &&& (frame_payload(chunks@[j]@) is None ==> e is Zstd)
                            &&& (frame_payload(chunks@[j]@) is Some ==> e is ProstDecode)
                        },
                        None => false,
                    }
                },
            },
    {
        let mut out: Vec<Record> = Vec::new();
        let mut i: usize = 0;
        while i < chunks.len()
            invariant
                i <= chunks@.len(),
                chunks_records(chunk_views(chunks@.subrange(0, i as int)))
                    == Some(views_of(out@)),
                forall|j: int| 0 <= j < i ==> (#[trigger] chunk_records(chunks@[j]@)) is Some,
            decreases chunks@.len() - i,
        {
            match crate::decompress::io::Decompressor::decode_chunk(chunks[i].as_slice()) {
                Ok(mut recs) => {
                    let ghost pre = out@;
                    let ghost got = recs@;
                    out.append(&mut recs);
                    proof {
                        assert(chunk_views(chunks@.subrange(0, i + 1))
                            =~= chunk_views(chunks@.subrange(0, i as int)) + seq![chunks@[i as int]@]);
                        lemma_chunks_records_snoc(
                            chunk_views(chunks@.subrange(0, i as int)),
                            chunks@[i as int]@,
                        );
                        assert(views_of(pre) + views_of(got) =~= views_of(pre + got));
                    }
                },
                Err(e) => {
                    proof {
                        lemma_chunks_records_bad(chunk_views(chunks@), i as int);
                        assert(forall|j: int| 0 <= j < i
                            ==> (#[trigger] chunk_records(chunk_views(chunks@)[j]))
                                == chunk_records(chunks@[j]@));
                        lemma_chunks_stop_at(chunk_views(chunks@), i as int);
                    }
                    return Err(e);
                },
            }
            i = i + 1;
        }
        proof {
            assert(chunks@.subrange(0, chunks@.len() as int) =~= chunks@);
        }
        Ok(out)
    }

    /// Fallible variant: each successful input item is decoded as in the
    /// total variant; the first upstream failure is passed through tagged
    /// as upstream, and nothing follows it. A decode failure of a
    /// successful item is tagged as this codec's own.
    #[verifier::loop_isolation(false)]
    pub fn try_decode_chunks<E>(inputs: Vec<Result<Vec<u8>, E>>) -> (r: (Vec<Record>, Option<StreamError<E>>))
        ensures
            views_of(r.0@) == fallible_records(inputs@),
            match fallible_stop(inputs@) {
                None => r.1 is None,
                Some(j) => {
                    &&& 0 <= j < inputs@.len()
                    &&& match inputs@[j] {
                        Ok(c) => {
                            &&& r.1 is Some
                            &&& r.1->Some_0 is Prosto
                            &&& (frame_payload(c@) is None ==> r.1->Some_0->Prosto_0 is Zstd)
                            &&& (frame_payload(c@) is Some ==> r.1->Some_0->Prosto_0 is ProstDecode)
                        },
                        Err(e) => r.1 == Some(StreamError::Other(e)),
                    }
                },
            },
    {
        let mut rest = inputs;
        let ghost orig = rest@;
        let mut out: Vec<Record> = Vec::new();
        let ghost mut k: int = 0;
        proof {
            assert(orig.skip(0) =~= orig);
        }
        while rest.len() > 0
            invariant
                0 <= k <= orig.len(),
                rest@ == orig.skip(k),
                views_of(out@) + fallible_records(orig.skip(k)) == fallible_records(orig),
                match fallible_stop(orig.skip(k)) {
                    None => fallible_stop(orig) is None,
                    Some(j) => fallible_stop(orig) == Some(j + k),
                },
            decreases rest@.len(),
        {
            let item = rest.remove(0);
            proof {
                assert(orig.skip(k)[0] == orig[k]);
                assert(orig.skip(k).skip(1) =~= orig.skip(k + 1));
            }
            match item {
                Ok(chunk) => {
                    match crate::decompress::io::Decompressor::decode_chunk(chunk.as_slice()) {
                        Ok(mut recs) => {
                            let ghost pre = out@;
                            let ghost got = recs@;
                            out.append(&mut recs);
                            proof {
                                assert(views_of(pre) + views_of(got) =~= views_of(pre + got));
                                assert(fallible_records(orig.skip(k))
                                    == views_of(got) + fallible_records(orig.skip(k + 1)));
                                assert(views_of(pre) + (views_of(got) + fallible_records(orig.skip(k + 1)))
                                    =~= views_of(pre + got) + fallible_records(orig.skip(k + 1)));
                                k = k + 1;
                            }
                        },
                        Err(e) => {
                            proof {
                                assert(fallible_stop(orig.skip(k)) == Some(0int));
                                assert(fallible_records(orig.skip(k)) =~= Seq::<RecordV>::empty());
                                assert(views_of(out@) + Seq::<RecordV>::empty() =~= views_of(out@));
                            }
                            return (out, Some(StreamError::Prosto(e)));
                        },
                    }
                },
                Err(e) => {
                    proof {
                        assert(fallible_stop(orig.skip(k)) == Some(0int));
                        assert(fallible_records(orig.skip(k)) =~= Seq::<RecordV>::empty());
                        assert(views_of(out@) + Seq::<RecordV>::empty() =~= views_of(out@));
                    }
                    return (out, Some(StreamError::Other(e)));
                },
            }
        }
        proof {
            assert(orig.skip(k).len() == 0);
            assert(fallible_records(orig.skip(k)) =~= Seq::<RecordV>::empty());
            assert(views_of(out@) + Seq::<RecordV>::empty() =~= views_of(out@));
        }
        (out, None)
    }
}

/// A chunk that fails to decode poisons the whole sequence.
proof fn lemma_chunks_records_bad(cs: Seq<Seq<u8>>, i: int)
    requires
        0 <= i < cs.len(),
        chunk_records(cs[i]) is None,
    ensures
        chunks_records(cs) is None,
    decreases cs.len(),
{
    if i > 0 {
        assert(cs.skip(1)[i - 1] == cs[i]);
        lemma_chunks_records_bad(cs.skip(1), i - 1);
    }
}

} // verus!
