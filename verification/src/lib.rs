//! A chunking codec for streams of structured records.
//!
//! Records are serialized into a length-delimited byte form, gathered into
//! size-bounded compressed chunks, and reconstructed losslessly on the far
//! side. Each chunk is one self-contained compression frame holding a whole
//! number of records: record boundaries never cross a chunk boundary.

use vstd::prelude::*;

pub mod compress;
pub mod decompress;
pub mod frame;
pub mod record;

pub use compress::ProstEncoder;
pub use decompress::ProstDecoder;
pub use record::Record;

verus! {

/// A failure of the codec itself.
#[derive(Debug)]
pub enum Error {
    /// The underlying compressor or decompressor failed.
    Zstd(std::io::Error),
    /// An input or output channel failed.
    IO(std::io::Error),
    /// A record could not be serialized.
    ProstEncode,
    /// Bytes at the read cursor did not parse as a record.
    ProstDecode,
    /// The receiving end of a pipeline stage is gone.
    ChannelClosed,
}

/// A failure of a fallible sequence transform: either a failure of this
/// codec, or a failure passed through from the upstream sequence.
#[derive(Debug)]
pub enum StreamError<E> {
    /// A failure of this codec's own framing.
    Prosto(Error),
    /// A failure of whatever produced the input sequence, passed through
    /// untouched.
    Other(E),
}

/// What one chunk holds: the records parsed from its decompressed
/// payload, or nothing where the bytes are not a valid frame or the
/// payload does not parse as whole records.
pub open spec fn chunk_records(chunk: Seq<u8>) -> Option<Seq<crate::record::RecordV>> {
    match crate::frame::frame_payload(chunk) {
        Some(d) => crate::record::parse_all(d),
        None => None,
    }
}

/// The values of a sequence of chunks.
pub open spec fn chunk_views(cs: Seq<Vec<u8>>) -> Seq<Seq<u8>> {
    cs.map_values(|c: Vec<u8>| c@)
}

/// What a sequence of chunks holds: their records concatenated in order,
/// or nothing where any chunk fails to decode.
pub open spec fn chunks_records(cs: Seq<Seq<u8>>) -> Option<Seq<crate::record::RecordV>>
    decreases cs.len(),
{
    if cs.len() == 0 {
        Some(Seq::<crate::record::RecordV>::empty())
    } else {
        match (chunk_records(cs[0]), chunks_records(cs.skip(1))) {
            (Some(h), Some(t)) => Some(h + t),
            _ => None,
        }
    }
}

/// Appending one chunk to a sequence appends its records.
pub proof fn lemma_chunks_records_snoc(cs: Seq<Seq<u8>>, c: Seq<u8>)
    ensures
        chunks_records(cs + seq![c]) == (match (chunks_records(cs), chunk_records(c)) {
            (Some(t), Some(h)) => Some(t + h),
            _ => None::<Seq<crate::record::RecordV>>,
        }),
    decreases cs.len(),
{
    let s = cs + seq![c];
    if cs.len() == 0 {
        assert(s =~= seq![c]);
        assert(s.skip(1) =~= Seq::<Seq<u8>>::empty());
        assert(chunks_records(Seq::<Seq<u8>>::empty())
            == Some(Seq::<crate::record::RecordV>::empty()));
        match chunk_records(c) {
            Some(h) => {
                assert(chunks_records(s) == Some(h + Seq::<crate::record::RecordV>::empty()));
                assert(h + Seq::<crate::record::RecordV>::empty() =~= h);
                assert(Seq::<crate::record::RecordV>::empty() + h =~= h);
            },
            None => {},
        }
    } else {
        assert(s[0] == cs[0]);
        assert(s.skip(1) =~= cs.skip(1) + seq![c]);
        lemma_chunks_records_snoc(cs.skip(1), c);
        match (chunk_records(cs[0]), chunks_records(cs.skip(1)), chunk_records(c)) {
            (Some(h0), Some(t0), Some(h)) => {
                assert(chunks_records(s) == Some(h0 + (t0 + h)));
                assert(h0 + (t0 + h) =~= (h0 + t0) + h);
            },
            _ => {},
        }
    }
}

} // verus!
