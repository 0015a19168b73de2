//! The trusted boundary to the zstd streaming codec.
//!
//! The compressor is an opaque streaming object: bytes are written into it,
//! and finishing it yields one self-contained compressed frame. Nothing is
//! assumed about the frame's bytes themselves; the one fact relied on is
//! that decompressing a finished frame gives back exactly the bytes that
//! were written into the stream.

use vstd::prelude::*;

verus! {

#[verifier::external_type_specification]
#[verifier::external_body]
pub struct ExIoError(std::io::Error);

/// An open zstd compression stream writing into an in-memory buffer.
///
/// Held opaquely: Verus sees nothing inside it, and every operation on it
/// goes through the trusted functions below. (The compressor's own type
/// carries a lifetime and an io::Write bound that Verus refuses to declare.)
#[verifier::external_body]
pub struct ZstdStream {
    inner: zstd::stream::Encoder<'static, Vec<u8>>,
}

/// The result of one-shot decompression of a byte buffer: the decompressed
/// payload, or nothing where the bytes are not a valid compressed frame.
pub uninterp spec fn frame_payload(frame: Seq<u8>) -> Option<Seq<u8>>;

/// The bytes written so far into an open compression stream.
pub uninterp spec fn stream_bytes(e: ZstdStream) -> Seq<u8>;

/// The compressed bytes the stream has produced so far into its sink.
pub uninterp spec fn stream_out(e: ZstdStream) -> Seq<u8>;

/// Relies on zstd::stream::Encoder::new: a fresh stream has had nothing
/// written into it and has produced nothing into its (empty) sink.
#[verifier::external_body]
pub(crate) fn stream_new(level: i32) -> (r: Result<ZstdStream, std::io::Error>)
    ensures
        r is Ok ==> stream_bytes(r->Ok_0) == Seq::<u8>::empty(),
        r is Ok ==> stream_out(r->Ok_0) == Seq::<u8>::empty(),
{
    Ok(ZstdStream { inner: zstd::stream::Encoder::new(Vec::new(), level)? })
}

/// Relies on the std::io::Write impl of zstd::stream::Encoder: write_all
/// feeds the whole buffer into the compression stream, in order. The
/// stream only ever appends to its sink, so the output produced before
/// the call stays a prefix of the output after it.
#[verifier::external_body]
pub(crate) fn stream_write(e: &mut ZstdStream, data: &[u8]) -> (r: Result<(), std::io::Error>)
    ensures
        r is Ok ==> stream_bytes(*final(e)) == stream_bytes(*old(e)) + data@,
        r is Ok ==> stream_out(*old(e)).is_prefix_of(stream_out(*final(e))),
{
    std::io::Write::write_all(&mut e.inner, data)
}

/// Relies on zstd::stream::Encoder::get_ref: the compressed bytes produced
/// so far sit in the inner writer; this is their count.
#[verifier::external_body]
pub(crate) fn stream_out_len(e: &ZstdStream) -> (r: usize)
    ensures
        r == stream_out(*e).len(),
{
    e.inner.get_ref().len()
}

/// Relies on zstd::stream::Encoder::get_ref: a read-only view of the
/// compressed bytes produced so far.
#[verifier::external_body]
pub(crate) fn stream_out_ref(e: &ZstdStream) -> (r: &Vec<u8>)
    ensures
        r@ == stream_out(*e),
{
    e.inner.get_ref()
}

/// Relies on zstd::stream::Encoder::finish: finishing seals one complete
/// frame in the inner writer, and decompressing that frame yields exactly
/// the bytes written into the stream.
#[verifier::external_body]
pub(crate) fn stream_finish(e: ZstdStream) -> (r: Result<Vec<u8>, std::io::Error>)
    ensures
        r is Ok ==> frame_payload(r->Ok_0@) == Some(stream_bytes(e)),
{
    e.inner.finish()
}

/// Relies on zstd::stream::Encoder::recommended_input_size: a positive
/// advisory write size (zstd_safe::CCtx::in_size, a fixed buffer size).
#[verifier::external_body]
pub(crate) fn recommended_input_size() -> (r: usize)
    ensures
        r >= 1,
{
    zstd::stream::Encoder::<Vec<u8>>::recommended_input_size()
}

/// Relies on zstd::decode_all: one-shot decompression of a byte buffer.
/// Its outcome depends on the bytes alone; success yields the frame's
/// payload and failure means the bytes are not a valid frame.
#[verifier::external_body]
pub(crate) fn decode_frame(compressed: &[u8]) -> (r: Result<Vec<u8>, std::io::Error>)
    ensures
        r is Ok ==> frame_payload(compressed@) == Some(r->Ok_0@),
        r is Err ==> frame_payload(compressed@) is None,
{
    zstd::decode_all(compressed)
}

} // verus!
