//! Tests of the pipeline stage cores: chunk-size behaviour, stage
//! closure, and upstream-error passthrough.

use prosto::compress::io::Compressor as StageCompressor;
use prosto::compress::stream::Compressor as StreamCompressor;
use prosto::decompress::io::Decompressor as ChunkDecompressor;
use prosto::decompress::stream::Decompressor as StreamDecompressor;
use prosto::record::Record;
use prosto::{Error, StreamError};

fn rec(id: u64, data: Vec<u8>) -> Record {
    Record { id, data }
}

#[test]
fn zero_chunk_size_seals_after_every_record() {
    // chunk_size = 0 is advisory: every record still lands whole, and a
    // new chunk begins after (never during) each record.
    let records = vec![rec(1, vec![1]), rec(2, vec![2, 2]), rec(3, vec![3, 3, 3])];
    let chunks = StreamCompressor::encode_all(&records, 3, 0).unwrap();
    assert_eq!(chunks.len(), 3);
    for (i, chunk) in chunks.iter().enumerate() {
        let got = ChunkDecompressor::decode_chunk(chunk).unwrap();
        assert_eq!(got, vec![records[i].clone()]);
    }
}

#[test]
fn oversized_record_lands_whole_in_one_chunk() {
    // A single record far larger than the threshold is never split.
    let mut big = Vec::new();
    for i in 0..50_000u32 {
        big.push((i % 13) as u8);
    }
    let records = vec![rec(42, big)];
    let chunks = StreamCompressor::encode_all(&records, 3, 16).unwrap();
    assert_eq!(chunks.len(), 1);
    let got = ChunkDecompressor::decode_chunk(&chunks[0]).unwrap();
    assert_eq!(got, records);
}

#[test]
fn stage_push_and_close_round_trip() {
    let records = vec![rec(10, vec![0; 64]), rec(11, vec![1; 64]), rec(12, vec![2; 64])];
    let mut stage = StageCompressor::new(1, 3).unwrap();
    let mut chunks: Vec<Vec<u8>> = Vec::new();
    for r in &records {
        if let Some(chunk) = stage.push(r).unwrap() {
            chunks.push(chunk);
        }
    }
    if let Some(chunk) = stage.close().unwrap() {
        chunks.push(chunk);
    }
    let decoded = StreamDecompressor::decode_chunks(&chunks).unwrap();
    assert_eq!(decoded, records);
}

#[test]
fn stage_close_without_records_sends_nothing() {
    let stage = StageCompressor::new(1024, 3).unwrap();
    assert!(stage.close().unwrap().is_none());
}

#[test]
fn stage_trailing_chunk_holds_the_leftovers() {
    // A huge threshold: nothing is sealed while records arrive; closure
    // seals one trailing chunk holding all of them.
    let records = vec![rec(1, vec![9]), rec(2, vec![8])];
    let mut stage = StageCompressor::new(usize::MAX, 3).unwrap();
    for r in &records {
        assert!(stage.push(r).unwrap().is_none());
    }
    let chunk = stage.close().unwrap().expect("a trailing chunk");
    assert_eq!(ChunkDecompressor::decode_chunk(&chunk).unwrap(), records);
}

#[test]
fn upstream_error_passes_through_after_decoded_chunks() {
    // The fallible transform: records of the successful prefix come out
    // in order, then the upstream failure tagged as upstream, nothing
    // after.
    let first = vec![rec(1, vec![1])];
    let second = vec![rec(2, vec![2])];
    let chunk1 = StreamCompressor::encode_all(&first, 3, 0).unwrap().remove(0);
    let chunk2 = StreamCompressor::encode_all(&second, 3, 0).unwrap().remove(0);
    let inputs: Vec<Result<Vec<u8>, &str>> =
        vec![Ok(chunk1), Ok(chunk2), Err("socket closed"), Ok(vec![1, 2, 3])];
    let (records, stop) = StreamDecompressor::try_decode_chunks(inputs);
    assert_eq!(records, vec![rec(1, vec![1]), rec(2, vec![2])]);
    assert!(matches!(stop, Some(StreamError::Other("socket closed"))));
}

#[test]
fn codec_failure_is_not_tagged_upstream() {
    let inputs: Vec<Result<Vec<u8>, &str>> = vec![Ok(vec![0xBA, 0xD0])];
    let (records, stop) = StreamDecompressor::try_decode_chunks(inputs);
    assert!(records.is_empty());
    assert!(matches!(stop, Some(StreamError::Prosto(Error::Zstd(_)))));
}

#[test]
fn fallible_without_failure_ends_clean() {
    let records = vec![rec(5, vec![5, 5])];
    let chunk = StreamCompressor::encode_all(&records, 3, 0).unwrap().remove(0);
    let inputs: Vec<Result<Vec<u8>, String>> = vec![Ok(chunk)];
    let (got, stop) = StreamDecompressor::try_decode_chunks(inputs);
    assert_eq!(got, records);
    assert!(stop.is_none());
}

#[test]
fn total_decode_short_circuits_on_bad_chunk() {
    let records = vec![rec(1, vec![1])];
    let chunk = StreamCompressor::encode_all(&records, 3, 0).unwrap().remove(0);
    let chunks = vec![chunk, vec![0xFF, 0xFF]];
    let err = StreamDecompressor::decode_chunks(&chunks).unwrap_err();
    assert!(matches!(err, Error::Zstd(_)));
}

#[test]
fn every_chunk_decodes_alone() {
    // Chunk atomicity: each chunk of a multi-chunk run is a complete
    // frame of whole records; none ends mid-record.
    let mut records = Vec::new();
    for i in 0..40u64 {
        records.push(rec(i, vec![(i % 200) as u8; 400]));
    }
    let chunks = StreamCompressor::encode_all(&records, 1, 0).unwrap();
    assert_eq!(chunks.len(), records.len());
    let mut total = 0;
    for chunk in &chunks {
        total += ChunkDecompressor::decode_chunk(chunk).unwrap().len();
    }
    assert_eq!(total, records.len());
}

#[test]
fn undecodable_payload_is_tagged_prosto() {
    // A well-formed frame whose payload is no record stream fails as the
    // codec's own error, not as an upstream one.
    let frame = zstd::encode_all(&[0x01u8, 0xEE][..], 3).unwrap();
    let inputs: Vec<Result<Vec<u8>, ()>> = vec![Ok(frame)];
    let (records, stop) = StreamDecompressor::try_decode_chunks(inputs);
    assert!(records.is_empty());
    assert!(matches!(stop, Some(StreamError::Prosto(Error::ProstDecode))));
}

#[test]
fn chunks_decode_in_order_across_chunks() {
    let mut records = Vec::new();
    for i in 0..200u64 {
        let mut data = Vec::new();
        for j in 0..2048u64 {
            data.push(((i * 31 + j * 7) % 251) as u8);
        }
        records.push(rec(i, data));
    }
    let chunks = StreamCompressor::encode_all(&records, 3, 64).unwrap();
    assert!(chunks.len() > 1);
    let decoded = StreamDecompressor::decode_chunks(&chunks).unwrap();
    assert_eq!(decoded, records);
}
