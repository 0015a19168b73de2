//! Tests of the encoder and decoder pair on concrete record sequences.

use prosto::compress::stream::Compressor as StreamCompressor;
use prosto::decompress::io::Decompressor as ChunkDecompressor;
use prosto::decompress::stream::Decompressor as StreamDecompressor;
use prosto::record::Record;
use prosto::{Error, ProstDecoder, ProstEncoder};

fn rec(id: u64, data: Vec<u8>) -> Record {
    Record { id, data }
}

fn sample_records() -> Vec<Record> {
    vec![rec(0, vec![]), rec(1, vec![0]), rec(2, vec![0, 1])]
}

/// The serialized length-delimited form of the three sample records.
fn sample_payload() -> Vec<u8> {
    vec![
        0x00, // {id:0, data:[]} — empty body
        0x05, 0x08, 0x01, 0x12, 0x01, 0x00, // {id:1, data:[0]}
        0x06, 0x08, 0x02, 0x12, 0x02, 0x00, 0x01, // {id:2, data:[0,1]}
    ]
}

#[test]
fn three_records_one_chunk() {
    // records {id:0,data:[]}, {id:1,data:[0]}, {id:2,data:[0,1]} at
    // chunk_size = 256 KiB, level 5: exactly one chunk, decoding to the
    // three records in order.
    let records = sample_records();
    let chunks = StreamCompressor::encode_all(&records, 5, 256 * 1024).unwrap();
    assert_eq!(chunks.len(), 1);
    let decoded = ChunkDecompressor::decode_chunk(&chunks[0]).unwrap();
    assert_eq!(decoded, records);
}

#[test]
fn chunk_payload_is_length_delimited_concatenation() {
    // The chunk is a real compressed frame whose payload is exactly the
    // concatenated length-delimited records, with no extra framing.
    let chunks = StreamCompressor::encode_all(&sample_records(), 5, 256 * 1024).unwrap();
    let payload = zstd::decode_all(&chunks[0][..]).unwrap();
    assert_eq!(payload, sample_payload());
}

#[test]
fn encoder_write_reports_body_length() {
    let mut enc = ProstEncoder::new(3).unwrap();
    assert_eq!(enc.write(&rec(0, vec![])).unwrap(), 0);
    assert_eq!(enc.write(&rec(1, vec![0])).unwrap(), 5);
    assert_eq!(enc.write(&rec(2, vec![0, 1])).unwrap(), 6);
    let chunk = enc.finish().unwrap();
    let payload = zstd::decode_all(&chunk[..]).unwrap();
    assert_eq!(payload, sample_payload());
}

#[test]
fn decoder_yields_records_in_order() {
    let mut enc = ProstEncoder::new(3).unwrap();
    for r in sample_records() {
        enc.write(&r).unwrap();
    }
    let chunk = enc.finish().unwrap();
    let mut dec = ProstDecoder::new_decompressed(&chunk).unwrap();
    let mut got: Vec<Record> = Vec::new();
    while let Some(item) = dec.next() {
        got.push(item.unwrap());
    }
    assert_eq!(got, sample_records());
}

#[test]
fn varint_edge_ids_round_trip() {
    let records = vec![
        rec(0, vec![]),
        rec(127, vec![1]),
        rec(128, vec![2]),
        rec(300, vec![3]),
        rec(u64::MAX, vec![4]),
    ];
    let chunks = StreamCompressor::encode_all(&records, 3, 1024 * 1024).unwrap();
    let decoded = StreamDecompressor::decode_chunks(&chunks).unwrap();
    assert_eq!(decoded, records);
}

#[test]
fn large_data_round_trips() {
    let mut big = Vec::new();
    for i in 0..100_000u32 {
        big.push((i % 251) as u8);
    }
    let records = vec![rec(7, big.clone()), rec(8, big)];
    let chunks = StreamCompressor::encode_all(&records, 1, 4096).unwrap();
    assert!(chunks.len() >= 1);
    let decoded = StreamDecompressor::decode_chunks(&chunks).unwrap();
    assert_eq!(decoded, records);
}

#[test]
fn empty_input_yields_no_chunks() {
    // Encoding an empty sequence produces zero chunks: no empty trailing
    // chunk is emitted.
    let chunks = StreamCompressor::encode_all(&Vec::new(), 5, 0).unwrap();
    assert!(chunks.is_empty());
}

#[test]
fn empty_record_alone_round_trips() {
    let records = vec![rec(0, vec![])];
    let chunks = StreamCompressor::encode_all(&records, 5, 1024).unwrap();
    assert_eq!(chunks.len(), 1);
    assert_eq!(StreamDecompressor::decode_chunks(&chunks).unwrap(), records);
}

#[test]
fn explicit_flush_keeps_the_round_trip() {
    let mut enc = ProstEncoder::new(3).unwrap();
    enc.write(&rec(1, vec![1; 100])).unwrap();
    enc.flush().unwrap();
    enc.write(&rec(2, vec![2; 100])).unwrap();
    let chunk = enc.finish().unwrap();
    let got = ChunkDecompressor::decode_chunk(&chunk).unwrap();
    assert_eq!(got, vec![rec(1, vec![1; 100]), rec(2, vec![2; 100])]);
}

#[test]
fn compressed_len_counts_the_stream_output() {
    let mut enc = ProstEncoder::new(3).unwrap();
    assert!(enc.is_empty());
    assert_eq!(enc.compressed_len(), 0);
    enc.write(&rec(1, vec![7; 5000])).unwrap();
    assert!(!enc.is_empty());
    enc.flush().unwrap();
    assert_eq!(enc.compressed_len(), enc.get_ref().len());
}

#[test]
fn bad_frame_is_zstd_error() {
    match ProstDecoder::new_decompressed(&[0xDE, 0xAD, 0xBE, 0xEF]) {
        Ok(_) => panic!("garbage bytes are no valid frame"),
        Err(err) => assert!(matches!(err, Error::Zstd(_))),
    }
}

#[test]
fn bad_payload_is_decode_error() {
    // A valid frame whose payload is not a record stream: tag 0xFF is no
    // known field.
    let frame = zstd::encode_all(&[0x02u8, 0xFF, 0xFF][..], 3).unwrap();
    let mut dec = ProstDecoder::new_decompressed(&frame).unwrap();
    let first = dec.next().unwrap();
    assert!(matches!(first, Err(Error::ProstDecode)));
    // The cursor does not resynchronize: the failure repeats.
    let second = dec.next().unwrap();
    assert!(matches!(second, Err(Error::ProstDecode)));
}

#[test]
fn overlong_varint_is_decode_error() {
    // A record body whose id field carries an eleven-byte varint: past
    // the wire format's ten-byte limit, so rejected even though the
    // value (zero) would fit.
    let payload = vec![
        0x0C, 0x08, 0x80, 0x80, 0x80, 0x80, 0x80, 0x80, 0x80, 0x80, 0x80, 0x80, 0x00,
    ];
    let frame = zstd::encode_all(&payload[..], 3).unwrap();
    let err = ChunkDecompressor::decode_chunk(&frame).unwrap_err();
    assert!(matches!(err, Error::ProstDecode));
}

#[test]
fn truncated_payload_is_decode_error() {
    // A record that declares more bytes than the payload holds.
    let frame = zstd::encode_all(&[0x09u8, 0x08, 0x01][..], 3).unwrap();
    let err = ChunkDecompressor::decode_chunk(&frame).unwrap_err();
    assert!(matches!(err, Error::ProstDecode));
}
