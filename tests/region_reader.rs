use std::io::Write;

use flate2::write::{GzEncoder, ZlibEncoder};
use flate2::Compression;
use overviewer_core::format::NbtError;
use overviewer_core::compression::{decode_payload, load, PayloadError};
use overviewer_core::region::{chunk_span, McrFileReader, RegionError};
use overviewer_core::tag::TagValue;

const MINIMAL: [u8; 4] = [10, 0, 0, 0];

fn zlib(data: &[u8]) -> Vec<u8> {
    let mut e = ZlibEncoder::new(Vec::new(), Compression::default());
    e.write_all(data).unwrap();
    e.finish().unwrap()
}

fn gzip(data: &[u8]) -> Vec<u8> {
    let mut e = GzEncoder::new(Vec::new(), Compression::default());
    e.write_all(data).unwrap();
    e.finish().unwrap()
}

/// A header with the given (slot, location, timestamp) entries.
fn header(entries: &[(usize, u32, i32)]) -> Vec<u8> {
    let mut h = vec![0u8; 8192];
    for &(slot, loc, ts) in entries {
        h[4 * slot..4 * slot + 4].copy_from_slice(&loc.to_be_bytes());
        h[4096 + 4 * slot..4096 + 4 * slot + 4].copy_from_slice(&ts.to_be_bytes());
    }
    h
}

/// A chunk record: length (including the compression byte), compression, payload.
fn record(compression: u8, payload: &[u8]) -> Vec<u8> {
    let mut r = ((payload.len() + 1) as u32).to_be_bytes().to_vec();
    r.push(compression);
    r.extend_from_slice(payload);
    r
}

fn reader(entries: &[(usize, u32, i32)], body: Vec<u8>) -> McrFileReader {
    let mut m = McrFileReader::open(&header(entries)).unwrap();
    m.load_data(body);
    m
}

#[test]
fn empty_region_lists_nothing() {
    let m = reader(&[], Vec::new());
    assert!(m.get_chunks().is_empty());
    assert_eq!(m.load_chunk(0, 0), Ok(None));
    assert!(!m.chunk_exists(0, 0));
}

#[test]
fn zlib_chunk_at_first_body_sector_decodes() {
    let m = reader(&[(0, (2 << 8) | 1, 77)], record(2, &zlib(&MINIMAL)));
    assert_eq!(m.get_chunks(), vec![(0, 0)]);
    assert!(m.chunk_exists(0, 0));
    assert_eq!(m.get_chunk_timestamp(0, 0), 77);
    assert_eq!(m.load_chunk(0, 0), Ok(Some((String::new(), vec![]))));
}

#[test]
fn gzip_chunk_decodes() {
    let mut doc = vec![10, 0, 1, b'n', 3, 0, 1, b'v'];
    doc.extend_from_slice(&42i32.to_be_bytes());
    doc.push(0);
    let mut body = vec![0u8; 4096];
    body.extend_from_slice(&record(1, &gzip(&doc)));
    let m = reader(&[(33, (3 << 8) | 1, 5)], body);
    assert_eq!(
        m.load_chunk(1, 1),
        Ok(Some(("n".to_string(), vec![("v".to_string(), TagValue::Int(42))])))
    );
}

#[test]
fn unsupported_compression_is_a_region_error() {
    let m = reader(&[(0, (2 << 8) | 1, 0)], record(5, &zlib(&MINIMAL)));
    assert_eq!(m.load_chunk(0, 0), Err(RegionError::UnsupportedCompression(5)));
}

#[test]
fn length_past_end_of_body_is_a_region_error() {
    let mut body = record(2, &zlib(&MINIMAL));
    body[0..4].copy_from_slice(&1000u32.to_be_bytes());
    let m = reader(&[(0, (2 << 8) | 1, 0)], body.clone());
    assert_eq!(m.load_chunk(0, 0), Err(RegionError::ChunkLengthInvalid));
    body[0..4].copy_from_slice(&0u32.to_be_bytes());
    let m = reader(&[(0, (2 << 8) | 1, 0)], body);
    assert_eq!(m.load_chunk(0, 0), Err(RegionError::ChunkLengthInvalid));
}

#[test]
fn offset_outside_body_is_a_region_error() {
    let m = reader(&[(0, (1 << 8) | 1, 0), (1, (9 << 8) | 1, 0)], record(2, &zlib(&MINIMAL)));
    assert_eq!(m.load_chunk(0, 0), Err(RegionError::ChunkOutOfBounds));
    assert_eq!(m.load_chunk(1, 0), Err(RegionError::ChunkOutOfBounds));
}

#[test]
fn corrupt_payload_is_a_chunk_error() {
    let m = reader(&[(0, (2 << 8) | 1, 0)], record(2, &[1, 2, 3, 4]));
    assert_eq!(m.load_chunk(0, 0), Err(RegionError::CorruptChunk(PayloadError::Decompression)));
    let m = reader(&[(0, (2 << 8) | 1, 0)], record(2, &zlib(&[3, 0, 0])));
    assert_eq!(
        m.load_chunk(0, 0),
        Err(RegionError::CorruptChunk(PayloadError::Nbt(NbtError::ExpectedCompound(3))))
    );
}

#[test]
fn short_header_is_rejected() {
    assert!(matches!(McrFileReader::open(&[0u8; 8191]), Err(RegionError::ShortHeader)));
    assert!(McrFileReader::open(&[0u8; 8192]).is_ok());
}

#[test]
fn body_is_kept_from_first_load() {
    let mut m = McrFileReader::open(&header(&[(0, (2 << 8) | 1, 0)])).unwrap();
    assert!(!m.is_loaded());
    m.load_data(record(2, &zlib(&MINIMAL)));
    assert!(m.is_loaded());
    m.load_data(Vec::new());
    assert_eq!(m.load_chunk(0, 0), Ok(Some((String::new(), vec![]))));
}

#[test]
fn coordinates_wrap_modulo_32() {
    let m = reader(&[(5 + 7 * 32, (2 << 8) | 1, -4)], record(2, &zlib(&MINIMAL)));
    for (x, z) in [(5, 7), (37, 39), (-27, -25), (5 - 320, 7 + 3200)] {
        assert!(m.chunk_exists(x, z));
        assert_eq!(m.get_chunk_timestamp(x, z), -4);
        assert_eq!(m.load_chunk(x, z), Ok(Some((String::new(), vec![]))));
    }
    assert!(!m.chunk_exists(7, 5));
    assert_eq!(m.load_chunk(i32::MIN, i32::MIN), Ok(None));
}

#[test]
fn listed_chunks_exist_and_load() {
    let mut body = record(2, &zlib(&MINIMAL));
    body.resize(4096, 0);
    body.extend_from_slice(&record(1, &gzip(&MINIMAL)));
    let m = reader(&[(3 * 32, (2 << 8) | 1, 0), (1 + 2 * 32, (3 << 8) | 1, 0)], body);
    let chunks = m.get_chunks();
    assert_eq!(chunks, vec![(0, 3), (1, 2)]);
    for (x, z) in chunks {
        assert!(m.chunk_exists(x, z));
        assert!(matches!(m.load_chunk(x, z), Ok(Some(_))));
    }
}

#[test]
fn chunk_span_and_decode_payload_are_exact() {
    let body = record(1, &[9, 9]);
    let span = chunk_span(&body, 2 << 8).unwrap().unwrap();
    assert!(span.gzip);
    assert_eq!((span.start, span.end), (5, 7));
    assert_eq!(chunk_span(&body, 0xff), Ok(None));
    assert_eq!(decode_payload(None), Err(PayloadError::Decompression));
    assert_eq!(decode_payload(Some(MINIMAL.to_vec())), Ok((String::new(), vec![])));
    assert_eq!(
        decode_payload(Some(vec![8, 0, 0])),
        Err(PayloadError::Nbt(NbtError::ExpectedCompound(8)))
    );
}

#[test]
fn loose_gzip_document_loads() {
    let mut doc = vec![10, 0, 4];
    doc.extend_from_slice(b"Data");
    doc.extend_from_slice(&[8, 0, 1, b'k', 0, 2, b'o', b'k', 0]);
    assert_eq!(
        load(&gzip(&doc)),
        Ok(("Data".to_string(), vec![("k".to_string(), TagValue::String("ok".to_string()))]))
    );
    assert_eq!(load(&doc), Err(PayloadError::Decompression));
    assert_eq!(load(&gzip(&[3])), Err(PayloadError::Nbt(NbtError::ExpectedCompound(3))));
}
