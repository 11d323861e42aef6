use overviewer_core::format::NbtError;
use overviewer_core::nbt::{read_document, NbtFileReader};
use overviewer_core::tag::TagValue;

fn name(out: &mut Vec<u8>, s: &str) {
    out.extend_from_slice(&(s.len() as u16).to_be_bytes());
    out.extend_from_slice(s.as_bytes());
}

fn minimal_document() -> Vec<u8> {
    vec![10, 0, 0, 0]
}

#[test]
fn minimal_document_decodes_to_empty_root() {
    let doc = read_document(&minimal_document()).unwrap();
    assert_eq!(doc, (String::new(), vec![]));
}

#[test]
fn root_that_is_not_a_compound_is_rejected() {
    let bytes = vec![3, 0, 0, 0, 0, 0, 1];
    assert_eq!(read_document(&bytes), Err(NbtError::ExpectedCompound(3)));
}

#[test]
fn every_tag_kind_decodes() {
    let mut b = vec![10];
    name(&mut b, "root");
    b.push(1);
    name(&mut b, "b");
    b.push(0xfe);
    b.push(2);
    name(&mut b, "s");
    b.extend_from_slice(&(-2i16).to_be_bytes());
    b.push(3);
    name(&mut b, "i");
    b.extend_from_slice(&(-70000i32).to_be_bytes());
    b.push(4);
    name(&mut b, "l");
    b.extend_from_slice(&(-5_000_000_000i64).to_be_bytes());
    b.push(5);
    name(&mut b, "f");
    b.extend_from_slice(&1.5f32.to_be_bytes());
    b.push(6);
    name(&mut b, "d");
    b.extend_from_slice(&(-0.25f64).to_be_bytes());
    b.push(7);
    name(&mut b, "ba");
    b.extend_from_slice(&3u32.to_be_bytes());
    b.extend_from_slice(&[9, 8, 7]);
    b.push(8);
    name(&mut b, "str");
    name(&mut b, "héllo");
    b.push(9);
    name(&mut b, "list");
    b.push(3);
    b.extend_from_slice(&2u32.to_be_bytes());
    b.extend_from_slice(&1i32.to_be_bytes());
    b.extend_from_slice(&(-1i32).to_be_bytes());
    b.push(10);
    name(&mut b, "inner");
    b.push(1);
    name(&mut b, "x");
    b.push(5);
    b.push(0);
    b.push(11);
    name(&mut b, "ia");
    b.extend_from_slice(&2u32.to_be_bytes());
    b.extend_from_slice(&7i32.to_be_bytes());
    b.extend_from_slice(&i32::MIN.to_be_bytes());
    b.push(12);
    name(&mut b, "la");
    b.extend_from_slice(&1u32.to_be_bytes());
    b.extend_from_slice(&i64::MAX.to_be_bytes());
    b.push(0);

    let (root, entries) = read_document(&b).unwrap();
    assert_eq!(root, "root");
    let expected = vec![
        ("b".to_string(), TagValue::Byte(0xfe)),
        ("s".to_string(), TagValue::Short(-2)),
        ("i".to_string(), TagValue::Int(-70000)),
        ("l".to_string(), TagValue::Long(-5_000_000_000)),
        ("f".to_string(), TagValue::Float(1.5f32.to_bits())),
        ("d".to_string(), TagValue::Double((-0.25f64).to_bits())),
        ("ba".to_string(), TagValue::ByteArray(vec![9, 8, 7])),
        ("str".to_string(), TagValue::String("héllo".to_string())),
        ("list".to_string(), TagValue::List(3, vec![TagValue::Int(1), TagValue::Int(-1)])),
        ("inner".to_string(), TagValue::Compound(vec![("x".to_string(), TagValue::Byte(5))])),
        ("ia".to_string(), TagValue::IntArray(vec![7, i32::MIN])),
        ("la".to_string(), TagValue::LongArray(vec![i64::MAX])),
    ];
    assert_eq!(entries, expected);
}

#[test]
fn repeated_key_keeps_later_value_at_later_position() {
    let mut b = vec![10];
    name(&mut b, "");
    for (k, v) in [("a", 1u8), ("b", 2), ("a", 3)] {
        b.push(1);
        name(&mut b, k);
        b.push(v);
    }
    b.push(0);
    let (_, entries) = read_document(&b).unwrap();
    assert_eq!(
        entries,
        vec![("b".to_string(), TagValue::Byte(2)), ("a".to_string(), TagValue::Byte(3))]
    );
}

#[test]
fn empty_list_keeps_declared_element_id() {
    for id in 0u8..=12 {
        let mut b = vec![10];
        name(&mut b, "");
        b.push(9);
        name(&mut b, "e");
        b.push(id);
        b.extend_from_slice(&0u32.to_be_bytes());
        b.push(0);
        let (_, entries) = read_document(&b).unwrap();
        assert_eq!(entries, vec![("e".to_string(), TagValue::List(id, vec![]))]);
    }
}

#[test]
fn empty_list_with_unknown_element_id_is_rejected() {
    let mut b = vec![10];
    name(&mut b, "");
    b.push(9);
    name(&mut b, "e");
    b.push(13);
    b.extend_from_slice(&0u32.to_be_bytes());
    b.push(0);
    assert_eq!(read_document(&b), Err(NbtError::UnknownTag(13)));
}

#[test]
fn list_of_end_tags_reads_no_payload() {
    let mut b = vec![10];
    name(&mut b, "");
    b.push(9);
    name(&mut b, "e");
    b.push(0);
    b.extend_from_slice(&3u32.to_be_bytes());
    b.push(0);
    let (_, entries) = read_document(&b).unwrap();
    assert_eq!(
        entries,
        vec![("e".to_string(), TagValue::List(0, vec![TagValue::End, TagValue::End, TagValue::End]))]
    );
}

#[test]
fn unknown_tag_in_compound_is_rejected() {
    let mut b = vec![10];
    name(&mut b, "");
    b.push(42);
    name(&mut b, "x");
    b.push(0);
    assert_eq!(read_document(&b), Err(NbtError::UnknownTag(42)));
}

#[test]
fn truncated_document_reports_end_of_stream() {
    let mut b = vec![10];
    name(&mut b, "");
    b.push(3);
    name(&mut b, "x");
    b.extend_from_slice(&[0, 0]);
    assert_eq!(read_document(&b), Err(NbtError::UnexpectedEof));
    assert_eq!(read_document(&[]), Err(NbtError::UnexpectedEof));
    assert_eq!(read_document(&[10, 0]), Err(NbtError::UnexpectedEof));
}

#[test]
fn invalid_utf8_in_string_is_replaced() {
    let mut b = vec![10, 0, 2, b'a', 0xff, 8];
    name(&mut b, "k");
    b.extend_from_slice(&[0, 3, 0xc3, 0xa9, 0x80]);
    b.push(0);
    let (root, entries) = read_document(&b).unwrap();
    assert_eq!(root, "a\u{fffd}");
    assert_eq!(entries, vec![("k".to_string(), TagValue::String("é\u{fffd}".to_string()))]);
}

#[test]
fn decoding_twice_gives_equal_documents() {
    let mut b = vec![10];
    name(&mut b, "r");
    b.push(8);
    name(&mut b, "k");
    name(&mut b, "v");
    b.push(0);
    let copy = b.clone();
    assert_eq!(read_document(&b), read_document(&copy));
}

#[test]
fn reader_primitives_advance_through_the_stream() {
    let mut b = vec![0x7f];
    b.extend_from_slice(&(-300i16).to_be_bytes());
    b.extend_from_slice(&123456789i32.to_be_bytes());
    b.extend_from_slice(&(-1i64).to_be_bytes());
    b.extend_from_slice(&2.0f32.to_be_bytes());
    b.extend_from_slice(&3.0f64.to_be_bytes());
    name(&mut b, "hey");
    b.extend_from_slice(&[1, 2, 3]);
    let mut r = NbtFileReader::open(b);
    assert_eq!(r.read_end(), 0);
    assert_eq!(r.read_byte(), Ok(0x7f));
    assert_eq!(r.read_short(), Ok(-300));
    assert_eq!(r.read_int(), Ok(123456789));
    assert_eq!(r.read_long(), Ok(-1));
    assert_eq!(r.read_float(), Ok(2.0f32.to_bits()));
    assert_eq!(r.read_double(), Ok(3.0f64.to_bits()));
    assert_eq!(r.read_string(), Ok("hey".to_string()));
    assert_eq!(r.read(2), Ok(vec![1, 2]));
    assert_eq!(r.read(2), Err(NbtError::UnexpectedEof));
    assert_eq!(r.read(1), Ok(vec![3]));
    assert_eq!(r.read_byte(), Err(NbtError::UnexpectedEof));
}

#[test]
fn reader_arrays_lists_and_compounds() {
    let mut b = Vec::new();
    b.extend_from_slice(&2u32.to_be_bytes());
    b.extend_from_slice(&[4, 5]);
    b.extend_from_slice(&1u32.to_be_bytes());
    b.extend_from_slice(&(-9i32).to_be_bytes());
    b.extend_from_slice(&1u32.to_be_bytes());
    b.extend_from_slice(&(-9i64).to_be_bytes());
    b.push(2);
    b.extend_from_slice(&1u32.to_be_bytes());
    b.extend_from_slice(&7i16.to_be_bytes());
    b.push(1);
    name(&mut b, "z");
    b.push(1);
    b.push(0);
    b.extend_from_slice(&minimal_document());
    let mut r = NbtFileReader::open(b);
    assert_eq!(r.read_byte_array(), Ok(vec![4, 5]));
    assert_eq!(r.read_int_array(), Ok(vec![-9]));
    assert_eq!(r.read_long_array(), Ok(vec![-9]));
    assert_eq!(r.read_list(), Ok(TagValue::List(2, vec![TagValue::Short(7)])));
    assert_eq!(r.read_compound(), Ok(vec![("z".to_string(), TagValue::Byte(1))]));
    assert_eq!(r.read_all(), Ok((String::new(), vec![])));
    assert_eq!(r.read_all(), Err(NbtError::UnexpectedEof));
}

#[test]
fn array_longer_than_stream_is_rejected() {
    let mut b = Vec::new();
    b.extend_from_slice(&u32::MAX.to_be_bytes());
    b.extend_from_slice(&[0; 16]);
    let mut r = NbtFileReader::open(b.clone());
    assert_eq!(r.read_int_array(), Err(NbtError::UnexpectedEof));
    let mut r = NbtFileReader::open(b.clone());
    assert_eq!(r.read_long_array(), Err(NbtError::UnexpectedEof));
    let mut r = NbtFileReader::open(b);
    assert_eq!(r.read_byte_array(), Err(NbtError::UnexpectedEof));
    assert_eq!(r.read_int(), Ok(-1));
}
