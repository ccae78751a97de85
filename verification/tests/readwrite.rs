use binc::error::Error;
use binc::node_id::NodeId;
use binc::readwrite::{
    read_bytes, read_exact, read_id, read_string, read_string_array, read_u32, read_u8,
    read_uuid, read_uuid_array, read_varint, write_all, write_bytes, write_id, write_string,
    write_string_array, write_u32, write_u8, write_uuid, write_uuid_array, write_varint,
};

fn varint(v: u64) -> Vec<u8> {
    let mut w = Vec::new();
    write_varint(&mut w, v);
    w
}

#[test]
fn varint_small_values_take_one_byte() {
    assert_eq!(varint(0), vec![0x00]);
    assert_eq!(varint(1), vec![0x01]);
    assert_eq!(varint(127), vec![0x7f]);
}

#[test]
fn varint_digits_are_most_significant_first() {
    assert_eq!(varint(128), vec![0x81, 0x00]);
    assert_eq!(varint(300), vec![0x82, 0x2c]);
    assert_eq!(varint(16384), vec![0x81, 0x80, 0x00]);
    assert_eq!(
        varint(u64::MAX),
        vec![0x81, 0xff, 0xff, 0xff, 0xff, 0xff, 0xff, 0xff, 0xff, 0x7f]
    );
}

#[test]
fn varint_roundtrip_leaves_the_rest() {
    for v in [0u64, 1, 127, 128, 255, 256, 300, 16383, 16384, 1 << 32, u64::MAX - 1, u64::MAX] {
        let mut w = varint(v);
        w.push(0xAB);
        let (got, rest) = read_varint(&w).unwrap();
        assert_eq!(got, v);
        assert_eq!(rest, &[0xABu8][..]);
    }
}

#[test]
fn varint_accepts_leading_zero_digits() {
    let (v, rest) = read_varint(&[0x80, 0x80, 0x05, 9]).unwrap();
    assert_eq!(v, 5);
    assert_eq!(rest, &[9u8][..]);
}

#[test]
fn varint_that_ends_early_is_unexpected_eof() {
    assert_eq!(read_varint(&[]).unwrap_err(), Error::UnexpectedEof);
    assert_eq!(read_varint(&[0x81]).unwrap_err(), Error::UnexpectedEof);
    assert_eq!(read_varint(&[0xff, 0xff]).unwrap_err(), Error::UnexpectedEof);
}

#[test]
fn varint_past_64_bits_is_invalid_data() {
    let bytes = [0x82, 0x80, 0x80, 0x80, 0x80, 0x80, 0x80, 0x80, 0x80, 0x00];
    assert_eq!(read_varint(&bytes).unwrap_err(), Error::InvalidData);
    let eleven = [0xff; 11];
    assert_eq!(read_varint(&eleven).unwrap_err(), Error::InvalidData);
}

#[test]
fn u8_and_u32_are_fixed_width() {
    let mut w = Vec::new();
    write_u8(&mut w, 0xfe);
    write_u32(&mut w, 0x43686E67);
    assert_eq!(w, vec![0xfe, 0x43, 0x68, 0x6e, 0x67]);
    let (b, rest) = read_u8(&w).unwrap();
    assert_eq!(b, 0xfe);
    let (v, rest) = read_u32(rest).unwrap();
    assert_eq!(v, 0x43686E67);
    assert!(rest.is_empty());
    assert_eq!(read_u8(&[]).unwrap_err(), Error::UnexpectedEof);
    assert_eq!(read_u32(&[1, 2, 3]).unwrap_err(), Error::UnexpectedEof);
}

#[test]
fn u32_roundtrip_at_the_limits() {
    for v in [0u32, 1, 255, 256, 65535, 65536, 0x00ff_ffff, 0x0100_0000, u32::MAX] {
        let mut w = Vec::new();
        write_u32(&mut w, v);
        assert_eq!(w, v.to_be_bytes().to_vec());
        assert_eq!(read_u32(&w).unwrap().0, v);
    }
}

#[test]
fn bytes_are_length_prefixed() {
    let mut w = Vec::new();
    write_bytes(&mut w, &[7, 8, 9]);
    assert_eq!(w, vec![3, 7, 8, 9]);
    w.push(1);
    let (data, rest) = read_bytes(&w).unwrap();
    assert_eq!(data, vec![7, 8, 9]);
    assert_eq!(rest, &[1u8][..]);
    assert_eq!(read_bytes(&[3, 7, 8]).unwrap_err(), Error::UnexpectedEof);
}

#[test]
fn write_all_adds_no_length() {
    let mut w = vec![1u8];
    write_all(&mut w, &[2, 3]);
    assert_eq!(w, vec![1, 2, 3]);
}

#[test]
fn read_exact_takes_what_is_asked() {
    let (data, rest) = read_exact(&[1, 2, 3], 2).unwrap();
    assert_eq!(data, vec![1, 2]);
    assert_eq!(rest, &[3u8][..]);
    let (data, rest) = read_exact(&[1, 2, 3], 0).unwrap();
    assert!(data.is_empty());
    assert_eq!(rest.len(), 3);
    assert_eq!(read_exact(&[1, 2, 3], 4).unwrap_err(), Error::UnexpectedEof);
}

#[test]
fn string_is_length_prefixed_utf8() {
    let mut w = Vec::new();
    write_string(&mut w, "héllo");
    assert_eq!(w, vec![6, b'h', 0xc3, 0xa9, b'l', b'l', b'o']);
    let (text, rest) = read_string(&w).unwrap();
    assert_eq!(text, "héllo");
    assert!(rest.is_empty());
}

#[test]
fn string_roundtrip_with_many_scripts() {
    for text in ["", "a", "name", "日本語", "🙂 ok", "\u{0}\u{7f}\u{80}\u{7ff}\u{800}\u{ffff}\u{10000}"] {
        let mut w = Vec::new();
        write_string(&mut w, text);
        w.push(0x55);
        let (got, rest) = read_string(&w).unwrap();
        assert_eq!(got, text);
        assert_eq!(rest, &[0x55u8][..]);
    }
}

#[test]
fn string_that_is_not_utf8_is_invalid_data() {
    assert_eq!(read_string(&[2, 0xc3, 0x28]).unwrap_err(), Error::InvalidData);
    assert_eq!(read_string(&[1, 0xff]).unwrap_err(), Error::InvalidData);
    assert_eq!(read_string(&[3, 0xed, 0xa0, 0x80]).unwrap_err(), Error::InvalidData);
    assert_eq!(read_string(&[2, b'a']).unwrap_err(), Error::UnexpectedEof);
}

#[test]
fn string_array_is_counted() {
    let texts = vec!["a".to_string(), "".to_string(), "bc".to_string()];
    let mut w = Vec::new();
    write_string_array(&mut w, &texts);
    assert_eq!(w, vec![3, 1, b'a', 0, 2, b'b', b'c']);
    let (got, rest) = read_string_array(&w).unwrap();
    assert_eq!(got, texts);
    assert!(rest.is_empty());
    assert_eq!(read_string_array(&[2, 1, b'a']).unwrap_err(), Error::UnexpectedEof);
    assert_eq!(read_string_array(&[1, 1, 0xff]).unwrap_err(), Error::InvalidData);
    let (none, _) = read_string_array(&[0]).unwrap();
    assert!(none.is_empty());
}

#[test]
fn node_id_is_written_as_its_index() {
    let mut w = Vec::new();
    write_id(&mut w, NodeId { index: 300 });
    assert_eq!(w, vec![0x82, 0x2c]);
    let (id, rest) = read_id(&w).unwrap();
    assert_eq!(id, NodeId { index: 300 });
    assert!(rest.is_empty());
}

#[test]
fn uuid_is_sixteen_bytes() {
    let id: [u8; 16] = [0, 1, 2, 3, 4, 5, 6, 7, 8, 9, 10, 11, 12, 13, 14, 15];
    let mut w = Vec::new();
    write_uuid(&mut w, &id);
    assert_eq!(w, id.to_vec());
    w.push(99);
    let (got, rest) = read_uuid(&w).unwrap();
    assert_eq!(got, id);
    assert_eq!(rest, &[99u8][..]);
    assert_eq!(read_uuid(&id[..15]).unwrap_err(), Error::UnexpectedEof);
}

#[test]
fn uuid_array_is_counted() {
    let ids = vec![[1u8; 16], [2u8; 16]];
    let mut w = Vec::new();
    write_uuid_array(&mut w, &ids);
    assert_eq!(w.len(), 33);
    assert_eq!(w[0], 2);
    let (got, rest) = read_uuid_array(&w).unwrap();
    assert_eq!(got, ids);
    assert!(rest.is_empty());
    assert_eq!(read_uuid_array(&w[..32]).unwrap_err(), Error::UnexpectedEof);
}
