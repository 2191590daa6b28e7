use celeste_map::Cursor;
use celeste_map::Element;
use celeste_map::MapError;
use celeste_map::Value;

/// The seven-bit continuation encoding used by the wire format.
fn varint(mut n: u32) -> Vec<u8> {
    let mut out = Vec::new();
    loop {
        if n < 0x80 {
            out.push(n as u8);
            return out;
        }
        out.push(((n & 0x7f) | 0x80) as u8);
        n >>= 7;
    }
}

fn lp_string(s: &str) -> Vec<u8> {
    let mut out = varint(s.len() as u32);
    out.extend_from_slice(s.as_bytes());
    out
}

/// Two header strings, a 16-bit string count, and the table entries.
fn header(table: &[&str]) -> Vec<u8> {
    let mut d = lp_string("CELESTE MAP");
    d.extend(lp_string("pkg"));
    d.extend((table.len() as u16).to_le_bytes());
    for s in table {
        d.extend(lp_string(s));
    }
    d
}

/// One element: name index, attribute count and attributes, signed child
/// count, then the children.
fn elem(name_idx: u16, attrs: &[(u16, Vec<u8>)], children: &[Vec<u8>]) -> Vec<u8> {
    let mut d = name_idx.to_le_bytes().to_vec();
    d.push(attrs.len() as u8);
    for (k, v) in attrs {
        d.extend(k.to_le_bytes());
        d.extend(v);
    }
    d.extend((children.len() as i16).to_le_bytes());
    for c in children {
        d.extend(c);
    }
    d
}

fn int8(v: u8) -> Vec<u8> {
    vec![1, v]
}

fn int32(v: i32) -> Vec<u8> {
    let mut d = vec![3];
    d.extend(v.to_le_bytes());
    d
}

#[test]
fn varint_single_byte() {
    let mut c = Cursor::new(&[0x00]);
    assert_eq!(c.read_varint(), Ok(0));
    let data = [0x7f];
    let mut c = Cursor::new(&data);
    assert_eq!(c.read_varint(), Ok(127));
}

#[test]
fn varint_round_trip_concrete() {
    for n in [0i32, 1, 127, 128, 300, 16383, 16384, 1 << 20, i32::MAX] {
        let enc = varint(n as u32);
        let mut c = Cursor::new(&enc);
        assert_eq!(c.read_varint(), Ok(n), "value {n}");
    }
    let data = [0xac, 0x02];
    let mut c = Cursor::new(&data);
    assert_eq!(c.read_varint(), Ok(300));
}

#[test]
fn varint_truncated() {
    let data = [0x80];
    let mut c = Cursor::new(&data);
    assert_eq!(c.read_varint(), Err(MapError::BufferUnderrun));
}

#[test]
fn varint_too_long() {
    let data = [0x80, 0x80, 0x80, 0x80, 0x80];
    let mut c = Cursor::new(&data);
    assert_eq!(c.read_varint(), Err(MapError::MalformedVarint));
}

#[test]
fn fixed_width_reads() {
    let data = [0x07, 0xff, 0xff, 0x01, 0x00, 0x00, 0x80];
    let mut c = Cursor::new(&data);
    assert_eq!(c.read_u8(), Ok(7));
    assert_eq!(c.read_i16_le(), Ok(-1));
    assert_eq!(c.read_i32_le(), Ok(i32::MIN + 1));
    assert_eq!(c.read_u8(), Err(MapError::BufferUnderrun));
}

#[test]
fn unsigned_reads() {
    let data = [0x34, 0x12, 0x78, 0x56, 0x34, 0x12];
    let mut c = Cursor::new(&data);
    assert_eq!(c.read_u16_le(), Ok(0x1234));
    assert_eq!(c.read_u32_le(), Ok(0x12345678));
}

#[test]
fn length_prefixed_string_reads_utf8() {
    let data = lp_string("hello");
    let mut c = Cursor::new(&data);
    assert_eq!(c.read_length_prefixed_string(), Ok(String::from("hello")));
}

#[test]
fn length_prefixed_string_non_ascii() {
    // One two-byte UTF-8 sequence must come back as one character, not as
    // its raw bytes.
    let data = vec![2, 0xc3, 0xa9];
    let mut c = Cursor::new(&data);
    let s = c.read_length_prefixed_string().unwrap();
    assert_eq!(s, "\u{e9}");
    assert_eq!(s.chars().count(), 1);
}

#[test]
fn length_prefixed_string_invalid_utf8() {
    let data = vec![2, 0xff, 0xfe];
    let mut c = Cursor::new(&data);
    assert_eq!(
        c.read_length_prefixed_string(),
        Err(MapError::InvalidUtf8)
    );
}

#[test]
fn length_prefixed_string_truncated() {
    // The declared length asks for one byte more than the buffer holds.
    let data = vec![5, b'a', b'b', b'c', b'd'];
    let mut c = Cursor::new(&data);
    assert_eq!(
        c.read_length_prefixed_string(),
        Err(MapError::BufferUnderrun)
    );
}

#[test]
fn rle_string_expands_pairs() {
    // Two pairs: 3 times '1', then 2 times '0'.
    let data = vec![4, 0, 3, b'1', 2, b'0'];
    let mut c = Cursor::new(&data);
    assert_eq!(c.read_rle_string(), Ok(String::from("11100")));
}

#[test]
fn rle_string_odd_byte_count_rounds_down() {
    // A byte count of 5 yields two pairs; the fifth byte is left unread.
    let data = vec![5, 0, 2, b'a', 1, b'b', 9];
    let mut c = Cursor::new(&data);
    assert_eq!(c.read_rle_string(), Ok(String::from("aab")));
    assert_eq!(c.read_u8(), Ok(9));
}

#[test]
fn rle_string_empty() {
    let data = vec![0, 0];
    let mut c = Cursor::new(&data);
    assert_eq!(c.read_rle_string(), Ok(String::new()));
}

#[test]
fn decode_is_deterministic() {
    let mut d = header(&["root", "levels", "Style", "x"]);
    d.extend(elem(
        0,
        &[(3, int8(9))],
        &[elem(1, &[], &[]), elem(2, &[], &[])],
    ));
    let e1 = Element::from_bin(&d).unwrap();
    let e2 = Element::from_bin(&d).unwrap();
    assert_eq!(e1, e2);
}

#[test]
fn table_and_inline_strings_agree() {
    // The same text once through the string table (tag 5) and once inline
    // (tag 6) is indistinguishable downstream.
    let mut d1 = header(&["root", "text", "hello"]);
    d1.extend(elem(0, &[(1, vec![5, 2, 0])], &[]));
    let mut inline = vec![6];
    inline.extend(lp_string("hello"));
    let mut d2 = header(&["root", "text"]);
    d2.extend(elem(0, &[(1, inline)], &[]));
    let e1 = Element::from_bin(&d1).unwrap();
    let e2 = Element::from_bin(&d2).unwrap();
    let v1 = e1.get_attr("text").unwrap();
    let v2 = e2.get_attr("text").unwrap();
    assert_eq!(v1, v2);
    assert_eq!(v1.as_str(), Some("hello"));
}

#[test]
fn duplicate_attribute_key_last_wins() {
    let mut d = header(&["root", "x"]);
    d.extend(elem(0, &[(1, int8(1)), (1, int8(2))], &[]));
    let e = Element::from_bin(&d).unwrap();
    assert_eq!(e.get_attr("x").unwrap().as_int(), Some(2));
}

#[test]
fn truncated_document_is_underrun() {
    // Drop the final byte of the last length-prefixed table string.
    let mut d = header(&["root", "levels"]);
    d.pop();
    assert_eq!(Element::from_bin(&d), Err(MapError::BufferUnderrun));
}

#[test]
fn unknown_value_tag() {
    let mut d = header(&["root", "x"]);
    d.extend(elem(0, &[(1, vec![9, 0])], &[]));
    assert_eq!(Element::from_bin(&d), Err(MapError::UnknownValueTag));
}

#[test]
fn name_index_out_of_range() {
    let mut d = header(&["root"]);
    d.extend(elem(5, &[], &[]));
    assert_eq!(Element::from_bin(&d), Err(MapError::IndexOutOfRange));
}

#[test]
fn string_index_out_of_range() {
    let mut d = header(&["root", "x"]);
    d.extend(elem(0, &[(1, vec![5, 9, 0])], &[]));
    assert_eq!(Element::from_bin(&d), Err(MapError::IndexOutOfRange));
}

#[test]
fn negative_child_count_is_malformed() {
    let mut d = header(&["root"]);
    d.extend(0u16.to_le_bytes());
    d.push(0);
    d.extend((-1i16).to_le_bytes());
    assert_eq!(Element::from_bin(&d), Err(MapError::MalformedCount));
}

#[test]
fn value_tags_decode_exactly() {
    let mut float_bytes = vec![4];
    float_bytes.extend(0x3f800000u32.to_le_bytes());
    let mut d = header(&["root", "b", "i8", "i16", "i32", "f"]);
    d.extend(elem(
        0,
        &[
            (1, vec![0, 1]),
            (2, vec![1, 0xff]),
            (3, vec![2, 0xff, 0xff]),
            (4, int32(-123456)),
            (5, float_bytes),
        ],
        &[],
    ));
    let e = Element::from_bin(&d).unwrap();
    assert_eq!(e.get_attr("b").unwrap().as_bool(), Some(true));
    // An 8-bit value is zero-extended, a 16-bit value sign-extended.
    assert_eq!(e.get_attr("i8").unwrap().as_int(), Some(255));
    assert_eq!(e.get_attr("i16").unwrap().as_int(), Some(-1));
    assert_eq!(e.get_attr("i32").unwrap().as_int(), Some(-123456));
    assert_eq!(e.get_attr("f").unwrap().as_float_bits(), Some(0x3f800000));
    assert_eq!(e.get_attr("b").unwrap().as_int(), None);
    assert_eq!(e.get_attr("missing"), None);
}

#[test]
fn children_preserve_document_order() {
    let mut d = header(&["root", "a", "b", "c"]);
    d.extend(elem(
        0,
        &[],
        &[elem(1, &[], &[]), elem(2, &[], &[]), elem(3, &[], &[])],
    ));
    let e = Element::from_bin(&d).unwrap();
    assert_eq!(e.name, "root");
    let names: Vec<&str> = e.children.iter().map(|c| c.name.as_str()).collect();
    assert_eq!(names, ["a", "b", "c"]);
}

#[test]
fn rle_attribute_expands_to_grid() {
    let mut d = header(&["root", "g"]);
    d.extend(elem(0, &[(1, vec![7, 4, 0, 3, b'1', 2, b'0'])], &[]));
    let e = Element::from_bin(&d).unwrap();
    assert_eq!(e.get_attr("g").unwrap().as_str(), Some("11100"));
}

#[test]
fn trailing_bytes_are_ignored() {
    let mut d = header(&["root"]);
    d.extend(elem(0, &[], &[]));
    d.extend([1, 2, 3]);
    let e = Element::from_bin(&d).unwrap();
    assert_eq!(e.name, "root");
    assert!(e.attributes.is_empty());
    assert!(e.children.is_empty());
}

#[test]
fn attribute_values_compare_by_content() {
    assert_eq!(
        Value::Str(String::from("a")),
        Value::Str(String::from("a"))
    );
    assert_ne!(Value::Int(1), Value::Int(2));
}
