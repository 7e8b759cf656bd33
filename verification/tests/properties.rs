//! Behavioural checks of the stated invariants on concrete values: size
//! prediction, feed idempotence, named de-duplication, minimal header
//! widths, write atomicity, and each failure variant on an input that
//! provokes it.

use logpack::decoder::FeedError;
use logpack::encoder::encoded_string_len;
use logpack::render::Repr;
use logpack::samples::{GenericType, SimpleEnum};
use logpack::{BufDecoder, BufEncoder, Decoder, Description, Encoder, Error, Named, NameMap};
use logpack::{SeenTypes, Struct};
use logpack::LogpackType;

fn size_matches<E: Encoder>(value: &E) {
    let mut bytes = vec![0u8; 65536];
    let mut enc = BufEncoder::new(&mut bytes[..]);
    value.logpack_encode(&mut enc).unwrap();
    assert_eq!(value.logpack_sizer(), enc.get_content().len());
}

#[test]
fn size_prediction_matches_written_bytes() {
    size_matches(&0u8);
    size_matches(&1u16);
    size_matches(&2u32);
    size_matches(&3u64);
    size_matches(&4usize);
    size_matches(&(-5i8));
    size_matches(&(-6i16));
    size_matches(&(-7i32));
    size_matches(&(-8i64));
    size_matches(&(-9isize));
    size_matches(&true);
    size_matches(&());
    size_matches(&String::from("hello"));
    size_matches(&String::new());
    size_matches(&Some(7u32));
    size_matches(&Option::<u32>::None);
    size_matches(&Ok::<u32, u8>(1));
    size_matches(&Err::<u32, u8>(2));
    size_matches(&(1u8, 2u16));
    size_matches(&(1u8, 2u16, 3u32));
    size_matches(&(1u8, 2u16, 3u32, 4u64));
    size_matches(&[9u32; 7]);
    size_matches(&SimpleEnum::NamedField { some_str: String::from("abc") });
    size_matches(&GenericType { test: String::from("payload"), field: 7 });
    let text = "x".repeat(100);
    size_matches(&text.clone());
    let long = "y".repeat(20000);
    size_matches(&long);
}

#[test]
fn string_headers_use_smallest_width() {
    let short = "a".repeat(63);
    assert_eq!(encoded_string_len(&short), 1 + 63);
    let two = "a".repeat(64);
    assert_eq!(encoded_string_len(&two), 2 + 64);
    let two_max = "a".repeat(0x3fff);
    assert_eq!(encoded_string_len(&two_max), 2 + 0x3fff);
    let four = "a".repeat(0x4000);
    assert_eq!(encoded_string_len(&four), 4 + 0x4000);
}

#[test]
fn failed_writes_leave_the_cursor_alone() {
    let mut bytes = [0u8; 2];
    let mut enc = BufEncoder::new(&mut bytes);
    enc.put_u8(0xaa).unwrap();
    assert_eq!(enc.remaining(), 1);
    assert_eq!(enc.put_u32(1), Err((1, 4)));
    assert_eq!(enc.remaining(), 1);
    assert_eq!(enc.get_content(), &[0xaa]);
    assert_eq!(enc.append_bytes(&[1, 2, 3]), Err((1, 3)));
    assert_eq!(enc.get_content(), &[0xaa]);
    enc.put_u8(0xbb).unwrap();
    assert_eq!(enc.get_content(), &[0xaa, 0xbb]);
}

#[test]
fn failed_reads_leave_the_cursor_alone() {
    let bytes = [1u8, 2];
    let mut dec = BufDecoder::new(&bytes);
    assert!(dec.get_u32().is_err());
    assert_eq!(dec.remaining(), 2);
    assert_eq!(dec.get_u16().unwrap(), 0x0201);
    assert_eq!(dec.remaining(), 0);
}

#[test]
fn first_sighting_registers_then_elides() {
    let mut st = SeenTypes::new();
    let (first, id) = st.make_name_for_id("Point", 77);
    assert!(first);
    assert_eq!(id, (String::from("Point"), 0));
    let (again, same) = st.make_name_for_id("Point", 77);
    assert!(!again);
    assert_eq!(same, (String::from("Point"), 0));
    let (other_first, other) = st.make_name_for_id("Point", 78);
    assert!(other_first);
    assert_eq!(other, (String::from("Point"), 1));
}

#[test]
fn feed_is_idempotent() {
    fn make() -> Description {
        Description::ByName(
            (String::from("Pair"), 0),
            Some(Named::Struct(Struct::Tuple(vec![Description::U32, Description::Str]))),
        )
    }
    let mut tm = NameMap::new();
    let once = tm.feed(make()).unwrap();
    assert!(matches!(once, Description::ByName(_, None)));
    let twice = tm.feed(once).unwrap();
    assert!(matches!(twice, Description::ByName(_, None)));
    let again = tm.feed(make()).unwrap();
    assert!(matches!(again, Description::ByName(_, None)));
}

#[test]
fn conflicting_bodies_are_refused() {
    let mut tm = NameMap::new();
    let a = Description::ByName(
        (String::from("T"), 0),
        Some(Named::Struct(Struct::Tuple(vec![Description::U32]))),
    );
    let b = Description::ByName(
        (String::from("T"), 0),
        Some(Named::Struct(Struct::Tuple(vec![Description::U64]))),
    );
    tm.feed(a).unwrap();
    assert!(matches!(tm.feed(b), Err(FeedError::Dups)));
}

#[test]
fn missing_type_is_reported() {
    let tm = NameMap::new();
    let bytes = [0u8];
    let dec_buf = BufDecoder::new(&bytes);
    let mut decoder = Decoder::new(&tm, dec_buf);
    let mut repr = Repr::new();
    let desc = Description::ByName((String::from("Ghostly"), 0), None);
    let r = decoder.decode(&desc, &mut repr);
    assert!(matches!(r, Err(Error::MissingType((name, 0))) if name == "Ghostly"));
}

#[test]
fn invalid_option_marker_is_reported() {
    let tm = NameMap::new();
    let bytes = [2u8];
    let mut decoder = Decoder::new(&tm, BufDecoder::new(&bytes));
    let mut repr = Repr::new();
    let desc = Description::Opt(Box::new(Description::U8));
    assert!(matches!(decoder.decode(&desc, &mut repr), Err(Error::InvalidSome(2))));
}

#[test]
fn invalid_result_marker_is_reported() {
    let tm = NameMap::new();
    let bytes = [9u8];
    let mut decoder = Decoder::new(&tm, BufDecoder::new(&bytes));
    let mut repr = Repr::new();
    let desc = Description::Res(Box::new(Description::U8), Box::new(Description::U8));
    assert!(matches!(decoder.decode(&desc, &mut repr), Err(Error::InvalidResult(9))));
}

#[test]
fn enum_tag_past_the_variants_is_reported() {
    let mut st = SeenTypes::new();
    let mut tm = NameMap::new();
    let desc = SimpleEnum::logpack_describe(&mut st);
    let desc = tm.feed(desc).unwrap();
    let bytes = [9u8];
    let mut decoder = Decoder::new(&tm, BufDecoder::new(&bytes));
    let mut repr = Repr::new();
    assert!(matches!(decoder.decode(&desc, &mut repr), Err(Error::InvalidIndex(9, 4))));
}

#[test]
fn broken_utf8_is_reported() {
    let tm = NameMap::new();
    let bytes = [0x04, 0xff];
    let mut decoder = Decoder::new(&tm, BufDecoder::new(&bytes));
    let mut repr = Repr::new();
    assert!(matches!(decoder.decode(&Description::Str, &mut repr), Err(Error::UTF8Error)));
}

#[test]
fn truncated_payload_is_reported() {
    let tm = NameMap::new();
    let bytes = [1u8, 2];
    let mut decoder = Decoder::new(&tm, BufDecoder::new(&bytes));
    let mut repr = Repr::new();
    assert!(matches!(decoder.decode(&Description::U32, &mut repr), Err(Error::GetError((2, 4)))));
}

#[test]
fn strings_escape_quotes_and_controls() {
    let tm = NameMap::new();
    let text = "a\"b\\c\nd";
    let mut payload: Vec<u8> = Vec::new();
    payload.push((text.len() as u8) << 2);
    payload.extend_from_slice(text.as_bytes());
    let mut decoder = Decoder::new(&tm, BufDecoder::new(&payload));
    let mut repr = Repr::new();
    decoder.decode(&Description::Str, &mut repr).unwrap();
    assert_eq!(repr.into_output(), "\"a\\\"b\\\\c\\nd\"");
}

#[test]
fn signed_values_render_with_their_sign() {
    let tm = NameMap::new();
    let bytes = (-123i32 as u32).to_le_bytes();
    let mut decoder = Decoder::new(&tm, BufDecoder::new(&bytes));
    let mut repr = Repr::new();
    decoder.decode(&Description::I32, &mut repr).unwrap();
    assert_eq!(repr.into_output(), "-123");
}

#[test]
fn hexdump_lines_have_offset_hex_and_gutter() {
    let mut r = logpack::hexdump::HexReader::new(());
    r.render_bytes(b"ABCDEFGH12345678");
    r.render_bytes(&[0x00, 0xff]);
    let expected_first = "$00000000  41 42 43 44 45 46 47 48  31 32 33 34 35 36 37 38  |ABCDEFGH12345678|\n";
    let expected_second = "$00000010  00 ff|..|\n";
    assert_eq!(r.buf, format!("{expected_first}{expected_second}"));
    assert_eq!(r.line_count, 2);
}

#[test]
fn nested_conflicting_bodies_are_refused() {
    let mut tm = NameMap::new();
    let first = Description::ByName(
        (String::from("Inner"), 0),
        Some(Named::Struct(Struct::Tuple(vec![Description::U32]))),
    );
    tm.feed(first).unwrap();
    let nested_conflict = Description::Opt(Box::new(Description::ByName(
        (String::from("Inner"), 0),
        Some(Named::Struct(Struct::Tuple(vec![Description::U64]))),
    )));
    assert!(matches!(tm.feed(nested_conflict), Err(FeedError::Dups)));
}

#[test]
fn nested_bodies_are_registered() {
    let mut tm = NameMap::new();
    let outer = Description::Opt(Box::new(Description::ByName(
        (String::from("Inner"), 0),
        Some(Named::Struct(Struct::Unit)),
    )));
    let fed = tm.feed(outer).unwrap();
    assert!(matches!(
        &fed,
        Description::Opt(inner) if matches!(&**inner, Description::ByName(_, None))
    ));
    let bytes = [1u8];
    let mut decoder = Decoder::new(&tm, BufDecoder::new(&bytes));
    let mut repr = Repr::new();
    decoder.decode(&fed, &mut repr).unwrap();
    assert_eq!(repr.into_output(), "Some(Inner)");
}
