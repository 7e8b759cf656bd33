//! End-to-end scenarios: a value is described, encoded, its description
//! fed to a consumer registry, and the payload decoded into the plain
//! renderer; the wire bytes and the rendered text are checked literally.

use logpack::render::Repr;
use logpack::samples::{RecList, SimpleEnum, SimpleStructNamed, SimpleStructTuple, SimpleStructUnit};
use logpack::samples::StaticRecord;
use logpack::{BufDecoder, BufEncoder, Decoder, Duration, Encoder, Instant, NameMap, SeenTypes};
use logpack::LogpackType;

fn run<E: Encoder>(
    st: &mut SeenTypes,
    tm: &mut NameMap,
    value: &E,
    describe: fn(&mut SeenTypes) -> logpack::Description,
) -> (Vec<u8>, String) {
    let desc = describe(st);
    let desc = tm.feed(desc).unwrap();
    let mut bytes = [0u8; 1024];
    let mut enc = BufEncoder::new(&mut bytes);
    value.logpack_encode(&mut enc).unwrap();
    let sizer = value.logpack_sizer();
    let encoded: Vec<u8> = enc.get_content().to_vec();
    assert_eq!(encoded.len(), sizer);
    let dec_buf = BufDecoder::new(&encoded);
    let mut decoder = Decoder::new(tm, dec_buf);
    let mut repr = Repr::new();
    decoder.decode(&desc, &mut repr).unwrap();
    (encoded, repr.into_output())
}

#[test]
fn with_unit_scenario() {
    let mut st = SeenTypes::new();
    let mut tm = NameMap::new();
    let (wire, text) = run(&mut st, &mut tm, &SimpleEnum::WithUnit, SimpleEnum::logpack_describe);
    assert_eq!(wire, vec![0x00]);
    assert_eq!(text, "WithUnit");
}

#[test]
fn tuple_field_scenario() {
    let mut st = SeenTypes::new();
    let mut tm = NameMap::new();
    let (wire, text) = run(
        &mut st,
        &mut tm,
        &SimpleEnum::TupleField(30),
        SimpleEnum::logpack_describe,
    );
    assert_eq!(wire, vec![0x01, 0x1e, 0x00, 0x00, 0x00]);
    assert_eq!(text, "TupleField(30)");
}

#[test]
fn named_field_scenario() {
    let mut st = SeenTypes::new();
    let mut tm = NameMap::new();
    let (wire, text) = run(
        &mut st,
        &mut tm,
        &SimpleEnum::NamedField { some_str: String::from("test") },
        SimpleEnum::logpack_describe,
    );
    assert_eq!(wire, vec![0x02, 0x10, 0x74, 0x65, 0x73, 0x74]);
    assert_eq!(text, "NamedField(some_str: \"test\")");
}

#[test]
fn unit_struct_scenario() {
    let mut st = SeenTypes::new();
    let mut tm = NameMap::new();
    let (wire, text) = run(
        &mut st,
        &mut tm,
        &SimpleStructUnit,
        SimpleStructUnit::logpack_describe,
    );
    assert_eq!(wire, Vec::<u8>::new());
    assert_eq!(text, "SimpleStructUnit");
}

#[test]
fn option_scenario() {
    let mut st = SeenTypes::new();
    let mut tm = NameMap::new();
    let value: Option<u32> = Some(10);
    let (wire, text) = run(&mut st, &mut tm, &value, <Option<u32>>::logpack_describe);
    assert_eq!(wire, vec![0x01, 0x0a, 0x00, 0x00, 0x00]);
    assert_eq!(text, "Some(10)");
}

#[test]
fn dynamic_slice_scenario() {
    let mut st = SeenTypes::new();
    let mut tm = NameMap::new();
    let desc = <[u8]>::logpack_describe(&mut st);
    let desc = tm.feed(desc).unwrap();
    let data: [u8; 3] = [1, 2, 3];
    let slice: &[u8] = &data;
    let mut bytes = [0u8; 64];
    let mut enc = BufEncoder::new(&mut bytes);
    slice.logpack_encode(&mut enc).unwrap();
    assert_eq!(slice.logpack_sizer(), enc.get_content().len());
    let encoded: Vec<u8> = enc.get_content().to_vec();
    assert_eq!(
        encoded,
        vec![0x03, 0x00, 0x00, 0x00, 0x00, 0x00, 0x00, 0x00, 0x01, 0x02, 0x03],
    );
    let dec_buf = BufDecoder::new(&encoded);
    let mut decoder = Decoder::new(&tm, dec_buf);
    let mut repr = Repr::new();
    decoder.decode(&desc, &mut repr).unwrap();
    assert_eq!(repr.into_output(), "[1, 2, 3]");
}

#[test]
fn fixed_array_scenario() {
    let mut st = SeenTypes::new();
    let mut tm = NameMap::new();
    let value: [u8; 3] = [1, 2, 3];
    let (wire, text) = run(&mut st, &mut tm, &value, <[u8; 3]>::logpack_describe);
    assert_eq!(wire, vec![0x01, 0x02, 0x03]);
    assert_eq!(text, "[1, 2, 3]");
}

#[test]
fn named_struct_scenario() {
    let mut st = SeenTypes::new();
    let mut tm = NameMap::new();
    let (wire, text) = run(
        &mut st,
        &mut tm,
        &SimpleStructNamed { some_str: String::from("bla") },
        SimpleStructNamed::logpack_describe,
    );
    assert_eq!(wire, vec![0x0c, 0x62, 0x6c, 0x61]);
    assert_eq!(text, "SimpleStructNamed(some_str: \"bla\")");
}

#[test]
fn tuple_struct_scenario() {
    let mut st = SeenTypes::new();
    let mut tm = NameMap::new();
    let (wire, text) = run(
        &mut st,
        &mut tm,
        &SimpleStructTuple(123, String::from("bla")),
        SimpleStructTuple::logpack_describe,
    );
    assert_eq!(wire, vec![0x7b, 0x00, 0x00, 0x00, 0x0c, 0x62, 0x6c, 0x61]);
    assert_eq!(text, "SimpleStructTuple(123, \"bla\")");
}

#[test]
fn nested_option_tuple_scenario() {
    let mut st = SeenTypes::new();
    let mut tm = NameMap::new();
    let value: Option<(u32, (u8, u32))> = Some((10, (4, 12)));
    let (wire, text) = run(
        &mut st,
        &mut tm,
        &value,
        <Option<(u32, (u8, u32))>>::logpack_describe,
    );
    assert_eq!(
        wire,
        vec![0x01, 0x0a, 0x00, 0x00, 0x00, 0x04, 0x0c, 0x00, 0x00, 0x00],
    );
    assert_eq!(text, "Some((10, (4, 12)))");
}

#[test]
fn static_record_scenario() {
    let mut st = SeenTypes::new();
    let mut tm = NameMap::new();
    let value = StaticRecord {
        file: String::from("file.rs"),
        line: 123,
        function: String::from("func"),
        module: String::from("mod"),
    };
    let (_wire, text) = run(&mut st, &mut tm, &value, StaticRecord::logpack_describe);
    assert_eq!(
        text,
        "StaticRecord(file: \"file.rs\", line: 123, function: \"func\", module: \"mod\")",
    );
}

#[test]
fn time_like_scenario() {
    let mut st = SeenTypes::new();
    let mut tm = NameMap::new();
    let d = Duration { secs: 1, nanos: 2 };
    let (wire, text) = run(&mut st, &mut tm, &d, Duration::logpack_describe);
    assert_eq!(
        wire,
        vec![0x01, 0x00, 0x00, 0x00, 0x00, 0x00, 0x00, 0x00, 0x02, 0x00, 0x00, 0x00],
    );
    assert_eq!(text, "Duration(1, 2)");
    let i = Instant { secs: 3, nanos: 4 };
    let (_w, text2) = run(&mut st, &mut tm, &i, Instant::logpack_describe);
    assert_eq!(text2, "Instant(3, 4)");
}

#[test]
fn recursive_list_scenario() {
    let mut st = SeenTypes::new();
    let mut tm = NameMap::new();
    let value = RecList::Cons(1, Box::new(RecList::Cons(2, Box::new(RecList::Nil))));
    let (wire, text) = run(&mut st, &mut tm, &value, RecList::logpack_describe);
    assert_eq!(
        wire,
        vec![0x01, 0x01, 0x00, 0x00, 0x00, 0x01, 0x02, 0x00, 0x00, 0x00, 0x00],
    );
    assert_eq!(text, "Cons(1, Cons(2, Nil))");
}

#[test]
fn enum_names_qualify_variants() {
    let mut st = SeenTypes::new();
    let mut tm = NameMap::new();
    let desc = SimpleEnum::logpack_describe(&mut st);
    let desc = tm.feed(desc).unwrap();
    let mut bytes = [0u8; 16];
    let mut enc = BufEncoder::new(&mut bytes);
    SimpleEnum::WithUnit.logpack_encode(&mut enc).unwrap();
    let encoded: Vec<u8> = enc.get_content().to_vec();
    let dec_buf = BufDecoder::new(&encoded);
    let mut decoder = Decoder::new(&tm, dec_buf);
    let mut repr = Repr::new().with_enum_names();
    decoder.decode(&desc, &mut repr).unwrap();
    assert_eq!(repr.into_output(), "SimpleEnum::WithUnit");
}

#[test]
fn second_description_elides_body() {
    let mut st = SeenTypes::new();
    let first = SimpleEnum::logpack_describe(&mut st);
    let second = SimpleEnum::logpack_describe(&mut st);
    assert!(matches!(first, logpack::Description::ByName(_, Some(_))));
    assert!(matches!(second, logpack::Description::ByName(_, None)));
}

#[test]
fn deep_recursive_list_decodes() {
    let mut st = SeenTypes::new();
    let mut tm = NameMap::new();
    let mut value = RecList::Nil;
    for i in 0..200u32 {
        value = RecList::Cons(i, Box::new(value));
    }
    let desc = RecList::logpack_describe(&mut st);
    let desc = tm.feed(desc).unwrap();
    let mut bytes = vec![0u8; 2048];
    let mut enc = BufEncoder::new(&mut bytes[..]);
    value.logpack_encode(&mut enc).unwrap();
    assert_eq!(value.logpack_sizer(), enc.get_content().len());
    let encoded: Vec<u8> = enc.get_content().to_vec();
    let dec_buf = BufDecoder::new(&encoded);
    let mut decoder = Decoder::new(&tm, dec_buf);
    let mut repr = Repr::new();
    decoder.decode(&desc, &mut repr).unwrap();
    let text = repr.into_output();
    assert!(text.starts_with("Cons(199, Cons(198, "));
    assert!(text.contains("Cons(0, Nil"));
    assert!(text.ends_with(")"));
}
