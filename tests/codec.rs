use polywrap_msgpack::bindings::{
    get_key, get_test_import_enum_key, get_test_import_enum_value, method1, method2,
    read_test_import_enum, sanitize_test_import_enum_value, write_test_import_enum, InputGetKey,
    InputMethod1, InputMethod2, SanityEnum, TestImportAnotherObject, TestImportEnum,
    TestImportMutation,
};
use polywrap_msgpack::invoke::{
    invoke_reply, lookup_method, subinvoke_channel, subinvoke_outcome, Channel, InvokeReply,
};
use polywrap_msgpack::{Context, DecodeError, Format, ReadDecoder, SortedMap, WriteEncoder};

fn encoder() -> WriteEncoder {
    WriteEncoder::new(&[], Context::new())
}

fn reader(bytes: &[u8]) -> ReadDecoder {
    ReadDecoder::new(bytes, Context::new())
}

fn uint_bytes(v: u64) -> Vec<u8> {
    let mut w = encoder();
    w.write_u64(&v).unwrap();
    w.get_buffer()
}

fn int_bytes(v: i64) -> Vec<u8> {
    let mut w = encoder();
    w.write_i64(&v).unwrap();
    w.get_buffer()
}

#[test]
fn unsigned_takes_the_narrowest_form() {
    assert_eq!(uint_bytes(127), vec![0x7f]);
    assert_eq!(uint_bytes(128), vec![0xcc, 0x80]);
    assert_eq!(uint_bytes(255), vec![0xcc, 0xff]);
    assert_eq!(uint_bytes(256), vec![0xcd, 0x01, 0x00]);
    assert_eq!(uint_bytes(65535), vec![0xcd, 0xff, 0xff]);
    assert_eq!(uint_bytes(65536), vec![0xce, 0x00, 0x01, 0x00, 0x00]);
    assert_eq!(uint_bytes(1 << 32), vec![0xcf, 0, 0, 0, 1, 0, 0, 0, 0]);
}

#[test]
fn signed_takes_the_narrowest_form() {
    assert_eq!(int_bytes(5), vec![0x05]);
    assert_eq!(int_bytes(200), vec![0xcc, 200]);
    assert_eq!(int_bytes(-1), vec![0xff]);
    assert_eq!(int_bytes(-32), vec![0xe0]);
    assert_eq!(int_bytes(-33), vec![0xd0, 0xdf]);
    assert_eq!(int_bytes(-129), vec![0xd1, 0xff, 0x7f]);
    assert_eq!(int_bytes(-32769), vec![0xd2, 0xff, 0xff, 0x7f, 0xff]);
    assert_eq!(int_bytes(i64::MIN), vec![0xd3, 0x80, 0, 0, 0, 0, 0, 0, 0]);
}

#[test]
fn fixed_ints() {
    let mut w = encoder();
    w.write_negative_fixed_int(-5).unwrap();
    w.write_positive_fixed_int(5).unwrap();
    assert_eq!(w.get_buffer(), vec![0xfb, 0x05]);
}

#[test]
fn nil_bool_and_nullables() {
    let mut w = encoder();
    w.write_nil().unwrap();
    w.write_bool(&true).unwrap();
    w.write_bool(&false).unwrap();
    w.write_nullable_u8(&None).unwrap();
    w.write_nullable_u8(&Some(5)).unwrap();
    w.write_nullable_string(&Some("a".to_string())).unwrap();
    assert_eq!(w.get_buffer(), vec![0xc0, 0xc3, 0xc2, 0xc0, 0x05, 0xa1, b'a']);
}

#[test]
fn string_length_forms() {
    let mut w = encoder();
    w.write_str(&"x".repeat(31)).unwrap();
    assert_eq!(w.get_buffer()[0], 0xbf);
    let mut w = encoder();
    w.write_str(&"x".repeat(32)).unwrap();
    assert_eq!(&w.get_buffer()[..2], &[0xd9, 32]);
    let mut w = encoder();
    w.write_str(&"x".repeat(256)).unwrap();
    assert_eq!(&w.get_buffer()[..3], &[0xda, 1, 0]);
    let mut w = encoder();
    w.write_string_length(&70000).unwrap();
    assert_eq!(w.get_buffer(), vec![0xdb, 0, 1, 0x11, 0x70]);
}

#[test]
fn bytes_empty_is_nil() {
    let mut w = encoder();
    w.write_bytes(&[]).unwrap();
    w.write_bytes(&[1, 2]).unwrap();
    assert_eq!(w.get_buffer(), vec![0xc0, 0xc4, 2, 1, 2]);
    let mut r = reader(&[0xc0, 0xc4, 2, 1, 2]);
    assert_eq!(r.read_bytes().unwrap(), Vec::<u8>::new());
    assert_eq!(r.read_bytes().unwrap(), vec![1, 2]);
}

#[test]
fn array_and_map_length_forms() {
    let mut w = encoder();
    w.write_array_length(&15).unwrap();
    w.write_array_length(&16).unwrap();
    w.write_array_length(&65536).unwrap();
    w.write_map_length(&15).unwrap();
    w.write_map_length(&16).unwrap();
    w.write_map_length(&65536).unwrap();
    assert_eq!(
        w.get_buffer(),
        vec![0x9f, 0xdc, 0, 16, 0xdd, 0, 1, 0, 0, 0x8f, 0xde, 0, 16, 0xdf, 0, 1, 0, 0]
    );
}

#[test]
fn ints_round_trip_at_their_edges() {
    for v in [0i64, 1, 127, 128, 255, 256, 65535, 65536, -1, -32, -33, -128, -129, i64::MIN, i64::MAX] {
        let mut r = reader(&int_bytes(v));
        assert_eq!(r.read_i64().unwrap(), v);
        assert_eq!(r.remaining(), 0);
    }
    for v in [0u64, 127, 128, 65536, u32::MAX as u64, u64::MAX] {
        let mut r = reader(&uint_bytes(v));
        assert_eq!(r.read_u64().unwrap(), v);
    }
}

#[test]
fn nested_values_round_trip() {
    let nested: Vec<Vec<u32>> = vec![vec![], vec![1, 70000], vec![u32::MAX]];
    let mut w = encoder();
    w.write_array(&nested).unwrap();
    let mut r = reader(&w.get_buffer());
    assert_eq!(r.read_array::<Vec<u32>>().unwrap(), nested);

    let opt: Option<Vec<Option<i32>>> = Some(vec![None, Some(-7), Some(300)]);
    let mut w = encoder();
    w.write_nullable_array(&opt).unwrap();
    w.write_nullable_array::<i32>(&None).unwrap();
    let mut r = reader(&w.get_buffer());
    assert_eq!(r.read_nullable_array::<Option<i32>>().unwrap(), opt);
    assert_eq!(r.read_nullable_array::<i32>().unwrap(), None);

    let mut w = encoder();
    w.write(&"héllo".to_string()).unwrap();
    let mut r = reader(&w.get_buffer());
    assert_eq!(r.read::<String>().unwrap(), "héllo");
}

#[test]
fn map_round_trip() {
    let mut m: SortedMap<Vec<i32>> = SortedMap::new();
    m.insert("Polywrap".to_string(), vec![1, 2]);
    m.insert("a".to_string(), vec![]);
    let mut w = encoder();
    w.write_map(&m).unwrap();
    let mut r = reader(&w.get_buffer());
    let back = r.read_map::<Vec<i32>>().unwrap();
    assert_eq!(back.len(), 2);
    assert_eq!(back.get("Polywrap"), Some(&vec![1, 2]));
    assert_eq!(back.get("a"), Some(&vec![]));
    assert_eq!(back.get("b"), None);
}

#[test]
fn map_bytes_follow_content_not_insertion_order() {
    let mut m1: SortedMap<i32> = SortedMap::new();
    m1.insert("b".to_string(), 1);
    m1.insert("a".to_string(), 2);
    let mut m2: SortedMap<i32> = SortedMap::new();
    m2.insert("a".to_string(), 2);
    m2.insert("b".to_string(), 1);
    let mut w1 = encoder();
    w1.write_map(&m1).unwrap();
    let mut w2 = encoder();
    w2.write_map(&m2).unwrap();
    assert_eq!(w1.get_buffer(), w2.get_buffer());
    assert_eq!(w1.get_buffer(), vec![0x82, 0xa1, b'a', 2, 0xa1, b'b', 1]);
}

#[test]
fn map_insert_replaces_value() {
    let mut m: SortedMap<i32> = SortedMap::new();
    m.insert("a".to_string(), 1);
    m.insert("a".to_string(), 3);
    assert_eq!(m.len(), 1);
    assert_eq!(m.get("a"), Some(&3));
}

#[test]
fn decode_faults() {
    assert!(matches!(reader(&[]).read_u8(), Err(DecodeError::IOError(_))));
    assert!(matches!(reader(&[0xce, 0]).read_u32(), Err(DecodeError::IOError(_))));
    assert!(matches!(reader(&[0xc1]).read_string(), Err(DecodeError::UnknownFormat(_))));
    assert!(matches!(reader(&[0x01]).read_string(), Err(DecodeError::WrongMsgPackFormat(_))));
    assert!(matches!(reader(&[0xcc, 200]).read_i8(), Err(DecodeError::IntRangeError(_))));
    assert!(matches!(reader(&[0xff]).read_u8(), Err(DecodeError::IntRangeError(_))));
    assert!(matches!(reader(&[0xa2, 0xff, 0xfe]).read_string(), Err(DecodeError::StrReadError(_))));
    assert!(matches!(reader(&[0xa3, b'a', b'b', b'c']).read_bigint(), Err(DecodeError::ParseBigIntError(_))));
    assert!(matches!(reader(&[0xa1, b'{']).read_json(), Err(DecodeError::JSONReadError(_))));
}

#[test]
fn lookahead_reads_nothing() {
    let mut r = reader(&[0xc0, 0xa1, b'z']);
    assert!(r.is_next_nil().unwrap());
    assert!(!r.is_next_string().unwrap());
    assert_eq!(r.read_nullable_string().unwrap(), None);
    assert!(r.is_next_string().unwrap());
    assert_eq!(r.read_nullable_string().unwrap(), Some("z".to_string()));
    assert!(matches!(r.is_next_nil(), Err(DecodeError::IOError(_))));
}

#[test]
fn error_message_carries_the_path() {
    let mut context = Context::with_description("Deserializing thing");
    context.push("field", "u8", "reading property");
    let mut r = ReadDecoder::new(&[0xa1, b'x'], context);
    match r.read_u8() {
        Err(DecodeError::WrongMsgPackFormat(m)) => {
            assert!(m.contains("Deserializing thing"));
            assert!(m.contains("at field : u8 >> reading property"));
        }
        other => panic!("unexpected {:?}", other),
    }
}

#[test]
fn context_push_and_pop() {
    let mut c = Context::new();
    assert!(c.is_empty());
    c.push("a", "String", "x");
    c.push("b", "u8", "y");
    assert_eq!(c.get_length(), 2);
    c.pop();
    assert_eq!(c.get_length(), 1);
    c.pop();
    c.pop();
    assert!(c.is_empty());
    assert_eq!(c.print_with_context("m"), "m\n  Context: Context Description Not Set");
}

#[test]
fn big_integers_and_json_travel_as_text() {
    let mut w = encoder();
    w.write_bigint(&num_bigint::BigInt::from(-42)).unwrap();
    let json: serde_json::Value = serde_json::from_str("{\"a\": 1}").unwrap();
    w.write_json(&json).unwrap();
    let mut expected = vec![0xa3, b'-', b'4', b'2', 0xa7];
    expected.extend_from_slice(b"{\"a\":1}");
    assert_eq!(w.get_buffer(), expected);
    let mut r = reader(&expected);
    assert_eq!(r.read_bigint().unwrap(), num_bigint::BigInt::from(-42));
    assert_eq!(r.read_json().unwrap(), json);
    let mut r = reader(&[0xc0, 0xa1, b'7']);
    assert_eq!(r.read_nullable_bigint().unwrap(), None);
    assert_eq!(r.read_nullable_bigint().unwrap(), Some(num_bigint::BigInt::from(7)));
}

#[test]
fn format_bytes() {
    assert_eq!(Format::from_byte(0xc1), None);
    assert_eq!(Format::from_byte(0xa3), Some(Format::FixStr(3)));
    assert_eq!(Format::from_byte(0xf0), Some(Format::NegativeFixInt(-16)));
    assert_eq!(Format::NegativeFixInt(-16).to_byte(), 0xf0);
    assert_eq!(Format::Map32.to_byte(), 0xdf);
    let mut r = reader(&[0x93]);
    assert_eq!(r.read_format().unwrap(), Format::FixArray(3));
}

#[test]
fn float_bits() {
    let mut w = encoder();
    w.write_f32_bits(&1.5f32.to_bits()).unwrap();
    w.write_f64_bits(&(-2.0f64).to_bits()).unwrap();
    let mut r = reader(&w.get_buffer());
    assert_eq!(f32::from_bits(r.read_f32_bits().unwrap()), 1.5);
    assert_eq!(f64::from_bits(r.read_f64_bits().unwrap()), -2.0);
}

#[test]
fn object_round_trip() {
    let mut o = TestImportAnotherObject::new();
    assert_eq!(o.prop, "");
    o.prop = "hello".to_string();
    let bytes = TestImportAnotherObject::to_buffer(&o).unwrap();
    let mut expected = vec![0x81, 0xa4, b'p', b'r', b'o', b'p', 0xa5];
    expected.extend_from_slice(b"hello");
    assert_eq!(bytes, expected);
    assert_eq!(TestImportAnotherObject::from_buffer(&bytes).unwrap().prop, "hello");
}

#[test]
fn object_missing_field() {
    match TestImportAnotherObject::from_buffer(&[0x80]) {
        Err(DecodeError::MissingField(m)) => assert_eq!(m, "prop: String."),
        other => panic!("unexpected {:?}", other),
    }
}

#[test]
fn object_unknown_field_even_with_required_ones() {
    let bytes = [0x82, 0xa4, b'p', b'r', b'o', b'p', 0xa1, b'x', 0xa5, b'e', b'x', b't', b'r', b'a', 0x01];
    match TestImportAnotherObject::from_buffer(&bytes) {
        Err(DecodeError::UnknownFieldName(m)) => assert_eq!(m, "extra"),
        other => panic!("unexpected {:?}", other),
    }
    match TestImportAnotherObject::from_buffer(&[0x81, 0xa1, b'z', 0x01]) {
        Err(DecodeError::UnknownFieldName(m)) => assert_eq!(m, "z"),
        other => panic!("unexpected {:?}", other),
    }
}

#[test]
fn enum_names_and_indices() {
    assert_eq!(get_test_import_enum_value("BYTES").unwrap(), TestImportEnum::BYTES);
    assert!(get_test_import_enum_value("nope").is_err());
    assert_eq!(get_test_import_enum_key(TestImportEnum::STRING).unwrap(), "STRING");
    assert!(get_test_import_enum_key(TestImportEnum::_MAX_).is_err());
    assert!(sanitize_test_import_enum_value(1).is_ok());
    assert!(sanitize_test_import_enum_value(2).is_err());
    assert!(sanitize_test_import_enum_value(-1).is_err());
    assert_eq!(TestImportEnum::try_from(1).unwrap(), TestImportEnum::BYTES);
    assert!(TestImportEnum::try_from(3).is_err());
}

#[test]
fn enum_reads_by_name_or_index() {
    let mut r = reader(&[0xa5, b'B', b'Y', b'T', b'E', b'S', 0x00, 0x02, 0xa1, b'Q']);
    assert_eq!(read_test_import_enum(&mut r).unwrap(), TestImportEnum::BYTES);
    assert_eq!(read_test_import_enum(&mut r).unwrap(), TestImportEnum::STRING);
    assert!(matches!(read_test_import_enum(&mut r), Err(DecodeError::EnumProcessingError(_))));
    assert!(matches!(read_test_import_enum(&mut r), Err(DecodeError::EnumProcessingError(_))));
    let mut w = encoder();
    write_test_import_enum(&TestImportEnum::BYTES, &mut w).unwrap();
    assert_eq!(w.get_buffer(), vec![0x01]);
}

#[test]
fn module_methods() {
    let _ = TestImportMutation::new();
    assert_eq!(method1(InputMethod1 { en: SanityEnum::OPTION2 }), SanityEnum::OPTION2);
    assert_eq!(
        method2(InputMethod2 { enum_array: vec![SanityEnum::OPTION3, SanityEnum::OPTION1] }),
        vec![SanityEnum::OPTION3, SanityEnum::OPTION1]
    );
    let mut map: SortedMap<i32> = SortedMap::new();
    map.insert("k".to_string(), 9);
    assert_eq!(get_key(InputGetKey { map, key: "k".to_string() }), 9);
}

#[test]
fn invoke_replies() {
    match invoke_reply("foo", None) {
        InvokeReply::Error(m) => assert_eq!(m, "Could not find invoke function foo"),
        _ => panic!("expected an error"),
    }
    match invoke_reply("foo", Some(vec![1, 2])) {
        InvokeReply::Result(b) => assert_eq!(b, vec![1, 2]),
        _ => panic!("expected a result"),
    }
    let names = vec!["a".to_string(), "b".to_string()];
    assert_eq!(lookup_method(&names, "b"), Some(1));
    assert_eq!(lookup_method(&names, "c"), None);
}

#[test]
fn subinvoke_outcomes() {
    assert_eq!(subinvoke_channel(true), Channel::Result);
    assert_eq!(subinvoke_channel(false), Channel::Error);
    assert_eq!(subinvoke_outcome(true, 3, vec![1, 2, 3]), Ok(vec![1, 2, 3]));
    assert_eq!(subinvoke_outcome(false, 4, b"boom".to_vec()), Err("boom".to_string()));
    assert_eq!(
        subinvoke_outcome(false, 1, vec![0xff]),
        Err("sub-invocation error message is not valid UTF-8".to_string())
    );
}

#[test]
fn bigint_reads_to_its_canonical_value() {
    let mut r = reader(&[0xa6, b'+', b'0', b'0', b'1', b'_', b'2', 0xa2, b'-', b'0']);
    assert_eq!(r.read_bigint().unwrap().to_string(), "12");
    assert_eq!(r.read_bigint().unwrap().to_string(), "0");
}

#[test]
fn empty_array_round_trip() {
    let xs: Vec<u32> = vec![];
    let mut w = encoder();
    w.write_array(&xs).unwrap();
    assert_eq!(w.get_buffer(), vec![0x90]);
    let mut r = reader(&w.get_buffer());
    assert_eq!(r.read_array::<u32>().unwrap(), xs);
}

#[test]
fn nullable_nested_array_round_trip() {
    for o in [None, Some(vec![]), Some(vec![vec![], vec![1u32, 2], vec![70000]])] {
        let mut w = encoder();
        w.write_nullable_array(&o).unwrap();
        let mut r = reader(&w.get_buffer());
        assert_eq!(r.read_nullable_array::<Vec<u32>>().unwrap(), o);
        assert_eq!(r.remaining(), 0);
    }
}

#[test]
fn empty_map_round_trip() {
    let m: SortedMap<Vec<i32>> = SortedMap::new();
    let mut w = encoder();
    w.write_map(&m).unwrap();
    assert_eq!(w.get_buffer(), vec![0x80]);
    let mut r = reader(&w.get_buffer());
    assert_eq!(r.read_map::<Vec<i32>>().unwrap().len(), 0);
}
