use phpser::{ArrayKey, Error, IoError, PropertyVis, Ref, Value};

fn parse_bytes(input: &[u8]) -> Result<Value<Vec<u8>>, IoError> {
    Value::parse(input.to_vec())
}

fn parse_err(input: &[u8]) -> Error {
    match parse_bytes(input) {
        Err(IoError::Phpser(e)) => e,
        Err(IoError::Io(_)) => panic!("unexpected transport error"),
        Ok(_) => panic!("expected a parse error"),
    }
}

#[test]
fn null_decodes() {
    assert_eq!(parse_bytes(b"N;").unwrap(), Value::Null);
}

#[test]
fn bools_decode() {
    assert_eq!(parse_bytes(b"b:1;").unwrap(), Value::Bool(true));
    assert_eq!(parse_bytes(b"b:0;").unwrap(), Value::Bool(false));
}

#[test]
fn bad_bool_digit_is_bad_number() {
    assert_eq!(parse_err(b"b:2;"), Error::BadNumber(3));
}

#[test]
fn ints_decode() {
    assert_eq!(parse_bytes(b"i:5;").unwrap(), Value::Int(5));
    assert_eq!(parse_bytes(b"i:-12;").unwrap(), Value::Int(-12));
    assert_eq!(parse_bytes(b"i:+7;").unwrap(), Value::Int(7));
    assert_eq!(
        parse_bytes(b"i:9223372036854775807;").unwrap(),
        Value::Int(i64::MAX)
    );
    assert_eq!(
        parse_bytes(b"i:-9223372036854775808;").unwrap(),
        Value::Int(i64::MIN)
    );
}

#[test]
fn int_overflow_is_bad_number() {
    assert_eq!(parse_err(b"i:9223372036854775808;"), Error::BadNumber(22));
}

#[test]
fn int_garbage_is_bad_number() {
    assert_eq!(parse_err(b"i:1x;"), Error::BadNumber(5));
}

#[test]
fn floats_keep_their_literal_bytes() {
    assert_eq!(parse_bytes(b"d:1.5;").unwrap(), Value::Float(b"1.5".to_vec()));
    assert_eq!(
        parse_bytes(b"d:-2.25e3;").unwrap(),
        Value::Float(b"-2.25e3".to_vec())
    );
    assert_eq!(parse_bytes(b"d:INF;").unwrap(), Value::Float(b"INF".to_vec()));
    assert_eq!(parse_bytes(b"d:NAN;").unwrap(), Value::Float(b"NAN".to_vec()));
    assert_eq!(parse_bytes(b"d:.5;").unwrap(), Value::Float(b".5".to_vec()));
}

#[test]
fn bad_float_is_bad_number() {
    assert_eq!(parse_err(b"d:abc;"), Error::BadNumber(6));
    assert_eq!(parse_err(b"d:1.2.3;"), Error::BadNumber(8));
    assert_eq!(parse_err(b"d:1e;"), Error::BadNumber(5));
    assert_eq!(parse_err(b"d:.;"), Error::BadNumber(4));
}

#[test]
fn strings_decode() {
    assert_eq!(
        parse_bytes(b"s:5:\"hello\";").unwrap(),
        Value::String(b"hello".to_vec())
    );
    // declared lengths are byte counts, and quotes inside are fine
    assert_eq!(
        parse_bytes(b"s:3:\"a\"b\";").unwrap(),
        Value::String(b"a\"b".to_vec())
    );
}

#[test]
fn empty_array_empty_object_empty_string() {
    assert_eq!(parse_bytes(b"a:0:{}").unwrap(), Value::Array(vec![]));
    match parse_bytes(b"O:0:\"\":0:{}").unwrap() {
        Value::Object(o) => {
            assert_eq!(o.class, b"".to_vec());
            assert!(o.properties.is_empty());
        }
        other => panic!("expected an object, got {:?}", other),
    }
    assert_eq!(parse_bytes(b"s:0:\"\";").unwrap(), Value::String(vec![]));
}

#[test]
fn declared_length_past_input_fails_without_overread() {
    // declared length exceeds the actual content before the closing quote
    assert_eq!(parse_err(b"s:5:\"ab\";"), Error::UnexpectedEof);
}

#[test]
fn array_pairs_keep_source_order_and_duplicates() {
    let v = parse_bytes(b"a:2:{i:0;s:1:\"x\";i:0;s:1:\"y\";}").unwrap();
    match v {
        Value::Array(pairs) => {
            assert_eq!(pairs.len(), 2);
            assert_eq!(pairs[0].0, ArrayKey::Int(0));
            assert_eq!(pairs[0].1, Value::String(b"x".to_vec()));
            assert_eq!(pairs[1].0, ArrayKey::Int(0));
            assert_eq!(pairs[1].1, Value::String(b"y".to_vec()));
        }
        other => panic!("expected an array, got {:?}", other),
    }
}

#[test]
fn string_keys_decode() {
    let v = parse_bytes(b"a:1:{s:1:\"k\";b:1;}").unwrap();
    match v {
        Value::Array(pairs) => {
            assert_eq!(pairs[0].0, ArrayKey::String(b"k".to_vec()));
            assert_eq!(pairs[0].1, Value::Bool(true));
        }
        other => panic!("expected an array, got {:?}", other),
    }
}

#[test]
fn nested_array_key_is_rejected_at_key_offset() {
    // the key position decodes to an array, which is not a legal key
    assert_eq!(
        parse_err(b"a:1:{a:0:{}s:1:\"y\";}"),
        Error::BadArrayKeyType(11)
    );
}

#[test]
fn null_array_key_is_rejected() {
    assert_eq!(parse_err(b"a:1:{N;s:1:\"y\";}"), Error::BadArrayKeyType(7));
}

#[test]
fn declared_count_beyond_limit_fails_fast() {
    // the ceiling for an in-memory parse is the buffer length itself
    assert_eq!(parse_err(b"a:100:{}"), Error::UnexpectedEof);
    assert_eq!(parse_err(b"a:99999999999999:{}"), Error::UnexpectedEof);
}

#[test]
fn object_with_visibilities_decodes() {
    let v = parse_bytes(
        b"O:3:\"Foo\":3:{s:3:\"pub\";i:1;s:8:\"\x00Foo\x00prv\";i:2;s:8:\"\x00*\x00prot2\";i:3;}",
    )
    .unwrap();
    match v {
        Value::Object(o) => {
            assert_eq!(o.class, b"Foo".to_vec());
            assert_eq!(o.properties.len(), 3);
            assert_eq!(o.properties[0].0.vis, PropertyVis::Public);
            assert_eq!(o.properties[0].0.name, b"pub".to_vec());
            assert_eq!(o.properties[0].1, Value::Int(1));
            assert_eq!(o.properties[1].0.vis, PropertyVis::Private(b"Foo".to_vec()));
            assert_eq!(o.properties[1].0.name, b"prv".to_vec());
            assert_eq!(o.properties[2].0.vis, PropertyVis::Protected);
            assert_eq!(o.properties[2].0.name, b"prot2".to_vec());
        }
        other => panic!("expected an object, got {:?}", other),
    }
}

#[test]
fn demangling_recovers_visibility() {
    let p = phpser::demangle(b"\x00Foo\x00bar".to_vec()).unwrap();
    assert_eq!(p.vis, PropertyVis::Private(b"Foo".to_vec()));
    assert_eq!(p.name, b"bar".to_vec());

    let p = phpser::demangle(b"\x00*\x00bar".to_vec()).unwrap();
    assert_eq!(p.vis, PropertyVis::Protected);
    assert_eq!(p.name, b"bar".to_vec());

    let p = phpser::demangle(b"bar".to_vec()).unwrap();
    assert_eq!(p.vis, PropertyVis::Public);
    assert_eq!(p.name, b"bar".to_vec());
}

#[test]
fn demangling_rejects_bad_markers() {
    assert!(phpser::demangle(b"\x00*bar".to_vec()).is_err());
    assert!(phpser::demangle(b"\x00noclose".to_vec()).is_err());
}

#[test]
fn non_string_object_key_is_rejected() {
    assert_eq!(parse_err(b"O:1:\"C\":1:{i:0;i:1;}"), Error::BadObjectKeyType(15));
}

#[test]
fn serializable_payload_is_kept_verbatim() {
    let v = parse_bytes(b"C:3:\"Foo\":12:{i:99;bl(&ahX}").unwrap();
    match v {
        Value::Serializable(c) => {
            assert_eq!(c.class, b"Foo".to_vec());
            assert_eq!(c.data, b"i:99;bl(&ahX".to_vec());
        }
        other => panic!("expected a serializable, got {:?}", other),
    }
}

#[test]
fn reference_passes_through_without_validation() {
    assert_eq!(parse_bytes(b"R:1;").unwrap(), Value::Reference(Ref(1)));
    assert_eq!(parse_bytes(b"R:987654;").unwrap(), Value::Reference(Ref(987654)));
}

#[test]
fn unknown_tag_is_bad_token() {
    assert_eq!(parse_err(b"X;"), Error::BadToken(1));
}

#[test]
fn wrong_delimiter_is_bad_token() {
    assert_eq!(parse_err(b"i;5;"), Error::BadToken(2));
}

#[test]
fn truncated_input_is_unexpected_eof() {
    assert_eq!(parse_err(b"i:5"), Error::UnexpectedEof);
    assert_eq!(parse_err(b""), Error::UnexpectedEof);
    assert_eq!(parse_err(b"a:1:{"), Error::UnexpectedEof);
}

#[test]
fn decoding_is_deterministic() {
    let input: &[u8] = b"a:1:{s:1:\"k\";d:2.5;}";
    let a = format!("{:?}", parse_bytes(input));
    let b = format!("{:?}", parse_bytes(input));
    assert_eq!(a, b);
    let bad: &[u8] = b"a:1:{a:0:{}i:1;}";
    let e1 = parse_err(bad);
    let e2 = parse_err(bad);
    assert_eq!(e1, e2);
    assert_eq!(e1.offset(), e2.offset());
}

#[test]
fn error_messages_describe_the_kind() {
    assert_eq!(Error::UnexpectedEof.message(), "unexpected end of document");
    assert_eq!(Error::BadToken(3).message(), "encountered invalid token");
    assert_eq!(
        Error::BadArrayKeyType(0).message(),
        "array key must be int or string"
    );
}

#[test]
fn error_offsets_are_reported() {
    assert_eq!(Error::UnexpectedEof.offset(), None);
    assert_eq!(Error::BadToken(7).offset(), Some(7));
    assert_eq!(Error::BadNumber(3).offset(), Some(3));
    assert_eq!(Error::BadEncoding(4).offset(), Some(4));
    assert_eq!(Error::BadArrayKeyType(9).offset(), Some(9));
    assert_eq!(Error::BadObjectKeyType(2).offset(), Some(2));
}

#[test]
fn numeric_field_parsers_match_the_grammar() {
    assert_eq!(phpser::parse_usize(b"42"), Some(42));
    assert_eq!(phpser::parse_usize(b"+42"), Some(42));
    assert_eq!(phpser::parse_usize(b"-1"), None);
    assert_eq!(phpser::parse_usize(b""), None);
    assert_eq!(phpser::parse_usize(b"4x"), None);
    assert_eq!(phpser::parse_i64(b"-17"), Some(-17));
    assert_eq!(phpser::parse_i64(b"99999999999999999999999"), None);
    assert!(phpser::is_float_literal(b"1.5e-3"));
    assert!(phpser::is_float_literal(b"Infinity"));
    assert!(!phpser::is_float_literal(b"1.5e"));
    assert!(!phpser::is_float_literal(b""));
}
