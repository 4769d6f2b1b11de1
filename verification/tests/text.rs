use phpser::{Error, IoError, Str, StringReader, Utf8String, Value};

fn text(bytes: &[u8]) -> Utf8String {
    Utf8String::from_bytes(bytes.to_vec()).unwrap()
}

#[test]
fn validation_accepts_and_rejects() {
    assert!(phpser::validate_utf8(b"plain ascii"));
    assert!(phpser::validate_utf8(b"caf\xc3\xa9 \xe2\x82\xac \xf0\x9f\x99\x82"));
    assert!(!phpser::validate_utf8(b"\xc3"));
    assert!(!phpser::validate_utf8(b"\x80"));
    assert!(!phpser::validate_utf8(b"\xed\xa0\x80"));
    assert!(!phpser::validate_utf8(b"\xc0\xaf"));
    assert!(Utf8String::from_bytes(b"\xff".to_vec()).is_none());
}

#[test]
fn text_parse_decodes_multibyte_strings() {
    // the declared length is a byte count, not a character count
    let v = Value::parse(text(b"s:5:\"caf\xc3\xa9\";")).unwrap();
    match v {
        Value::String(s) => assert_eq!(s.into_bytes(), b"caf\xc3\xa9".to_vec()),
        other => panic!("expected a string, got {:?}", other),
    }
}

#[test]
fn text_parse_rejects_split_code_points() {
    // a declared length that cuts the two-byte character in half
    match Value::parse(text(b"s:1:\"\xc3\xa9\";")) {
        Err(IoError::Phpser(Error::BadEncoding(off))) => assert_eq!(off, 5),
        other => panic!("expected an encoding error, got {:?}", other),
    }
}

#[test]
fn text_objects_demangle_like_byte_ones() {
    let v = Value::parse(text(b"O:1:\"C\":1:{s:5:\"\x00*\x00ab\";i:1;}")).unwrap();
    match v {
        Value::Object(o) => {
            assert_eq!(o.class.into_bytes(), b"C".to_vec());
            let (name, value) = o.properties.into_iter().next().unwrap();
            assert_eq!(name.name.into_bytes(), b"ab".to_vec());
            assert_eq!(value, Value::Int(1));
        }
        other => panic!("expected an object, got {:?}", other),
    }
}

#[test]
fn string_reader_yields_text_trees() {
    let mut reader = StringReader::new(&b"a:1:{i:0;s:2:\"ok\";}"[..], 64);
    let v = Value::from_source(&mut reader).unwrap();
    match v {
        Value::Array(pairs) => match pairs.into_iter().next().unwrap().1 {
            Value::String(s) => assert_eq!(s.into_bytes(), b"ok".to_vec()),
            other => panic!("expected a string, got {:?}", other),
        },
        other => panic!("expected an array, got {:?}", other),
    }
}

#[test]
fn string_reader_rejects_invalid_text() {
    let mut reader = StringReader::new(&b"s:2:\"\xff\xff\";"[..], 64);
    match Value::from_source(&mut reader) {
        Err(IoError::Phpser(Error::BadEncoding(_))) => {}
        other => panic!("expected an encoding error, got {:?}", other),
    }
}

#[test]
fn borrowed_bytes_parse_zero_copy() {
    let buf: &[u8] = b"a:1:{i:0;s:2:\"ok\";}";
    let v: Value<&[u8]> = Value::parse(buf).unwrap();
    match v {
        Value::Array(pairs) => {
            assert_eq!(pairs[0].1, Value::String(&b"ok"[..]));
        }
        other => panic!("expected an array, got {:?}", other),
    }
}

#[test]
fn borrowed_text_parses_and_checks_boundaries() {
    let buf: &[u8] = b"s:5:\"caf\xc3\xa9\";";
    let t = phpser::Utf8Str::from_slice(buf).unwrap();
    match Value::parse(t).unwrap() {
        Value::String(s) => {
            assert_eq!(s.as_bytes(), b"caf\xc3\xa9");
        }
        other => panic!("expected a string, got {:?}", other),
    }
    let bad: &[u8] = b"s:1:\"\xc3\xa9\";";
    let t = phpser::Utf8Str::from_slice(bad).unwrap();
    match Value::parse(t) {
        Err(IoError::Phpser(Error::BadEncoding(off))) => assert_eq!(off, 5),
        other => panic!("expected an encoding error, got {:?}", other),
    }
}
