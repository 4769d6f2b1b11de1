use phpser::{ByteReader, Error, IoError, Value};

fn read_all(input: &[u8], limit: usize) -> Result<Value<Vec<u8>>, IoError> {
    let mut reader = ByteReader::new(input, limit);
    Value::from_source(&mut reader)
}

#[test]
fn stream_decode_yields_owned_tree() {
    let v = read_all(b"a:1:{i:7;s:2:\"ok\";}", 64).unwrap();
    match v {
        Value::Array(pairs) => {
            assert_eq!(pairs.len(), 1);
            assert_eq!(pairs[0].1, Value::String(b"ok".to_vec()));
        }
        other => panic!("expected an array, got {:?}", other),
    }
}

#[test]
fn stream_limit_bounds_declared_counts() {
    // a tiny input declaring an enormous array count must fail fast
    match read_all(b"a:99999999:{}", 32) {
        Err(IoError::Phpser(Error::UnexpectedEof)) => {}
        other => panic!("expected end of input, got {:?}", other),
    }
}

#[test]
fn stream_limit_bounds_declared_lengths() {
    match read_all(b"s:9999:\"x\";", 16) {
        Err(IoError::Phpser(Error::UnexpectedEof)) => {}
        other => panic!("expected end of input, got {:?}", other),
    }
}

#[test]
fn stream_never_reads_past_its_cap() {
    // the document continues past the cap, so the read is truncated
    match read_all(b"s:6:\"abcdef\";", 4) {
        Err(IoError::Phpser(Error::UnexpectedEof)) => {}
        other => panic!("expected end of input, got {:?}", other),
    }
}

#[test]
fn stream_reports_offsets() {
    let mut reader = ByteReader::new(&b"X;"[..], 8);
    match Value::from_source(&mut reader) {
        Err(IoError::Phpser(Error::BadToken(off))) => assert_eq!(off, 1),
        other => panic!("expected a bad token, got {:?}", other),
    }
}
