use phpser::{ArrayKey, Object, PropertyName, PropertyVis, Ref, Serializable, Value};

fn rt(v: Value<Vec<u8>>) -> Value<Vec<u8>> {
    let bytes = v.encode();
    Value::parse(bytes).unwrap()
}

#[test]
fn scalars_encode_exactly() {
    assert_eq!(Value::<Vec<u8>>::Null.encode(), b"N;".to_vec());
    assert_eq!(Value::<Vec<u8>>::Bool(true).encode(), b"b:1;".to_vec());
    assert_eq!(Value::<Vec<u8>>::Bool(false).encode(), b"b:0;".to_vec());
    assert_eq!(Value::<Vec<u8>>::Int(0).encode(), b"i:0;".to_vec());
    assert_eq!(Value::<Vec<u8>>::Int(-42).encode(), b"i:-42;".to_vec());
    assert_eq!(
        Value::<Vec<u8>>::Int(i64::MIN).encode(),
        b"i:-9223372036854775808;".to_vec()
    );
    assert_eq!(
        Value::<Vec<u8>>::Float(b"1.5".to_vec()).encode(),
        b"d:1.5;".to_vec()
    );
    assert_eq!(
        Value::<Vec<u8>>::String(b"hello".to_vec()).encode(),
        b"s:5:\"hello\";".to_vec()
    );
    assert_eq!(
        Value::<Vec<u8>>::Reference(Ref::new(7)).encode(),
        b"R:7;".to_vec()
    );
}

#[test]
fn array_encodes_exactly() {
    let v = Value::Array(vec![
        (ArrayKey::Int(0), Value::String(b"x".to_vec())),
        (ArrayKey::String(b"k".to_vec()), Value::Bool(true)),
    ]);
    assert_eq!(v.encode(), b"a:2:{i:0;s:1:\"x\";s:1:\"k\";b:1;}".to_vec());
}

#[test]
fn visibility_is_mangled_back() {
    let v = Value::Object(Object::new(
        b"Foo".to_vec(),
        vec![
            (
                PropertyName::new(PropertyVis::Private(b"Foo".to_vec()), b"prv".to_vec()),
                Value::Int(2),
            ),
            (
                PropertyName::new(PropertyVis::Protected, b"pro".to_vec()),
                Value::Int(3),
            ),
        ],
    ));
    assert_eq!(
        v.encode(),
        b"O:3:\"Foo\":2:{s:8:\"\x00Foo\x00prv\";i:2;s:6:\"\x00*\x00pro\";i:3;}".to_vec()
    );
}

#[test]
fn serializable_encodes_exactly() {
    let v = Value::Serializable(Serializable::new(b"Foo".to_vec(), b"payload".to_vec()));
    assert_eq!(v.encode(), b"C:3:\"Foo\":7:{payload}".to_vec());
}

#[test]
fn round_trip_reconstructs_equal_trees() {
    let tree = Value::Array(vec![
        (ArrayKey::Int(-3), Value::Null),
        (ArrayKey::String(b"f".to_vec()), Value::Float(b"-2.5e1".to_vec())),
        (
            ArrayKey::Int(1),
            Value::Object(Object::new(
                b"K".to_vec(),
                vec![
                    (
                        PropertyName::new(PropertyVis::Public, b"p".to_vec()),
                        Value::String(b"s".to_vec()),
                    ),
                    (
                        PropertyName::new(PropertyVis::Private(b"K".to_vec()), b"q".to_vec()),
                        Value::Array(vec![(ArrayKey::Int(0), Value::Bool(false))]),
                    ),
                ],
            )),
        ),
        (
            ArrayKey::Int(2),
            Value::Serializable(Serializable::new(b"C".to_vec(), b"a{b}".to_vec())),
        ),
        (ArrayKey::Int(3), Value::Reference(Ref::new(1))),
    ]);
    let back = rt(tree);
    let expect = Value::Array(vec![
        (ArrayKey::Int(-3), Value::Null),
        (ArrayKey::String(b"f".to_vec()), Value::Float(b"-2.5e1".to_vec())),
        (
            ArrayKey::Int(1),
            Value::Object(Object::new(
                b"K".to_vec(),
                vec![
                    (
                        PropertyName::new(PropertyVis::Public, b"p".to_vec()),
                        Value::String(b"s".to_vec()),
                    ),
                    (
                        PropertyName::new(PropertyVis::Private(b"K".to_vec()), b"q".to_vec()),
                        Value::Array(vec![(ArrayKey::Int(0), Value::Bool(false))]),
                    ),
                ],
            )),
        ),
        (
            ArrayKey::Int(2),
            Value::Serializable(Serializable::new(b"C".to_vec(), b"a{b}".to_vec())),
        ),
        (ArrayKey::Int(3), Value::Reference(Ref::new(1))),
    ]);
    assert_eq!(back, expect);
}

#[test]
fn empty_values_round_trip() {
    assert_eq!(rt(Value::Array(vec![])), Value::Array(vec![]));
    assert_eq!(
        rt(Value::String(vec![])),
        Value::String(vec![])
    );
    let o = Value::Object(Object::new(b"".to_vec(), vec![]));
    match rt(o) {
        Value::Object(back) => {
            assert_eq!(back.class, b"".to_vec());
            assert!(back.properties.is_empty());
        }
        other => panic!("expected an object, got {:?}", other),
    }
}

#[test]
fn accessors_expose_the_parts() {
    let o = Object::new(
        b"Foo".to_vec(),
        vec![(
            PropertyName::new(PropertyVis::Public, b"p".to_vec()),
            Value::Int(1),
        )],
    );
    assert_eq!(o.class(), &b"Foo".to_vec());
    assert_eq!(o.properties().len(), 1);
    assert_eq!(o.properties()[0].0.vis(), &PropertyVis::Public);
    assert_eq!(o.properties()[0].0.name(), &b"p".to_vec());
    let c = Serializable::new(b"C".to_vec(), b"d".to_vec());
    assert_eq!(c.class(), &b"C".to_vec());
    assert_eq!(c.data(), &b"d".to_vec());
    assert_eq!(Ref::new(9).index(), 9);
}
