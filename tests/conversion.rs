use zen_elixir::{
    decode_context, encode_result, from_value, to_value, BoundaryError, Term, TypeEncodingError,
    Value,
};

fn atom(name: &str) -> Term {
    Term::Atom(name.to_string())
}

fn binary(text: &str) -> Term {
    Term::Binary(text.as_bytes().to_vec())
}

fn string(text: &str) -> Value {
    Value::String(text.to_string())
}

fn round_trip(value: &Value) -> Value {
    let term = from_value(value).expect("value encodes");
    to_value(&term).expect("term decodes")
}

#[test]
fn tuple_order_is_kept_both_ways() {
    let half = 2.5f64.to_bits();
    let term = Term::Tuple(vec![Term::Integer(1), binary("x"), Term::Float(half)]);
    let expected = Value::Array(vec![Value::Int(1), string("x"), Value::Float(half)]);
    let value = to_value(&term).unwrap();
    assert_eq!(value, expected);
    let back = from_value(&value).unwrap();
    assert_eq!(
        back,
        Term::List(vec![Term::Integer(1), binary("x"), Term::Float(half)])
    );
    assert_eq!(to_value(&back).unwrap(), expected);
    assert_ne!(
        to_value(&back).unwrap(),
        Value::Array(vec![Value::Float(half), string("x"), Value::Int(1)])
    );
}

#[test]
fn nil_atom_is_null_and_back() {
    assert_eq!(to_value(&atom("nil")).unwrap(), Value::Null);
    assert_eq!(from_value(&Value::Null).unwrap(), atom("nil"));
}

#[test]
fn boolean_atoms() {
    assert_eq!(to_value(&atom("true")).unwrap(), Value::Bool(true));
    assert_eq!(to_value(&atom("false")).unwrap(), Value::Bool(false));
    assert_eq!(from_value(&Value::Bool(true)).unwrap(), atom("true"));
    assert_eq!(from_value(&Value::Bool(false)).unwrap(), atom("false"));
}

#[test]
fn other_atom_is_its_name() {
    assert_eq!(to_value(&atom("ok")).unwrap(), string("ok"));
}

#[test]
fn map_with_one_integer() {
    let term = Term::Mapping(vec![(binary("k"), Term::Integer(7))]);
    let expected = Value::Object(vec![("k".to_string(), Value::Int(7))]);
    assert_eq!(to_value(&term).unwrap(), expected);
    let encoded = from_value(&expected).unwrap();
    assert_eq!(encoded, term);
    assert_eq!(to_value(&encoded).unwrap(), expected);
}

#[test]
fn atom_keys_are_names() {
    let term = Term::Mapping(vec![(atom("k"), Term::Integer(7))]);
    assert_eq!(
        to_value(&term).unwrap(),
        Value::Object(vec![("k".to_string(), Value::Int(7))])
    );
}

#[test]
fn later_equal_key_replaces_earlier() {
    let term = Term::Mapping(vec![
        (binary("k"), Term::Integer(1)),
        (binary("j"), Term::Integer(2)),
        (atom("k"), Term::Integer(3)),
    ]);
    assert_eq!(
        to_value(&term).unwrap(),
        Value::Object(vec![
            ("k".to_string(), Value::Int(3)),
            ("j".to_string(), Value::Int(2)),
        ])
    );
}

#[test]
fn bad_element_fails_each_container() {
    let bad = Term::Pid;
    assert_eq!(
        to_value(&Term::Tuple(vec![Term::Integer(1), bad])),
        Err(TypeEncodingError::InvalidTupleItem)
    );
    assert_eq!(
        to_value(&Term::List(vec![Term::Integer(1), Term::Port])),
        Err(TypeEncodingError::InvalidArrayItem)
    );
    assert_eq!(
        to_value(&Term::Mapping(vec![
            (binary("a"), Term::Integer(1)),
            (binary("b"), Term::Ref),
        ])),
        Err(TypeEncodingError::InvalidMapItem)
    );
}

#[test]
fn bad_element_first_still_fails() {
    assert_eq!(
        to_value(&Term::List(vec![Term::Fun, Term::Integer(1)])),
        Err(TypeEncodingError::InvalidArrayItem)
    );
}

#[test]
fn nested_bad_element_fails_outer_container() {
    let inner = Term::List(vec![Term::Unknown]);
    assert_eq!(
        to_value(&Term::Tuple(vec![inner])),
        Err(TypeEncodingError::InvalidTupleItem)
    );
}

#[test]
fn integer_key_fails_map() {
    let term = Term::Mapping(vec![(Term::Integer(1), Term::Integer(2))]);
    assert_eq!(to_value(&term), Err(TypeEncodingError::InvalidMapItem));
    let tuple_key = Term::Mapping(vec![(Term::Tuple(vec![]), binary("v"))]);
    assert_eq!(to_value(&tuple_key), Err(TypeEncodingError::InvalidMapItem));
}

#[test]
fn handles_are_unsupported() {
    for term in [Term::Pid, Term::Port, Term::Ref, Term::Fun, Term::Unknown] {
        assert_eq!(to_value(&term), Err(TypeEncodingError::UnsupportedType));
    }
}

#[test]
fn binary_decodes_utf8_text() {
    assert_eq!(to_value(&binary("héllo")).unwrap(), string("héllo"));
    assert_eq!(
        to_value(&Term::Binary(vec![0x68, 0xc3, 0xa9])).unwrap(),
        string("hé")
    );
}

#[test]
fn invalid_utf8_binary_fails() {
    assert_eq!(
        to_value(&Term::Binary(vec![0xff, 0xfe])),
        Err(TypeEncodingError::InvalidBinary)
    );
}

#[test]
fn invalid_utf8_key_fails_map() {
    let term = Term::Mapping(vec![(Term::Binary(vec![0xc3]), Term::Integer(1))]);
    assert_eq!(to_value(&term), Err(TypeEncodingError::InvalidMapItem));
}

#[test]
fn string_encodes_to_utf8_binary() {
    assert_eq!(
        from_value(&string("hé")).unwrap(),
        Term::Binary(vec![0x68, 0xc3, 0xa9])
    );
}

#[test]
fn integer_range() {
    assert_eq!(
        to_value(&Term::Integer(i64::MAX as i128)).unwrap(),
        Value::Int(i64::MAX)
    );
    assert_eq!(
        to_value(&Term::Integer(i64::MIN as i128)).unwrap(),
        Value::Int(i64::MIN)
    );
    assert_eq!(
        to_value(&Term::Integer(i64::MAX as i128 + 1)),
        Err(TypeEncodingError::InvalidInteger)
    );
    assert_eq!(
        to_value(&Term::Integer(i64::MIN as i128 - 1)),
        Err(TypeEncodingError::InvalidInteger)
    );
}

#[test]
fn unsigned_encodes_to_integer() {
    assert_eq!(
        from_value(&Value::UInt(u64::MAX)).unwrap(),
        Term::Integer(u64::MAX as i128)
    );
    assert_eq!(
        from_value(&Value::Int(-5)).unwrap(),
        Term::Integer(-5)
    );
}

#[test]
fn non_finite_floats_fail() {
    assert_eq!(
        to_value(&Term::Float(f64::NAN.to_bits())),
        Err(TypeEncodingError::InvalidFloat)
    );
    assert_eq!(
        to_value(&Term::Float(f64::INFINITY.to_bits())),
        Err(TypeEncodingError::InvalidFloat)
    );
    assert_eq!(
        from_value(&Value::Float(f64::NEG_INFINITY.to_bits())),
        Err(TypeEncodingError::InvalidFloat)
    );
    assert_eq!(
        to_value(&Term::Float((-0.0f64).to_bits())).unwrap(),
        Value::Float((-0.0f64).to_bits())
    );
}

#[test]
fn improper_list_fails() {
    let term = Term::ImproperList(vec![Term::Integer(1)], Box::new(Term::Integer(2)));
    assert_eq!(to_value(&term), Err(TypeEncodingError::InvalidArray));
}

#[test]
fn empty_containers() {
    assert_eq!(to_value(&Term::Tuple(vec![])).unwrap(), Value::Array(vec![]));
    assert_eq!(to_value(&Term::List(vec![])).unwrap(), Value::Array(vec![]));
    assert_eq!(to_value(&Term::Mapping(vec![])).unwrap(), Value::Object(vec![]));
    assert_eq!(from_value(&Value::Array(vec![])).unwrap(), Term::List(vec![]));
    assert_eq!(from_value(&Value::Object(vec![])).unwrap(), Term::Mapping(vec![]));
}

#[test]
fn repeated_object_key_fails_encoding() {
    let value = Value::Object(vec![
        ("a".to_string(), Value::Int(1)),
        ("a".to_string(), Value::Int(2)),
    ]);
    assert_eq!(from_value(&value), Err(TypeEncodingError::InvalidMap));
}

#[test]
fn bad_nested_value_fails_encoding() {
    let nan = Value::Float(f64::NAN.to_bits());
    let array = Value::Array(vec![Value::Int(1), Value::Float(f64::NAN.to_bits())]);
    assert_eq!(from_value(&array), Err(TypeEncodingError::InvalidArrayItem));
    let object = Value::Object(vec![("x".to_string(), nan)]);
    assert_eq!(from_value(&object), Err(TypeEncodingError::InvalidMapItem));
}

#[test]
fn canonical_value_round_trips() {
    let value = Value::Object(vec![
        ("name".to_string(), string("zen")),
        ("ok".to_string(), Value::Bool(true)),
        ("none".to_string(), Value::Null),
        (
            "list".to_string(),
            Value::Array(vec![
                Value::Int(-3),
                Value::Float(0.5f64.to_bits()),
                Value::Array(vec![]),
            ]),
        ),
    ]);
    assert_eq!(round_trip(&value), value);
}

#[test]
fn decodable_term_round_trips() {
    let term = Term::Mapping(vec![
        (atom("a"), Term::Tuple(vec![atom("nil"), atom("false")])),
        (binary("b"), Term::List(vec![Term::Integer(9), Term::Float(1.25f64.to_bits())])),
    ]);
    let value = to_value(&term).unwrap();
    let again = to_value(&from_value(&value).unwrap()).unwrap();
    assert_eq!(again, value);
}

#[test]
fn boundary_signals() {
    assert_eq!(
        decode_context(&Term::Pid),
        Err(BoundaryError::UnsupportedType)
    );
    assert_eq!(decode_context(&Term::Integer(4)), Ok(Value::Int(4)));
    assert_eq!(
        encode_result(&Value::Float(f64::NAN.to_bits())),
        Err(BoundaryError::InvalidResult)
    );
    assert_eq!(encode_result(&Value::Int(4)), Ok(Term::Integer(4)));
}

#[test]
fn every_error_has_a_message() {
    let kinds = [
        TypeEncodingError::InvalidBinary,
        TypeEncodingError::InvalidAtom,
        TypeEncodingError::InvalidInteger,
        TypeEncodingError::InvalidFloat,
        TypeEncodingError::InvalidArray,
        TypeEncodingError::InvalidArrayItem,
        TypeEncodingError::InvalidTuple,
        TypeEncodingError::InvalidTupleItem,
        TypeEncodingError::UnsupportedType,
        TypeEncodingError::InvalidMap,
        TypeEncodingError::InvalidMapItem,
        TypeEncodingError::InvalidBoolean,
    ];
    for kind in kinds {
        assert!(!kind.message().is_empty());
    }
    for (i, a) in kinds.iter().enumerate() {
        for (j, b) in kinds.iter().enumerate() {
            if i != j {
                assert_ne!(a.message(), b.message());
            }
        }
    }
    assert_eq!(
        TypeEncodingError::InvalidBinary.message(),
        "binary is not valid UTF-8"
    );
}
