use neutraltemplate::convert::convert;
use neutraltemplate::convert::ConvertError;
use neutraltemplate::convert::DynValue;
use neutraltemplate::value::NumberValue;
use neutraltemplate::value::StructuredValue;

fn dbg(v: &StructuredValue) -> String {
    format!("{:?}", v)
}

#[test]
fn convert_null() {
    let r = convert(&DynValue::Null).unwrap();
    assert!(matches!(r, StructuredValue::Null));
}

#[test]
fn convert_bool_is_bool_not_number() {
    let r = convert(&DynValue::Bool(true)).unwrap();
    assert!(matches!(r, StructuredValue::Bool(true)));
    let r = convert(&DynValue::Bool(false)).unwrap();
    assert!(matches!(r, StructuredValue::Bool(false)));
    assert!(!matches!(convert(&DynValue::Bool(true)).unwrap(), StructuredValue::Number(_)));
}

#[test]
fn convert_integers() {
    let r = convert(&DynValue::Int(-7)).unwrap();
    assert!(matches!(r, StructuredValue::Number(NumberValue::Int(-7))));
    let r = convert(&DynValue::UInt(u64::MAX)).unwrap();
    assert!(matches!(r, StructuredValue::Number(NumberValue::UInt(u64::MAX))));
}

#[test]
fn convert_finite_float() {
    let bits = (1.5f64).to_bits();
    let r = convert(&DynValue::Float(bits)).unwrap();
    match r {
        StructuredValue::Number(NumberValue::FloatBits(b)) => assert_eq!(b, bits),
        other => panic!("unexpected: {:?}", other),
    }
}

#[test]
fn convert_nan_rejected() {
    let r = convert(&DynValue::Float(f64::NAN.to_bits()));
    assert_eq!(r.unwrap_err(), ConvertError::NonFiniteNumber);
}

#[test]
fn convert_infinity_rejected() {
    let r = convert(&DynValue::Float(f64::INFINITY.to_bits()));
    assert_eq!(r.unwrap_err(), ConvertError::NonFiniteNumber);
    let r = convert(&DynValue::Float(f64::NEG_INFINITY.to_bits()));
    assert_eq!(r.unwrap_err(), ConvertError::NonFiniteNumber);
}

#[test]
fn convert_nested_nonfinite_rejected() {
    let inner = DynValue::List(vec![
        DynValue::Int(1),
        DynValue::Float(f64::INFINITY.to_bits()),
    ]);
    let value = DynValue::Dict(vec![("data".to_string(), inner)]);
    assert_eq!(convert(&value).unwrap_err(), ConvertError::NonFiniteNumber);
}

#[test]
fn convert_opaque_rejected() {
    let value = DynValue::Dict(vec![(
        "data".to_string(),
        DynValue::Opaque("set".to_string()),
    )]);
    assert_eq!(convert(&value).unwrap_err(), ConvertError::UnsupportedType);
}

#[test]
fn convert_text_copied() {
    let r = convert(&DynValue::Text("hello".to_string())).unwrap();
    match r {
        StructuredValue::Text(s) => assert_eq!(s, "hello"),
        other => panic!("unexpected: {:?}", other),
    }
}

#[test]
fn convert_list_and_tuple_become_arrays() {
    let list = DynValue::List(vec![DynValue::Int(1), DynValue::Int(2)]);
    let tuple = DynValue::Tuple(vec![DynValue::Int(1), DynValue::Int(2)]);
    let a = convert(&list).unwrap();
    let b = convert(&tuple).unwrap();
    assert_eq!(dbg(&a), dbg(&b));
    match a {
        StructuredValue::Array(items) => {
            assert_eq!(items.len(), 2);
            assert!(matches!(items[0], StructuredValue::Number(NumberValue::Int(1))));
            assert!(matches!(items[1], StructuredValue::Number(NumberValue::Int(2))));
        },
        other => panic!("unexpected: {:?}", other),
    }
}

#[test]
fn convert_dict_preserves_entry_order() {
    let value = DynValue::Dict(vec![
        ("b".to_string(), DynValue::Int(2)),
        ("a".to_string(), DynValue::Int(1)),
    ]);
    match convert(&value).unwrap() {
        StructuredValue::Object(fields) => {
            assert_eq!(fields.len(), 2);
            assert_eq!(fields[0].0, "b");
            assert_eq!(fields[1].0, "a");
        },
        other => panic!("unexpected: {:?}", other),
    }
}

#[test]
fn convert_dict_duplicate_keys_last_wins() {
    let value = DynValue::Dict(vec![
        ("k".to_string(), DynValue::Int(1)),
        ("other".to_string(), DynValue::Int(5)),
        ("k".to_string(), DynValue::Int(2)),
    ]);
    match convert(&value).unwrap() {
        StructuredValue::Object(fields) => {
            assert_eq!(fields.len(), 2);
            assert_eq!(fields[0].0, "k");
            assert!(matches!(fields[0].1, StructuredValue::Number(NumberValue::Int(2))));
            assert_eq!(fields[1].0, "other");
        },
        other => panic!("unexpected: {:?}", other),
    }
}

#[test]
fn convert_already_structured_value_is_stable() {
    let value = DynValue::Dict(vec![
        (
            "data".to_string(),
            DynValue::Dict(vec![
                ("title".to_string(), DynValue::Text("Hello".to_string())),
                ("items".to_string(), DynValue::List(vec![
                    DynValue::Int(1),
                    DynValue::Bool(true),
                    DynValue::Null,
                ])),
            ]),
        ),
        ("count".to_string(), DynValue::UInt(3)),
    ]);
    let first = convert(&value).unwrap();
    // writing the converted value back down as a dynamic value and
    // converting again gives the same structured value
    let again = DynValue::Dict(vec![
        (
            "data".to_string(),
            DynValue::Dict(vec![
                ("title".to_string(), DynValue::Text("Hello".to_string())),
                ("items".to_string(), DynValue::List(vec![
                    DynValue::Int(1),
                    DynValue::Bool(true),
                    DynValue::Null,
                ])),
            ]),
        ),
        ("count".to_string(), DynValue::UInt(3)),
    ]);
    let second = convert(&again).unwrap();
    assert_eq!(dbg(&first), dbg(&second));
}
