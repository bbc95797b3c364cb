use neutraltemplate::value::merge_values;
use neutraltemplate::value::NumberValue;
use neutraltemplate::value::StructuredValue;

fn num(i: i64) -> StructuredValue {
    StructuredValue::Number(NumberValue::Int(i))
}

fn obj(fields: Vec<(&str, StructuredValue)>) -> StructuredValue {
    StructuredValue::Object(
        fields.into_iter().map(|(k, v)| (k.to_string(), v)).collect(),
    )
}

fn dbg(v: &StructuredValue) -> String {
    format!("{:?}", v)
}

#[test]
fn merge_order_determines_collisions() {
    // {"a":1,"b":2} then {"b":3,"c":4}
    let forward = merge_values(
        obj(vec![("a", num(1)), ("b", num(2))]),
        &obj(vec![("b", num(3)), ("c", num(4))]),
    );
    let expected = obj(vec![("a", num(1)), ("b", num(3)), ("c", num(4))]);
    assert_eq!(dbg(&forward), dbg(&expected));

    // the reverse order keeps b = 2
    let backward = merge_values(
        obj(vec![("b", num(3)), ("c", num(4))]),
        &obj(vec![("a", num(1)), ("b", num(2))]),
    );
    let expected = obj(vec![("b", num(2)), ("c", num(4)), ("a", num(1))]);
    assert_eq!(dbg(&backward), dbg(&expected));
}

#[test]
fn merge_replaces_arrays_outright() {
    let merged = merge_values(
        obj(vec![("items", StructuredValue::Array(vec![num(1), num(2)]))]),
        &obj(vec![("items", StructuredValue::Array(vec![num(3)]))]),
    );
    let expected = obj(vec![("items", StructuredValue::Array(vec![num(3)]))]);
    assert_eq!(dbg(&merged), dbg(&expected));
}

#[test]
fn merge_recurses_into_nested_objects() {
    let merged = merge_values(
        obj(vec![(
            "data",
            obj(vec![("title", StructuredValue::Text("old".to_string())), ("keep", num(7))]),
        )]),
        &obj(vec![(
            "data",
            obj(vec![("title", StructuredValue::Text("new".to_string())), ("add", num(8))]),
        )]),
    );
    let expected = obj(vec![(
        "data",
        obj(vec![
            ("title", StructuredValue::Text("new".to_string())),
            ("keep", num(7)),
            ("add", num(8)),
        ]),
    )]);
    assert_eq!(dbg(&merged), dbg(&expected));
}

#[test]
fn merge_scalar_replaces_object() {
    let merged = merge_values(obj(vec![("a", num(1))]), &num(9));
    assert_eq!(dbg(&merged), dbg(&num(9)));
}

#[test]
fn merge_object_replaces_scalar() {
    let merged = merge_values(num(9), &obj(vec![("a", num(1))]));
    assert_eq!(dbg(&merged), dbg(&obj(vec![("a", num(1))])));
}

#[test]
fn merge_into_null_takes_incoming() {
    let incoming = obj(vec![("a", num(1))]);
    let merged = merge_values(StructuredValue::Null, &incoming);
    assert_eq!(dbg(&merged), dbg(&incoming));
}
