use neutraltemplate::convert::DynValue;
use neutraltemplate::store::SchemaInput;
use neutraltemplate::template::NeutralTemplate;
use neutraltemplate::template::RenderStatus;
use neutraltemplate::template::TemplateError;
use neutraltemplate::template::TemplateSource;
use neutraltemplate::value::NumberValue;
use neutraltemplate::value::StructuredValue;

// MessagePack for {"data": {"key": "value"}}
const MSGPACK_SCHEMA: [u8; 17] = [
    129, 164, 100, 97, 116, 97, 129, 163, 107, 101, 121, 165, 118, 97, 108, 117, 101,
];

fn one_key_obj(key: &str, value: i64) -> DynValue {
    DynValue::Dict(vec![(key.to_string(), DynValue::Int(value))])
}

#[test]
fn construct_with_two_schema_inputs_fails() {
    let obj = one_key_obj("a", 1);
    let r = NeutralTemplate::new(None, Some("{\"a\":1}"), None, Some(&obj));
    assert_eq!(r.err().unwrap(), TemplateError::MultipleSchemaInputs);

    let r = NeutralTemplate::new(None, Some("{\"a\":1}"), Some(&MSGPACK_SCHEMA), None);
    assert_eq!(r.err().unwrap(), TemplateError::MultipleSchemaInputs);
}

#[test]
fn construct_with_invalid_serialized_schema_fails() {
    let r = NeutralTemplate::new(None, Some("not json"), None, None);
    assert_eq!(r.err().unwrap(), TemplateError::InvalidSerializedSchema);
}

#[test]
fn construct_ignores_empty_schema_inputs() {
    // an empty serialized text counts as absent, so a binary schema beside
    // it is the single input
    let r = NeutralTemplate::new(None, Some(""), Some(&MSGPACK_SCHEMA), None);
    assert!(r.is_ok());
}

#[test]
fn construct_with_nonfinite_obj_fails() {
    let obj = DynValue::Dict(vec![(
        "x".to_string(),
        DynValue::Float(f64::NAN.to_bits()),
    )]);
    let r = NeutralTemplate::new(None, None, None, Some(&obj));
    assert_eq!(r.err().unwrap(), TemplateError::NonFiniteNumber);
}

#[test]
fn construct_status_starts_reset() {
    let t = NeutralTemplate::new(Some("file.ntpl"), None, None, None).unwrap();
    assert_eq!(t.get_status_code(), "");
    assert_eq!(t.get_status_text(), "");
    assert_eq!(t.get_status_param(), "");
    assert!(!t.has_error());
}

#[test]
fn merge_schema_rejects_invalid_json() {
    let mut t = NeutralTemplate::new(None, None, None, None).unwrap();
    let r = t.merge_schema("{\"unterminated\":");
    assert_eq!(r.err().unwrap(), TemplateError::InvalidSerializedSchema);
    // nothing was recorded
    let plan = t.prepare_render(false);
    assert!(matches!(plan.base, SchemaInput::Unset));
    assert_eq!(plan.merges.len(), 0);
}

#[test]
fn merge_schema_accepts_valid_json_as_base() {
    let mut t = NeutralTemplate::new(None, None, None, None).unwrap();
    t.merge_schema("{\"a\": 1}").unwrap();
    let plan = t.prepare_render(false);
    match plan.base {
        SchemaInput::SerializedText(s) => assert_eq!(s, "{\"a\": 1}"),
        other => panic!("unexpected base: {:?}", other),
    }
    assert_eq!(plan.merges.len(), 0);
}

#[test]
fn merge_schema_obj_sets_then_folds() {
    let mut t = NeutralTemplate::new(None, None, None, None).unwrap();
    t.merge_schema_obj(&one_key_obj("a", 1)).unwrap();
    t.merge_schema_obj(&one_key_obj("a", 2)).unwrap();
    let plan = t.prepare_render(false);
    match plan.base {
        SchemaInput::Structured(StructuredValue::Object(fields)) => {
            assert_eq!(fields.len(), 1);
            assert_eq!(fields[0].0, "a");
            assert!(matches!(fields[0].1, StructuredValue::Number(NumberValue::Int(2))));
        },
        other => panic!("unexpected base: {:?}", other),
    }
    assert_eq!(plan.merges.len(), 0);
}

#[test]
fn merge_schema_obj_propagates_conversion_errors() {
    let mut t = NeutralTemplate::new(None, None, None, None).unwrap();
    let opaque = DynValue::Dict(vec![(
        "x".to_string(),
        DynValue::Opaque("socket".to_string()),
    )]);
    assert_eq!(t.merge_schema_obj(&opaque).err().unwrap(), TemplateError::UnsupportedType);
    let nan = DynValue::Dict(vec![("x".to_string(), DynValue::Float(f64::NAN.to_bits()))]);
    assert_eq!(t.merge_schema_obj(&nan).err().unwrap(), TemplateError::NonFiniteNumber);
    // a failed merge left the store untouched
    let plan = t.prepare_render(false);
    assert!(matches!(plan.base, SchemaInput::Unset));
    assert_eq!(plan.merges.len(), 0);
}

#[test]
fn binary_base_defers_structured_merge_in_order() {
    let mut t = NeutralTemplate::new(None, None, Some(&MSGPACK_SCHEMA), None).unwrap();
    t.merge_schema_obj(&one_key_obj("x", 1)).unwrap();
    let plan = t.prepare_render(false);
    // the decoded binary base is installed first, the structured merge
    // applied second
    match &plan.base {
        SchemaInput::CompactBinary(bytes) => assert_eq!(bytes.as_slice(), &MSGPACK_SCHEMA),
        other => panic!("unexpected base: {:?}", other),
    }
    assert_eq!(plan.merges.len(), 1);
    match &plan.merges[0] {
        SchemaInput::Structured(StructuredValue::Object(fields)) => {
            assert_eq!(fields[0].0, "x");
            assert!(matches!(fields[0].1, StructuredValue::Number(NumberValue::Int(1))));
        },
        other => panic!("unexpected merge entry: {:?}", other),
    }
}

#[test]
fn queued_merges_keep_recorded_order() {
    let mut t = NeutralTemplate::new(None, None, Some(&MSGPACK_SCHEMA), None).unwrap();
    t.merge_schema("{\"a\":1}").unwrap();
    t.merge_schema_obj(&one_key_obj("b", 2)).unwrap();
    t.merge_schema_msgpack(&[0x81, 0xA1, 0x78, 0x01]);
    let plan = t.prepare_render(false);
    assert_eq!(plan.merges.len(), 3);
    assert!(matches!(plan.merges[0], SchemaInput::SerializedText(_)));
    assert!(matches!(plan.merges[1], SchemaInput::Structured(_)));
    assert!(matches!(plan.merges[2], SchemaInput::CompactBinary(_)));
}

#[test]
fn consuming_render_transfers_the_schema_away() {
    let mut t = NeutralTemplate::new(None, None, None, None).unwrap();
    t.set_source("{:;data.title:}".to_string());
    t.merge_schema_obj(&one_key_obj("a", 1)).unwrap();
    let plan = t.prepare_render(true);
    assert!(matches!(plan.base, SchemaInput::Structured(_)));
    // a second render must not see the transferred schema values
    let plan2 = t.prepare_render(false);
    assert!(matches!(plan2.base, SchemaInput::Unset));
    assert_eq!(plan2.merges.len(), 0);
}

#[test]
fn reusable_render_keeps_the_schema() {
    let mut t = NeutralTemplate::new(None, None, None, None).unwrap();
    t.merge_schema_obj(&one_key_obj("a", 1)).unwrap();
    let plan = t.prepare_render(false);
    assert!(matches!(plan.base, SchemaInput::Structured(_)));
    let plan2 = t.prepare_render(false);
    assert!(matches!(plan2.base, SchemaInput::Structured(_)));
}

#[test]
fn failed_render_sets_error_status() {
    let mut t = NeutralTemplate::new(Some("/no/such/template.ntpl"), None, None, None).unwrap();
    let plan = t.prepare_render(false);
    assert!(matches!(plan.source, TemplateSource::FilePath(_)));
    // the host could not load the template file and reports the failure
    t.fail_render("Template::from_file_value() failed: no such file".to_string());
    assert!(t.has_error());
    assert_eq!(t.get_status_code(), "");
    assert_eq!(t.get_status_text(), "");
    assert!(!t.get_status_param().is_empty());
}

#[test]
fn finished_render_records_engine_status() {
    let mut t = NeutralTemplate::new(None, None, None, None).unwrap();
    t.set_source("hello".to_string());
    let _plan = t.prepare_render(false);
    t.finish_render(RenderStatus {
        code: "200".to_string(),
        text: "OK".to_string(),
        param: "".to_string(),
        failed: false,
    });
    assert_eq!(t.get_status_code(), "200");
    assert_eq!(t.get_status_text(), "OK");
    assert_eq!(t.get_status_param(), "");
    assert!(!t.has_error());
}

#[test]
fn render_attempt_resets_previous_status() {
    let mut t = NeutralTemplate::new(None, None, None, None).unwrap();
    t.fail_render("earlier failure".to_string());
    assert!(t.has_error());
    let _plan = t.prepare_render(false);
    assert!(!t.has_error());
    assert_eq!(t.get_status_param(), "");
}

#[test]
fn setting_source_discards_path() {
    let mut t = NeutralTemplate::new(Some("file.ntpl"), None, None, None).unwrap();
    t.set_source("inline".to_string());
    let plan = t.prepare_render(false);
    match plan.source {
        TemplateSource::InlineSource(s) => assert_eq!(s, "inline"),
        other => panic!("unexpected source: {:?}", other),
    }
}

#[test]
fn setting_path_discards_source() {
    let mut t = NeutralTemplate::new(None, None, None, None).unwrap();
    t.set_source("inline".to_string());
    t.set_path("file.ntpl".to_string());
    let plan = t.prepare_render(false);
    match plan.source {
        TemplateSource::FilePath(p) => assert_eq!(p, "file.ntpl"),
        other => panic!("unexpected source: {:?}", other),
    }
}

#[test]
fn empty_path_means_inline_source() {
    let mut t = NeutralTemplate::new(Some(""), None, None, None).unwrap();
    let plan = t.prepare_render(false);
    match plan.source {
        TemplateSource::InlineSource(s) => assert_eq!(s, ""),
        other => panic!("unexpected source: {:?}", other),
    }
}
