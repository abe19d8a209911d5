use std::collections::HashMap;

use segs::command_panel::{
    fields_are_valid, filtered_command_messages, initialize_drafts, parse_field, parse_fields, source_name,
    FieldDraft, FieldParseError, FloatReading,
};
use segs::dataflow::{DataKey, DataType, DataValue, MessageKey, StreamKey};
use segs::protocol::{FieldDescriptor, MessageDescriptor, ProtocolDescriptor, SourceDescriptor};

fn message_key(id: u64) -> MessageKey {
    MessageKey(id)
}

/// A touched draft with the float readings of its trimmed text.
fn draft(text: &str) -> FieldDraft {
    let trimmed = text.trim();
    FieldDraft {
        text: text.into(),
        touched: true,
        reading: FloatReading {
            f32_bits: trimmed.parse::<f32>().ok().map(f32::to_bits),
            f64_bits: trimmed.parse::<f64>().ok().map(f64::to_bits),
        },
    }
}

fn command_protocol() -> ProtocolDescriptor {
    let alpha = message_key(1);
    let beta = message_key(2);
    let telemetry = message_key(3);
    ProtocolDescriptor {
        message_schemas: vec![
            (
                alpha,
                MessageDescriptor {
                    name: "ALPHA_TC".into(),
                    fields: Vec::new(),
                },
            ),
            (
                beta,
                MessageDescriptor {
                    name: "BETA_TC".into(),
                    fields: Vec::new(),
                },
            ),
            (
                telemetry,
                MessageDescriptor {
                    name: "ALPHA_TM".into(),
                    fields: Vec::new(),
                },
            ),
        ],
        stream_messages: vec![telemetry],
        command_messages: vec![beta, alpha],
        sources: vec![SourceDescriptor {
            name: "Target".into(),
            key: StreamKey::mock().source_key,
        }],
    }
}

#[test]
fn command_filtering_is_case_insensitive_and_preserves_role_order() {
    let protocol = command_protocol();

    assert_eq!(
        filtered_command_messages(&protocol, "  tc "),
        vec![message_key(2), message_key(1)]
    );
    assert_eq!(filtered_command_messages(&protocol, "alpha"), vec![message_key(1)]);
    assert!(filtered_command_messages(&protocol, "missing").is_empty());
    assert_eq!(
        filtered_command_messages(&protocol, ""),
        vec![message_key(2), message_key(1)]
    );
}

#[test]
fn untouched_and_empty_scalar_drafts_are_missing() {
    assert!(matches!(
        parse_field(&FieldDraft::default(), &DataType::U8),
        Err(FieldParseError::Missing)
    ));
    assert!(matches!(
        parse_field(&draft("  "), &DataType::Bool),
        Err(FieldParseError::Missing)
    ));
}

#[test]
fn parses_every_exact_data_type() {
    assert!(matches!(parse_field(&draft("255"), &DataType::U8), Ok(DataValue::U8(255))));
    assert!(matches!(parse_field(&draft("65535"), &DataType::U16), Ok(DataValue::U16(65535))));
    assert!(matches!(parse_field(&draft(" 42 "), &DataType::U32), Ok(DataValue::U32(42))));
    assert!(matches!(parse_field(&draft("42"), &DataType::U64), Ok(DataValue::U64(42))));
    assert!(matches!(parse_field(&draft("-128"), &DataType::I8), Ok(DataValue::I8(-128))));
    assert!(matches!(parse_field(&draft("-42"), &DataType::I16), Ok(DataValue::I16(-42))));
    assert!(matches!(parse_field(&draft("-42"), &DataType::I32), Ok(DataValue::I32(-42))));
    assert!(matches!(parse_field(&draft("-42"), &DataType::I64), Ok(DataValue::I64(-42))));
    assert!(matches!(
        parse_field(&draft("1.5"), &DataType::F32),
        Ok(DataValue::F32(bits)) if f32::from_bits(bits) == 1.5
    ));
    assert!(matches!(
        parse_field(&draft("2.5"), &DataType::F64),
        Ok(DataValue::F64(bits)) if f64::from_bits(bits) == 2.5
    ));
    assert!(matches!(parse_field(&draft("true"), &DataType::Bool), Ok(DataValue::Bool(true))));
    assert!(matches!(
        parse_field(&draft("  exact text  "), &DataType::String),
        Ok(DataValue::String(value)) if value == "  exact text  "
    ));
    assert!(matches!(
        parse_field(&draft(""), &DataType::String),
        Ok(DataValue::String(value)) if value.is_empty()
    ));
}

#[test]
fn rejects_malformed_and_out_of_range_scalars() {
    assert!(matches!(parse_field(&draft("256"), &DataType::U8), Err(FieldParseError::Invalid(_))));
    assert!(matches!(parse_field(&draft("-1"), &DataType::U16), Err(FieldParseError::Invalid(_))));
    assert!(matches!(parse_field(&draft("128"), &DataType::I8), Err(FieldParseError::Invalid(_))));
    assert!(matches!(parse_field(&draft("-129"), &DataType::I8), Err(FieldParseError::Invalid(_))));
    assert!(matches!(parse_field(&draft("yes"), &DataType::Bool), Err(FieldParseError::Invalid(_))));
    assert!(matches!(
        parse_field(&draft("not-a-number"), &DataType::F64),
        Err(FieldParseError::Invalid(_))
    ));
}

#[test]
fn integer_parsing_matches_the_standard_library() {
    for text in ["+7", "-0", "007", "18446744073709551615", "18446744073709551616", "+", "-", "1_0", "٣"] {
        let expected = text.parse::<u64>().ok();
        let parsed = match parse_field(&draft(text), &DataType::U64) {
            Ok(DataValue::U64(v)) => Some(v),
            _ => None,
        };
        assert_eq!(parsed, expected, "u64 {text:?}");
        let expected = text.parse::<i64>().ok();
        let parsed = match parse_field(&draft(text), &DataType::I64) {
            Ok(DataValue::I64(v)) => Some(v),
            _ => None,
        };
        assert_eq!(parsed, expected, "i64 {text:?}");
    }
    assert!(matches!(
        parse_field(&draft("-9223372036854775808"), &DataType::I64),
        Ok(DataValue::I64(i64::MIN))
    ));
}

#[test]
fn invalid_messages_name_the_type() {
    let error = parse_field(&draft("300"), &DataType::U8).unwrap_err();
    assert_eq!(error.message(), "Value is out of range for unsigned 8-bit");
    assert_eq!(FieldParseError::Missing.message(), "Value is required");
    let error = parse_field(&draft("maybe"), &DataType::Bool).unwrap_err();
    assert_eq!(error.message(), "Value must be true or false");
}

fn nested_fields() -> Vec<FieldDescriptor> {
    vec![
        FieldDescriptor::Structure {
            name: "Group".into(),
            fields: vec![FieldDescriptor::Field {
                name: "count".into(),
                field_type: DataType::U16,
                data_key: DataKey(1),
            }],
        },
        FieldDescriptor::Field {
            name: "label".into(),
            field_type: DataType::String,
            data_key: DataKey(2),
        },
    ]
}

#[test]
fn drafts_are_initialized_validated_and_parsed_depth_first() {
    let fields = nested_fields();
    let mut drafts = HashMap::new();
    initialize_drafts(&fields, &mut drafts);
    assert_eq!(drafts.len(), 2);
    assert!(!drafts[&1].touched && drafts[&1].text.is_empty());
    assert!(!fields_are_valid(&fields, &drafts));
    assert!(matches!(parse_fields(&fields, &drafts), Err(FieldParseError::Missing)));

    drafts.insert(1, draft("12"));
    drafts.insert(2, draft("name"));
    assert!(fields_are_valid(&fields, &drafts));
    let values = parse_fields(&fields, &drafts).unwrap();
    assert_eq!(values.len(), 2);
    assert_eq!(values[0], (DataKey(1), DataValue::U16(12)));
    assert_eq!(values[1], (DataKey(2), DataValue::String("name".into())));

    drafts.insert(1, draft("70000"));
    assert!(!fields_are_valid(&fields, &drafts));
    assert!(matches!(parse_fields(&fields, &drafts), Err(FieldParseError::Invalid(_))));
}

#[test]
fn source_names_are_found_by_key() {
    let protocol = command_protocol();
    assert_eq!(source_name(&protocol, StreamKey::mock().source_key), "Target");
}
