use std::time::{SystemTime, UNIX_EPOCH};

use segs::dataflow::{field_value, Command, DataType, DataValue, MessageKey, SourceKey};
use segs::mavlink::{
    command_from_mav_message, command_to_mav_message, compute_data_key, data_value_to_msg_field,
    enum_value_to_data_value, make_enum_descriptor, mavtype_to_datatype, msg_field_to_data_value,
    system_time_to_mav_field, truncate_c_string, EnumEntry, EnumInfo, FieldError, FieldInfo, MavMessage,
    MavProfile, MavType, MessageInfo, MsgField, UnixSeconds, ValueError,
};
use segs::protocol::FieldDescriptor;
use segs::schema::make_protocol_descriptor;

const TC_TIMESTAMP_FIELD: &str = "timestamp";

fn field_info(name: &str, mavtype: MavType) -> FieldInfo {
    FieldInfo { name: name.into(), mavtype, enumtype: None }
}

fn message(id: u32, name: &str, fields: Vec<FieldInfo>) -> MessageInfo {
    MessageInfo { id, name: name.into(), fields }
}

fn unix_seconds(time: SystemTime) -> UnixSeconds {
    let secs = time.duration_since(UNIX_EPOCH).unwrap_or_default().as_secs();
    UnixSeconds {
        secs,
        secs_f32_bits: (secs as f32).to_bits(),
        secs_f64_bits: (secs as f64).to_bits(),
    }
}

#[test]
fn canonical_datatypes_preserve_mavlink_scalar_widths() {
    assert!(matches!(mavtype_to_datatype(MavType::UInt8), DataType::U8));
    assert!(matches!(mavtype_to_datatype(MavType::UInt16), DataType::U16));
    assert!(matches!(mavtype_to_datatype(MavType::UInt32), DataType::U32));
    assert!(matches!(mavtype_to_datatype(MavType::UInt64), DataType::U64));
    assert!(matches!(mavtype_to_datatype(MavType::Int8), DataType::I8));
    assert!(matches!(mavtype_to_datatype(MavType::Int16), DataType::I16));
    assert!(matches!(mavtype_to_datatype(MavType::Int32), DataType::I32));
    assert!(matches!(mavtype_to_datatype(MavType::Int64), DataType::I64));
    assert!(matches!(mavtype_to_datatype(MavType::Float), DataType::F32));
    assert!(matches!(mavtype_to_datatype(MavType::Double), DataType::F64));
    assert!(matches!(mavtype_to_datatype(MavType::Char), DataType::U8));
    assert!(matches!(mavtype_to_datatype(MavType::CharArray(4)), DataType::String));
}

#[test]
fn protocol_descriptor_reuses_exact_schemas_through_sorted_roles() {
    let single = |id, name: &str, mavtype| message(id, name, vec![field_info("value", mavtype)]);
    let mut alpha_tm = single(2, "ALPHA_TM", MavType::Float);
    alpha_tm.fields.push(field_info(TC_TIMESTAMP_FIELD, MavType::UInt32));
    let mut alpha_tc = single(4, "ALPHA_TC", MavType::Double);
    alpha_tc.fields.push(field_info(TC_TIMESTAMP_FIELD, MavType::UInt32));
    let profile = MavProfile {
        enums: Vec::new(),
        messages: vec![
            (1, single(1, "ZETA_TM", MavType::UInt8)),
            (2, alpha_tm),
            (3, single(3, "BETA_TC", MavType::UInt16)),
            (4, alpha_tc),
            (5, single(5, "UNSUFFIXED", MavType::Int32)),
        ],
    };

    let descriptor = make_protocol_descriptor(&profile);
    let stream_names = descriptor
        .stream_messages
        .iter()
        .filter_map(|key| descriptor.message_schema(*key).map(|message| message.name.as_str()))
        .collect::<Vec<_>>();
    let sendable_names = descriptor
        .command_messages
        .iter()
        .filter_map(|key| descriptor.message_schema(*key).map(|message| message.name.as_str()))
        .collect::<Vec<_>>();

    assert_eq!(descriptor.message_schemas.len(), 5);
    assert_eq!(stream_names, ["ALPHA_TM", "UNSUFFIXED", "ZETA_TM"]);
    assert_eq!(sendable_names, ["ALPHA_TC", "BETA_TC"]);
    assert!(matches!(
        descriptor.message_schema(MessageKey(1)).unwrap().fields.as_slice(),
        [FieldDescriptor::Field {
            field_type: DataType::U8,
            ..
        }]
    ));
    assert!(matches!(
        descriptor.message_schema(MessageKey(2)).unwrap().fields.as_slice(),
        [
            FieldDescriptor::Field {
                field_type: DataType::F32,
                ..
            },
            FieldDescriptor::Field {
                name,
                field_type: DataType::U32,
                ..
            }
        ] if name == TC_TIMESTAMP_FIELD
    ));
    assert!(matches!(
        descriptor.message_schema(MessageKey(4)).unwrap().fields.as_slice(),
        [FieldDescriptor::Field {
            field_type: DataType::F64,
            ..
        }]
    ));
}

#[test]
fn converts_every_supported_command_scalar() {
    assert_eq!(data_value_to_msg_field(&DataValue::U8(1), &MavType::UInt8).unwrap(), MsgField::UInt8(1));
    assert_eq!(data_value_to_msg_field(&DataValue::U16(2), &MavType::UInt16).unwrap(), MsgField::UInt16(2));
    assert_eq!(data_value_to_msg_field(&DataValue::U32(3), &MavType::UInt32).unwrap(), MsgField::UInt32(3));
    assert_eq!(data_value_to_msg_field(&DataValue::U64(4), &MavType::UInt64).unwrap(), MsgField::UInt64(4));
    assert_eq!(data_value_to_msg_field(&DataValue::I8(-1), &MavType::Int8).unwrap(), MsgField::Int8(-1));
    assert_eq!(data_value_to_msg_field(&DataValue::I16(-2), &MavType::Int16).unwrap(), MsgField::Int16(-2));
    assert_eq!(data_value_to_msg_field(&DataValue::I32(-3), &MavType::Int32).unwrap(), MsgField::Int32(-3));
    assert_eq!(data_value_to_msg_field(&DataValue::I64(-4), &MavType::Int64).unwrap(), MsgField::Int64(-4));
    assert_eq!(
        data_value_to_msg_field(&DataValue::F32(1.5f32.to_bits()), &MavType::Float).unwrap(),
        MsgField::Float(1.5f32.to_bits())
    );
    assert_eq!(
        data_value_to_msg_field(&DataValue::F64(2.5f64.to_bits()), &MavType::Double).unwrap(),
        MsgField::Double(2.5f64.to_bits())
    );
    assert_eq!(data_value_to_msg_field(&DataValue::U8(b'A'), &MavType::Char).unwrap(), MsgField::Char('A'));
}

#[test]
fn fixed_length_strings_are_padded_and_oversized_values_are_rejected() {
    assert_eq!(
        data_value_to_msg_field(&DataValue::String("TC".into()), &MavType::CharArray(4)).unwrap(),
        MsgField::CharArray("TC\0\0".into())
    );
    assert!(data_value_to_msg_field(&DataValue::String("TOO LONG".into()), &MavType::CharArray(4)).is_err());
}

#[test]
fn mismatched_and_unsupported_values_are_rejected() {
    assert!(data_value_to_msg_field(&DataValue::U16(1), &MavType::UInt8).is_err());
    assert!(data_value_to_msg_field(&DataValue::Bool(true), &MavType::UInt8).is_err());
    assert!(data_value_to_msg_field(&DataValue::U8(1), &MavType::Array(Box::new(MavType::UInt8), 2)).is_err());
}

#[test]
fn command_conversion_uses_profile_order_and_requires_every_field() {
    let message = message(
        42,
        "ORDERED_TC",
        vec![field_info("first", MavType::UInt8), field_info("second", MavType::Int16)],
    );

    let first_key = compute_data_key(message.id, 0, "first");
    let second_key = compute_data_key(message.id, 1, "second");
    let fields = vec![(second_key, DataValue::I16(-2)), (first_key, DataValue::U8(1))];
    let mut command = Command {
        key: MessageKey(message.id as u64),
        timestamp: 0,
        target: SourceKey(7),
        fields,
    };
    let now = unix_seconds(SystemTime::now());

    assert_eq!(
        command_to_mav_message(&command, &message, &now).unwrap(),
        MavMessage {
            id: message.id,
            fields: vec![MsgField::UInt8(1), MsgField::Int16(-2)],
        }
    );

    command.fields.retain(|(key, _)| *key != first_key);
    assert!(command_to_mav_message(&command, &message, &now).is_err());
}

#[test]
fn command_conversion_populates_managed_tc_timestamp() {
    let message = message(
        43,
        "TIMED_TC",
        vec![field_info(TC_TIMESTAMP_FIELD, MavType::UInt64), field_info("value", MavType::UInt8)],
    );

    let before = SystemTime::now().duration_since(UNIX_EPOCH).unwrap().as_secs();
    let command = Command {
        key: MessageKey(message.id as u64),
        timestamp: 0,
        target: SourceKey(7),
        fields: vec![(compute_data_key(message.id, 1, "value"), DataValue::U8(9))],
    };
    let converted = command_to_mav_message(&command, &message, &unix_seconds(SystemTime::now())).unwrap();
    let after = SystemTime::now().duration_since(UNIX_EPOCH).unwrap().as_secs();

    assert!(matches!(
        converted.fields.as_slice(),
        [MsgField::UInt64(timestamp), MsgField::UInt8(9)]
            if (before..=after).contains(timestamp)
    ));
    assert_eq!(
        system_time_to_mav_field(
            &unix_seconds(UNIX_EPOCH + std::time::Duration::from_secs(257)),
            &MavType::UInt8
        ),
        MsgField::UInt8(1)
    );
}

#[test]
fn correlated_response_conversion_preserves_command_value_types() {
    let message_info = message(
        24,
        "RESPONSE_TM",
        vec![
            field_info("count", MavType::UInt16),
            field_info("value", MavType::Float),
            field_info("sensor_name", MavType::CharArray(24)),
        ],
    );

    let response = command_from_mav_message(
        MavMessage {
            id: 24,
            fields: vec![
                MsgField::UInt16(12),
                MsgField::Float(3.5f32.to_bits()),
                MsgField::CharArray("AS5047D_LEFT\0\0\0f\u{14}\u{d0}".into()),
            ],
        },
        &message_info,
        SourceKey(7),
        0,
    )
    .unwrap();

    assert_eq!(response.target, SourceKey(7));
    assert!(matches!(
        field_value(&response.fields, compute_data_key(24, 0, "count")),
        Some(DataValue::U16(12))
    ));
    assert!(matches!(
        field_value(&response.fields, compute_data_key(24, 1, "value")),
        Some(DataValue::F32(bits)) if f32::from_bits(*bits) == 3.5
    ));
    assert!(matches!(
        field_value(&response.fields, compute_data_key(24, 2, "sensor_name")),
        Some(DataValue::String(value)) if value == "AS5047D_LEFT"
    ));
}

#[test]
fn c_strings_stop_at_the_first_nul() {
    assert_eq!(truncate_c_string("AS5047D_LEFT\0\0garbage".into()), "AS5047D_LEFT");
    assert_eq!(truncate_c_string("FULL_LENGTH".into()), "FULL_LENGTH");
    assert_eq!(truncate_c_string("\0hidden".into()), "");
}

#[test]
fn encoding_then_decoding_returns_the_value() {
    let cases = [
        (DataValue::U8(7), MavType::UInt8),
        (DataValue::I32(-5), MavType::Int32),
        (DataValue::U8(b'z'), MavType::Char),
        (DataValue::String("ok".into()), MavType::CharArray(6)),
    ];
    for (value, mavtype) in cases {
        let field = data_value_to_msg_field(&value, &mavtype).unwrap();
        assert_eq!(msg_field_to_data_value(field).unwrap(), value);
    }
}

#[test]
fn undecodable_fields_report_their_error() {
    assert_eq!(msg_field_to_data_value(MsgField::Char('é')), Ok(DataValue::U8(0xe9)));
    assert_eq!(msg_field_to_data_value(MsgField::Char('Ā')), Err(FieldError::CharTooWide('Ā')));
    assert_eq!(msg_field_to_data_value(MsgField::Array(Vec::new())), Err(FieldError::ArrayUnsupported));
    assert_eq!(
        data_value_to_msg_field(&DataValue::String("héllo".into()), &MavType::CharArray(5)),
        Err(ValueError::TooLong { length: 6, max: 5 })
    );
}

#[test]
fn enumerations_resolve_implicit_codes() {
    let entry = |name: &str, value| EnumEntry { name: name.into(), value };
    let mavenum = EnumInfo {
        name: "Mode".into(),
        bitmask: false,
        entries: vec![entry("A", None), entry("B", Some(5)), entry("C", None), entry("D", Some(2)), entry("E", None)],
    };
    let descriptor = make_enum_descriptor(&mavenum, &MavType::UInt8).unwrap();
    assert_eq!(descriptor.name, "Mode");
    let values = descriptor.variants.iter().map(|(_, v)| v.clone()).collect::<Vec<_>>();
    assert_eq!(
        values,
        [DataValue::U8(1), DataValue::U8(5), DataValue::U8(6), DataValue::U8(2), DataValue::U8(7)]
    );
    assert!(make_enum_descriptor(&mavenum, &MavType::Float).is_none());
    let wide = EnumInfo { entries: vec![entry("Big", Some(300))], ..mavenum.clone() };
    assert!(make_enum_descriptor(&wide, &MavType::UInt8).is_none());
    assert!(make_enum_descriptor(&wide, &MavType::UInt16).is_some());
    let bitmask = EnumInfo { bitmask: true, ..mavenum.clone() };
    assert!(make_enum_descriptor(&bitmask, &MavType::UInt8).is_none());
    assert_eq!(enum_value_to_data_value(128, &MavType::Int8), None);
    assert_eq!(enum_value_to_data_value(127, &MavType::Int8), Some(DataValue::I8(127)));
}
