use segs::mavlink::MsgField;
use segs::streams::{receiving_kind, stream_kind, stream_sample, StreamKind, StreamSample};

#[test]
fn fields_start_streams_of_their_kind() {
    assert_eq!(stream_kind(&MsgField::UInt8(1)), Some(StreamKind::I64));
    assert_eq!(stream_kind(&MsgField::Int64(-1)), Some(StreamKind::I64));
    assert_eq!(stream_kind(&MsgField::Float(0)), Some(StreamKind::F64));
    assert_eq!(stream_kind(&MsgField::Double(0)), Some(StreamKind::F64));
    assert_eq!(stream_kind(&MsgField::CharArray("x".into())), Some(StreamKind::String));
    assert_eq!(stream_kind(&MsgField::Char('x')), None);
    assert_eq!(stream_kind(&MsgField::Array(Vec::new())), None);
}

#[test]
fn samples_follow_the_stream_kind() {
    assert_eq!(stream_sample(MsgField::Int8(-3), StreamKind::I64), Some(StreamSample::Integer(-3)));
    assert_eq!(stream_sample(MsgField::UInt32(u32::MAX), StreamKind::I64), Some(StreamSample::Integer(4_294_967_295)));
    assert_eq!(stream_sample(MsgField::UInt64(u64::MAX), StreamKind::I64), Some(StreamSample::Integer(-1)));
    assert_eq!(
        stream_sample(MsgField::Float(1.5f32.to_bits()), StreamKind::F64),
        Some(StreamSample::Float32Bits(1.5f32.to_bits()))
    );
    assert_eq!(
        stream_sample(MsgField::CharArray("AS5047D_LEFT\0\0garbage".into()), StreamKind::String),
        Some(StreamSample::Text("AS5047D_LEFT".into()))
    );
    assert_eq!(stream_sample(MsgField::UInt8(1), StreamKind::F64), None);
    assert_eq!(stream_sample(MsgField::Double(0), StreamKind::I64), None);
}

#[test]
fn char_array_stream_values_use_c_string_termination() {
    let first = stream_sample(MsgField::CharArray("AS5047D_LEFT\0\0garbage".into()), StreamKind::String);
    let second = stream_sample(MsgField::CharArray("FULL_LENGTH".into()), StreamKind::String);
    assert!(first.is_some());
    assert!(second.is_some());
    assert_eq!(first, Some(StreamSample::Text("AS5047D_LEFT".into())));
    assert_eq!(second, Some(StreamSample::Text("FULL_LENGTH".into())));
}

#[test]
fn an_existing_stream_keeps_its_kind() {
    assert_eq!(receiving_kind(Some(StreamKind::String), &MsgField::UInt8(1)), Some(StreamKind::String));
    assert_eq!(receiving_kind(None, &MsgField::Double(0)), Some(StreamKind::F64));
    assert_eq!(receiving_kind(None, &MsgField::Char('x')), None);
}
