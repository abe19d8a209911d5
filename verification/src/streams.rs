//! How received telemetry fields become samples of the data streams: which kind of stream a
//! field starts, and which sample a field adds to a stream of a given kind.

use vstd::prelude::*;

use crate::mavlink::{law_c_string_stops_at_the_first_nul, spec_c_string, truncate_c_string, MsgField};

verus! {

/// The kind of values a data stream holds.
#[derive(Debug, Clone, Copy, PartialEq, Eq, Structural)]
pub enum StreamKind {
    /// Floating-point samples.
    F64,
    /// Integer samples.
    I64,
    /// Text samples.
    String,
}

/// One sample value, before it is stored in a stream of its kind.
#[derive(Debug, Clone, PartialEq, Eq)]
pub enum StreamSample {
    /// An integer sample.
    Integer(i64),
    /// A single-precision sample, by its bits; the stream holds it widened to double precision.
    Float32Bits(u32),
    /// A double-precision sample, by its bits.
    Float64Bits(u64),
    /// A text sample.
    Text(String),
}

/// The kind of stream that a field of this value starts: integers for integer fields, floats
/// for floating-point fields, text for fixed-length strings; characters and arrays start none.
pub open spec fn spec_stream_kind(field: MsgField) -> Option<StreamKind> {
    match field {
        MsgField::Int8(_) | MsgField::Int16(_) | MsgField::Int32(_) | MsgField::Int64(_)
        | MsgField::UInt8(_) | MsgField::UInt16(_) | MsgField::UInt32(_) | MsgField::UInt64(_) => Some(
            StreamKind::I64,
        ),
        MsgField::Float(_) | MsgField::Double(_) => Some(StreamKind::F64),
        MsgField::CharArray(_) => Some(StreamKind::String),
        _ => None,
    }
}

/// Returns the kind of stream that a field of this value starts, if any.
pub fn stream_kind(field: &MsgField) -> (k: Option<StreamKind>)
    ensures
        k == spec_stream_kind(*field),
{
    match field {
        MsgField::Int8(_) | MsgField::Int16(_) | MsgField::Int32(_) | MsgField::Int64(_)
        | MsgField::UInt8(_) | MsgField::UInt16(_) | MsgField::UInt32(_) | MsgField::UInt64(_) => Some(
            StreamKind::I64,
        ),
        MsgField::Float(_) | MsgField::Double(_) => Some(StreamKind::F64),
        MsgField::CharArray(_) => Some(StreamKind::String),
        _ => None,
    }
}

/// The kind of the stream that receives `field`: that of the stream already there, otherwise
/// the kind that the field starts.
pub open spec fn spec_receiving_kind(existing: Option<StreamKind>, field: MsgField) -> Option<StreamKind> {
    match existing {
        Some(kind) => Some(kind),
        None => spec_stream_kind(field),
    }
}

/// Returns the kind of the stream that receives `field`, given the kind of the stream already
/// stored under its key, if any; `None` when there is none and the field starts no stream.
pub fn receiving_kind(existing: Option<StreamKind>, field: &MsgField) -> (k: Option<StreamKind>)
    ensures
        k == spec_receiving_kind(existing, *field),
{
    match existing {
        Some(kind) => Some(kind),
        None => stream_kind(field),
    }
}

/// Whether `sample` is what `field` adds to a stream of kind `kind`: an integer field's value
/// (a `u64` reinterpreted as `i64`) in an integer stream, a float's bits in a float stream, and a
/// string cut at its first NUL in a text stream. `None` when the field does not fit the stream.
pub open spec fn spec_stream_sample(field: MsgField, kind: StreamKind, sample: Option<StreamSample>) -> bool {
    match (field, kind) {
        (MsgField::Int8(v), StreamKind::I64) => sample == Some(StreamSample::Integer(v as i64)),
        (MsgField::Int16(v), StreamKind::I64) => sample == Some(StreamSample::Integer(v as i64)),
        (MsgField::Int32(v), StreamKind::I64) => sample == Some(StreamSample::Integer(v as i64)),
        (MsgField::Int64(v), StreamKind::I64) => sample == Some(StreamSample::Integer(v)),
        (MsgField::UInt8(v), StreamKind::I64) => sample == Some(StreamSample::Integer(v as i64)),
        (MsgField::UInt16(v), StreamKind::I64) => sample == Some(StreamSample::Integer(v as i64)),
        (MsgField::UInt32(v), StreamKind::I64) => sample == Some(StreamSample::Integer(v as i64)),
        (MsgField::UInt64(v), StreamKind::I64) => sample == Some(StreamSample::Integer(v as i64)),
        (MsgField::Float(b), StreamKind::F64) => sample == Some(StreamSample::Float32Bits(b)),
        (MsgField::Double(b), StreamKind::F64) => sample == Some(StreamSample::Float64Bits(b)),
        (MsgField::CharArray(s), StreamKind::String) => sample matches Some(StreamSample::Text(t))
            && t@ == spec_c_string(s@),
        _ => sample is None,
    }
}

/// Returns the sample that `field` adds to a stream of kind `kind`, or `None` when the field's
/// type does not match the stream.
pub fn stream_sample(field: MsgField, kind: StreamKind) -> (r: Option<StreamSample>)
    ensures
        spec_stream_sample(field, kind, r),
{
    match (field, kind) {
        (MsgField::Int8(v), StreamKind::I64) => Some(StreamSample::Integer(v as i64)),
        (MsgField::Int16(v), StreamKind::I64) => Some(StreamSample::Integer(v as i64)),
        (MsgField::Int32(v), StreamKind::I64) => Some(StreamSample::Integer(v as i64)),
        (MsgField::Int64(v), StreamKind::I64) => Some(StreamSample::Integer(v)),
        (MsgField::UInt8(v), StreamKind::I64) => Some(StreamSample::Integer(v as i64)),
        (MsgField::UInt16(v), StreamKind::I64) => Some(StreamSample::Integer(v as i64)),
        (MsgField::UInt32(v), StreamKind::I64) => Some(StreamSample::Integer(v as i64)),
        (MsgField::UInt64(v), StreamKind::I64) => {
            #[verifier::truncate]
            let w = v as i64;
            Some(StreamSample::Integer(w))
        },
        (MsgField::Float(b), StreamKind::F64) => Some(StreamSample::Float32Bits(b)),
        (MsgField::Double(b), StreamKind::F64) => Some(StreamSample::Float64Bits(b)),
        (MsgField::CharArray(s), StreamKind::String) => Some(StreamSample::Text(truncate_c_string(s))),
        _ => None,
    }
}

/// A field always fits the stream that it starts.
pub proof fn law_started_stream_accepts_its_field(field: MsgField)
    requires
        spec_stream_kind(field) is Some,
    ensures
        !spec_stream_sample(field, spec_stream_kind(field)->0, None),
{
}

/// An integer field added to an integer stream keeps its value: a field of up to 32 bits, of
/// either signedness, and a signed 64-bit field give a sample equal to the field's value; an
/// unsigned 64-bit field gives its two's-complement reading, equal to the value when it is at
/// most `i64::MAX` and 2^64 less otherwise.
pub proof fn law_integer_samples_keep_the_field_value(field: MsgField, sample: Option<StreamSample>)
    requires
        spec_stream_sample(field, StreamKind::I64, sample),
    ensures
        field matches MsgField::Int8(v) ==> (sample matches Some(StreamSample::Integer(x)) && x as int == v as int),
        field matches MsgField::Int16(v) ==> (sample matches Some(StreamSample::Integer(x)) && x as int == v as int),
        field matches MsgField::Int32(v) ==> (sample matches Some(StreamSample::Integer(x)) && x as int == v as int),
        field matches MsgField::Int64(v) ==> (sample matches Some(StreamSample::Integer(x)) && x as int == v as int),
        field matches MsgField::UInt8(v) ==> (sample matches Some(StreamSample::Integer(x)) && x as int == v as int),
        field matches MsgField::UInt16(v) ==> (sample matches Some(StreamSample::Integer(x)) && x as int == v as int),
        field matches MsgField::UInt32(v) ==> (sample matches Some(StreamSample::Integer(x)) && x as int == v as int),
        field matches MsgField::UInt64(v) ==> (sample matches Some(StreamSample::Integer(x)) && x as int == if v
            <= 0x7fff_ffff_ffff_ffff {
            v as int
        } else {
            v as int - 0x1_0000_0000_0000_0000
        }),
{
    if let MsgField::UInt64(v) = field {
        if v <= 0x7fff_ffff_ffff_ffff {
            assert((v as i64) as int == v as int) by (bit_vector)
                requires
                    v <= 0x7fff_ffff_ffff_ffff,
            ;
        } else {
            assert((v as i64) as int == v as int - 0x1_0000_0000_0000_0000) by (bit_vector)
                requires
                    v > 0x7fff_ffff_ffff_ffff,
            ;
        }
    }
}

/// A float field added to a float stream keeps its bits at its own precision, a fixed-length
/// string added to a text stream is its text up to the first NUL, and a field added to a stream
/// of another kind than the one it starts gives no sample.
pub proof fn law_other_samples_follow_the_field(field: MsgField, kind: StreamKind, sample: Option<StreamSample>)
    requires
        spec_stream_sample(field, kind, sample),
    ensures
        spec_stream_kind(field) != Some(kind) ==> sample is None,
        field matches MsgField::Float(b) ==> (kind == StreamKind::F64 ==> sample == Some(StreamSample::Float32Bits(b))),
        field matches MsgField::Double(b) ==> (kind == StreamKind::F64 ==> sample == Some(StreamSample::Float64Bits(b))),
        field matches MsgField::CharArray(s) ==> (kind == StreamKind::String ==> (sample matches Some(
            StreamSample::Text(t),
        ) && t@.len() <= s@.len() && (forall|j: int| 0 <= j < t@.len() ==> t@[j] == s@[j] && s@[j] != '\0') && (
        t@.len() == s@.len() || s@[t@.len() as int] == '\0'))),
{
    if let MsgField::CharArray(s) = field {
        law_c_string_stops_at_the_first_nul(s@);
    }
}

} // verus!
