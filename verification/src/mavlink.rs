//! The MAVLink profile as the adapter reads it, and the conversions between MAVLink field
//! values and protocol-independent data values.
//!
//! A profile lists messages by identifier and enumerations by name, each in increasing key
//! order. Floating-point field values are held by their IEEE 754 bit patterns.

use std::hash::{DefaultHasher, Hash, Hasher};

use vstd::prelude::*;
use vstd::utf8::encode_utf8;

use crate::dataflow::{
    field_value, spec_field_value, Command, DataKey, DataType, DataValue, MessageKey, SourceKey,
};
use crate::protocol::EnumDescriptor;
use crate::text::{
    chars_of, ends_with, push_decimal, push_str, spec_decimal, spec_ends_with, str_equals,
    string_from_chars,
};

verus! {

broadcast use vstd::string::group_string_axioms;

/// The name suffix of telecommand messages.
pub open spec fn spec_tc_suffix() -> Seq<char> {
    seq!['_', 'T', 'C']
}

/// The name of the timestamp field that the adapter fills in for telecommands.
pub open spec fn spec_tc_timestamp_field() -> Seq<char> {
    seq!['t', 'i', 'm', 'e', 's', 't', 'a', 'm', 'p']
}

/// The wire type of a MAVLink field.
#[derive(Debug, PartialEq, Eq)]
pub enum MavType {
    UInt8MavlinkVersion,
    UInt8,
    UInt16,
    UInt32,
    UInt64,
    Int8,
    Int16,
    Int32,
    Int64,
    Char,
    Float,
    Double,
    /// A fixed-length string of the given number of bytes.
    CharArray(usize),
    /// A fixed-length array of the given element type and length.
    Array(Box<MavType>, usize),
}

/// One decoded MAVLink field value.
#[derive(Debug, PartialEq)]
pub enum MsgField {
    UInt8(u8),
    UInt16(u16),
    UInt32(u32),
    UInt64(u64),
    Int8(i8),
    Int16(i16),
    Int32(i32),
    Int64(i64),
    Char(char),
    /// Bits of a single-precision float.
    Float(u32),
    /// Bits of a double-precision float.
    Double(u64),
    CharArray(String),
    Array(Vec<MsgField>),
}

/// One field of a message definition.
#[derive(Debug, Clone)]
pub struct FieldInfo {
    pub name: String,
    pub mavtype: MavType,
    /// The enumeration whose values this field takes, if any.
    pub enumtype: Option<String>,
}

/// One message definition.
#[derive(Debug, Clone)]
pub struct MessageInfo {
    pub id: u32,
    pub name: String,
    /// The fields in wire order.
    pub fields: Vec<FieldInfo>,
}

/// One entry of an enumeration, with its explicit value if it has one.
#[derive(Debug, Clone)]
pub struct EnumEntry {
    pub name: String,
    pub value: Option<u64>,
}

/// One enumeration definition.
#[derive(Debug, Clone)]
pub struct EnumInfo {
    pub name: String,
    pub bitmask: bool,
    /// The entries in declaration order.
    pub entries: Vec<EnumEntry>,
}

/// A MAVLink profile: messages by identifier and enumerations by name, each in increasing key
/// order.
#[derive(Debug, Clone)]
pub struct MavProfile {
    pub messages: Vec<(u32, MessageInfo)>,
    pub enums: Vec<(String, EnumInfo)>,
}

/// A decoded or encodable message: its identifier and field values in wire order.
#[derive(Debug, PartialEq)]
pub struct MavMessage {
    pub id: u32,
    pub fields: Vec<MsgField>,
}

/// Returns a copy of a wire type.
pub fn copy_mavtype(m: &MavType) -> (r: MavType)
    ensures
        r == *m,
    decreases m,
{
    match m {
        MavType::UInt8MavlinkVersion => MavType::UInt8MavlinkVersion,
        MavType::UInt8 => MavType::UInt8,
        MavType::UInt16 => MavType::UInt16,
        MavType::UInt32 => MavType::UInt32,
        MavType::UInt64 => MavType::UInt64,
        MavType::Int8 => MavType::Int8,
        MavType::Int16 => MavType::Int16,
        MavType::Int32 => MavType::Int32,
        MavType::Int64 => MavType::Int64,
        MavType::Char => MavType::Char,
        MavType::Float => MavType::Float,
        MavType::Double => MavType::Double,
        MavType::CharArray(n) => MavType::CharArray(*n),
        MavType::Array(inner, n) => MavType::Array(Box::new(copy_mavtype(inner)), *n),
    }
}

impl Clone for MavType {
    fn clone(&self) -> (r: Self)
        ensures
            r == *self,
    {
        copy_mavtype(self)
    }
}

/// The exact decoded type used in message schemas for a wire type, when it has one.
pub open spec fn spec_schema_type(mav: MavType) -> Option<DataType> {
    match mav {
        MavType::UInt8 | MavType::Char => Some(DataType::U8),
        MavType::UInt16 => Some(DataType::U16),
        MavType::UInt32 => Some(DataType::U32),
        MavType::UInt64 => Some(DataType::U64),
        MavType::Int8 => Some(DataType::I8),
        MavType::Int16 => Some(DataType::I16),
        MavType::Int32 => Some(DataType::I32),
        MavType::Int64 => Some(DataType::I64),
        MavType::Float => Some(DataType::F32),
        MavType::Double => Some(DataType::F64),
        MavType::CharArray(_) => Some(DataType::String),
        _ => None,
    }
}

/// Maps a wire type to the exact decoded type used by message schemas.
pub fn mavtype_to_datatype(mav: MavType) -> (t: DataType)
    requires
        spec_schema_type(mav) is Some,
    ensures
        spec_schema_type(mav) == Some(t),
{
    match mav {
        MavType::UInt8 | MavType::Char => DataType::U8,
        MavType::UInt16 => DataType::U16,
        MavType::UInt32 => DataType::U32,
        MavType::UInt64 => DataType::U64,
        MavType::Int8 => DataType::I8,
        MavType::Int16 => DataType::I16,
        MavType::Int32 => DataType::I32,
        MavType::Int64 => DataType::I64,
        MavType::Float => DataType::F32,
        MavType::Double => DataType::F64,
        _ => DataType::String,
    }
}

/// The typed value of an unsigned enumeration code for a wire type, when the code fits.
pub open spec fn spec_enum_value(value: u64, mavtype: MavType) -> Option<DataValue> {
    match mavtype {
        MavType::UInt8 | MavType::Char => if value <= u8::MAX {
            Some(DataValue::U8(value as u8))
        } else {
            None
        },
        MavType::UInt16 => if value <= u16::MAX {
            Some(DataValue::U16(value as u16))
        } else {
            None
        },
        MavType::UInt32 => if value <= u32::MAX {
            Some(DataValue::U32(value as u32))
        } else {
            None
        },
        MavType::UInt64 => Some(DataValue::U64(value)),
        MavType::Int8 => if value <= i8::MAX {
            Some(DataValue::I8(value as i8))
        } else {
            None
        },
        MavType::Int16 => if value <= i16::MAX {
            Some(DataValue::I16(value as i16))
        } else {
            None
        },
        MavType::Int32 => if value <= i32::MAX {
            Some(DataValue::I32(value as i32))
        } else {
            None
        },
        MavType::Int64 => if value <= i64::MAX {
            Some(DataValue::I64(value as i64))
        } else {
            None
        },
        _ => None,
    }
}

/// Converts an unsigned enumeration code to the field's exact primitive value, or `None` for
/// unsupported types and out-of-range codes.
pub fn enum_value_to_data_value(value: u64, mavtype: &MavType) -> (r: Option<DataValue>)
    ensures
        r == spec_enum_value(value, *mavtype),
{
    match mavtype {
        MavType::UInt8 | MavType::Char => if value <= 255 {
            Some(DataValue::U8(value as u8))
        } else {
            None
        },
        MavType::UInt16 => if value <= 65535 {
            Some(DataValue::U16(value as u16))
        } else {
            None
        },
        MavType::UInt32 => if value <= 4294967295 {
            Some(DataValue::U32(value as u32))
        } else {
            None
        },
        MavType::UInt64 => Some(DataValue::U64(value)),
        MavType::Int8 => if value <= 127 {
            Some(DataValue::I8(value as i8))
        } else {
            None
        },
        MavType::Int16 => if value <= 32767 {
            Some(DataValue::I16(value as i16))
        } else {
            None
        },
        MavType::Int32 => if value <= 2147483647 {
            Some(DataValue::I32(value as i32))
        } else {
            None
        },
        MavType::Int64 => if value <= 9223372036854775807 {
            Some(DataValue::I64(value as i64))
        } else {
            None
        },
        _ => None,
    }
}

/// The codes of the entries `values` (explicit or implicit), resolved as the MAVLink parser
/// does: an explicit value is used as it stands, an implicit one is one more than the largest
/// code so far (starting from zero). `None` when an implicit code would not fit.
pub open spec fn spec_resolve_codes(values: Seq<Option<u64>>) -> Option<(u64, Seq<u64>)>
    decreases values.len(),
{
    if values.len() == 0 {
        Some((0u64, Seq::empty()))
    } else {
        match spec_resolve_codes(values.drop_last()) {
            None => None,
            Some((previous, codes)) => match values.last() {
                Some(v) => Some((if previous < v { v } else { previous }, codes.push(v))),
                None => if previous < u64::MAX {
                    Some(((previous + 1) as u64, codes.push((previous + 1) as u64)))
                } else {
                    None
                },
            },
        }
    }
}

/// The optional values of enumeration entries.
pub open spec fn spec_entry_values(entries: Seq<EnumEntry>) -> Seq<Option<u64>> {
    entries.map_values(|e: EnumEntry| e.value)
}

/// Whether every code converts to a typed value of the wire type.
pub open spec fn spec_codes_convert(codes: Seq<u64>, mavtype: MavType) -> bool {
    forall|i: int| 0 <= i < codes.len() ==> (#[trigger] spec_enum_value(codes[i], mavtype)) is Some
}

/// Whether an enumeration yields a descriptor for a field of the wire type: it is an ordinary
/// non-empty enumeration whose codes all resolve and fit the type.
pub open spec fn spec_enum_describable(mavenum: EnumInfo, mavtype: MavType) -> bool {
    &&& !mavenum.bitmask
    &&& mavenum.entries@.len() > 0
    &&& spec_resolve_codes(spec_entry_values(mavenum.entries@)) matches Some((_, codes))
        && spec_codes_convert(codes, mavtype)
}

/// Whether `d` describes the enumeration for a field of the wire type: its name, and each entry's
/// name with its typed resolved code, in declaration order.
pub open spec fn spec_enum_descriptor_of(d: EnumDescriptor, mavenum: EnumInfo, mavtype: MavType) -> bool {
    &&& d.name@ == mavenum.name@
    &&& d.variants@.len() == mavenum.entries@.len()
    &&& spec_resolve_codes(spec_entry_values(mavenum.entries@)) matches Some((_, codes))
        && forall|i: int|
        0 <= i < d.variants@.len() ==> (#[trigger] d.variants@[i]).0@ == mavenum.entries@[i].name@
            && Some(d.variants@[i].1) == spec_enum_value(codes[i], mavtype)
}

pub proof fn lemma_resolve_codes_len(values: Seq<Option<u64>>)
    ensures
        spec_resolve_codes(values) matches Some((_, codes)) ==> codes.len() == values.len(),
    decreases values.len(),
{
    if values.len() > 0 {
        lemma_resolve_codes_len(values.drop_last());
    }
}

/// Builds protocol-independent metadata for an ordinary enumeration: its name and its
/// declaration-ordered typed values. `None` when the enumeration is empty, is a bitmask, or has
/// a code that cannot be represented by the field's wire type.
pub fn make_enum_descriptor(mavenum: &EnumInfo, mavtype: &MavType) -> (r: Option<EnumDescriptor>)
    ensures
        r is Some <==> spec_enum_describable(*mavenum, *mavtype),
        r matches Some(d) ==> spec_enum_descriptor_of(d, *mavenum, *mavtype),
{
    if mavenum.bitmask || mavenum.entries.len() == 0 {
        return None;
    }
    let ghost values = spec_entry_values(mavenum.entries@);
    let mut previous: u64 = 0;
    let mut variants: Vec<(String, DataValue)> = Vec::new();
    let ghost mut codes: Seq<u64> = Seq::empty();
    let mut k: usize = 0;
    while k < mavenum.entries.len()
        invariant
            k <= mavenum.entries@.len(),
            values == spec_entry_values(mavenum.entries@),
            spec_resolve_codes(values.subrange(0, k as int)) == Some((previous, codes)),
            codes.len() == k,
            variants@.len() == k,
            spec_codes_convert(codes, *mavtype),
            forall|i: int|
                0 <= i < k ==> (#[trigger] variants@[i]).0@ == mavenum.entries@[i].name@ && Some(
                    variants@[i].1,
                ) == spec_enum_value(codes[i], *mavtype),
        decreases mavenum.entries.len() - k,
    {
        let entry = &mavenum.entries[k];
        proof {
            assert(values.subrange(0, k + 1).drop_last() =~= values.subrange(0, k as int));
            assert(values.subrange(0, k + 1).last() == entry.value);
        }
        let value: u64 = match entry.value {
            Some(v) => {
                if previous < v {
                    previous = v;
                }
                v
            },
            None => {
                if previous == u64::MAX {
                    proof {
                        lemma_none_propagates(values, k as int + 1);
                    }
                    return None;
                }
                previous = previous + 1;
                previous
            },
        };
        proof {
            codes = codes.push(value);
        }
        match enum_value_to_data_value(value, mavtype) {
            Some(typed) => {
                variants.push((entry.name.clone(), typed));
            },
            None => {
                proof {
                    assert(spec_resolve_codes(values.subrange(0, k + 1)) == Some((previous, codes)));
                    lemma_resolve_extends(values, k as int + 1);
                    lemma_resolve_codes_len(values);
                    if let Some((_, all)) = spec_resolve_codes(values) {
                        assert(all[k as int] == all.subrange(0, k + 1)[k as int]);
                        assert(spec_enum_value(all[k as int], *mavtype) is None);
                    }
                }
                return None;
            },
        }
        k += 1;
    }
    proof {
        assert(values.subrange(0, k as int) =~= values);
    }
    Some(EnumDescriptor { name: mavenum.name.clone(), variants })
}

proof fn lemma_none_propagates(values: Seq<Option<u64>>, k: int)
    requires
        0 <= k <= values.len(),
        spec_resolve_codes(values.subrange(0, k)) is None,
    ensures
        spec_resolve_codes(values) is None,
    decreases values.len() - k,
{
    if k < values.len() {
        assert(values.subrange(0, k + 1).drop_last() =~= values.subrange(0, k));
        lemma_none_propagates(values, k + 1);
    } else {
        assert(values.subrange(0, k) =~= values);
    }
}

proof fn lemma_resolve_extends(values: Seq<Option<u64>>, k: int)
    requires
        0 <= k <= values.len(),
    ensures
        spec_resolve_codes(values) matches Some((_, codes)) ==> spec_resolve_codes(
            values.subrange(0, k),
        ) matches Some((_, prefix)) && prefix == codes.subrange(0, k),
    decreases values.len() - k,
{
    if k < values.len() {
        lemma_resolve_extends(values, k + 1);
        let sub = values.subrange(0, k + 1);
        assert(sub.drop_last() =~= values.subrange(0, k));
        if let Some((_, codes)) = spec_resolve_codes(values) {
            lemma_resolve_codes_len(values);
            lemma_resolve_codes_len(sub);
            assert(codes.subrange(0, k + 1).drop_last() =~= codes.subrange(0, k));
        }
    } else {
        assert(values.subrange(0, k) =~= values);
        if let Some((_, codes)) = spec_resolve_codes(values) {
            lemma_resolve_codes_len(values);
            assert(codes.subrange(0, k) =~= codes);
        }
    }
}

/// Why a data value cannot be encoded as a field of a given wire type.
#[derive(Debug, Clone, PartialEq, Eq)]
pub enum ValueError {
    /// A string of `length` bytes does not fit a field of `max` bytes.
    TooLong { length: usize, max: usize },
    /// Array fields are not supported.
    ArrayUnsupported,
    /// The value's type does not match the wire type.
    Mismatch { data_type: DataType, mav_type: MavType },
}

/// Why a decoded field cannot become a data value.
#[derive(Debug, Clone, Copy, PartialEq, Eq)]
pub enum FieldError {
    /// The character does not fit in a single byte.
    CharTooWide(char),
    /// Array fields are not supported in command responses.
    ArrayUnsupported,
}

/// The UTF-8 byte length of a string, as `str::len` reports it.
pub open spec fn spec_byte_len(s: Seq<char>) -> usize {
    encode_utf8(s).len() as usize
}

/// `n` NUL characters.
pub open spec fn spec_nuls(n: nat) -> Seq<char> {
    Seq::new(n, |_i: int| '\0')
}

/// Whether a data value can be encoded as a field of the wire type.
pub open spec fn spec_value_encodable(v: DataValue, mav: MavType) -> bool {
    match (v, mav) {
        (DataValue::U8(_), MavType::UInt8) => true,
        (DataValue::U16(_), MavType::UInt16) => true,
        (DataValue::U32(_), MavType::UInt32) => true,
        (DataValue::U64(_), MavType::UInt64) => true,
        (DataValue::I8(_), MavType::Int8) => true,
        (DataValue::I16(_), MavType::Int16) => true,
        (DataValue::I32(_), MavType::Int32) => true,
        (DataValue::I64(_), MavType::Int64) => true,
        (DataValue::F32(_), MavType::Float) => true,
        (DataValue::F64(_), MavType::Double) => true,
        (DataValue::U8(_), MavType::Char) => true,
        (DataValue::String(s), MavType::CharArray(length)) => spec_byte_len(s@) <= length,
        _ => false,
    }
}

/// Whether `f` is the encoding of the data value as a field of the wire type: the same number
/// in the same width, the byte as a character, or the string padded with NULs to the field's
/// byte length.
pub open spec fn spec_encoded_as(v: DataValue, mav: MavType, f: MsgField) -> bool {
    match (v, mav) {
        (DataValue::U8(x), MavType::UInt8) => f == MsgField::UInt8(x),
        (DataValue::U16(x), MavType::UInt16) => f == MsgField::UInt16(x),
        (DataValue::U32(x), MavType::UInt32) => f == MsgField::UInt32(x),
        (DataValue::U64(x), MavType::UInt64) => f == MsgField::UInt64(x),
        (DataValue::I8(x), MavType::Int8) => f == MsgField::Int8(x),
        (DataValue::I16(x), MavType::Int16) => f == MsgField::Int16(x),
        (DataValue::I32(x), MavType::Int32) => f == MsgField::Int32(x),
        (DataValue::I64(x), MavType::Int64) => f == MsgField::Int64(x),
        (DataValue::F32(x), MavType::Float) => f == MsgField::Float(x),
        (DataValue::F64(x), MavType::Double) => f == MsgField::Double(x),
        (DataValue::U8(x), MavType::Char) => f == MsgField::Char(x as char),
        (DataValue::String(s), MavType::CharArray(length)) => f matches MsgField::CharArray(t)
            && t@ == s@ + spec_nuls((length - spec_byte_len(s@)) as nat),
        _ => false,
    }
}

/// The error for a data value that cannot be encoded as a field of the wire type.
pub open spec fn spec_value_error(v: DataValue, mav: MavType) -> ValueError {
    match (v, mav) {
        (DataValue::String(s), MavType::CharArray(length)) => ValueError::TooLong {
            length: spec_byte_len(s@),
            max: length,
        },
        (_, MavType::Array(_, _)) => ValueError::ArrayUnsupported,
        _ => ValueError::Mismatch { data_type: v.spec_data_type(), mav_type: mav },
    }
}

/// Maps a data value to the field of the given wire type.
pub fn data_value_to_msg_field(value: &DataValue, mav_type: &MavType) -> (r: Result<MsgField, ValueError>)
    ensures
        match r {
            Ok(f) => spec_value_encodable(*value, *mav_type) && spec_encoded_as(*value, *mav_type, f),
            Err(e) => !spec_value_encodable(*value, *mav_type) && e == spec_value_error(
                *value,
                *mav_type,
            ),
        },
{
    match (value, mav_type) {
        (DataValue::U8(x), MavType::UInt8) => Ok(MsgField::UInt8(*x)),
        (DataValue::U16(x), MavType::UInt16) => Ok(MsgField::UInt16(*x)),
        (DataValue::U32(x), MavType::UInt32) => Ok(MsgField::UInt32(*x)),
        (DataValue::U64(x), MavType::UInt64) => Ok(MsgField::UInt64(*x)),
        (DataValue::I8(x), MavType::Int8) => Ok(MsgField::Int8(*x)),
        (DataValue::I16(x), MavType::Int16) => Ok(MsgField::Int16(*x)),
        (DataValue::I32(x), MavType::Int32) => Ok(MsgField::Int32(*x)),
        (DataValue::I64(x), MavType::Int64) => Ok(MsgField::Int64(*x)),
        (DataValue::F32(x), MavType::Float) => Ok(MsgField::Float(*x)),
        (DataValue::F64(x), MavType::Double) => Ok(MsgField::Double(*x)),
        (DataValue::U8(x), MavType::Char) => Ok(MsgField::Char(*x as char)),
        (DataValue::String(text), MavType::CharArray(length)) => {
            let bytes = text.as_str().len();
            if bytes > *length {
                return Err(ValueError::TooLong { length: bytes, max: *length });
            }
            let mut chars = chars_of(text.as_str());
            let padding = *length - bytes;
            let ghost base = chars@;
            let mut k: usize = 0;
            while k < padding
                invariant
                    k <= padding,
                    chars@ == base + spec_nuls(k as nat),
                decreases padding - k,
            {
                chars.push('\0');
                k += 1;
                assert(chars@ =~= base + spec_nuls(k as nat));
            }
            Ok(MsgField::CharArray(string_from_chars(chars.as_slice())))
        },
        (_, MavType::Array(_, _)) => Err(ValueError::ArrayUnsupported),
        _ => Err(ValueError::Mismatch { data_type: data_type_of(value), mav_type: copy_mavtype(mav_type) }),
    }
}

/// Returns the data type of a value.
pub fn data_type_of(value: &DataValue) -> (t: DataType)
    ensures
        t == value.spec_data_type(),
{
    match value {
        DataValue::U8(_) => DataType::U8,
        DataValue::U16(_) => DataType::U16,
        DataValue::U32(_) => DataType::U32,
        DataValue::U64(_) => DataType::U64,
        DataValue::I8(_) => DataType::I8,
        DataValue::I16(_) => DataType::I16,
        DataValue::I32(_) => DataType::I32,
        DataValue::I64(_) => DataType::I64,
        DataValue::F32(_) => DataType::F32,
        DataValue::F64(_) => DataType::F64,
        DataValue::Bool(_) => DataType::Bool,
        DataValue::String(_) => DataType::String,
    }
}

/// The characters of `s` before its first NUL, or all of them when it has none.
pub open spec fn spec_c_string(s: Seq<char>) -> Seq<char>
    decreases s.len(),
{
    if s.len() == 0 {
        s
    } else if s[0] == '\0' {
        Seq::empty()
    } else {
        seq![s[0]] + spec_c_string(s.drop_first())
    }
}

proof fn lemma_c_string_prefix(s: Seq<char>, i: int)
    requires
        0 <= i <= s.len(),
        forall|j: int| 0 <= j < i ==> s[j] != '\0',
        i == s.len() || s[i] == '\0',
    ensures
        spec_c_string(s) == s.subrange(0, i),
    decreases i,
{
    if i > 0 {
        lemma_c_string_prefix(s.drop_first(), i - 1);
        assert(s.subrange(0, i) =~= seq![s[0]] + s.drop_first().subrange(0, i - 1));
    } else if s.len() == 0 {
        assert(s.subrange(0, i) =~= s);
    }
}

/// A fixed-length string read as text is its characters up to the first NUL: a prefix of the
/// string without any NUL, which is the whole string or stops right before a NUL.
pub proof fn law_c_string_stops_at_the_first_nul(s: Seq<char>)
    ensures
        spec_c_string(s).len() <= s.len(),
        forall|j: int| 0 <= j < spec_c_string(s).len() ==> #[trigger] spec_c_string(s)[j] == s[j] && s[j] != '\0',
        spec_c_string(s).len() == s.len() || s[spec_c_string(s).len() as int] == '\0',
    decreases s.len(),
{
    if s.len() > 0 && s[0] != '\0' {
        let rest = s.drop_first();
        law_c_string_stops_at_the_first_nul(rest);
        let c = spec_c_string(s);
        assert(c == seq![s[0]] + spec_c_string(rest));
        assert forall|j: int| 0 <= j < c.len() implies #[trigger] c[j] == s[j] && s[j] != '\0' by {
            if j > 0 {
                assert(c[j] == spec_c_string(rest)[j - 1]);
                assert(rest[j - 1] == s[j]);
            }
        }
        if c.len() < s.len() {
            assert(rest[spec_c_string(rest).len() as int] == s[c.len() as int]);
        }
    }
}

/// Truncates a fixed-length string at its first NUL terminator.
pub fn truncate_c_string(value: String) -> (r: String)
    ensures
        r@ == spec_c_string(value@),
{
    let chars = chars_of(value.as_str());
    let mut i: usize = 0;
    while i < chars.len() && chars[i] != '\0'
        invariant
            i <= chars@.len(),
            chars@ == value@,
            forall|j: int| 0 <= j < i ==> chars@[j] != '\0',
        decreases chars.len() - i,
    {
        i += 1;
    }
    proof {
        lemma_c_string_prefix(value@, i as int);
    }
    if i == chars.len() {
        assert(value@.subrange(0, i as int) =~= value@);
        return value;
    }
    let mut prefix: Vec<char> = Vec::new();
    let mut k: usize = 0;
    while k < i
        invariant
            k <= i < chars@.len(),
            prefix@ == chars@.subrange(0, k as int),
        decreases i - k,
    {
        prefix.push(chars[k]);
        k += 1;
        assert(prefix@ =~= chars@.subrange(0, k as int));
    }
    string_from_chars(prefix.as_slice())
}

/// Whether a decoded field can become a data value.
pub open spec fn spec_field_decodable(f: MsgField) -> bool {
    match f {
        MsgField::Char(c) => (c as u32) <= 255,
        MsgField::Array(_) => false,
        _ => true,
    }
}

/// Whether `v` is the data value of the decoded field: the same number in the same width, the
/// character as its byte, or the string up to its NUL terminator.
pub open spec fn spec_decoded_as(f: MsgField, v: DataValue) -> bool {
    match f {
        MsgField::UInt8(x) => v == DataValue::U8(x),
        MsgField::UInt16(x) => v == DataValue::U16(x),
        MsgField::UInt32(x) => v == DataValue::U32(x),
        MsgField::UInt64(x) => v == DataValue::U64(x),
        MsgField::Int8(x) => v == DataValue::I8(x),
        MsgField::Int16(x) => v == DataValue::I16(x),
        MsgField::Int32(x) => v == DataValue::I32(x),
        MsgField::Int64(x) => v == DataValue::I64(x),
        MsgField::Char(c) => v == DataValue::U8(c as u8),
        MsgField::Float(x) => v == DataValue::F32(x),
        MsgField::Double(x) => v == DataValue::F64(x),
        MsgField::CharArray(s) => v matches DataValue::String(t) && t@ == spec_c_string(s@),
        MsgField::Array(_) => false,
    }
}

/// The error for a decoded field that cannot become a data value.
pub open spec fn spec_field_error(f: MsgField) -> FieldError {
    match f {
        MsgField::Char(c) => FieldError::CharTooWide(c),
        _ => FieldError::ArrayUnsupported,
    }
}

/// Converts a decoded field to the protocol-independent data value.
pub fn msg_field_to_data_value(field: MsgField) -> (r: Result<DataValue, FieldError>)
    ensures
        match r {
            Ok(v) => spec_field_decodable(field) && spec_decoded_as(field, v),
            Err(e) => !spec_field_decodable(field) && e == spec_field_error(field),
        },
{
    match field {
        MsgField::UInt8(x) => Ok(DataValue::U8(x)),
        MsgField::UInt16(x) => Ok(DataValue::U16(x)),
        MsgField::UInt32(x) => Ok(DataValue::U32(x)),
        MsgField::UInt64(x) => Ok(DataValue::U64(x)),
        MsgField::Int8(x) => Ok(DataValue::I8(x)),
        MsgField::Int16(x) => Ok(DataValue::I16(x)),
        MsgField::Int32(x) => Ok(DataValue::I32(x)),
        MsgField::Int64(x) => Ok(DataValue::I64(x)),
        MsgField::Char(c) => {
            if (c as u32) <= 255 {
                Ok(DataValue::U8(c as u8))
            } else {
                Err(FieldError::CharTooWide(c))
            }
        },
        MsgField::Float(x) => Ok(DataValue::F32(x)),
        MsgField::Double(x) => Ok(DataValue::F64(x)),
        MsgField::CharArray(s) => Ok(DataValue::String(truncate_c_string(s))),
        MsgField::Array(_) => Err(FieldError::ArrayUnsupported),
    }
}

/// Whether a field of a message is a telecommand timestamp, which the adapter fills in itself
/// and leaves out of message schemas.
pub open spec fn spec_is_managed_tc_timestamp(message_name: Seq<char>, field_name: Seq<char>) -> bool {
    spec_ends_with(message_name, spec_tc_suffix()) && field_name == spec_tc_timestamp_field()
}

/// Returns `true` if the field is a command timestamp, managed by the adapter.
pub fn is_managed_tc_timestamp(message_info: &MessageInfo, field_name: &str) -> (b: bool)
    ensures
        b == spec_is_managed_tc_timestamp(message_info.name@, field_name@),
{
    proof {
        reveal_strlit("_TC");
        reveal_strlit("timestamp");
        assert("_TC"@ =~= spec_tc_suffix());
        assert("timestamp"@ =~= spec_tc_timestamp_field());
    }
    ends_with(message_info.name.as_str(), "_TC") && str_equals(field_name, "timestamp")
}

/// A point in time as whole seconds since the Unix epoch, with those seconds converted to single-
/// and double-precision floats, held by their bit patterns.
#[derive(Debug, Clone, Copy, PartialEq, Eq)]
pub struct UnixSeconds {
    pub secs: u64,
    pub secs_f32_bits: u32,
    pub secs_f64_bits: u64,
}

/// Whether a wire type can hold a timestamp: it is a number or a character.
pub open spec fn spec_timestamp_type(mav: MavType) -> bool {
    !(mav is CharArray) && !(mav is Array)
}

/// The field holding a timestamp for the wire type: the seconds cast to it (truncated for
/// narrower integers), as their low byte for a character, or as a float.
pub open spec fn spec_timestamp_field(t: UnixSeconds, mav: MavType) -> MsgField {
    match mav {
        MavType::UInt8MavlinkVersion | MavType::UInt8 => MsgField::UInt8(t.secs as u8),
        MavType::UInt16 => MsgField::UInt16(t.secs as u16),
        MavType::UInt32 => MsgField::UInt32(t.secs as u32),
        MavType::UInt64 => MsgField::UInt64(t.secs),
        MavType::Int8 => MsgField::Int8(t.secs as i8),
        MavType::Int16 => MsgField::Int16(t.secs as i16),
        MavType::Int32 => MsgField::Int32(t.secs as i32),
        MavType::Int64 => MsgField::Int64(t.secs as i64),
        MavType::Float => MsgField::Float(t.secs_f32_bits),
        MavType::Double => MsgField::Double(t.secs_f64_bits),
        MavType::Char => MsgField::Char((t.secs as u8) as char),
        _ => MsgField::UInt64(t.secs),
    }
}

/// Encodes a timestamp as a field of a numeric wire type.
pub fn system_time_to_mav_field(timestamp: &UnixSeconds, mav_type: &MavType) -> (f: MsgField)
    requires
        spec_timestamp_type(*mav_type),
    ensures
        f == spec_timestamp_field(*timestamp, *mav_type),
{
    let secs = timestamp.secs;
    match mav_type {
        MavType::UInt8MavlinkVersion | MavType::UInt8 => MsgField::UInt8(secs as u8),
        MavType::UInt16 => MsgField::UInt16(secs as u16),
        MavType::UInt32 => MsgField::UInt32(secs as u32),
        MavType::UInt64 => MsgField::UInt64(secs),
        MavType::Int8 => MsgField::Int8(secs as i8),
        MavType::Int16 => MsgField::Int16(secs as i16),
        MavType::Int32 => MsgField::Int32(secs as i32),
        MavType::Int64 => MsgField::Int64(secs as i64),
        MavType::Float => MsgField::Float(timestamp.secs_f32_bits),
        MavType::Double => MsgField::Double(timestamp.secs_f64_bits),
        _ => MsgField::Char((secs as u8) as char),
    }
}

/// A timestamp field holds the Unix seconds: exactly, for every integer wire type that the
/// seconds fit; for a narrower unsigned type, the seconds modulo the type's range; for a
/// character, the low byte of the seconds; for a float, the seconds' bits at that precision.
pub proof fn law_timestamp_field_holds_the_seconds(t: UnixSeconds, mav: MavType)
    requires
        spec_timestamp_type(mav),
    ensures
        mav == MavType::UInt64 ==> (spec_timestamp_field(t, mav) matches MsgField::UInt64(x) && x == t.secs),
        mav == MavType::Int64 && t.secs <= 0x7fff_ffff_ffff_ffff ==> (spec_timestamp_field(t, mav) matches MsgField::Int64(x)
            && x as int == t.secs as int),
        mav == MavType::UInt32 ==> (spec_timestamp_field(t, mav) matches MsgField::UInt32(x) && x as int == t.secs
            % 0x1_0000_0000),
        mav == MavType::Int32 && t.secs <= 0x7fff_ffff ==> (spec_timestamp_field(t, mav) matches MsgField::Int32(x)
            && x as int == t.secs as int),
        mav == MavType::UInt16 ==> (spec_timestamp_field(t, mav) matches MsgField::UInt16(x) && x as int == t.secs
            % 0x1_0000),
        mav == MavType::Int16 && t.secs <= 0x7fff ==> (spec_timestamp_field(t, mav) matches MsgField::Int16(x)
            && x as int == t.secs as int),
        mav == MavType::UInt8 || mav == MavType::UInt8MavlinkVersion ==> (spec_timestamp_field(t, mav) matches MsgField::UInt8(x)
            && x as int == t.secs % 0x100),
        mav == MavType::Int8 && t.secs <= 0x7f ==> (spec_timestamp_field(t, mav) matches MsgField::Int8(x)
            && x as int == t.secs as int),
        mav == MavType::Char ==> (spec_timestamp_field(t, mav) matches MsgField::Char(c) && c as int == t.secs % 0x100),
        mav == MavType::Float ==> spec_timestamp_field(t, mav) == MsgField::Float(t.secs_f32_bits),
        mav == MavType::Double ==> spec_timestamp_field(t, mav) == MsgField::Double(t.secs_f64_bits),
{
    let secs = t.secs;
    assert((secs as u32) as int == secs % 0x1_0000_0000) by (bit_vector);
    assert((secs as u16) as int == secs % 0x1_0000) by (bit_vector);
    assert((secs as u8) as int == secs % 0x100) by (bit_vector);
    assert(secs <= 0x7fff_ffff_ffff_ffff ==> (secs as i64) as int == secs as int) by (bit_vector);
    assert(secs <= 0x7fff_ffff ==> (secs as i32) as int == secs as int) by (bit_vector);
    assert(secs <= 0x7fff ==> (secs as i16) as int == secs as int) by (bit_vector);
    assert(secs <= 0x7f ==> (secs as i8) as int == secs as int) by (bit_vector);
}

/// Feeds a `u32` to the hasher with `Hash::hash`. Nothing is stated of the new state: the bytes
/// written are the value's bytes in the machine's byte order.
#[verifier::external_body]
fn hash_u32(hasher: &mut DefaultHasher, value: u32) {
    value.hash(hasher)
}

/// Feeds a string to the hasher with `Hash::hash`. Nothing is stated of the new state.
#[verifier::external_body]
fn hash_str(hasher: &mut DefaultHasher, value: &str) {
    value.hash(hasher)
}

/// Derives the data key of a message field from the message identifier, the field's position
/// and its name.
pub fn compute_data_key(message_id: u32, field_id: u32, field_name: &str) -> (k: DataKey) {
    let mut hasher = DefaultHasher::new();
    hash_u32(&mut hasher, message_id);
    hash_u32(&mut hasher, field_id);
    hash_str(&mut hasher, field_name);
    DataKey(hasher.finish())
}

/// Whether `key` is the data key that `compute_data_key` derives for field `j` of the message:
/// from the message identifier, the field's position and the field's name.
pub open spec fn spec_is_field_key(message_info: MessageInfo, j: int, key: DataKey) -> bool {
    exists|name: &str|
        name@ == message_info.fields@[j].name@ && #[trigger] call_ensures(
            compute_data_key,
            (message_info.id, j as u32, name),
            key,
        )
}

/// Whether `keys` holds, for each field of the message in wire order, the data key derived
/// from the message identifier, the field's position and its name.
pub open spec fn spec_field_keys(message_info: MessageInfo, keys: Seq<DataKey>) -> bool {
    &&& keys.len() == message_info.fields@.len()
    &&& forall|j: int| 0 <= j < keys.len() ==> #[trigger] spec_is_field_key(message_info, j, keys[j])
}

/// Returns the data key of each field of a message, in wire order.
pub fn field_keys(message_info: &MessageInfo) -> (keys: Vec<DataKey>)
    ensures
        spec_field_keys(*message_info, keys@),
{
    let mut keys: Vec<DataKey> = Vec::new();
    let mut i: usize = 0;
    while i < message_info.fields.len()
        invariant
            i <= message_info.fields@.len(),
            keys@.len() == i,
            forall|j: int| 0 <= j < i ==> #[trigger] spec_is_field_key(*message_info, j, keys@[j]),
        decreases message_info.fields.len() - i,
    {
        #[verifier::truncate]
        let field_id = i as u32;
        let name = message_info.fields[i].name.as_str();
        let key = compute_data_key(message_info.id, field_id, name);
        assert(call_ensures(compute_data_key, (message_info.id, field_id, name), key));
        assert(spec_is_field_key(*message_info, i as int, key));
        keys.push(key);
        i += 1;
    }
    keys
}

/// Why a command cannot be encoded as a message.
#[derive(Debug, Clone, PartialEq, Eq)]
pub enum CommandError {
    /// The command has no value for the field.
    MissingValue { field: String },
    /// The command's value for the field cannot be encoded.
    InvalidValue { field: String, error: ValueError },
}

/// Whether field `i` of the message fails to encode: it is not a managed timestamp and the
/// command has no value under its key, or one that its wire type cannot hold.
pub open spec fn spec_field_fails(
    fields: Seq<(DataKey, DataValue)>,
    info: MessageInfo,
    keys: Seq<DataKey>,
    i: int,
) -> bool {
    let fi = info.fields@[i];
    &&& !spec_is_managed_tc_timestamp(info.name@, fi.name@)
    &&& match spec_field_value(fields, keys[i]) {
        None => true,
        Some(v) => !spec_value_encodable(v, fi.mavtype),
    }
}

/// Whether `f` encodes field `i` of the message: the timestamp for a managed timestamp field,
/// otherwise the command's value under the field's key.
pub open spec fn spec_field_encoded(
    fields: Seq<(DataKey, DataValue)>,
    info: MessageInfo,
    keys: Seq<DataKey>,
    now: UnixSeconds,
    i: int,
    f: MsgField,
) -> bool {
    let fi = info.fields@[i];
    if spec_is_managed_tc_timestamp(info.name@, fi.name@) {
        f == spec_timestamp_field(now, fi.mavtype)
    } else {
        spec_field_value(fields, keys[i]) matches Some(v) && spec_encoded_as(v, fi.mavtype, f)
    }
}

/// Whether `e` reports the failure of field `i`: the field's name and what is wrong with it.
pub open spec fn spec_command_error(
    fields: Seq<(DataKey, DataValue)>,
    info: MessageInfo,
    keys: Seq<DataKey>,
    i: int,
    e: CommandError,
) -> bool {
    let fi = info.fields@[i];
    match spec_field_value(fields, keys[i]) {
        None => e matches CommandError::MissingValue { field } && field@ == fi.name@,
        Some(v) => e matches CommandError::InvalidValue { field, error } && field@ == fi.name@
            && error == spec_value_error(v, fi.mavtype),
    }
}

/// Whether `r` is the encoding of a command's field values as the message, with field keys
/// `keys` and time `now`: every field encoded in wire order, or the error of the first field
/// that fails.
pub open spec fn spec_command_encoding(
    fields: Seq<(DataKey, DataValue)>,
    info: MessageInfo,
    keys: Seq<DataKey>,
    now: UnixSeconds,
    r: Result<MavMessage, CommandError>,
) -> bool {
    let n = info.fields@.len() as int;
    match r {
        Ok(m) => {
            &&& m.id == info.id
            &&& m.fields@.len() == n
            &&& forall|i: int| 0 <= i < n ==> !#[trigger] spec_field_fails(fields, info, keys, i)
            &&& forall|i: int|
                0 <= i < n ==> #[trigger] spec_field_encoded(fields, info, keys, now, i, m.fields@[i])
        },
        Err(e) => exists|k: int|
            0 <= k < n && (forall|i: int| 0 <= i < k ==> !#[trigger] spec_field_fails(fields, info, keys, i))
                && #[trigger] spec_field_fails(fields, info, keys, k) && spec_command_error(
                fields,
                info,
                keys,
                k,
                e,
            ),
    }
}

/// Whether every managed timestamp field of the message has a numeric or character wire type.
pub open spec fn spec_timestamps_numeric(info: MessageInfo) -> bool {
    forall|i: int|
        0 <= i < info.fields@.len() && spec_is_managed_tc_timestamp(
            info.name@,
            (#[trigger] info.fields@[i]).name@,
        ) ==> spec_timestamp_type(info.fields@[i].mavtype)
}

/// Returns whether every managed timestamp field of the message has a numeric or character wire
/// type, so that a command for it can be encoded.
pub fn timestamps_numeric(message_info: &MessageInfo) -> (b: bool)
    ensures
        b == spec_timestamps_numeric(*message_info),
{
    let mut i: usize = 0;
    while i < message_info.fields.len()
        invariant
            i <= message_info.fields@.len(),
            forall|j: int|
                0 <= j < i && spec_is_managed_tc_timestamp(
                    message_info.name@,
                    (#[trigger] message_info.fields@[j]).name@,
                ) ==> spec_timestamp_type(message_info.fields@[j].mavtype),
        decreases message_info.fields.len() - i,
    {
        let field = &message_info.fields[i];
        if is_managed_tc_timestamp(message_info, field.name.as_str()) {
            match field.mavtype {
                MavType::CharArray(_) | MavType::Array(_, _) => return false,
                _ => {},
            }
        }
        i += 1;
    }
    true
}

/// Encodes a command's field values as the message, given the data key of each field.
pub fn encode_command(
    command: &Command,
    message_info: &MessageInfo,
    keys: &Vec<DataKey>,
    now: &UnixSeconds,
) -> (r: Result<MavMessage, CommandError>)
    requires
        keys@.len() == message_info.fields@.len(),
        spec_timestamps_numeric(*message_info),
    ensures
        spec_command_encoding(command.fields@, *message_info, keys@, *now, r),
{
    let ghost fields = command.fields@;
    let ghost info = *message_info;
    let mut out: Vec<MsgField> = Vec::new();
    let mut i: usize = 0;
    while i < message_info.fields.len()
        invariant
            i <= message_info.fields@.len(),
            keys@.len() == message_info.fields@.len(),
            fields == command.fields@,
            info == *message_info,
            spec_timestamps_numeric(info),
            out@.len() == i,
            forall|j: int| 0 <= j < i ==> !#[trigger] spec_field_fails(fields, info, keys@, j),
            forall|j: int|
                0 <= j < i ==> #[trigger] spec_field_encoded(fields, info, keys@, *now, j, out@[j]),
        decreases message_info.fields.len() - i,
    {
        let field = &message_info.fields[i];
        if is_managed_tc_timestamp(message_info, field.name.as_str()) {
            out.push(system_time_to_mav_field(now, &field.mavtype));
        } else {
            match field_value(&command.fields, keys[i]) {
                None => {
                    let e = CommandError::MissingValue { field: field.name.clone() };
                    assert(spec_field_fails(fields, info, keys@, i as int));
                    return Err(e);
                },
                Some(value) => match data_value_to_msg_field(value, &field.mavtype) {
                    Ok(f) => {
                        out.push(f);
                    },
                    Err(error) => {
                        let e = CommandError::InvalidValue { field: field.name.clone(), error };
                        assert(spec_field_fails(fields, info, keys@, i as int));
                        return Err(e);
                    },
                },
            }
        }
        proof {
            assert forall|j: int|
                0 <= j < i + 1 implies #[trigger] spec_field_encoded(
                fields,
                info,
                keys@,
                *now,
                j,
                out@[j],
            ) by {}
        }
        i += 1;
    }
    Ok(MavMessage { id: message_info.id, fields: out })
}

/// Encodes a command as the message it targets, filling in managed timestamps with `now`.
///
/// Each field's value is looked up under the field's data key; the first field without a value,
/// or with a value its wire type cannot hold, is reported.
pub fn command_to_mav_message(command: &Command, message_info: &MessageInfo, now: &UnixSeconds) -> (r:
    Result<MavMessage, CommandError>)
    requires
        spec_timestamps_numeric(*message_info),
    ensures
        exists|keys: Seq<DataKey>|
            spec_field_keys(*message_info, keys) && spec_command_encoding(
                command.fields@,
                *message_info,
                keys,
                *now,
                r,
            ),
{
    let keys = field_keys(message_info);
    let r = encode_command(command, message_info, &keys, now);
    assert(spec_field_keys(*message_info, keys@) && spec_command_encoding(
        command.fields@,
        *message_info,
        keys@,
        *now,
        r,
    ));
    r
}

/// The number of fields that a message and its definition have in common.
pub open spec fn spec_paired_len(message: MavMessage, info: MessageInfo) -> int {
    if message.fields@.len() < info.fields@.len() {
        message.fields@.len() as int
    } else {
        info.fields@.len() as int
    }
}

/// Whether `r` is the decoding of a message's fields, paired with its definition's fields in
/// wire order, as a command from `target` stamped with `timestamp`: each field's value under the
/// field's key, or the error of the first field that cannot be decoded.
pub open spec fn spec_response_decoding(
    message: MavMessage,
    info: MessageInfo,
    keys: Seq<DataKey>,
    target: SourceKey,
    timestamp: u64,
    r: Result<Command, FieldError>,
) -> bool {
    let n = spec_paired_len(message, info);
    match r {
        Ok(c) => {
            &&& c.key == MessageKey(message.id as u64)
            &&& c.target == target
            &&& c.timestamp == timestamp
            &&& c.fields@.len() == n
            &&& forall|i: int|
                0 <= i < n ==> #[trigger] spec_field_decodable(message.fields@[i]) && c.fields@[i].0
                    == keys[i] && spec_decoded_as(message.fields@[i], c.fields@[i].1)
        },
        Err(e) => exists|k: int|
            0 <= k < n && (forall|i: int| 0 <= i < k ==> #[trigger] spec_field_decodable(message.fields@[i]))
                && !spec_field_decodable(message.fields@[k]) && e == spec_field_error(
                message.fields@[k],
            ),
    }
}

/// Decodes a message's fields as a command, given the data key of each field of its definition.
pub fn decode_response(
    message: MavMessage,
    message_info: &MessageInfo,
    keys: &Vec<DataKey>,
    target: SourceKey,
    timestamp: u64,
) -> (r: Result<Command, FieldError>)
    requires
        keys@.len() == message_info.fields@.len(),
    ensures
        spec_response_decoding(message, *message_info, keys@, target, timestamp, r),
{
    let ghost msg = message;
    let ghost n = spec_paired_len(message, *message_info);
    let id = message.id;
    let paired = if message.fields.len() < message_info.fields.len() {
        message.fields.len()
    } else {
        message_info.fields.len()
    };
    let total = message.fields.len();
    let mut out: Vec<(DataKey, DataValue)> = Vec::new();
    let mut i: usize = 0;
    for field in it: message.fields.into_iter()
        invariant
            it.seq() == msg.fields@,
            total == msg.fields@.len(),
            i == it.index(),
            paired == n,
            n == spec_paired_len(msg, *message_info),
            keys@.len() == message_info.fields@.len(),
            out@.len() == if i < n {
                i as int
            } else {
                n
            },
            forall|j: int|
                0 <= j < out@.len() ==> #[trigger] spec_field_decodable(msg.fields@[j])
                    && out@[j].0 == keys@[j] && spec_decoded_as(msg.fields@[j], out@[j].1),
    {
        let ghost before = out@;
        assert(field == msg.fields@[i as int]);
        if i < paired {
            match msg_field_to_data_value(field) {
                Ok(value) => {
                    out.push((keys[i], value));
                    assert forall|j: int| 0 <= j < out@.len() implies #[trigger] spec_field_decodable(
                        msg.fields@[j],
                    ) && out@[j].0 == keys@[j] && spec_decoded_as(msg.fields@[j], out@[j].1) by {
                        if j < before.len() {
                            assert(out@[j] == before[j]);
                        }
                    }
                },
                Err(e) => {
                    assert(forall|j: int| 0 <= j < i ==> #[trigger] spec_field_decodable(msg.fields@[j]));
                    return Err(e);
                },
            }
            assert(forall|j: int|
                0 <= j < out@.len() ==> #[trigger] spec_field_decodable(msg.fields@[j])
                    && out@[j].0 == keys@[j] && spec_decoded_as(msg.fields@[j], out@[j].1));
        } else {
            assert(out@ == before);
            assert(forall|j: int|
                0 <= j < out@.len() ==> #[trigger] spec_field_decodable(msg.fields@[j])
                    && out@[j].0 == keys@[j] && spec_decoded_as(msg.fields@[j], out@[j].1));
        }
        i += 1;
        assert(forall|j: int|
            0 <= j < out@.len() ==> #[trigger] spec_field_decodable(msg.fields@[j])
                && out@[j].0 == keys@[j] && spec_decoded_as(msg.fields@[j], out@[j].1));
    }
    Ok(Command { key: MessageKey(id as u64), target, timestamp, fields: out })
}

/// Converts a correlated response message into a protocol-independent command from `target`,
/// stamped with `timestamp` (milliseconds since the Unix epoch).
pub fn command_from_mav_message(
    message: MavMessage,
    message_info: &MessageInfo,
    target: SourceKey,
    timestamp: u64,
) -> (r: Result<Command, FieldError>)
    ensures
        exists|keys: Seq<DataKey>|
            spec_field_keys(*message_info, keys) && spec_response_decoding(
                message,
                *message_info,
                keys,
                target,
                timestamp,
                r,
            ),
{
    let keys = field_keys(message_info);
    let ghost msg = message;
    let r = decode_response(message, message_info, &keys, target, timestamp);
    assert(spec_field_keys(*message_info, keys@) && spec_response_decoding(
        msg,
        *message_info,
        keys@,
        target,
        timestamp,
        r,
    ));
    r
}

proof fn lemma_c_string_of_padded(s: Seq<char>, n: nat)
    requires
        forall|i: int| 0 <= i < s.len() ==> s[i] != '\0',
    ensures
        spec_c_string(s + spec_nuls(n)) == s,
{
    let t = s + spec_nuls(n);
    if n > 0 {
        lemma_c_string_prefix(t, s.len() as int);
    } else {
        assert(t =~= s);
        lemma_c_string_prefix(t, s.len() as int);
    }
    assert(t.subrange(0, s.len() as int) =~= s);
}

/// Whether two data values are the same value: equal numbers, or strings with equal characters.
pub open spec fn spec_same_value(v: DataValue, w: DataValue) -> bool {
    match (v, w) {
        (DataValue::String(a), DataValue::String(b)) => a@ == b@,
        _ => v == w,
    }
}

/// Encoding a value as a field of its wire type and decoding that field gives the value back,
/// for strings without NUL characters.
pub proof fn law_encode_decode_round_trip(v: DataValue, mav: MavType, f: MsgField, w: DataValue)
    requires
        spec_value_encodable(v, mav),
        spec_encoded_as(v, mav, f),
        spec_decoded_as(f, w),
        v matches DataValue::String(s) ==> forall|i: int| 0 <= i < s@.len() ==> s@[i] != '\0',
    ensures
        spec_field_decodable(f),
        spec_same_value(v, w),
{
    match (v, mav) {
        (DataValue::String(s), MavType::CharArray(length)) => {
            lemma_c_string_of_padded(s@, (length - spec_byte_len(s@)) as nat);
        },
        (DataValue::U8(x), MavType::Char) => {
            assert((x as char) as u32 == x as u32);
        },
        _ => {},
    }
}

} // verus!
