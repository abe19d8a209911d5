//! The command composer's logic: editable field drafts, their parsing into typed values, and
//! the selection of the message to send.

use std::collections::HashMap;

use vstd::prelude::*;

use crate::adapter::DataAdapterInstanceToken;
use crate::dataflow::{CommandId, DataKey, DataType, DataValue, MessageKey, SourceKey};
use crate::descriptor_index::{normalize_query, spec_normalize_query};
use crate::protocol::{spec_schema, FieldDescriptor, MessageDescriptor, ProtocolDescriptor};
use crate::text::{
    chars_of, contains_chars, parse_integer, spec_contains, spec_parse_integer, spec_trim, str_equals,
    to_lowercase, trim_chars, spec_lowercase, INTEGER_CAP,
};

verus! {

broadcast use vstd::std_specs::hash::group_hash_axioms;

/// A draft's trimmed text read as floating-point numbers: the bit pattern of its value as a
/// single- and as a double-precision float, when it reads as one.
#[derive(Clone, Copy, Debug, PartialEq, Eq)]
pub struct FloatReading {
    pub f32_bits: Option<u32>,
    pub f64_bits: Option<u64>,
}

/// The text typed for one command field, whether the user has edited it, and its float reading.
#[derive(Clone, Debug)]
pub struct FieldDraft {
    pub text: String,
    pub touched: bool,
    pub reading: FloatReading,
}

impl Default for FieldDraft {
    fn default() -> (d: Self)
        ensures
            d.text@.len() == 0,
            !d.touched,
            d.reading.f32_bits is None,
            d.reading.f64_bits is None,
    {
        FieldDraft {
            text: String::new(),
            touched: false,
            reading: FloatReading { f32_bits: None, f64_bits: None },
        }
    }
}

/// Why a draft does not give a value.
#[derive(Clone, Copy, Debug, PartialEq, Eq)]
pub enum FieldParseError {
    /// No value was entered.
    Missing,
    /// The text is not a value of the field's type; the message says which.
    Invalid(&'static str),
}

impl FieldParseError {
    /// The message shown to users.
    pub open spec fn spec_message(self) -> Seq<char> {
        match self {
            FieldParseError::Missing => "Value is required"@,
            FieldParseError::Invalid(m) => m@,
        }
    }

    /// Returns the message shown to users.
    pub fn message(&self) -> (s: String)
        ensures
            s@ == self.spec_message(),
    {
        match self {
            FieldParseError::Missing => "Value is required".to_owned(),
            FieldParseError::Invalid(m) => (*m).to_owned(),
        }
    }
}

/// The message for text that is not a value of a scalar type.
pub open spec fn spec_invalid_message(t: DataType) -> Seq<char> {
    match t {
        DataType::U8 => "Value is out of range for unsigned 8-bit"@,
        DataType::U16 => "Value is out of range for unsigned 16-bit"@,
        DataType::U32 => "Value is out of range for unsigned 32-bit"@,
        DataType::U64 => "Value is out of range for unsigned 64-bit"@,
        DataType::I8 => "Value is out of range for signed 8-bit"@,
        DataType::I16 => "Value is out of range for signed 16-bit"@,
        DataType::I32 => "Value is out of range for signed 32-bit"@,
        DataType::I64 => "Value is out of range for signed 64-bit"@,
        DataType::F32 => "Value is out of range for single float"@,
        DataType::F64 => "Value is out of range for double float"@,
        DataType::Bool => "Value must be true or false"@,
        DataType::String => Seq::empty(),
    }
}

fn invalid_message(t: &DataType) -> (m: &'static str)
    ensures
        m@ == spec_invalid_message(*t),
{
    match t {
        DataType::U8 => "Value is out of range for unsigned 8-bit",
        DataType::U16 => "Value is out of range for unsigned 16-bit",
        DataType::U32 => "Value is out of range for unsigned 32-bit",
        DataType::U64 => "Value is out of range for unsigned 64-bit",
        DataType::I8 => "Value is out of range for signed 8-bit",
        DataType::I16 => "Value is out of range for signed 16-bit",
        DataType::I32 => "Value is out of range for signed 32-bit",
        DataType::I64 => "Value is out of range for signed 64-bit",
        DataType::F32 => "Value is out of range for single float",
        DataType::F64 => "Value is out of range for double float",
        DataType::Bool => "Value must be true or false",
        DataType::String => {
            proof {
                reveal_strlit("");
            }
            ""
        },
    }
}

/// The integer written by `text` when it lies within `lo..=hi`.
pub open spec fn spec_integer_in(text: Seq<char>, signed: bool, lo: int, hi: int) -> Option<int> {
    match spec_parse_integer(text, signed) {
        Some(v) => if lo <= v <= hi {
            Some(v)
        } else {
            None
        },
        None => None,
    }
}

/// The value of a scalar (neither string nor float) type written by trimmed, non-empty `text`.
pub open spec fn spec_scalar_value(text: Seq<char>, t: DataType) -> Option<DataValue> {
    match t {
        DataType::U8 => match spec_integer_in(text, false, 0, u8::MAX as int) {
            Some(v) => Some(DataValue::U8(v as u8)),
            None => None,
        },
        DataType::U16 => match spec_integer_in(text, false, 0, u16::MAX as int) {
            Some(v) => Some(DataValue::U16(v as u16)),
            None => None,
        },
        DataType::U32 => match spec_integer_in(text, false, 0, u32::MAX as int) {
            Some(v) => Some(DataValue::U32(v as u32)),
            None => None,
        },
        DataType::U64 => match spec_integer_in(text, false, 0, u64::MAX as int) {
            Some(v) => Some(DataValue::U64(v as u64)),
            None => None,
        },
        DataType::I8 => match spec_integer_in(text, true, i8::MIN as int, i8::MAX as int) {
            Some(v) => Some(DataValue::I8(v as i8)),
            None => None,
        },
        DataType::I16 => match spec_integer_in(text, true, i16::MIN as int, i16::MAX as int) {
            Some(v) => Some(DataValue::I16(v as i16)),
            None => None,
        },
        DataType::I32 => match spec_integer_in(text, true, i32::MIN as int, i32::MAX as int) {
            Some(v) => Some(DataValue::I32(v as i32)),
            None => None,
        },
        DataType::I64 => match spec_integer_in(text, true, i64::MIN as int, i64::MAX as int) {
            Some(v) => Some(DataValue::I64(v as i64)),
            None => None,
        },
        DataType::Bool => if text == "true"@ {
            Some(DataValue::Bool(true))
        } else if text == "false"@ {
            Some(DataValue::Bool(false))
        } else {
            None
        },
        _ => None,
    }
}

/// Whether `r` is the result of parsing a draft as a value of type `t`.
///
/// An untouched draft is missing. A string is the text exactly as typed. Any other type reads
/// the trimmed text, which is missing when empty; integers read as `str::parse` does, `true` and
/// `false` as booleans, and floats by the draft's float reading.
pub open spec fn spec_parse_outcome(draft: FieldDraft, t: DataType, r: Result<DataValue, FieldParseError>) -> bool {
    if !draft.touched {
        r == Err::<DataValue, FieldParseError>(FieldParseError::Missing)
    } else if t == DataType::String {
        r matches Ok(DataValue::String(v)) && v@ == draft.text@
    } else {
        let text = spec_trim(draft.text@);
        if text.len() == 0 {
            r == Err::<DataValue, FieldParseError>(FieldParseError::Missing)
        } else {
            let value = match t {
                DataType::F32 => match draft.reading.f32_bits {
                    Some(b) => Some(DataValue::F32(b)),
                    None => None,
                },
                DataType::F64 => match draft.reading.f64_bits {
                    Some(b) => Some(DataValue::F64(b)),
                    None => None,
                },
                _ => spec_scalar_value(text, t),
            };
            match value {
                Some(v) => r == Ok::<DataValue, FieldParseError>(v),
                None => r matches Err(FieldParseError::Invalid(m)) && m@ == spec_invalid_message(t),
            }
        }
    }
}

/// Whether a draft parses as a value of type `t`.
pub open spec fn spec_parse_succeeds(draft: FieldDraft, t: DataType) -> bool {
    exists|v: DataValue| spec_parse_outcome(draft, t, Ok(v))
}

/// A touched draft whose trimmed text writes the integer `n` (a `-` allowed for signed types)
/// parses as a value of an integer type exactly when `n` lies within the type's whole range, from
/// its minimum to its maximum; the value is then `n`, of that type. Otherwise the draft is
/// refused as invalid.
pub proof fn law_integer_drafts_parse_within_the_type_range(
    draft: FieldDraft,
    t: DataType,
    r: Result<DataValue, FieldParseError>,
    n: int,
)
    requires
        spec_parse_outcome(draft, t, r),
        draft.touched,
        match t {
            DataType::U8 | DataType::U16 | DataType::U32 | DataType::U64 => spec_parse_integer(
                spec_trim(draft.text@),
                false,
            ) == Some(n),
            DataType::I8 | DataType::I16 | DataType::I32 | DataType::I64 => spec_parse_integer(
                spec_trim(draft.text@),
                true,
            ) == Some(n),
            _ => false,
        },
    ensures
        (r is Ok) <==> match t {
            DataType::U8 => 0 <= n <= 255,
            DataType::U16 => 0 <= n <= 65535,
            DataType::U32 => 0 <= n <= 4294967295,
            DataType::U64 => 0 <= n <= 18446744073709551615,
            DataType::I8 => -128 <= n <= 127,
            DataType::I16 => -32768 <= n <= 32767,
            DataType::I32 => -2147483648 <= n <= 2147483647,
            _ => -9223372036854775808 <= n <= 9223372036854775807,
        },
        r matches Ok(v) ==> match t {
            DataType::U8 => v matches DataValue::U8(x) && x as int == n,
            DataType::U16 => v matches DataValue::U16(x) && x as int == n,
            DataType::U32 => v matches DataValue::U32(x) && x as int == n,
            DataType::U64 => v matches DataValue::U64(x) && x as int == n,
            DataType::I8 => v matches DataValue::I8(x) && x as int == n,
            DataType::I16 => v matches DataValue::I16(x) && x as int == n,
            DataType::I32 => v matches DataValue::I32(x) && x as int == n,
            _ => v matches DataValue::I64(x) && x as int == n,
        },
        r matches Err(e) ==> e is Invalid,
{
    let text = spec_trim(draft.text@);
    assert(text.len() > 0);
}

/// An untouched draft is missing; a touched string draft is its text exactly as typed; any other
/// touched draft whose trimmed text is empty is missing; a boolean draft is `true` or `false`
/// exactly when its trimmed text is that word, and invalid for any other non-empty text.
pub proof fn law_drafts_parse_as_written(draft: FieldDraft, t: DataType, r: Result<DataValue, FieldParseError>)
    requires
        spec_parse_outcome(draft, t, r),
    ensures
        !draft.touched ==> r == Err::<DataValue, FieldParseError>(FieldParseError::Missing),
        draft.touched && t == DataType::String ==> (r matches Ok(DataValue::String(v)) && v@ == draft.text@),
        draft.touched && t != DataType::String && spec_trim(draft.text@).len() == 0 ==> r == Err::<
            DataValue,
            FieldParseError,
        >(FieldParseError::Missing),
        draft.touched && t == DataType::Bool ==> ((r == Ok::<DataValue, FieldParseError>(DataValue::Bool(true)))
            <==> spec_trim(draft.text@) == "true"@),
        draft.touched && t == DataType::Bool ==> ((r == Ok::<DataValue, FieldParseError>(DataValue::Bool(false)))
            <==> spec_trim(draft.text@) == "false"@),
        draft.touched && t == DataType::Bool && spec_trim(draft.text@).len() > 0 && spec_trim(draft.text@)
            != "true"@ && spec_trim(draft.text@) != "false"@ ==> (r matches Err(FieldParseError::Invalid(_))),
{
    reveal_strlit("true");
    reveal_strlit("false");
    assert("true"@ != "false"@) by {
        assert("true"@[0] != "false"@[0]);
    }
    let text = spec_trim(draft.text@);
    if draft.touched && t == DataType::Bool {
        if text == "true"@ || text == "false"@ {
            assert(text.len() > 0);
        }
        if text.len() > 0 {
            assert(spec_scalar_value(text, t) == if text == "true"@ {
                Some(DataValue::Bool(true))
            } else if text == "false"@ {
                Some(DataValue::Bool(false))
            } else {
                None::<DataValue>
            });
        }
    }
}

/// Reads an integer in `lo..=hi` from `text`, as [`spec_integer_in`] states it.
fn integer_in(text: &[char], signed: bool, lo: i128, hi: i128) -> (r: Option<i128>)
    requires
        -INTEGER_CAP <= lo <= hi <= INTEGER_CAP,
    ensures
        match spec_integer_in(text@, signed, lo as int, hi as int) {
            Some(v) => r == Some(v as i128),
            None => r is None,
        },
{
    match parse_integer(text, signed) {
        None => None,
        Some((negative, magnitude)) => {
            if magnitude > INTEGER_CAP {
                return None;
            }
            let m = magnitude as i128;
            let v: i128 = if negative {
                0 - m
            } else {
                m
            };
            if lo <= v && v <= hi {
                Some(v)
            } else {
                None
            }
        },
    }
}

/// Parses a draft as a value of the field's type.
pub fn parse_field(draft: &FieldDraft, field_type: &DataType) -> (r: Result<DataValue, FieldParseError>)
    ensures
        spec_parse_outcome(*draft, *field_type, r),
{
    if !draft.touched {
        return Err(FieldParseError::Missing);
    }
    if let DataType::String = field_type {
        return Ok(DataValue::String(draft.text.clone()));
    }
    let chars = chars_of(draft.text.as_str());
    let text = trim_chars(chars.as_slice());
    if text.len() == 0 {
        return Err(FieldParseError::Missing);
    }
    let value: Option<DataValue> = match field_type {
        DataType::U8 => match integer_in(text.as_slice(), false, 0, 255) {
            Some(v) => Some(DataValue::U8(v as u8)),
            None => None,
        },
        DataType::U16 => match integer_in(text.as_slice(), false, 0, 65535) {
            Some(v) => Some(DataValue::U16(v as u16)),
            None => None,
        },
        DataType::U32 => match integer_in(text.as_slice(), false, 0, 4294967295) {
            Some(v) => Some(DataValue::U32(v as u32)),
            None => None,
        },
        DataType::U64 => match integer_in(text.as_slice(), false, 0, 18446744073709551615) {
            Some(v) => Some(DataValue::U64(v as u64)),
            None => None,
        },
        DataType::I8 => match integer_in(text.as_slice(), true, -128, 127) {
            Some(v) => Some(DataValue::I8(v as i8)),
            None => None,
        },
        DataType::I16 => match integer_in(text.as_slice(), true, -32768, 32767) {
            Some(v) => Some(DataValue::I16(v as i16)),
            None => None,
        },
        DataType::I32 => match integer_in(text.as_slice(), true, -2147483648, 2147483647) {
            Some(v) => Some(DataValue::I32(v as i32)),
            None => None,
        },
        DataType::I64 => match integer_in(
            text.as_slice(),
            true,
            -9223372036854775808,
            9223372036854775807,
        ) {
            Some(v) => Some(DataValue::I64(v as i64)),
            None => None,
        },
        DataType::F32 => match draft.reading.f32_bits {
            Some(b) => Some(DataValue::F32(b)),
            None => None,
        },
        DataType::F64 => match draft.reading.f64_bits {
            Some(b) => Some(DataValue::F64(b)),
            None => None,
        },
        _ => {
            let word = crate::text::string_from_chars(text.as_slice());
            proof {
                reveal_strlit("true");
                reveal_strlit("false");
            }
            if str_equals(word.as_str(), "true") {
                Some(DataValue::Bool(true))
            } else if str_equals(word.as_str(), "false") {
                Some(DataValue::Bool(false))
            } else {
                None
            }
        },
    };
    match value {
        Some(v) => Ok(v),
        None => Err(FieldParseError::Invalid(invalid_message(field_type))),
    }
}

/// The editable fields of `descs[k..]`, depth first: each field's key and type.
pub open spec fn spec_leaves_from(descs: Seq<FieldDescriptor>, k: int) -> Seq<(DataKey, DataType)>
    decreases descs, descs.len() - k,
{
    if 0 <= k < descs.len() {
        spec_leaves_of(descs[k]) + spec_leaves_from(descs, k + 1)
    } else {
        Seq::empty()
    }
}

/// The editable fields of one descriptor, depth first.
pub open spec fn spec_leaves_of(d: FieldDescriptor) -> Seq<(DataKey, DataType)>
    decreases d, 0int,
{
    match d {
        FieldDescriptor::Structure { fields, .. } => spec_leaves_from(fields@, 0),
        FieldDescriptor::Field { field_type, data_key, .. } => seq![(data_key, field_type)],
        FieldDescriptor::EnumField { field_type, data_key, .. } => seq![(data_key, field_type)],
    }
}

/// Appends the editable fields of `descriptors`, depth first.
fn push_leaves(descriptors: &[FieldDescriptor], out: &mut Vec<(DataKey, DataType)>)
    ensures
        final(out)@ == old(out)@ + spec_leaves_from(descriptors@, 0),
    decreases descriptors@,
{
    let ghost total = old(out)@ + spec_leaves_from(descriptors@, 0);
    let mut k: usize = 0;
    while k < descriptors.len()
        invariant
            k <= descriptors@.len(),
            out@ + spec_leaves_from(descriptors@, k as int) == total,
        decreases descriptors.len() - k,
    {
        let ghost cur = out@;
        let ghost rest = spec_leaves_from(descriptors@, k + 1);
        assert(spec_leaves_from(descriptors@, k as int) == spec_leaves_of(descriptors@[k as int]) + rest);
        match &descriptors[k] {
            FieldDescriptor::Structure { fields, .. } => {
                proof {
                    assert(decreases_to!(descriptors@ => descriptors@[k as int]));
                    assert(decreases_to!(descriptors@[k as int] => *fields));
                    assert(decreases_to!(*fields => fields@));
                }
                push_leaves(fields.as_slice(), out);
            },
            FieldDescriptor::Field { field_type, data_key, .. } => {
                out.push((*data_key, *field_type));
            },
            FieldDescriptor::EnumField { field_type, data_key, .. } => {
                out.push((*data_key, *field_type));
            },
        }
        assert(out@ + rest =~= total);
        k += 1;
    }
    assert(out@ =~= total);
}

/// Returns the editable fields of `descriptors`, depth first.
pub fn field_leaves(descriptors: &[FieldDescriptor]) -> (r: Vec<(DataKey, DataType)>)
    ensures
        r@ == spec_leaves_from(descriptors@, 0),
{
    let mut out: Vec<(DataKey, DataType)> = Vec::new();
    push_leaves(descriptors, &mut out);
    assert(out@ =~= spec_leaves_from(descriptors@, 0));
    out
}

/// Whether every editable field of `descriptors` has a draft.
pub open spec fn spec_drafts_cover(descriptors: Seq<FieldDescriptor>, drafts: Map<u64, FieldDraft>) -> bool {
    forall|i: int|
        0 <= i < spec_leaves_from(descriptors, 0).len() ==> drafts.contains_key(
            (#[trigger] spec_leaves_from(descriptors, 0)[i]).0.0,
        )
}

/// Whether the drafts of every editable field of `descriptors` parse.
pub open spec fn spec_fields_valid(descriptors: Seq<FieldDescriptor>, drafts: Map<u64, FieldDraft>) -> bool {
    forall|i: int|
        0 <= i < spec_leaves_from(descriptors, 0).len() ==> #[trigger] spec_parse_succeeds(
            drafts[spec_leaves_from(descriptors, 0)[i].0.0],
            spec_leaves_from(descriptors, 0)[i].1,
        )
}

/// Returns whether every field's draft parses as a value of the field's type.
pub fn fields_are_valid(descriptors: &[FieldDescriptor], drafts: &HashMap<u64, FieldDraft>) -> (r: bool)
    requires
        spec_drafts_cover(descriptors@, drafts@),
    ensures
        r == spec_fields_valid(descriptors@, drafts@),
{
    let leaves = field_leaves(descriptors);
    let mut i: usize = 0;
    while i < leaves.len()
        invariant
            i <= leaves@.len(),
            leaves@ == spec_leaves_from(descriptors@, 0),
            spec_drafts_cover(descriptors@, drafts@),
            forall|j: int|
                0 <= j < i ==> #[trigger] spec_parse_succeeds(drafts@[leaves@[j].0.0], leaves@[j].1),
        decreases leaves.len() - i,
    {
        let (key, field_type) = leaves[i];
        proof {
            assert(drafts@.contains_key(spec_leaves_from(descriptors@, 0)[i as int].0.0));
        }
        let draft = match drafts.get(&key.0) {
            Some(d) => d,
            None => return false,
        };
        let parsed = parse_field(draft, &field_type);
        match parsed {
            Ok(v) => {
                assert(spec_parse_outcome(drafts@[key.0], field_type, Ok(v)));
            },
            Err(e) => {
                proof {
                    if spec_parse_succeeds(drafts@[key.0], field_type) {
                        let w = choose|w: DataValue| spec_parse_outcome(drafts@[key.0], field_type, Ok(w));
                        lemma_parse_outcome_unique(*draft, field_type, Ok(w), parsed);
                    }
                    assert(!spec_parse_succeeds(drafts@[leaves@[i as int].0.0], leaves@[i as int].1));
                }
                return false;
            },
        }
        i += 1;
    }
    true
}

proof fn lemma_parse_outcome_unique(
    draft: FieldDraft,
    t: DataType,
    a: Result<DataValue, FieldParseError>,
    b: Result<DataValue, FieldParseError>,
)
    requires
        spec_parse_outcome(draft, t, a),
        spec_parse_outcome(draft, t, b),
    ensures
        a is Ok <==> b is Ok,
{
}

/// Whether `r` is the result of parsing the drafts of every editable field: each field's key
/// with its value, depth first, or the error of the first field whose draft does not parse.
pub open spec fn spec_parse_fields_outcome(
    descriptors: Seq<FieldDescriptor>,
    drafts: Map<u64, FieldDraft>,
    r: Result<Vec<(DataKey, DataValue)>, FieldParseError>,
) -> bool {
    let leaves = spec_leaves_from(descriptors, 0);
    match r {
        Ok(values) => {
            &&& values@.len() == leaves.len()
            &&& forall|i: int|
                0 <= i < leaves.len() ==> (#[trigger] values@[i]).0 == leaves[i].0 && spec_parse_outcome(
                    drafts[leaves[i].0.0],
                    leaves[i].1,
                    Ok(values@[i].1),
                )
        },
        Err(e) => exists|k: int|
            0 <= k < leaves.len() && (forall|i: int|
                0 <= i < k ==> #[trigger] spec_parse_succeeds(drafts[leaves[i].0.0], leaves[i].1))
                && spec_parse_outcome(drafts[leaves[k].0.0], leaves[k].1, Err(e)),
    }
}

/// Parses the draft of every field into its typed value, stopping at the first draft that does
/// not parse.
pub fn parse_fields(descriptors: &[FieldDescriptor], drafts: &HashMap<u64, FieldDraft>) -> (r: Result<
    Vec<(DataKey, DataValue)>,
    FieldParseError,
>)
    requires
        spec_drafts_cover(descriptors@, drafts@),
    ensures
        spec_parse_fields_outcome(descriptors@, drafts@, r),
{
    let leaves = field_leaves(descriptors);
    let mut values: Vec<(DataKey, DataValue)> = Vec::new();
    let mut i: usize = 0;
    while i < leaves.len()
        invariant
            i <= leaves@.len(),
            leaves@ == spec_leaves_from(descriptors@, 0),
            spec_drafts_cover(descriptors@, drafts@),
            values@.len() == i,
            forall|j: int|
                0 <= j < i ==> (#[trigger] values@[j]).0 == leaves@[j].0 && spec_parse_outcome(
                    drafts@[leaves@[j].0.0],
                    leaves@[j].1,
                    Ok(values@[j].1),
                ),
        decreases leaves.len() - i,
    {
        let (key, field_type) = leaves[i];
        proof {
            assert(drafts@.contains_key(spec_leaves_from(descriptors@, 0)[i as int].0.0));
        }
        let draft = match drafts.get(&key.0) {
            Some(d) => d,
            None => return Err(FieldParseError::Missing),
        };
        match parse_field(draft, &field_type) {
            Ok(v) => {
                values.push((key, v));
            },
            Err(e) => {
                proof {
                    assert forall|j: int| 0 <= j < i implies #[trigger] spec_parse_succeeds(
                        drafts@[leaves@[j].0.0],
                        leaves@[j].1,
                    ) by {
                        assert(spec_parse_outcome(drafts@[leaves@[j].0.0], leaves@[j].1, Ok(values@[j].1)));
                    }
                }
                return Err(e);
            },
        }
        i += 1;
    }
    Ok(values)
}

/// Whether `after` is `before` with a default draft under the key of every editable field of
/// `descriptors`.
pub open spec fn spec_drafts_initialized(
    descriptors: Seq<FieldDescriptor>,
    before: Map<u64, FieldDraft>,
    after: Map<u64, FieldDraft>,
) -> bool {
    let keys = spec_leaves_from(descriptors, 0).map_values(|l: (DataKey, DataType)| l.0.0);
    &&& after.dom() == before.dom() + keys.to_set()
    &&& forall|k: u64|
        #[trigger] after.contains_key(k) ==> if keys.contains(k) {
            after[k].text@.len() == 0 && !after[k].touched && after[k].reading.f32_bits is None
                && after[k].reading.f64_bits is None
        } else {
            after[k] == before[k]
        }
}

/// Gives every editable field of `descriptors` an empty, untouched draft.
pub fn initialize_drafts(descriptors: &[FieldDescriptor], drafts: &mut HashMap<u64, FieldDraft>)
    ensures
        spec_drafts_initialized(descriptors@, old(drafts)@, final(drafts)@),
{
    let leaves = field_leaves(descriptors);
    let ghost keys = leaves@.map_values(|l: (DataKey, DataType)| l.0.0);
    let ghost before = drafts@;
    let mut i: usize = 0;
    while i < leaves.len()
        invariant
            i <= leaves@.len(),
            keys == leaves@.map_values(|l: (DataKey, DataType)| l.0.0),
            drafts@.dom() == before.dom() + keys.subrange(0, i as int).to_set(),
            forall|k: u64|
                #[trigger] drafts@.contains_key(k) ==> if keys.subrange(0, i as int).contains(k) {
                    drafts@[k].text@.len() == 0 && !drafts@[k].touched && drafts@[k].reading.f32_bits
                        is None && drafts@[k].reading.f64_bits is None
                } else {
                    drafts@[k] == before[k]
                },
        decreases leaves.len() - i,
    {
        let key = leaves[i].0;
        drafts.insert(key.0, FieldDraft::default());
        proof {
            let prev = keys.subrange(0, i as int);
            let next = keys.subrange(0, i + 1);
            assert(next =~= prev.push(key.0));
            assert(next.to_set() =~= prev.to_set().insert(key.0)) by {
                prev.lemma_push_to_set_commute(key.0);
            }
            assert(drafts@.dom() =~= before.dom() + next.to_set());
            assert forall|k: u64| #[trigger] drafts@.contains_key(k) implies if next.contains(k) {
                drafts@[k].text@.len() == 0 && !drafts@[k].touched && drafts@[k].reading.f32_bits is None
                    && drafts@[k].reading.f64_bits is None
            } else {
                drafts@[k] == before[k]
            } by {
                if k != key.0 {
                    assert(next.contains(k) == prev.contains(k)) by {
                        if prev.contains(k) {
                            let w = choose|w: int| 0 <= w < prev.len() && prev[w] == k;
                            assert(next[w] == k);
                        }
                        if next.contains(k) {
                            let w = choose|w: int| 0 <= w < next.len() && next[w] == k;
                            assert(w < prev.len());
                            assert(prev[w] == k);
                        }
                    }
                } else {
                    assert(next[i as int] == k);
                }
            }
        }
        i += 1;
    }
    proof {
        assert(keys.subrange(0, i as int) =~= keys);
    }
}

/// The command messages among the first `n` of `keys` whose lowercased schema name contains
/// the normalized query `q`, in role order.
pub open spec fn spec_matching_commands(
    schemas: Seq<(MessageKey, MessageDescriptor)>,
    keys: Seq<MessageKey>,
    q: Seq<char>,
    n: int,
) -> Seq<MessageKey>
    decreases n,
{
    if n <= 0 {
        Seq::empty()
    } else {
        let prev = spec_matching_commands(schemas, keys, q, n - 1);
        match spec_schema(schemas, keys[n - 1]) {
            Some(m) => if spec_contains(spec_lowercase(m.name@), q) {
                prev.push(keys[n - 1])
            } else {
                prev
            },
            None => prev,
        }
    }
}

/// Whether every command message has a schema.
pub open spec fn spec_commands_described(protocol: ProtocolDescriptor) -> bool {
    forall|i: int|
        0 <= i < protocol.command_messages@.len() ==> #[trigger] spec_schema(
            protocol.message_schemas@,
            protocol.command_messages@[i],
        ) is Some
}

/// Returns the command messages whose name contains the query, case-insensitively and ignoring
/// surrounding whitespace, in role order. An empty query matches every command message.
pub fn filtered_command_messages(protocol: &ProtocolDescriptor, query: &str) -> (r: Vec<MessageKey>)
    requires
        spec_commands_described(*protocol),
    ensures
        r@ == spec_matching_commands(
            protocol.message_schemas@,
            protocol.command_messages@,
            spec_normalize_query(query@),
            protocol.command_messages@.len() as int,
        ),
{
    let normalized = normalize_query(query);
    let q = chars_of(normalized.as_str());
    let ghost keys = protocol.command_messages@;
    let mut out: Vec<MessageKey> = Vec::new();
    let mut i: usize = 0;
    while i < protocol.command_messages.len()
        invariant
            i <= keys.len(),
            keys == protocol.command_messages@,
            q@ == spec_normalize_query(query@),
            spec_commands_described(*protocol),
            out@ == spec_matching_commands(protocol.message_schemas@, keys, q@, i as int),
        decreases keys.len() - i,
    {
        let key = protocol.command_messages[i];
        proof {
            assert(spec_schema(protocol.message_schemas@, keys[i as int]) is Some);
        }
        match protocol.message_schema(key) {
            Some(schema) => {
                let lowered = to_lowercase(schema.name.as_str());
                let name = chars_of(lowered.as_str());
                if contains_chars(name.as_slice(), q.as_slice()) {
                    out.push(key);
                }
            },
            None => {},
        }
        i += 1;
    }
    out
}

/// The name of the first source described under `key`.
pub open spec fn spec_source_name(sources: Seq<crate::protocol::SourceDescriptor>, key: SourceKey) -> Seq<char>
    decreases sources.len(),
{
    if sources.len() == 0 {
        Seq::empty()
    } else if sources[0].key == key {
        sources[0].name@
    } else {
        spec_source_name(sources.drop_first(), key)
    }
}

/// Returns the name of the source described under `key`.
pub fn source_name(protocol: &ProtocolDescriptor, key: SourceKey) -> (r: &str)
    requires
        exists|i: int| 0 <= i < protocol.sources@.len() && #[trigger] protocol.sources@[i].key == key,
    ensures
        r@ == spec_source_name(protocol.sources@, key),
{
    let ghost sources = protocol.sources@;
    let mut i: usize = 0;
    assert(sources.subrange(0, sources.len() as int) =~= sources);
    while i < protocol.sources.len()
        invariant
            i <= sources.len(),
            sources == protocol.sources@,
            spec_source_name(sources, key) == spec_source_name(
                sources.subrange(i as int, sources.len() as int),
                key,
            ),
            exists|j: int| i <= j < sources.len() && #[trigger] sources[j].key == key,
        decreases sources.len() - i,
    {
        let ghost rest = sources.subrange(i as int, sources.len() as int);
        assert(rest.drop_first() =~= sources.subrange(i + 1, sources.len() as int));
        assert(rest[0] == sources[i as int]);
        if protocol.sources[i].key == key {
            return protocol.sources[i].name.as_str();
        }
        i += 1;
    }
    proof {
        let j = choose|j: int| i <= j < sources.len() && #[trigger] sources[j].key == key;
        assert(false);
    }
    ""
}

/// The command composer's state: the adapter it was built for, the chosen target and message,
/// the message picker, the drafts of the message's fields, and the latest sequence it issued.
pub struct CommandPanelState {
    pub adapter_token: Option<DataAdapterInstanceToken>,
    pub target: Option<SourceKey>,
    pub message: Option<MessageKey>,
    pub message_picker_open: bool,
    pub query: String,
    pub drafts: HashMap<u64, FieldDraft>,
    pub latest_sequence: Option<CommandId>,
}

impl CommandPanelState {
    /// Whether the state is the initial one: nothing chosen, no drafts, no query.
    pub open spec fn spec_is_initial(&self) -> bool {
        &&& self.target is None
        &&& self.message is None
        &&& !self.message_picker_open
        &&& self.query@.len() == 0
        &&& self.drafts@.len() == 0
        &&& self.latest_sequence is None
    }

    /// Creates the initial state, tied to no adapter.
    pub fn new() -> (s: Self)
        ensures
            s.spec_is_initial(),
            s.adapter_token is None,
    {
        CommandPanelState {
            adapter_token: None,
            target: None,
            message: None,
            message_picker_open: false,
            query: String::new(),
            drafts: HashMap::new(),
            latest_sequence: None,
        }
    }

    /// Resets the state when the installed adapter changed, keeping the new adapter's identity.
    ///
    /// The state is kept when both the current and the new adapter are absent, or when they are
    /// the same installed adapter.
    pub fn sync_adapter(&mut self, token: Option<&DataAdapterInstanceToken>)
        ensures
            (old(self).adapter_token is None && token is None) ==> *final(self) == *old(self),
            (old(self).adapter_token is None) != (token is None) ==> final(self).spec_is_initial()
                && (final(self).adapter_token is None) == (token is None),
            (old(self).adapter_token is Some && token is Some) ==> (*final(self) == *old(self) || (
            final(self).spec_is_initial() && final(self).adapter_token is Some)),
    {
        let unchanged = match (&self.adapter_token, token) {
            (Some(current), Some(token)) => current.same_instance(token),
            (None, None) => true,
            _ => false,
        };
        if unchanged {
            return;
        }
        let adapter_token = match token {
            Some(t) => Some(t.clone()),
            None => None,
        };
        *self = CommandPanelState { adapter_token, ..CommandPanelState::new() };
    }

    /// Chooses the message to compose; choosing another message than the current one replaces
    /// the drafts with empty ones for the new message's fields. The message picker closes.
    pub fn select_message(&mut self, key: MessageKey, descriptor: &MessageDescriptor)
        ensures
            final(self).message == Some(key),
            !final(self).message_picker_open,
            final(self).adapter_token == old(self).adapter_token,
            final(self).target == old(self).target,
            final(self).query@ == old(self).query@,
            final(self).latest_sequence == old(self).latest_sequence,
            old(self).message == Some(key) ==> final(self).drafts@ == old(self).drafts@,
            old(self).message != Some(key) ==> spec_drafts_initialized(
                descriptor.fields@,
                Map::empty(),
                final(self).drafts@,
            ),
    {
        if self.message == Some(key) {
            self.message_picker_open = false;
            return;
        }
        self.message = Some(key);
        self.message_picker_open = false;
        self.drafts = HashMap::new();
        initialize_drafts(descriptor.fields.as_slice(), &mut self.drafts);
    }
}

} // verus!
