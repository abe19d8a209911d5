//! Identifiers, value types and command records shared by adapters, the data store and the UI.

use vstd::prelude::*;
use vstd::string::StringExecFns;

verus! {

/// An opaque handle that uniquely represents a data stream.
/// Adapters are responsible for generating a uniform key space based on the data source.
#[derive(Debug, Clone, Copy, PartialEq, Eq, Hash, Structural)]
pub struct DataKey(pub u64);

/// An opaque handle that uniquely represents a source of data, such as a specific system or component.
#[derive(Debug, Clone, Copy, PartialEq, Eq, Hash, Structural)]
pub struct SourceKey(pub u32);

/// An opaque handle that uniquely represents a protocol message schema.
#[derive(Debug, Clone, Copy, PartialEq, Eq, Hash, Structural)]
pub struct MessageKey(pub u64);

/// A protocol-independent identifier for a command sequence in the central data store.
#[derive(Debug, Clone, Copy, PartialEq, Eq, Hash, Structural)]
pub struct CommandId(pub u64);

/// An opaque handle that uniquely represents a data stream coming from a specific source.
#[derive(Debug, Clone, Copy, PartialEq, Eq, Hash, Structural)]
pub struct StreamKey {
    pub source_key: SourceKey,
    pub data_key: DataKey,
}

impl StreamKey {
    /// A stream key that is always available from a mock data store.
    pub fn mock() -> (k: Self)
        ensures
            k.source_key.0 == 0,
            k.data_key.0 == 0,
    {
        Self { source_key: SourceKey(0), data_key: DataKey(0) }
    }
}

/// The exact decoded type of a protocol field.
#[derive(Debug, Clone, Copy, PartialEq, Eq, Structural)]
pub enum DataType {
    U8,
    U16,
    U32,
    U64,
    I8,
    I16,
    I32,
    I64,
    F32,
    F64,
    Bool,
    String,
}

impl DataType {
    /// The short lowercase type name shown to users.
    pub open spec fn spec_name(self) -> Seq<char> {
        match self {
            DataType::U8 => "u8"@,
            DataType::U16 => "u16"@,
            DataType::U32 => "u32"@,
            DataType::U64 => "u64"@,
            DataType::I8 => "i8"@,
            DataType::I16 => "i16"@,
            DataType::I32 => "i32"@,
            DataType::I64 => "i64"@,
            DataType::F32 => "f32"@,
            DataType::F64 => "f64"@,
            DataType::Bool => "bool"@,
            DataType::String => "string"@,
        }
    }

    /// Returns the short lowercase type name shown to users.
    pub fn name(&self) -> (s: String)
        ensures
            s@ == self.spec_name(),
    {
        String::from_str(
            match self {
                DataType::U8 => "u8",
                DataType::U16 => "u16",
                DataType::U32 => "u32",
                DataType::U64 => "u64",
                DataType::I8 => "i8",
                DataType::I16 => "i16",
                DataType::I32 => "i32",
                DataType::I64 => "i64",
                DataType::F32 => "f32",
                DataType::F64 => "f64",
                DataType::Bool => "bool",
                DataType::String => "string",
            },
        )
    }
}

/// One typed value. Floating-point values are held by their IEEE 754 bit patterns.
#[derive(Clone, Debug, PartialEq)]
pub enum DataValue {
    U8(u8),
    U16(u16),
    U32(u32),
    U64(u64),
    I8(i8),
    I16(i16),
    I32(i32),
    I64(i64),
    /// Bits of a single-precision float.
    F32(u32),
    /// Bits of a double-precision float.
    F64(u64),
    Bool(bool),
    String(String),
}

impl DataValue {
    /// The data type of this value.
    pub open spec fn spec_data_type(&self) -> DataType {
        match self {
            DataValue::U8(_) => DataType::U8,
            DataValue::U16(_) => DataType::U16,
            DataValue::U32(_) => DataType::U32,
            DataValue::U64(_) => DataType::U64,
            DataValue::I8(_) => DataType::I8,
            DataValue::I16(_) => DataType::I16,
            DataValue::I32(_) => DataType::I32,
            DataValue::I64(_) => DataType::I64,
            DataValue::F32(_) => DataType::F32,
            DataValue::F64(_) => DataType::F64,
            DataValue::Bool(_) => DataType::Bool,
            DataValue::String(_) => DataType::String,
        }
    }
}

/// The lifecycle state of a command sequence.
#[derive(Debug, Clone, Copy, PartialEq, Eq, Structural)]
pub enum CommandStatus {
    /// The command is pending response.
    Pending,
    /// The command did not receive a final response before its deadline.
    TimedOut,
    /// The command was completed successfully.
    Success,
    /// The command was rejected by the target.
    Rejected,
    /// The command encountered a local error.
    LocalError,
}

impl CommandStatus {
    /// The label shown to users for this status.
    pub open spec fn spec_label(self) -> Seq<char> {
        match self {
            CommandStatus::Pending => "Pending"@,
            CommandStatus::TimedOut => "Timed out"@,
            CommandStatus::Success => "Success"@,
            CommandStatus::Rejected => "Rejected"@,
            CommandStatus::LocalError => "Local error"@,
        }
    }

    /// Returns the label shown to users for this status.
    pub fn label(&self) -> (s: String)
        ensures
            s@ == self.spec_label(),
    {
        String::from_str(
            match self {
                CommandStatus::Pending => "Pending",
                CommandStatus::TimedOut => "Timed out",
                CommandStatus::Success => "Success",
                CommandStatus::Rejected => "Rejected",
                CommandStatus::LocalError => "Local error",
            },
        )
    }
}

/// A command stored as key-value pairs for maximum flexibility of representation.
#[derive(Clone, Debug)]
pub struct Command {
    pub key: MessageKey,
    pub target: SourceKey,
    /// Creation time in milliseconds since the Unix epoch.
    pub timestamp: u64,
    /// Field values by data key; where a key occurs more than once, its last occurrence holds.
    pub fields: Vec<(DataKey, DataValue)>,
}

/// The value stored under `key` in `fields`, if any.
pub open spec fn spec_field_value(fields: Seq<(DataKey, DataValue)>, key: DataKey) -> Option<DataValue>
    decreases fields.len(),
{
    if fields.len() == 0 {
        None
    } else if fields.last().0 == key {
        Some(fields.last().1)
    } else {
        spec_field_value(fields.drop_last(), key)
    }
}

/// A command request together with its status and the responses correlated to it.
#[derive(Debug)]
pub struct CommandSequence {
    pub id: CommandId,
    pub status: CommandStatus,
    pub request: Command,
    pub responses: Vec<Command>,
}

/// Returns the value stored under `key` in `fields`: its last occurrence.
pub fn field_value(fields: &Vec<(DataKey, DataValue)>, key: DataKey) -> (r: Option<&DataValue>)
    ensures
        match r {
            Some(v) => spec_field_value(fields@, key) == Some(*v),
            None => spec_field_value(fields@, key) is None,
        },
{
    let mut i: usize = fields.len();
    assert(fields@.subrange(0, i as int) =~= fields@);
    while i > 0
        invariant
            i <= fields@.len(),
            spec_field_value(fields@, key) == spec_field_value(fields@.subrange(0, i as int), key),
        decreases i,
    {
        let ghost prefix = fields@.subrange(0, i as int);
        assert(prefix.drop_last() =~= fields@.subrange(0, i - 1));
        if fields[i - 1].0 == key {
            return Some(&fields[i - 1].1);
        }
        i -= 1;
    }
    None
}

} // verus!
