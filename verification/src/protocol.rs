//! Protocol-independent descriptions of the messages and sources exposed by a data adapter.

use vstd::prelude::*;

use crate::dataflow::{DataKey, DataType, DataValue, MessageKey, SourceKey};

verus! {

/// An ordinary enumeration: its name and its declaration-ordered typed values.
#[derive(Debug, Clone)]
pub struct EnumDescriptor {
    pub name: String,
    pub variants: Vec<(String, DataValue)>,
}

/// Describes one structure or field in a message schema.
#[derive(Debug)]
pub enum FieldDescriptor {
    /// A named structure containing nested descriptors.
    Structure { name: String, fields: Vec<FieldDescriptor> },
    /// A named value decoded with the given exact type.
    Field { name: String, field_type: DataType, data_key: DataKey },
    /// A named value of the given exact type whose values are those of an enumeration.
    EnumField { name: String, field_type: DataType, descriptor: EnumDescriptor, data_key: DataKey },
}

/// Describes the canonical schema of one protocol message.
#[derive(Debug)]
pub struct MessageDescriptor {
    pub name: String,
    pub fields: Vec<FieldDescriptor>,
}

/// Describes one selectable data source.
#[derive(Debug, Clone)]
pub struct SourceDescriptor {
    pub name: String,
    pub key: SourceKey,
}

/// Describes the canonical messages and their protocol roles exposed by a data adapter.
#[derive(Debug)]
pub struct ProtocolDescriptor {
    /// Canonical message schemas with their protocol-independent identities, one per identity.
    pub message_schemas: Vec<(MessageKey, MessageDescriptor)>,
    /// Ordered identities of messages whose fields can be selected as data streams.
    pub stream_messages: Vec<MessageKey>,
    /// Ordered identities of command messages that can be sent to a target.
    pub command_messages: Vec<MessageKey>,
    /// Selectable target data sources.
    pub sources: Vec<SourceDescriptor>,
}

/// The schema registered under `key`: the first entry with that identity.
pub open spec fn spec_schema(schemas: Seq<(MessageKey, MessageDescriptor)>, key: MessageKey) -> Option<
    MessageDescriptor,
>
    decreases schemas.len(),
{
    if schemas.len() == 0 {
        None
    } else if schemas[0].0 == key {
        Some(schemas[0].1)
    } else {
        spec_schema(schemas.drop_first(), key)
    }
}

/// The position of the schema registered under `key`, or `-1`.
pub open spec fn spec_schema_position(schemas: Seq<(MessageKey, MessageDescriptor)>, key: MessageKey) -> int
    decreases schemas.len(),
{
    if schemas.len() == 0 {
        -1
    } else if schemas[0].0 == key {
        0
    } else {
        let p = spec_schema_position(schemas.drop_first(), key);
        if p < 0 {
            -1
        } else {
            p + 1
        }
    }
}

proof fn lemma_schema_position(schemas: Seq<(MessageKey, MessageDescriptor)>, key: MessageKey)
    ensures
        -1 <= spec_schema_position(schemas, key) < schemas.len(),
        spec_schema_position(schemas, key) >= 0 ==> {
            &&& schemas[spec_schema_position(schemas, key)].0 == key
            &&& spec_schema(schemas, key) == Some(schemas[spec_schema_position(schemas, key)].1)
        },
        spec_schema_position(schemas, key) < 0 ==> spec_schema(schemas, key) is None,
        forall|i: int|
            0 <= i < schemas.len() && (spec_schema_position(schemas, key) < 0 || i
                < spec_schema_position(schemas, key)) ==> #[trigger] schemas[i].0 != key,
    decreases schemas.len(),
{
    if schemas.len() > 0 && schemas[0].0 != key {
        let rest = schemas.drop_first();
        lemma_schema_position(rest, key);
        assert forall|i: int|
            0 <= i < schemas.len() && (spec_schema_position(schemas, key) < 0 || i
                < spec_schema_position(schemas, key)) implies #[trigger] schemas[i].0 != key by {
            if i > 0 {
                assert(schemas[i] == rest[i - 1]);
            }
        }
    }
}

impl ProtocolDescriptor {
    /// Returns the schema registered under `key`.
    pub fn message_schema(&self, key: MessageKey) -> (r: Option<&MessageDescriptor>)
        ensures
            match (r, spec_schema(self.message_schemas@, key)) {
                (Some(a), Some(b)) => *a == b,
                (None, None) => true,
                _ => false,
            },
    {
        proof {
            lemma_schema_position(self.message_schemas@, key);
        }
        let mut i: usize = 0;
        while i < self.message_schemas.len()
            invariant
                i <= self.message_schemas@.len(),
                forall|j: int| 0 <= j < i ==> #[trigger] self.message_schemas@[j].0 != key,
            decreases self.message_schemas.len() - i,
        {
            if self.message_schemas[i].0 == key {
                proof {
                    lemma_schema_position(self.message_schemas@, key);
                }
                assert(spec_schema_position(self.message_schemas@, key) == i);
                return Some(&self.message_schemas[i].1);
            }
            i += 1;
        }
        None
    }
}

/// A key registered by some entry has a schema.
pub proof fn lemma_schema_found(schemas: Seq<(MessageKey, MessageDescriptor)>, key: MessageKey, r: int)
    requires
        0 <= r < schemas.len(),
        schemas[r].0 == key,
    ensures
        spec_schema(schemas, key) is Some,
{
    lemma_schema_position(schemas, key);
}

} // verus!
