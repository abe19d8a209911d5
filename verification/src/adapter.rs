//! Adapter kinds, their mapping sources and the identity of an installed adapter.

use std::path::PathBuf;
use std::sync::Arc;

use vstd::prelude::*;
use vstd::string::StringExecFns;

verus! {

/// The data adapter implementations that can be configured.
#[derive(Debug, Clone, Copy, PartialEq, Eq, Structural)]
pub enum AdapterType {
    SkywardMavlink,
}

impl AdapterType {
    /// The name shown to users.
    pub open spec fn spec_label(self) -> Seq<char> {
        match self {
            AdapterType::SkywardMavlink => "Skyward MAVLink"@,
        }
    }

    /// Returns the name shown to users.
    pub fn label(&self) -> (s: String)
        ensures
            s@ == self.spec_label(),
    {
        match self {
            AdapterType::SkywardMavlink => String::from_str("Skyward MAVLink"),
        }
    }
}

impl Default for AdapterType {
    fn default() -> (r: Self)
        ensures
            r == AdapterType::SkywardMavlink,
    {
        AdapterType::SkywardMavlink
    }
}

/// The transport mechanisms that can carry raw data.
#[derive(Debug, Clone, Copy, PartialEq, Eq, Structural)]
pub enum TransportType {
    Ethernet,
    Serial,
}

impl Default for TransportType {
    fn default() -> (r: Self)
        ensures
            r == TransportType::Ethernet,
    {
        TransportType::Ethernet
    }
}

/// How a mapping source is provided.
#[derive(Debug, Clone, Copy, PartialEq, Eq, Structural)]
pub enum MappingType {
    BuiltIn,
    LocalFile,
}

#[verifier::external_type_specification]
#[verifier::external_body]
pub struct ExPathBuf(PathBuf);

/// The source that defines how raw data is interpreted by a data adapter.
#[derive(Debug)]
pub enum DataMapping {
    /// A mapping built into the adapter implementation, by its identifier.
    BuiltIn(i32),
    /// A local file containing the mapping.
    LocalFile(PathBuf),
}

/// Why an adapter refuses its mapping source.
#[derive(Debug, Clone, Copy, PartialEq, Eq, Structural)]
pub enum MappingError {
    /// The adapter reads its message definitions from a local file only.
    UnsupportedMethod,
}

impl MappingError {
    /// The message shown to users.
    pub open spec fn spec_message(self) -> Seq<char> {
        match self {
            MappingError::UnsupportedMethod => "Unsupported definition source method"@,
        }
    }

    /// Returns the message shown to users.
    pub fn message(&self) -> (s: String)
        ensures
            s@ == self.spec_message(),
    {
        match self {
            MappingError::UnsupportedMethod => String::from_str("Unsupported definition source method"),
        }
    }
}

impl DataMapping {
    /// Returns the file that a MAVLink adapter reads its message definitions from: the mapping's
    /// file when it is a local one; any other source is refused.
    pub fn definition_file(&self) -> (r: Result<&PathBuf, MappingError>)
        ensures
            match *self {
                DataMapping::LocalFile(path) => r == Ok::<&PathBuf, MappingError>(&path),
                DataMapping::BuiltIn(_) => r == Err::<&PathBuf, MappingError>(MappingError::UnsupportedMethod),
            },
    {
        match self {
            DataMapping::LocalFile(path) => Ok(path),
            DataMapping::BuiltIn(_) => Err(MappingError::UnsupportedMethod),
        }
    }
}

/// Why connecting a data adapter did not start.
#[derive(Debug, Clone, Copy, PartialEq, Eq, Structural)]
pub enum ConnectError {
    /// The transport or the mapping source is missing.
    IncompleteParameters,
}

impl ConnectError {
    /// The message reported for the failed connection.
    pub open spec fn spec_message(self) -> Seq<char> {
        match self {
            ConnectError::IncompleteParameters => "incomplete parameters"@,
        }
    }

    /// Returns the message reported for the failed connection.
    pub fn message(&self) -> (s: String)
        ensures
            s@ == self.spec_message(),
    {
        match self {
            ConnectError::IncompleteParameters => String::from_str("incomplete parameters"),
        }
    }
}

/// Returns the transport and the mapping source to connect an adapter with: both must be given.
pub fn connect_parameters<T>(transport: Option<T>, mapping: Option<DataMapping>) -> (r: Result<
    (T, DataMapping),
    ConnectError,
>)
    ensures
        match (transport, mapping) {
            (Some(t), Some(m)) => r == Ok::<(T, DataMapping), ConnectError>((t, m)),
            _ => r == Err::<(T, DataMapping), ConnectError>(ConnectError::IncompleteParameters),
        },
{
    match (transport, mapping) {
        (Some(t), Some(m)) => Ok((t, m)),
        _ => Err(ConnectError::IncompleteParameters),
    }
}

/// A mapping source offered while configuring an adapter.
pub struct MappingDescriptor {
    pub method: MappingType,
    pub description: String,
}

/// Returns the mapping sources that an adapter accepts.
pub fn get_mapping_sources(adapter: AdapterType) -> (r: Vec<MappingDescriptor>)
    ensures
        adapter == AdapterType::SkywardMavlink ==> {
            &&& r@.len() == 1
            &&& r@[0].method == MappingType::LocalFile
            &&& r@[0].description@ == "MAVLink XML message definition file"@
        },
{
    match adapter {
        AdapterType::SkywardMavlink => {
            let mut r: Vec<MappingDescriptor> = Vec::new();
            r.push(
                MappingDescriptor {
                    method: MappingType::LocalFile,
                    description: String::from_str("MAVLink XML message definition file"),
                },
            );
            r
        },
    }
}

/// The identity of one installed adapter lifecycle, shared by all of its clones.
///
/// Identity follows a shared allocation: retaining a clone keeps cached state derived from the
/// adapter tied to it.
#[derive(Clone, Debug)]
pub struct DataAdapterInstanceToken(Arc<()>);

impl DataAdapterInstanceToken {
    /// Creates the identity of a newly installed adapter.
    pub fn new() -> (t: Self) {
        DataAdapterInstanceToken(Arc::new(()))
    }

    /// Returns whether two tokens identify the same installed adapter: whether they share one
    /// allocation (`Arc::ptr_eq`). Nothing is stated of the result, which depends on addresses.
    #[verifier::external_body]
    pub fn same_instance(&self, other: &Self) -> (r: bool) {
        Arc::ptr_eq(&self.0, &other.0)
    }
}

} // verus!
