use std::path::PathBuf;

use segs::adapter::{connect_parameters, ConnectError, DataAdapterInstanceToken, DataMapping, MappingError};

#[test]
fn adapters_read_definitions_from_local_files_only() {
    let file = DataMapping::LocalFile(PathBuf::from("profile.xml"));
    assert_eq!(file.definition_file(), Ok(&PathBuf::from("profile.xml")));
    let built_in = DataMapping::BuiltIn(3);
    assert_eq!(built_in.definition_file(), Err(MappingError::UnsupportedMethod));
    assert_eq!(MappingError::UnsupportedMethod.message(), "Unsupported definition source method");
}

#[test]
fn tokens_compare_by_installed_instance() {
    let token = DataAdapterInstanceToken::new();
    let other = DataAdapterInstanceToken::new();
    assert!(token.same_instance(&token.clone()));
    assert!(!token.same_instance(&other));
}

#[test]
fn connecting_needs_a_transport_and_a_mapping() {
    let mapping = || DataMapping::LocalFile(PathBuf::from("profile.xml"));
    match connect_parameters(Some(7u8), Some(mapping())) {
        Ok((transport, DataMapping::LocalFile(path))) => {
            assert_eq!(transport, 7);
            assert_eq!(path, PathBuf::from("profile.xml"));
        }
        other => panic!("unexpected {other:?}"),
    }
    assert!(matches!(connect_parameters(None::<u8>, Some(mapping())), Err(ConnectError::IncompleteParameters)));
    assert!(matches!(connect_parameters(Some(7u8), None), Err(ConnectError::IncompleteParameters)));
    assert_eq!(ConnectError::IncompleteParameters.message(), "incomplete parameters");
}
