use std::collections::HashSet;

use segs::dataflow::{DataKey, DataType, MessageKey, StreamKey};
use segs::descriptor_index::{normalize_query, DescriptorIndex, IndexedNodeKind};
use segs::protocol::{FieldDescriptor, MessageDescriptor, ProtocolDescriptor};

fn message_key(id: u64) -> MessageKey {
    MessageKey(id)
}

/// Creates a field descriptor for hierarchy filtering tests.
fn field(name: &str) -> FieldDescriptor {
    FieldDescriptor::Field {
        name: name.into(),
        field_type: DataType::F64,
        data_key: StreamKey::mock().data_key,
    }
}

/// Creates a nested descriptor hierarchy for filtering tests.
fn protocol() -> ProtocolDescriptor {
    let flight = message_key(1);
    let gps = message_key(2);
    let message_schemas = vec![
        (
            flight,
            MessageDescriptor {
                name: "Flight".into(),
                fields: vec![
                    FieldDescriptor::Structure {
                        name: "Timing".into(),
                        fields: vec![field("Timestamp"), field("Sequence")],
                    },
                    field("Roll"),
                ],
            },
        ),
        (
            gps,
            MessageDescriptor {
                name: "GPS".into(),
                fields: vec![field("Timestamp"), field("Latitude")],
            },
        ),
    ];

    ProtocolDescriptor {
        message_schemas,
        stream_messages: vec![flight, gps],
        command_messages: Vec::new(),
        sources: Vec::new(),
    }
}

#[test]
fn filtering_retains_ancestors_and_expands_structure_matches() {
    let index = DescriptorIndex::build(&protocol());

    let field_rows = index.filtered_rows(" TIMESTAMP ");
    let field_names = field_rows
        .iter()
        .map(|row| index.nodes()[*row].name.as_str())
        .collect::<Vec<_>>();
    assert_eq!(field_names, ["Flight", "Timing", "Timestamp", "GPS", "Timestamp"]);

    let structure_rows = index.filtered_rows("flight");
    let structure_names = structure_rows
        .iter()
        .map(|row| index.nodes()[*row].name.as_str())
        .collect::<Vec<_>>();
    assert_eq!(structure_names, ["Flight", "Timing", "Timestamp", "Sequence", "Roll"]);
}

#[test]
fn nodes_are_flattened_depth_first_with_subtree_ends() {
    let index = DescriptorIndex::build(&protocol());
    let nodes = index.nodes();
    let names = nodes.iter().map(|n| n.name.as_str()).collect::<Vec<_>>();
    assert_eq!(names, ["Flight", "Timing", "Timestamp", "Sequence", "Roll", "GPS", "Timestamp", "Latitude"]);
    assert_eq!(nodes[0].kind, IndexedNodeKind::Structure { subtree_end: 5 });
    assert_eq!(nodes[1].kind, IndexedNodeKind::Structure { subtree_end: 4 });
    assert_eq!(nodes[5].kind, IndexedNodeKind::Structure { subtree_end: 8 });
    assert_eq!(nodes[2].depth, 2);
    assert_eq!(nodes[2].parent, Some(1));
    assert_eq!(nodes[1].parent, Some(0));
    assert_eq!(nodes[0].parent, None);
}

#[test]
fn collapsed_structures_hide_their_subtrees() {
    let index = DescriptorIndex::build(&protocol());
    assert_eq!(index.visible_rows(&HashSet::new()), vec![0, 5]);
    assert_eq!(index.visible_rows(&HashSet::from([0])), vec![0, 1, 4, 5]);
    assert_eq!(index.visible_rows(&HashSet::from([0, 1, 5])), vec![0, 1, 2, 3, 4, 5, 6, 7]);
}

#[test]
fn empty_queries_match_nothing() {
    let index = DescriptorIndex::build(&protocol());
    assert!(index.filtered_rows("   ").is_empty());
    assert!(index.filtered_rows("").is_empty());
    assert_eq!(normalize_query("  MiXeD  "), "mixed");
}

#[test]
fn field_paths_join_ancestor_names() {
    let schemas = ProtocolDescriptor {
        message_schemas: vec![(
            message_key(9),
            MessageDescriptor {
                name: "Flight".into(),
                fields: vec![FieldDescriptor::Structure {
                    name: "Timing".into(),
                    fields: vec![FieldDescriptor::Field {
                        name: "Timestamp".into(),
                        field_type: DataType::U64,
                        data_key: DataKey(77),
                    }],
                }],
            },
        )],
        stream_messages: vec![message_key(9), message_key(10)],
        command_messages: Vec::new(),
        sources: Vec::new(),
    };
    let index = DescriptorIndex::build(&schemas);
    assert_eq!(index.field_path(DataKey(77)), Some("Flight › Timing › Timestamp"));
    assert_eq!(index.field_node(DataKey(77)), Some(2));
    assert_eq!(index.field_path(DataKey(78)), None);
    assert_eq!(index.field_node(DataKey(78)), None);
}
