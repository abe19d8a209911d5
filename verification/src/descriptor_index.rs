//! A protocol hierarchy flattened for searching and virtualized rendering.
//!
//! A hierarchy such as
//!
//! ```text
//! Flight
//!   Timing
//!     Timestamp
//!     Sequence
//!   Roll
//! GPS
//!   Latitude
//! ```
//!
//! is stored in depth-first order as
//!
//! ```text
//! 0  Flight       Structure { subtree_end: 5 }
//! 1    Timing     Structure { subtree_end: 4 }
//! 2      Timestamp
//! 3      Sequence
//! 4    Roll
//! 5  GPS          Structure { subtree_end: 7 }
//! 6    Latitude
//! ```
//!
//! Structure descendants are contiguous, so the exclusive `subtree_end` of a structure lets
//! browsing skip a collapsed subtree, and search include a complete structure.

use std::collections::{HashMap, HashSet};

use vstd::prelude::*;

use crate::adapter::DataAdapterInstanceToken;
use crate::dataflow::{DataKey, MessageKey};
use crate::protocol::{spec_schema, FieldDescriptor, MessageDescriptor, ProtocolDescriptor};
use crate::descriptor_nesting::{law_index_is_nested_by_depth, spec_nested_by_depth, spec_stream_names, spec_top_names};
use crate::text::{
    chars_of, contains_chars, spec_contains, spec_trim, string_from_chars, to_lowercase, trim_chars,
    spec_lowercase,
};

verus! {

broadcast use vstd::std_specs::hash::group_hash_axioms;

/// Identifies whether an indexed row groups descendants or selects a field.
#[derive(Clone, Copy, Debug, PartialEq, Eq, Structural)]
pub enum IndexedNodeKind {
    Structure {
        /// The first node after this structure's descendants.
        subtree_end: usize,
    },
    Field {
        /// The field data key.
        data_key: DataKey,
    },
}

/// One fixed-height row in depth-first descriptor traversal order.
#[derive(Debug)]
pub struct IndexedNode {
    /// The structure or field name shown in the tree.
    pub name: String,
    /// The hierarchy depth used to calculate visual indentation.
    pub depth: usize,
    /// The row behavior and its structure or field payload.
    pub kind: IndexedNodeKind,
    /// The lowercase name used for case-insensitive substring matching.
    pub normalized_name: String,
    /// The parent node used to restore hierarchy context around matches.
    pub parent: Option<usize>,
}

/// Display and flattened-position metadata for one field.
#[derive(Debug)]
struct IndexedField {
    path: String,
    node_index: usize,
}

/// A protocol hierarchy flattened for searching and virtualized rendering.
#[derive(Debug)]
pub struct DescriptorIndex {
    nodes: Vec<IndexedNode>,
    fields: HashMap<u64, IndexedField>,
}

/// A node seen as its name, depth, kind and parent.
pub type NodeView = (Seq<char>, int, IndexedNodeKind, Option<usize>);

/// The view of one node.
pub open spec fn spec_node_view(n: IndexedNode) -> NodeView {
    (n.name@, n.depth as int, n.kind, n.parent)
}

/// The views of a sequence of nodes.
pub open spec fn spec_nodes_view(nodes: Seq<IndexedNode>) -> Seq<NodeView> {
    nodes.map_values(|n: IndexedNode| spec_node_view(n))
}

/// The nodes of `descs[k..]`, flattened depth first, the first one at position `start`.
pub open spec fn spec_flatten_from(
    descs: Seq<FieldDescriptor>,
    k: int,
    depth: int,
    parent: Option<usize>,
    start: int,
) -> Seq<NodeView>
    decreases descs, descs.len() - k,
{
    if 0 <= k < descs.len() {
        let first = spec_flatten_one(descs[k], depth, parent, start);
        first + spec_flatten_from(descs, k + 1, depth, parent, start + first.len())
    } else {
        Seq::empty()
    }
}

/// The nodes of one descriptor, flattened depth first, the first one at position `start`.
pub open spec fn spec_flatten_one(d: FieldDescriptor, depth: int, parent: Option<usize>, start: int) -> Seq<
    NodeView,
>
    decreases d, 0int,
{
    match d {
        FieldDescriptor::Structure { name, fields } => {
            let children = spec_flatten_from(fields@, 0, depth + 1, Some(start as usize), start + 1);
            seq![
                (
                    name@,
                    depth,
                    IndexedNodeKind::Structure { subtree_end: (start + 1 + children.len()) as usize },
                    parent,
                ),
            ] + children
        },
        FieldDescriptor::Field { name, data_key, .. } => seq![
            (name@, depth, IndexedNodeKind::Field { data_key }, parent),
        ],
        FieldDescriptor::EnumField { name, data_key, .. } => seq![
            (name@, depth, IndexedNodeKind::Field { data_key }, parent),
        ],
    }
}

/// The nodes of one message: a top-level structure row followed by its flattened schema fields.
pub open spec fn spec_message_nodes(m: MessageDescriptor, start: int) -> Seq<NodeView> {
    let children = spec_flatten_from(m.fields@, 0, 1, Some(start as usize), start + 1);
    seq![
        (
            m.name@,
            0,
            IndexedNodeKind::Structure { subtree_end: (start + 1 + children.len()) as usize },
            None,
        ),
    ] + children
}

/// The nodes of the stream messages `keys` that have a schema, in order.
pub open spec fn spec_index_nodes(
    schemas: Seq<(MessageKey, MessageDescriptor)>,
    keys: Seq<MessageKey>,
) -> Seq<NodeView>
    decreases keys.len(),
{
    if keys.len() == 0 {
        Seq::empty()
    } else {
        let prev = spec_index_nodes(schemas, keys.drop_last());
        match spec_schema(schemas, keys.last()) {
            Some(m) => prev + spec_message_nodes(m, prev.len() as int),
            None => prev,
        }
    }
}

/// Names from the top-level ancestor down to node `i` itself.
pub open spec fn spec_chain(nodes: Seq<NodeView>, i: int) -> Seq<Seq<char>>
    decreases i,
{
    if 0 <= i < nodes.len() {
        match nodes[i].3 {
            Some(p) => if 0 <= p < i {
                spec_chain(nodes, p as int).push(nodes[i].0)
            } else {
                seq![nodes[i].0]
            },
            None => seq![nodes[i].0],
        }
    } else {
        Seq::empty()
    }
}

/// The names of the ancestors of node `i`, top-level first.
pub open spec fn spec_ancestor_names(nodes: Seq<NodeView>, i: int) -> Seq<Seq<char>> {
    match nodes[i].3 {
        Some(p) => if 0 <= p < i {
            spec_chain(nodes, p as int)
        } else {
            Seq::empty()
        },
        None => Seq::empty(),
    }
}

/// The separator between breadcrumb components.
pub open spec fn spec_breadcrumb_separator() -> Seq<char> {
    seq![' ', '\u{203a}', ' ']
}

/// `parts` joined by the breadcrumb separator.
pub open spec fn spec_join(parts: Seq<Seq<char>>) -> Seq<char>
    decreases parts.len(),
{
    if parts.len() == 0 {
        Seq::empty()
    } else if parts.len() == 1 {
        parts[0]
    } else {
        spec_join(parts.drop_last()) + spec_breadcrumb_separator() + parts.last()
    }
}

/// The breadcrumb of a field: its joined ancestor names, a separator when those are not empty
/// text, then the field's own name.
pub open spec fn spec_breadcrumb(ancestors: Seq<Seq<char>>, name: Seq<char>) -> Seq<char> {
    let b = spec_join(ancestors);
    if b.len() > 0 {
        b + spec_breadcrumb_separator() + name
    } else {
        name
    }
}

/// The breadcrumb shown for field node `i`.
pub open spec fn spec_field_path(nodes: Seq<NodeView>, i: int) -> Seq<char> {
    spec_breadcrumb(spec_ancestor_names(nodes, i), nodes[i].0)
}

/// The node position recorded for each field key among the first `n` nodes: the last field
/// node carrying the key.
pub open spec fn spec_field_map(nodes: Seq<NodeView>, n: int) -> Map<u64, usize>
    decreases n,
{
    if n <= 0 || n > nodes.len() {
        Map::empty()
    } else {
        let m = spec_field_map(nodes, n - 1);
        match nodes[n - 1].2 {
            IndexedNodeKind::Field { data_key } => m.insert(data_key.0, (n - 1) as usize),
            IndexedNodeKind::Structure { .. } => m,
        }
    }
}

/// Parents come before their children, and each structure's range starts after it and ends
/// within the nodes.
pub open spec fn spec_nodes_wf(nodes: Seq<NodeView>) -> bool {
    forall|i: int|
        0 <= i < nodes.len() ==> {
            &&& (#[trigger] nodes[i].3 matches Some(p) ==> p < i)
            &&& (nodes[i].2 matches IndexedNodeKind::Structure { subtree_end } ==> i < subtree_end
                <= nodes.len())
        }
}

/// The row that follows row `i` while browsing: past the subtree of a collapsed structure,
/// otherwise the next row.
pub open spec fn spec_next_visible(nodes: Seq<NodeView>, expanded: Set<usize>, i: int) -> int {
    match nodes[i].2 {
        IndexedNodeKind::Structure { subtree_end } => if !expanded.contains(i as usize) && i
            < subtree_end <= nodes.len() {
            subtree_end as int
        } else {
            i + 1
        },
        IndexedNodeKind::Field { .. } => i + 1,
    }
}

/// The rows shown while browsing from row `i` on.
pub open spec fn spec_visible_from(nodes: Seq<NodeView>, expanded: Set<usize>, i: int) -> Seq<usize>
    decreases nodes.len() - i,
{
    if 0 <= i < nodes.len() {
        seq![i as usize] + spec_visible_from(nodes, expanded, spec_next_visible(nodes, expanded, i))
    } else {
        Seq::empty()
    }
}

/// Whether node `a` is node `i` or one of its ancestors.
pub open spec fn spec_is_ancestor_or_self(nodes: Seq<NodeView>, a: int, i: int) -> bool
    decreases i,
{
    if 0 <= i < nodes.len() {
        i == a || match nodes[i].3 {
            Some(p) => 0 <= p < i && spec_is_ancestor_or_self(nodes, a, p as int),
            None => false,
        }
    } else {
        false
    }
}

/// Whether the lowercased name of node `m` contains the normalized query `q`.
pub open spec fn spec_node_matches(nodes: Seq<NodeView>, q: Seq<char>, m: int) -> bool {
    spec_contains(spec_lowercase(nodes[m].0), q)
}

/// Whether a match at node `m` brings row `j` into the search results: `j` is an ancestor of `m`
/// or `m` itself, or `m` is a structure and `j` lies in its subtree.
pub open spec fn spec_reveals(nodes: Seq<NodeView>, q: Seq<char>, m: int, j: int) -> bool {
    &&& spec_node_matches(nodes, q, m)
    &&& (spec_is_ancestor_or_self(nodes, j, m) || (nodes[m].2 matches IndexedNodeKind::Structure {
        subtree_end,
    } && m <= j < subtree_end))
}

/// Whether some matching node before position `k` brings row `j` into the search results.
pub open spec fn spec_revealed_before(nodes: Seq<NodeView>, q: Seq<char>, k: int, j: int) -> bool {
    exists|m: int| 0 <= m < k && #[trigger] spec_reveals(nodes, q, m, j)
}

/// A user query normalized for matching: trimmed and lowercased.
pub open spec fn spec_normalize_query(query: Seq<char>) -> Seq<char> {
    spec_lowercase(spec_trim(query))
}

/// Normalizes a user query for matching and cache comparison.
pub fn normalize_query(query: &str) -> (r: String)
    ensures
        r@ == spec_normalize_query(query@),
{
    let chars = chars_of(query);
    let trimmed = string_from_chars(trim_chars(chars.as_slice()).as_slice());
    to_lowercase(trimmed.as_str())
}

impl DescriptorIndex {
    /// The views of the indexed nodes.
    pub closed spec fn view_nodes(&self) -> Seq<NodeView> {
        spec_nodes_view(self.nodes@)
    }

    /// The stored nodes and field metadata agree with each other.
    pub closed spec fn wf(&self) -> bool {
        &&& spec_nodes_wf(self.view_nodes())
        &&& forall|i: int|
            0 <= i < self.nodes@.len() ==> (#[trigger] self.nodes@[i]).normalized_name@
                == spec_lowercase(self.nodes@[i].name@)
        &&& Self::fields_ok(self.fields@, self.view_nodes())
    }

    closed spec fn fields_ok(fields: Map<u64, IndexedField>, nodes: Seq<NodeView>) -> bool {
        let m = spec_field_map(nodes, nodes.len() as int);
        &&& fields.dom() == m.dom()
        &&& forall|k: u64|
            #[trigger] fields.contains_key(k) ==> fields[k].node_index == m[k]
                && fields[k].path@ == spec_field_path(nodes, m[k] as int)
    }
}

proof fn lemma_chain_stable(n1: Seq<NodeView>, n2: Seq<NodeView>, i: int)
    requires
        0 <= i < n1.len(),
        i < n2.len(),
        forall|j: int| 0 <= j <= i ==> (#[trigger] n1[j]).0 == n2[j].0 && n1[j].3 == n2[j].3,
    ensures
        spec_chain(n1, i) == spec_chain(n2, i),
    decreases i,
{
    match n1[i].3 {
        Some(p) => if 0 <= p < i {
            lemma_chain_stable(n1, n2, p as int);
        },
        None => {},
    }
}

proof fn lemma_field_path_stable(n1: Seq<NodeView>, n2: Seq<NodeView>, i: int)
    requires
        0 <= i < n1.len(),
        i < n2.len(),
        forall|j: int| 0 <= j <= i ==> (#[trigger] n1[j]).0 == n2[j].0 && n1[j].3 == n2[j].3,
    ensures
        spec_field_path(n1, i) == spec_field_path(n2, i),
{
    match n1[i].3 {
        Some(p) => if 0 <= p < i {
            lemma_chain_stable(n1, n2, p as int);
        },
        None => {},
    }
}

proof fn lemma_field_map_stable(n1: Seq<NodeView>, n2: Seq<NodeView>, n: int)
    requires
        0 <= n <= n1.len(),
        n <= n2.len(),
        forall|j: int|
            0 <= j < n ==> (#[trigger] n1[j].2 is Field || n2[j].2 is Field) ==> n1[j].2 == n2[j].2,
    ensures
        spec_field_map(n1, n) == spec_field_map(n2, n),
    decreases n,
{
    if n > 0 {
        lemma_field_map_stable(n1, n2, n - 1);
        assert(n1[n - 1].2 is Field || n2[n - 1].2 is Field ==> n1[n - 1].2 == n2[n - 1].2);
    }
}

proof fn lemma_field_map_bounds(nodes: Seq<NodeView>, n: int)
    requires
        0 <= n <= nodes.len(),
    ensures
        forall|k: u64| #[trigger]
            spec_field_map(nodes, n).contains_key(k) ==> spec_field_map(nodes, n)[k] < n,
    decreases n,
{
    if n > 0 {
        lemma_field_map_bounds(nodes, n - 1);
        let m = spec_field_map(nodes, n - 1);
        assert forall|k: u64| #[trigger] spec_field_map(nodes, n).contains_key(k) implies spec_field_map(
            nodes,
            n,
        )[k] < n by {
            match nodes[n - 1].2 {
                IndexedNodeKind::Field { data_key } => {
                    if k != data_key.0 {
                        assert(m.contains_key(k));
                    }
                },
                IndexedNodeKind::Structure { .. } => {
                    assert(m.contains_key(k));
                },
            }
        }
    }
}

proof fn lemma_field_map_structure_tail(nodes: Seq<NodeView>, a: int, b: int)
    requires
        0 <= a <= b <= nodes.len(),
        forall|j: int| a <= j < b ==> (#[trigger] nodes[j].2) is Structure,
    ensures
        spec_field_map(nodes, b) == spec_field_map(nodes, a),
    decreases b - a,
{
    if a < b {
        lemma_field_map_structure_tail(nodes, a, b - 1);
        assert(nodes[b - 1].2 is Structure);
    }
}

/// The components of a path stack.
pub open spec fn spec_path_view(path: Seq<Vec<char>>) -> Seq<Seq<char>> {
    path.map_values(|v: Vec<char>| v@)
}

fn join_path(path: &Vec<Vec<char>>) -> (r: Vec<char>)
    ensures
        r@ == spec_join(spec_path_view(path@)),
{
    let mut r: Vec<char> = Vec::new();
    let mut i: usize = 0;
    while i < path.len()
        invariant
            i <= path@.len(),
            r@ == spec_join(spec_path_view(path@.subrange(0, i as int))),
        decreases path.len() - i,
    {
        let ghost prefix = spec_path_view(path@.subrange(0, i + 1));
        assert(prefix.drop_last() =~= spec_path_view(path@.subrange(0, i as int)));
        assert(prefix.last() == path@[i as int]@);
        if i > 0 {
            r.push(' ');
            r.push('\u{203a}');
            r.push(' ');
        }
        let part = &path[i];
        let mut k: usize = 0;
        let ghost before = r@;
        while k < part.len()
            invariant
                k <= part@.len(),
                r@ == before + part@.subrange(0, k as int),
            decreases part.len() - k,
        {
            r.push(part[k]);
            k += 1;
            assert(r@ =~= before + part@.subrange(0, k as int));
        }
        assert(part@.subrange(0, k as int) =~= part@);
        i += 1;
        proof {
            if i - 1 == 0 {
                assert(r@ =~= spec_join(prefix));
            } else {
                assert(r@ =~= spec_join(prefix));
            }
        }
    }
    assert(path@.subrange(0, i as int) =~= path@);
    r
}

fn breadcrumb(path: &Vec<Vec<char>>, name: &str) -> (r: String)
    ensures
        r@ == spec_breadcrumb(spec_path_view(path@), name@),
{
    let mut b = join_path(path);
    if b.len() > 0 {
        b.push(' ');
        b.push('\u{203a}');
        b.push(' ');
    }
    let ghost before = b@;
    let name_chars = chars_of(name);
    let mut k: usize = 0;
    while k < name_chars.len()
        invariant
            k <= name_chars@.len(),
            b@ == before + name_chars@.subrange(0, k as int),
        decreases name_chars.len() - k,
    {
        b.push(name_chars[k]);
        k += 1;
        assert(b@ =~= before + name_chars@.subrange(0, k as int));
    }
    assert(name_chars@.subrange(0, k as int) =~= name_chars@);
    assert(b@ =~= spec_breadcrumb(spec_path_view(path@), name@));
    string_from_chars(b.as_slice())
}

impl DescriptorIndex {
    proof fn lemma_fields_ok_extend(fields: Map<u64, IndexedField>, n1: Seq<NodeView>, n2: Seq<NodeView>)
        requires
            Self::fields_ok(fields, n1),
            n1.len() <= n2.len(),
            forall|j: int|
                0 <= j < n1.len() ==> (#[trigger] n2[j]).0 == n1[j].0 && n2[j].3 == n1[j].3 && (
                n1[j].2 is Field || n2[j].2 is Field ==> n1[j].2 == n2[j].2),
            forall|j: int| n1.len() <= j < n2.len() ==> (#[trigger] n2[j].2) is Structure,
        ensures
            Self::fields_ok(fields, n2),
    {
        let len1 = n1.len() as int;
        lemma_field_map_structure_tail(n2, len1, n2.len() as int);
        lemma_field_map_stable(n1, n2, len1);
        lemma_field_map_bounds(n1, len1);
        let m = spec_field_map(n1, len1);
        assert forall|k: u64| #[trigger] fields.contains_key(k) implies fields[k].node_index == m[k]
            && fields[k].path@ == spec_field_path(n2, m[k] as int) by {
            let i = m[k] as int;
            assert forall|j: int| 0 <= j <= i implies (#[trigger] n1[j]).0 == n2[j].0 && n1[j].3
                == n2[j].3 by {
                assert(n2[j].0 == n1[j].0);
            }
            lemma_field_path_stable(n1, n2, i);
        }
    }

    /// Inserts an open structure row and returns its node index.
    fn push_structure(&mut self, name: &str, depth: usize, parent: Option<usize>) -> (index: usize)
        requires
            old(self).wf(),
            parent matches Some(p) ==> p < old(self).nodes@.len(),
        ensures
            final(self).wf(),
            index == old(self).nodes@.len(),
            final(self).view_nodes() == old(self).view_nodes().push(
                (name@, depth as int, IndexedNodeKind::Structure { subtree_end: (index + 1) as usize }, parent),
            ),
            final(self).fields@ == old(self).fields@,
    {
        let index = self.nodes.len();
        let node = IndexedNode {
            name: name.to_owned(),
            depth,
            kind: IndexedNodeKind::Structure { subtree_end: index },
            normalized_name: to_lowercase(name),
            parent,
        };
        self.nodes.push(node);
        let end = self.nodes.len();
        self.nodes[index].kind = IndexedNodeKind::Structure { subtree_end: end };
        proof {
            let n1 = old(self).view_nodes();
            let n2 = self.view_nodes();
            assert(n2 =~= n1.push(
                (name@, depth as int, IndexedNodeKind::Structure { subtree_end: (index + 1) as usize }, parent),
            ));
            assert forall|i: int| 0 <= i < self.nodes@.len() implies (#[trigger] self.nodes@[i]).normalized_name@
                == spec_lowercase(self.nodes@[i].name@) by {
                if i < index {
                    assert(self.nodes@[i] == old(self).nodes@[i]);
                }
            }
            assert forall|i: int| 0 <= i < n2.len() implies {
                &&& (#[trigger] n2[i].3 matches Some(p) ==> p < i)
                &&& (n2[i].2 matches IndexedNodeKind::Structure { subtree_end } ==> i < subtree_end
                    <= n2.len())
            } by {
                if i < index {
                    assert(n2[i] == n1[i]);
                }
            }
            Self::lemma_fields_ok_extend(self.fields@, n1, n2);
        }
        index
    }

    /// Closes a structure's contiguous descendant range.
    fn close_structure(&mut self, index: usize)
        requires
            old(self).wf(),
            index < old(self).nodes@.len(),
            old(self).view_nodes()[index as int].2 is Structure,
        ensures
            final(self).wf(),
            final(self).view_nodes() == old(self).view_nodes().update(
                index as int,
                (
                    old(self).view_nodes()[index as int].0,
                    old(self).view_nodes()[index as int].1,
                    IndexedNodeKind::Structure { subtree_end: old(self).nodes@.len() as usize },
                    old(self).view_nodes()[index as int].3,
                ),
            ),
            final(self).fields@ == old(self).fields@,
    {
        let end = self.nodes.len();
        self.nodes[index].kind = IndexedNodeKind::Structure { subtree_end: end };
        proof {
            let n1 = old(self).view_nodes();
            let n2 = self.view_nodes();
            assert(n2 =~= n1.update(
                index as int,
                (n1[index as int].0, n1[index as int].1, IndexedNodeKind::Structure { subtree_end: end }, n1[index as int].3),
            ));
            assert forall|i: int| 0 <= i < self.nodes@.len() implies (#[trigger] self.nodes@[i]).normalized_name@
                == spec_lowercase(self.nodes@[i].name@) by {
                if i != index {
                    assert(self.nodes@[i] == old(self).nodes@[i]);
                }
            }
            assert forall|i: int| 0 <= i < n2.len() implies {
                &&& (#[trigger] n2[i].3 matches Some(p) ==> p < i)
                &&& (n2[i].2 matches IndexedNodeKind::Structure { subtree_end } ==> i < subtree_end
                    <= n2.len())
            } by {
                if i != index {
                    assert(n2[i] == n1[i]);
                }
            }
            Self::lemma_fields_ok_extend(self.fields@, n1, n2);
        }
    }
}

/// The names on the path from the top-level ancestor down to `parent`, or none without a parent.
pub open spec fn spec_parent_chain(nodes: Seq<NodeView>, parent: Option<usize>) -> Seq<Seq<char>> {
    match parent {
        Some(p) => spec_chain(nodes, p as int),
        None => Seq::empty(),
    }
}

proof fn lemma_parent_chain_stable(n1: Seq<NodeView>, n2: Seq<NodeView>, parent: Option<usize>)
    requires
        parent matches Some(p) ==> p < n1.len(),
        n1.len() <= n2.len(),
        forall|j: int| 0 <= j < n1.len() ==> #[trigger] n2[j] == n1[j],
    ensures
        spec_parent_chain(n1, parent) == spec_parent_chain(n2, parent),
{
    if let Some(p) = parent {
        assert forall|j: int| 0 <= j <= p implies (#[trigger] n1[j]).0 == n2[j].0 && n1[j].3
            == n2[j].3 by {
            assert(n2[j] == n1[j]);
        }
        lemma_chain_stable(n1, n2, p as int);
    }
}

proof fn lemma_flatten_one_len(d: FieldDescriptor, depth: int, parent: Option<usize>, start: int)
    ensures
        spec_flatten_one(d, depth, parent, start).len() >= 1,
{
}

proof fn lemma_flatten_from_step(
    descs: Seq<FieldDescriptor>,
    k: int,
    depth: int,
    parent: Option<usize>,
    start: int,
)
    requires
        0 <= k < descs.len(),
    ensures
        spec_flatten_from(descs, k, depth, parent, start) == spec_flatten_one(
            descs[k],
            depth,
            parent,
            start,
        ) + spec_flatten_from(
            descs,
            k + 1,
            depth,
            parent,
            start + spec_flatten_one(descs[k], depth, parent, start).len(),
        ),
{
}

impl DescriptorIndex {
    /// Appends one field row and records its breadcrumb and position under its key.
    fn push_field(
        &mut self,
        name: &str,
        depth: usize,
        parent: Option<usize>,
        data_key: DataKey,
        path: &Vec<Vec<char>>,
    )
        requires
            old(self).wf(),
            parent matches Some(p) ==> p < old(self).nodes@.len(),
            spec_path_view(path@) == spec_parent_chain(old(self).view_nodes(), parent),
        ensures
            final(self).wf(),
            final(self).view_nodes() == old(self).view_nodes().push(
                (name@, depth as int, IndexedNodeKind::Field { data_key }, parent),
            ),
    {
        let crumb = breadcrumb(path, name);
        let node_index = self.nodes.len();
        self.fields.insert(data_key.0, IndexedField { path: crumb, node_index });
        self.nodes.push(
            IndexedNode {
                name: name.to_owned(),
                depth,
                kind: IndexedNodeKind::Field { data_key },
                normalized_name: to_lowercase(name),
                parent,
            },
        );
        proof {
            let n1 = old(self).view_nodes();
            let n2 = self.view_nodes();
            let len1 = n1.len() as int;
            assert(n2 =~= n1.push((name@, depth as int, IndexedNodeKind::Field { data_key }, parent)));
            assert forall|i: int| 0 <= i < self.nodes@.len() implies (#[trigger] self.nodes@[i]).normalized_name@
                == spec_lowercase(self.nodes@[i].name@) by {
                if i < node_index {
                    assert(self.nodes@[i] == old(self).nodes@[i]);
                }
            }
            assert forall|i: int| 0 <= i < n2.len() implies {
                &&& (#[trigger] n2[i].3 matches Some(p) ==> p < i)
                &&& (n2[i].2 matches IndexedNodeKind::Structure { subtree_end } ==> i < subtree_end
                    <= n2.len())
            } by {
                if i < len1 {
                    assert(n2[i] == n1[i]);
                }
            }
            assert forall|j: int| 0 <= j < len1 implies #[trigger] n2[j] == n1[j] by {
                assert(n2[j] == n1[j]);
            }
            lemma_field_map_stable(n1, n2, len1);
            lemma_field_map_bounds(n1, len1);
            let m1 = spec_field_map(n1, len1);
            let m2 = spec_field_map(n2, len1 + 1);
            assert(m2 == m1.insert(data_key.0, node_index));
            let f1 = old(self).fields@;
            let f2 = self.fields@;
            assert(f2.dom() =~= m2.dom());
            assert forall|k: u64| #[trigger] f2.contains_key(k) implies f2[k].node_index == m2[k]
                && f2[k].path@ == spec_field_path(n2, m2[k] as int) by {
                if k == data_key.0 {
                    lemma_parent_chain_stable(n1, n2, parent);
                    assert(spec_ancestor_names(n2, len1) == spec_parent_chain(n2, parent));
                } else {
                    assert(f1.contains_key(k));
                    let i = m1[k] as int;
                    assert forall|j: int| 0 <= j <= i implies (#[trigger] n1[j]).0 == n2[j].0
                        && n1[j].3 == n2[j].3 by {
                        assert(n2[j] == n1[j]);
                    }
                    lemma_field_path_stable(n1, n2, i);
                }
            }
        }
    }
}

impl DescriptorIndex {
    /// Appends one hierarchy level to the flattened descriptor index, depth first.
    ///
    /// A structure row is inserted before its children with a range ending right after it; its
    /// children are appended recursively and the range is then closed after them. `path` holds
    /// the names of the active ancestor structures and is restored before returning.
    fn push_descriptors(
        &mut self,
        descriptors: &[FieldDescriptor],
        depth: usize,
        parent: Option<usize>,
        path: &mut Vec<Vec<char>>,
    )
        requires
            old(self).wf(),
            parent matches Some(p) ==> p < old(self).nodes@.len(),
            depth <= old(self).nodes@.len(),
            spec_path_view(old(path)@) == spec_parent_chain(old(self).view_nodes(), parent),
            old(self).nodes@.len() + spec_flatten_from(
                descriptors@,
                0,
                depth as int,
                parent,
                old(self).nodes@.len() as int,
            ).len() <= usize::MAX,
        ensures
            final(self).wf(),
            final(self).view_nodes() == old(self).view_nodes() + spec_flatten_from(
                descriptors@,
                0,
                depth as int,
                parent,
                old(self).nodes@.len() as int,
            ),
            final(path)@ == old(path)@,
        decreases descriptors@,
    {
        let ghost n0 = self.view_nodes();
        let ghost start = self.nodes@.len() as int;
        let ghost total = n0 + spec_flatten_from(descriptors@, 0, depth as int, parent, start);
        let ghost path0 = path@;
        let mut k: usize = 0;
        while k < descriptors.len()
            invariant
                0 <= k <= descriptors@.len(),
                self.wf(),
                parent matches Some(p) ==> p < start,
                depth <= start <= self.nodes@.len(),
                n0.len() == start,
                forall|j: int| 0 <= j < start ==> #[trigger] self.view_nodes()[j] == n0[j],
                self.view_nodes() + spec_flatten_from(
                    descriptors@,
                    k as int,
                    depth as int,
                    parent,
                    self.nodes@.len() as int,
                ) == total,
                total.len() <= usize::MAX,
                path@ == path0,
                spec_path_view(path0) == spec_parent_chain(n0, parent),
            decreases descriptors.len() - k,
        {
            let ghost cur = self.view_nodes();
            let ghost clen = cur.len() as int;
            let ghost one = spec_flatten_one(descriptors@[k as int], depth as int, parent, clen);
            let ghost rest = spec_flatten_from(descriptors@, k + 1, depth as int, parent, clen + one.len());
            proof {
                lemma_flatten_from_step(descriptors@, k as int, depth as int, parent, clen);
                lemma_flatten_one_len(descriptors@[k as int], depth as int, parent, clen);
                assert(total =~= cur + one + rest);
                lemma_parent_chain_stable(n0, cur, parent);
            }
            match &descriptors[k] {
                FieldDescriptor::Structure { name, fields } => {
                    let index = self.push_structure(name.as_str(), depth, parent);
                    let ghost after_push = self.view_nodes();
                    let ghost children = spec_flatten_from(
                        fields@,
                        0,
                        depth + 1,
                        Some(index),
                        index + 1,
                    );
                    path.push(chars_of(name.as_str()));
                    proof {
                        assert(spec_path_view(path@) =~= spec_path_view(path0).push(name@));
                        lemma_parent_chain_stable(cur, after_push, parent);
                        assert(after_push[index as int] == (
                            name@,
                            depth as int,
                            IndexedNodeKind::Structure { subtree_end: (index + 1) as usize },
                            parent,
                        ));
                        assert(spec_parent_chain(after_push, Some(index)) =~= spec_parent_chain(
                            after_push,
                            parent,
                        ).push(name@));
                        assert(one =~= seq![
                            (
                                name@,
                                depth as int,
                                IndexedNodeKind::Structure {
                                    subtree_end: (clen + 1 + children.len()) as usize,
                                },
                                parent,
                            ),
                        ] + children);
                        assert(decreases_to!(descriptors@ => descriptors@[k as int]));
                        assert(decreases_to!(descriptors@[k as int] => *fields));
                        assert(decreases_to!(*fields => fields@));
                    }
                    self.push_descriptors(fields.as_slice(), depth + 1, Some(index), path);
                    let ghost after_children = self.view_nodes();
                    path.pop();
                    self.close_structure(index);
                    proof {
                        assert(after_children == after_push + children);
                        assert(self.view_nodes() =~= cur + one);
                    }
                },
                FieldDescriptor::Field { name, data_key, .. } => {
                    self.push_field(name.as_str(), depth, parent, *data_key, path);
                    proof {
                        assert(self.view_nodes() =~= cur + one);
                    }
                },
                FieldDescriptor::EnumField { name, data_key, .. } => {
                    self.push_field(name.as_str(), depth, parent, *data_key, path);
                    proof {
                        assert(self.view_nodes() =~= cur + one);
                    }
                },
            }
            proof {
                assert(self.view_nodes() + rest =~= total);
                assert forall|j: int| 0 <= j < start implies #[trigger] self.view_nodes()[j] == n0[j] by {
                    assert(self.view_nodes()[j] == cur[j]);
                }
            }
            k += 1;
        }
        proof {
            assert(self.view_nodes() =~= total);
        }
    }
}

proof fn lemma_index_nodes_prefix(
    schemas: Seq<(MessageKey, MessageDescriptor)>,
    keys: Seq<MessageKey>,
    i: int,
)
    requires
        0 <= i <= keys.len(),
    ensures
        spec_index_nodes(schemas, keys.subrange(0, i)).len() <= spec_index_nodes(schemas, keys).len(),
    decreases keys.len() - i,
{
    if i < keys.len() {
        lemma_index_nodes_prefix(schemas, keys, i + 1);
        assert(keys.subrange(0, i + 1).drop_last() =~= keys.subrange(0, i));
    } else {
        assert(keys.subrange(0, i) =~= keys);
    }
}

impl DescriptorIndex {
    /// Builds the stream index from the protocol descriptor: each stream message that has a
    /// schema becomes a top-level structure row containing its schema fields.
    pub fn build(protocol: &ProtocolDescriptor) -> (index: Self)
        requires
            spec_index_nodes(protocol.message_schemas@, protocol.stream_messages@).len()
                <= usize::MAX,
        ensures
            index.wf(),
            index.view_nodes() == spec_index_nodes(
                protocol.message_schemas@,
                protocol.stream_messages@,
            ),
            spec_nested_by_depth(index.view_nodes()),
            spec_top_names(index.view_nodes()) == spec_stream_names(
                protocol.message_schemas@,
                protocol.stream_messages@,
            ),
    {
        let ghost schemas = protocol.message_schemas@;
        let ghost keys = protocol.stream_messages@;
        let mut index = DescriptorIndex { nodes: Vec::new(), fields: HashMap::new() };
        let mut path: Vec<Vec<char>> = Vec::new();
        proof {
            assert(index.view_nodes() =~= Seq::<NodeView>::empty());
            assert(index.fields@.dom() =~= spec_field_map(index.view_nodes(), 0).dom());
        }
        let mut i: usize = 0;
        while i < protocol.stream_messages.len()
            invariant
                i <= keys.len(),
                schemas == protocol.message_schemas@,
                keys == protocol.stream_messages@,
                index.wf(),
                index.view_nodes() == spec_index_nodes(schemas, keys.subrange(0, i as int)),
                path@.len() == 0,
                spec_index_nodes(schemas, keys).len() <= usize::MAX,
            decreases keys.len() - i,
        {
            let key = protocol.stream_messages[i];
            let ghost cur = index.view_nodes();
            proof {
                lemma_index_nodes_prefix(schemas, keys, i + 1);
                assert(keys.subrange(0, i + 1).drop_last() =~= keys.subrange(0, i as int));
                assert(keys.subrange(0, i + 1).last() == key);
            }
            match protocol.message_schema(key) {
                None => {},
                Some(message) => {
                    let ghost start = cur.len() as int;
                    let message_index = index.push_structure(message.name.as_str(), 0, None);
                    let ghost after_push = index.view_nodes();
                    let ghost children = spec_flatten_from(
                        message.fields@,
                        0,
                        1,
                        Some(message_index),
                        message_index + 1,
                    );
                    path.push(chars_of(message.name.as_str()));
                    proof {
                        assert(spec_path_view(path@) =~= seq![message.name@]);
                        assert(spec_parent_chain(after_push, Some(message_index)) =~= seq![
                            message.name@,
                        ]);
                        assert(spec_message_nodes(*message, start) =~= seq![
                            (
                                message.name@,
                                0int,
                                IndexedNodeKind::Structure {
                                    subtree_end: (start + 1 + children.len()) as usize,
                                },
                                None::<usize>,
                            ),
                        ] + children);
                    }
                    index.push_descriptors(message.fields.as_slice(), 1, Some(message_index), &mut path);
                    let ghost after_children = index.view_nodes();
                    path.pop();
                    index.close_structure(message_index);
                    proof {
                        assert(after_children == after_push + children);
                        assert(index.view_nodes() =~= cur + spec_message_nodes(*message, start));
                    }
                },
            }
            i += 1;
        }
        proof {
            assert(keys.subrange(0, i as int) =~= keys);
            law_index_is_nested_by_depth(schemas, keys);
        }
        index
    }
}

/// The node recorded for field key `k`: the last field node that carries it.
pub open spec fn spec_field_lookup(nodes: Seq<NodeView>, k: u64) -> Option<usize> {
    let m = spec_field_map(nodes, nodes.len() as int);
    if m.contains_key(k) {
        Some(m[k])
    } else {
        None
    }
}

/// Whether `rows` lists in increasing order exactly the search results of the normalized query
/// `q`: the rows brought in by some matching node.
pub open spec fn spec_is_search_result(nodes: Seq<NodeView>, q: Seq<char>, rows: Seq<usize>) -> bool {
    &&& forall|a: int, b: int| 0 <= a < b < rows.len() ==> rows[a] < rows[b]
    &&& forall|a: int|
        0 <= a < rows.len() ==> #[trigger] rows[a] < nodes.len() && spec_revealed_before(
            nodes,
            q,
            nodes.len() as int,
            rows[a] as int,
        )
    &&& forall|j: int|
        0 <= j < nodes.len() && #[trigger] spec_revealed_before(nodes, q, nodes.len() as int, j)
            ==> rows.contains(j as usize)
}

proof fn lemma_revealed_step(nodes: Seq<NodeView>, q: Seq<char>, k: int, j: int)
    requires
        0 <= k,
    ensures
        spec_revealed_before(nodes, q, k + 1, j) == (spec_revealed_before(nodes, q, k, j)
            || spec_reveals(nodes, q, k, j)),
{
    if spec_revealed_before(nodes, q, k + 1, j) {
        let m = choose|m: int| 0 <= m < k + 1 && #[trigger] spec_reveals(nodes, q, m, j);
        if m < k {
            assert(spec_revealed_before(nodes, q, k, j));
        }
    }
    if spec_revealed_before(nodes, q, k, j) {
        let m = choose|m: int| 0 <= m < k && #[trigger] spec_reveals(nodes, q, m, j);
        assert(0 <= m < k + 1 && spec_reveals(nodes, q, m, j));
    }
    if spec_reveals(nodes, q, k, j) {
        assert(0 <= k < k + 1 && spec_reveals(nodes, q, k, j));
    }
}

proof fn lemma_ancestor_before(nodes: Seq<NodeView>, a: int, i: int)
    requires
        spec_is_ancestor_or_self(nodes, a, i),
    ensures
        a <= i,
    decreases i,
{
    if 0 <= i < nodes.len() && i != a {
        if let Some(p) = nodes[i].3 {
            if 0 <= p < i {
                lemma_ancestor_before(nodes, a, p as int);
            }
        }
    }
}

/// The positions of the set flags, in increasing order.
fn set_positions(flags: &Vec<bool>) -> (rows: Vec<usize>)
    ensures
        forall|a: int, b: int| 0 <= a < b < rows@.len() ==> rows@[a] < rows@[b],
        forall|a: int|
            0 <= a < rows@.len() ==> #[trigger] rows@[a] < flags@.len() && flags@[rows@[a] as int],
        forall|j: int| 0 <= j < flags@.len() && #[trigger] flags@[j] ==> rows@.contains(j as usize),
{
    let mut rows: Vec<usize> = Vec::new();
    let mut j: usize = 0;
    while j < flags.len()
        invariant
            j <= flags@.len(),
            forall|a: int, b: int| 0 <= a < b < rows@.len() ==> rows@[a] < rows@[b],
            forall|a: int| 0 <= a < rows@.len() ==> #[trigger] rows@[a] < j && flags@[rows@[a] as int],
            forall|t: int| 0 <= t < j && #[trigger] flags@[t] ==> rows@.contains(t as usize),
        decreases flags.len() - j,
    {
        let ghost before = rows@;
        if flags[j] {
            rows.push(j);
            proof {
                assert(rows@[before.len() as int] == j);
                assert forall|t: int| 0 <= t < j && #[trigger] flags@[t] implies rows@.contains(
                    t as usize,
                ) by {
                    let w = choose|w: int| 0 <= w < before.len() && before[w] == t as usize;
                    assert(rows@[w] == t as usize);
                }
            }
        }
        j += 1;
    }
    rows
}

impl DescriptorIndex {
    /// Returns all indexed nodes in hierarchy traversal order.
    pub fn nodes(&self) -> (r: &[IndexedNode])
        ensures
            spec_nodes_view(r@) == self.view_nodes(),
            self.wf() ==> forall|i: int|
                0 <= i < r@.len() ==> (#[trigger] r@[i]).normalized_name@ == spec_lowercase(
                    r@[i].name@,
                ),
    {
        self.nodes.as_slice()
    }

    /// Returns the breadcrumb associated with a selected data key.
    pub fn field_path(&self, data_key: DataKey) -> (r: Option<&str>)
        requires
            self.wf(),
        ensures
            match spec_field_lookup(self.view_nodes(), data_key.0) {
                Some(i) => r matches Some(s) && s@ == spec_field_path(self.view_nodes(), i as int),
                None => r is None,
            },
    {
        match self.fields.get(&data_key.0) {
            Some(field) => Some(field.path.as_str()),
            None => None,
        }
    }

    /// Returns the flattened node position associated with a data key.
    pub fn field_node(&self, data_key: DataKey) -> (r: Option<usize>)
        requires
            self.wf(),
        ensures
            r == spec_field_lookup(self.view_nodes(), data_key.0),
    {
        match self.fields.get(&data_key.0) {
            Some(field) => Some(field.node_index),
            None => None,
        }
    }

    /// Returns browsable rows according to the expanded structure nodes.
    ///
    /// Every top-level structure is included. Children of expanded structures are visited
    /// normally, while a collapsed structure advances directly to its exclusive `subtree_end`.
    pub fn visible_rows(&self, expanded: &HashSet<usize>) -> (rows: Vec<usize>)
        requires
            self.wf(),
        ensures
            rows@ == spec_visible_from(self.view_nodes(), expanded@, 0),
    {
        let ghost nodes = self.view_nodes();
        let mut rows: Vec<usize> = Vec::new();
        let mut index: usize = 0;
        while index < self.nodes.len()
            invariant
                index <= nodes.len(),
                nodes == self.view_nodes(),
                self.wf(),
                rows@ + spec_visible_from(nodes, expanded@, index as int) == spec_visible_from(
                    nodes,
                    expanded@,
                    0,
                ),
            decreases nodes.len() - index,
        {
            let ghost before = rows@;
            rows.push(index);
            proof {
                assert(nodes[index as int] == spec_node_view(self.nodes@[index as int]));
                assert(nodes[index as int].3 matches Some(p) ==> p < index);
                assert(rows@ + spec_visible_from(
                    nodes,
                    expanded@,
                    spec_next_visible(nodes, expanded@, index as int),
                ) =~= before + spec_visible_from(nodes, expanded@, index as int));
            }
            match self.nodes[index].kind {
                IndexedNodeKind::Structure { subtree_end } => {
                    if !expanded.contains(&index) {
                        index = subtree_end;
                    } else {
                        index += 1;
                    }
                },
                IndexedNodeKind::Field { .. } => {
                    index += 1;
                },
            }
        }
        proof {
            assert(rows@ =~= rows@ + spec_visible_from(nodes, expanded@, index as int));
        }
        rows
    }
}

impl DescriptorIndex {
    /// Marks node `index` and each of its ancestors.
    fn mark_ancestors(&self, included: &mut Vec<bool>, index: usize, Ghost(q): Ghost<Seq<char>>)
        requires
            self.wf(),
            index < self.nodes@.len(),
            old(included)@.len() == self.nodes@.len(),
            forall|j: int|
                0 <= j < self.nodes@.len() ==> (#[trigger] old(included)@[j] <==> spec_revealed_before(
                    self.view_nodes(),
                    q,
                    index as int,
                    j,
                )),
        ensures
            final(included)@.len() == self.nodes@.len(),
            forall|j: int|
                0 <= j < self.nodes@.len() ==> (#[trigger] final(included)@[j] <==> (
                spec_revealed_before(self.view_nodes(), q, index as int, j)
                    || spec_is_ancestor_or_self(self.view_nodes(), j, index as int))),
    {
        let ghost nodes = self.view_nodes();
        let ghost n = nodes.len() as int;
        let mut a: usize = index;
        proof {
            assert forall|j: int| 0 <= j < n implies (#[trigger] included@[j] <==> (
            spec_revealed_before(nodes, q, index as int, j) || (spec_is_ancestor_or_self(
                nodes,
                j,
                index as int,
            ) && !spec_is_ancestor_or_self(nodes, j, a as int)))) by {}
        }
        loop
            invariant_except_break
                forall|j: int|
                    0 <= j < n ==> (#[trigger] included@[j] <==> (spec_revealed_before(
                        nodes,
                        q,
                        index as int,
                        j,
                    ) || (spec_is_ancestor_or_self(nodes, j, index as int)
                        && !spec_is_ancestor_or_self(nodes, j, a as int)))),
                forall|j: int|
                    #[trigger] spec_is_ancestor_or_self(nodes, j, a as int)
                        ==> spec_is_ancestor_or_self(nodes, j, index as int),
            invariant
                self.wf(),
                nodes == self.view_nodes(),
                n == nodes.len(),
                a <= index < n,
                included@.len() == n,
            ensures
                included@.len() == n,
                forall|j: int|
                    0 <= j < n ==> (#[trigger] included@[j] <==> (spec_revealed_before(
                        nodes,
                        q,
                        index as int,
                        j,
                    ) || spec_is_ancestor_or_self(nodes, j, index as int))),
            decreases a,
        {
            let ghost before = included@;
            included.set(a, true);
            proof {
                assert(nodes[a as int] == spec_node_view(self.nodes@[a as int]));
                assert(nodes[a as int].3 matches Some(p) ==> p < a);
                assert(spec_is_ancestor_or_self(nodes, a as int, a as int));
            }
            match self.nodes[a].parent {
                Some(p) => {
                    proof {
                        assert forall|j: int| 0 <= j < n implies (#[trigger] included@[j] <==> (
                        spec_revealed_before(nodes, q, index as int, j) || (
                        spec_is_ancestor_or_self(nodes, j, index as int)
                            && !spec_is_ancestor_or_self(nodes, j, p as int)))) by {
                            if j == a {
                                if spec_is_ancestor_or_self(nodes, j, p as int) {
                                    lemma_ancestor_before(nodes, j, p as int);
                                }
                            } else {
                                assert(included@[j] == before[j]);
                            }
                        }
                        assert forall|j: int| #[trigger]
                            spec_is_ancestor_or_self(nodes, j, p as int)
                                implies spec_is_ancestor_or_self(nodes, j, index as int) by {
                            assert(spec_is_ancestor_or_self(nodes, j, a as int));
                        }
                    }
                    a = p;
                },
                None => {
                    proof {
                        assert forall|j: int| 0 <= j < n implies (#[trigger] included@[j] <==> (
                        spec_revealed_before(nodes, q, index as int, j)
                            || spec_is_ancestor_or_self(nodes, j, index as int))) by {
                            if j != a {
                                assert(included@[j] == before[j]);
                            }
                        }
                    }
                    break ;
                },
            }
        }
    }

    /// Filters matching nodes while retaining their hierarchy context.
    ///
    /// The query is trimmed and lowercased before substring matching. A matching field includes
    /// each ancestor required to show its complete path; a matching structure includes both its
    /// ancestors and its entire subtree. Rows keep the depth-first order of the index, and an
    /// empty query matches nothing.
    pub fn filtered_rows(&self, query: &str) -> (rows: Vec<usize>)
        requires
            self.wf(),
        ensures
            spec_normalize_query(query@).len() == 0 ==> rows@.len() == 0,
            spec_normalize_query(query@).len() > 0 ==> spec_is_search_result(
                self.view_nodes(),
                spec_normalize_query(query@),
                rows@,
            ),
    {
        let normalized = normalize_query(query);
        let q = chars_of(normalized.as_str());
        if q.len() == 0 {
            return Vec::new();
        }
        let ghost nodes = self.view_nodes();
        let n = self.nodes.len();
        let mut included: Vec<bool> = Vec::new();
        while included.len() < n
            invariant
                included@.len() <= n,
                forall|j: int| 0 <= j < included@.len() ==> !#[trigger] included@[j],
            decreases n - included@.len(),
        {
            included.push(false);
        }
        let mut index: usize = 0;
        while index < n
            invariant
                self.wf(),
                nodes == self.view_nodes(),
                n == nodes.len(),
                index <= n,
                included@.len() == n,
                forall|j: int|
                    0 <= j < n ==> (#[trigger] included@[j] <==> spec_revealed_before(
                        nodes,
                        q@,
                        index as int,
                        j,
                    )),
            decreases n - index,
        {
            let name = chars_of(self.nodes[index].normalized_name.as_str());
            let matched = contains_chars(name.as_slice(), q.as_slice());
            proof {
                assert(nodes[index as int] == spec_node_view(self.nodes@[index as int]));
                assert(self.nodes@[index as int].normalized_name@ == spec_lowercase(
                    self.nodes@[index as int].name@,
                ));
                assert(matched == spec_node_matches(nodes, q@, index as int));
                assert(nodes[index as int].3 matches Some(p) ==> p < index);
            }
            if matched {
                self.mark_ancestors(&mut included, index, Ghost(q@));
                match self.nodes[index].kind {
                    IndexedNodeKind::Structure { subtree_end } => {
                        let mut t: usize = index;
                        while t < subtree_end
                            invariant
                                index <= t <= subtree_end <= n,
                                included@.len() == n,
                                forall|j: int|
                                    0 <= j < n ==> (#[trigger] included@[j] <==> (
                                    spec_revealed_before(nodes, q@, index as int, j)
                                        || spec_is_ancestor_or_self(nodes, j, index as int) || (
                                    index <= j < t))),
                            decreases subtree_end - t,
                        {
                            included.set(t, true);
                            t += 1;
                        }
                    },
                    IndexedNodeKind::Field { .. } => {},
                }
                proof {
                    assert forall|j: int| 0 <= j < n implies (#[trigger] included@[j]
                        <==> spec_revealed_before(nodes, q@, index + 1, j)) by {
                        lemma_revealed_step(nodes, q@, index as int, j);
                    }
                }
            } else {
                proof {
                    assert forall|j: int| 0 <= j < n implies (#[trigger] included@[j]
                        <==> spec_revealed_before(nodes, q@, index + 1, j)) by {
                        lemma_revealed_step(nodes, q@, index as int, j);
                    }
                }
            }
            index += 1;
        }
        let rows = set_positions(&included);
        proof {
            assert forall|j: int|
                0 <= j < nodes.len() && #[trigger] spec_revealed_before(
                    nodes,
                    q@,
                    nodes.len() as int,
                    j,
                ) implies rows@.contains(j as usize) by {
                assert(included@[j]);
            }
            assert forall|a: int| 0 <= a < rows@.len() implies #[trigger] rows@[a] < nodes.len()
                && spec_revealed_before(nodes, q@, nodes.len() as int, rows@[a] as int) by {
                assert(included@[rows@[a] as int]);
            }
        }
        rows
    }
}

/// Whether `rows` is what [`DescriptorIndex::filtered_rows`] returns for `query` over `nodes`.
pub open spec fn spec_filtered_rows(nodes: Seq<NodeView>, query: Seq<char>, rows: Seq<usize>) -> bool {
    &&& spec_normalize_query(query).len() == 0 ==> rows.len() == 0
    &&& spec_normalize_query(query).len() > 0 ==> spec_is_search_result(
        nodes,
        spec_normalize_query(query),
        rows,
    )
}

/// One adapter's matching rows for a query, kept with the adapter identity they were computed for.
///
/// Holding the token keeps the identity alive while the cached rows remain reachable.
#[derive(Debug)]
pub struct CachedSearch {
    adapter_token: DataAdapterInstanceToken,
    rows: Vec<usize>,
}

impl CachedSearch {
    /// The cached matching rows.
    pub closed spec fn view_rows(&self) -> Seq<usize> {
        self.rows@
    }

    /// Resolves matching rows for one installed adapter and query.
    pub fn resolve(index: &DescriptorIndex, adapter_token: &DataAdapterInstanceToken, query: &str) -> (r: Self)
        requires
            index.wf(),
        ensures
            spec_filtered_rows(index.view_nodes(), query@, r.view_rows()),
    {
        CachedSearch { adapter_token: adapter_token.clone(), rows: index.filtered_rows(query) }
    }

    /// Returns the indexed rows matching the cached query.
    pub fn rows(&self) -> (r: &[usize])
        ensures
            r@ == self.view_rows(),
    {
        self.rows.as_slice()
    }
}

} // verus!
