//! The nesting of the flattened protocol hierarchy: the rows inside a structure's range are
//! exactly its descendants.

use vstd::prelude::*;

use crate::dataflow::MessageKey;
use crate::descriptor_index::{
    spec_flatten_from, spec_flatten_one, spec_index_nodes, spec_is_ancestor_or_self, spec_message_nodes,
    spec_node_matches, spec_reveals, IndexedNodeKind, NodeView,
};
use crate::protocol::{spec_schema, FieldDescriptor, MessageDescriptor};

verus! {

/// Whether row `j` of `chunk`, placed from position `start`, has parent `parent`, or a parent
/// inside the chunk before it: a structure whose range covers row `j`.
pub open spec fn spec_parent_in_chunk(chunk: Seq<NodeView>, start: int, parent: Option<usize>, j: int) -> bool {
    ||| chunk[j].3 == parent
    ||| (chunk[j].3 matches Some(p) && start <= p < start + j && (chunk[p - start].2 matches IndexedNodeKind::Structure {
        subtree_end,
    } && start + j < subtree_end))
}

/// Whether row `r` lies inside the range ending at `end` of the structure at row `j`: its parent
/// is the structure or a row after it, and its own range, if any, ends within `end`.
pub open spec fn spec_inside(chunk: Seq<NodeView>, start: int, j: int, r: int, end: int) -> bool {
    &&& (chunk[r - start].3 matches Some(p) && start + j <= p)
    &&& (chunk[r - start].2 matches IndexedNodeKind::Structure { subtree_end } ==> subtree_end <= end)
}

/// Whether the range of row `j`, when it is a structure, ends within the chunk and holds only
/// rows inside it.
pub open spec fn spec_range_in_chunk(chunk: Seq<NodeView>, start: int, j: int) -> bool {
    chunk[j].2 matches IndexedNodeKind::Structure { subtree_end } ==> {
        &&& start + j < subtree_end <= start + chunk.len()
        &&& forall|r: int|
            start + j < r < subtree_end ==> #[trigger] spec_inside(chunk, start, j, r, subtree_end as int)
    }
}

/// Whether `chunk`, placed from position `start` below `parent`, is properly nested.
pub open spec fn spec_chunk_nested(chunk: Seq<NodeView>, start: int, parent: Option<usize>) -> bool {
    &&& forall|j: int| 0 <= j < chunk.len() ==> #[trigger] spec_parent_in_chunk(chunk, start, parent, j)
    &&& forall|j: int| 0 <= j < chunk.len() ==> #[trigger] spec_range_in_chunk(chunk, start, j)
}

proof fn lemma_nested_concat(a: Seq<NodeView>, b: Seq<NodeView>, start: int, parent: Option<usize>)
    requires
        spec_chunk_nested(a, start, parent),
        spec_chunk_nested(b, start + a.len(), parent),
    ensures
        spec_chunk_nested(a + b, start, parent),
{
    let all = a + b;
    let sb = start + a.len();
    assert forall|j: int| 0 <= j < all.len() implies #[trigger] spec_parent_in_chunk(all, start, parent, j) by {
        if j < a.len() {
            assert(all[j] == a[j]);
            assert(spec_parent_in_chunk(a, start, parent, j));
            if let Some(p) = a[j].3 {
                if a[j].3 != parent {
                    assert(all[p - start] == a[p - start]);
                }
            }
        } else {
            let jb = j - a.len();
            assert(all[j] == b[jb]);
            assert(spec_parent_in_chunk(b, sb, parent, jb));
            if let Some(p) = b[jb].3 {
                if b[jb].3 != parent {
                    assert(all[p - start] == b[p - sb]);
                }
            }
        }
    }
    assert forall|j: int| 0 <= j < all.len() implies #[trigger] spec_range_in_chunk(all, start, j) by {
        if j < a.len() {
            assert(all[j] == a[j]);
            assert(spec_range_in_chunk(a, start, j));
            if let IndexedNodeKind::Structure { subtree_end } = a[j].2 {
                assert forall|r: int| start + j < r < subtree_end implies #[trigger] spec_inside(
                    all,
                    start,
                    j,
                    r,
                    subtree_end as int,
                ) by {
                    assert(spec_inside(a, start, j, r, subtree_end as int));
                    assert(all[r - start] == a[r - start]);
                }
            }
        } else {
            let jb = j - a.len();
            assert(all[j] == b[jb]);
            assert(spec_range_in_chunk(b, sb, jb));
            if let IndexedNodeKind::Structure { subtree_end } = b[jb].2 {
                assert forall|r: int| start + j < r < subtree_end implies #[trigger] spec_inside(
                    all,
                    start,
                    j,
                    r,
                    subtree_end as int,
                ) by {
                    assert(spec_inside(b, sb, jb, r, subtree_end as int));
                    assert(all[r - start] == b[r - sb]);
                }
            }
        }
    }
}

proof fn lemma_nested_wrap(
    name: Seq<char>,
    depth: int,
    children: Seq<NodeView>,
    start: int,
    parent: Option<usize>,
)
    requires
        0 <= start,
        start + 1 + children.len() <= usize::MAX,
        parent matches Some(p) ==> p < start,
        spec_chunk_nested(children, start + 1, Some(start as usize)),
    ensures
        spec_chunk_nested(
            seq![
                (
                    name,
                    depth,
                    IndexedNodeKind::Structure { subtree_end: (start + 1 + children.len()) as usize },
                    parent,
                ),
            ] + children,
            start,
            parent,
        ),
{
    let end = start + 1 + children.len();
    let head: NodeView = (name, depth, IndexedNodeKind::Structure { subtree_end: end as usize }, parent);
    let all = seq![head] + children;
    assert(all[0] == head);
    assert forall|j: int| 0 <= j < all.len() implies #[trigger] spec_parent_in_chunk(all, start, parent, j) by {
        if j > 0 {
            assert(all[j] == children[j - 1]);
            assert(spec_parent_in_chunk(children, start + 1, Some(start as usize), j - 1));
            if let Some(p) = children[j - 1].3 {
                if p != start {
                    assert(all[p - start] == children[p - start - 1]);
                }
            }
        }
    }
    assert forall|j: int| 0 <= j < all.len() implies #[trigger] spec_range_in_chunk(all, start, j) by {
        if j == 0 {
            assert forall|r: int| start < r < end implies #[trigger] spec_inside(all, start, 0, r, end) by {
                let c = r - start - 1;
                assert(all[r - start] == children[c]);
                assert(spec_parent_in_chunk(children, start + 1, Some(start as usize), c));
                assert(spec_range_in_chunk(children, start + 1, c));
            }
        } else {
            assert(all[j] == children[j - 1]);
            assert(spec_range_in_chunk(children, start + 1, j - 1));
            if let IndexedNodeKind::Structure { subtree_end } = children[j - 1].2 {
                assert forall|r: int| start + j < r < subtree_end implies #[trigger] spec_inside(
                    all,
                    start,
                    j,
                    r,
                    subtree_end as int,
                ) by {
                    assert(spec_inside(children, start + 1, j - 1, r, subtree_end as int));
                    assert(all[r - start] == children[r - start - 1]);
                }
            }
        }
    }
}

proof fn lemma_flatten_from_nested(
    descs: Seq<FieldDescriptor>,
    k: int,
    depth: int,
    parent: Option<usize>,
    start: int,
)
    requires
        0 <= start,
        parent matches Some(p) ==> p < start,
        start + spec_flatten_from(descs, k, depth, parent, start).len() <= usize::MAX,
    ensures
        spec_chunk_nested(spec_flatten_from(descs, k, depth, parent, start), start, parent),
    decreases descs, descs.len() - k,
{
    if 0 <= k < descs.len() {
        let first = spec_flatten_one(descs[k], depth, parent, start);
        let rest = spec_flatten_from(descs, k + 1, depth, parent, start + first.len());
        lemma_flatten_one_nested(descs[k], depth, parent, start);
        lemma_flatten_from_nested(descs, k + 1, depth, parent, start + first.len());
        lemma_nested_concat(first, rest, start, parent);
    }
}

proof fn lemma_flatten_one_nested(d: FieldDescriptor, depth: int, parent: Option<usize>, start: int)
    requires
        0 <= start,
        parent matches Some(p) ==> p < start,
        start + spec_flatten_one(d, depth, parent, start).len() <= usize::MAX,
    ensures
        spec_chunk_nested(spec_flatten_one(d, depth, parent, start), start, parent),
    decreases d, 0int,
{
    match d {
        FieldDescriptor::Structure { name, fields } => {
            lemma_flatten_from_nested(fields@, 0, depth + 1, Some(start as usize), start + 1);
            let children = spec_flatten_from(fields@, 0, depth + 1, Some(start as usize), start + 1);
            lemma_nested_wrap(name@, depth, children, start, parent);
        },
        _ => {
            let all = spec_flatten_one(d, depth, parent, start);
            assert(spec_parent_in_chunk(all, start, parent, 0));
            assert(spec_range_in_chunk(all, start, 0));
        },
    }
}

proof fn lemma_index_nested(schemas: Seq<(MessageKey, MessageDescriptor)>, keys: Seq<MessageKey>)
    requires
        spec_index_nodes(schemas, keys).len() <= usize::MAX,
    ensures
        spec_chunk_nested(spec_index_nodes(schemas, keys), 0, None),
    decreases keys.len(),
{
    if keys.len() > 0 {
        let prev = spec_index_nodes(schemas, keys.drop_last());
        lemma_index_nested(schemas, keys.drop_last());
        if let Some(m) = spec_schema(schemas, keys.last()) {
            let start = prev.len() as int;
            lemma_flatten_from_nested(m.fields@, 0, 1, Some(start as usize), start + 1);
            let children = spec_flatten_from(m.fields@, 0, 1, Some(start as usize), start + 1);
            lemma_nested_wrap(m.name@, 0, children, start, None);
            assert(spec_message_nodes(m, start) == seq![
                (
                    m.name@,
                    0int,
                    IndexedNodeKind::Structure { subtree_end: (start + 1 + children.len()) as usize },
                    None::<usize>,
                ),
            ] + children);
            lemma_nested_concat(prev, spec_message_nodes(m, start), 0, None);
        }
    }
}

/// Rows strictly inside a structure's range descend from it.
#[verifier::spinoff_prover]
proof fn lemma_inside_descends(nodes: Seq<NodeView>, i: int, j: int)
    requires
        spec_chunk_nested(nodes, 0, None),
        0 <= i < nodes.len(),
        nodes[i].2 matches IndexedNodeKind::Structure { subtree_end } && i < j < subtree_end,
    ensures
        spec_is_ancestor_or_self(nodes, i, j),
    decreases j,
{
    let end = nodes[i].2->subtree_end;
    assert(spec_range_in_chunk(nodes, 0, i));
    assert(j < nodes.len());
    assert(spec_inside(nodes, 0, i, j, end as int));
    assert(nodes[j - 0] == nodes[j]);
    assert(spec_parent_in_chunk(nodes, 0, None, j));
    let p = nodes[j].3->0;
    assert(nodes[j].3 == Some(p) && i <= p < j);
    if p != i {
        lemma_inside_descends(nodes, i, p as int);
    } else {
        assert(spec_is_ancestor_or_self(nodes, i, p as int));
    }
    assert(spec_is_ancestor_or_self(nodes, i, p as int));
}

/// Descendants of a structure lie strictly inside its range.
#[verifier::spinoff_prover]
proof fn lemma_descendants_inside(nodes: Seq<NodeView>, i: int, j: int)
    requires
        spec_chunk_nested(nodes, 0, None),
        0 <= i < nodes.len(),
        nodes[i].2 is Structure,
        j != i,
        spec_is_ancestor_or_self(nodes, i, j),
    ensures
        i < j < nodes[i].2->subtree_end,
    decreases j,
{
    let end = nodes[i].2->subtree_end;
    let p = nodes[j].3->0;
    assert(spec_parent_in_chunk(nodes, 0, None, j));
    if p != i {
        lemma_descendants_inside(nodes, i, p as int);
        assert(spec_range_in_chunk(nodes, 0, i));
        assert(spec_inside(nodes, 0, i, p as int, end as int));
    }
}

/// The rows inside a structure's range are exactly its descendants: for the rows of a built
/// stream index, a row `j` lies after structure row `i` and before its `subtree_end` exactly when
/// `j` descends from `i`.
pub proof fn law_structure_range_holds_its_descendants(
    schemas: Seq<(MessageKey, MessageDescriptor)>,
    keys: Seq<MessageKey>,
    i: int,
    j: int,
)
    requires
        spec_index_nodes(schemas, keys).len() <= usize::MAX,
        0 <= i < spec_index_nodes(schemas, keys).len(),
        0 <= j < spec_index_nodes(schemas, keys).len(),
        spec_index_nodes(schemas, keys)[i].2 is Structure,
    ensures
        ({
            let nodes = spec_index_nodes(schemas, keys);
            (i < j < nodes[i].2->subtree_end) <==> (j != i && spec_is_ancestor_or_self(nodes, i, j))
        }),
{
    let nodes = spec_index_nodes(schemas, keys);
    lemma_index_nested(schemas, keys);
    if i < j < nodes[i].2->subtree_end {
        lemma_inside_descends(nodes, i, j);
    }
    if j != i && spec_is_ancestor_or_self(nodes, i, j) {
        lemma_descendants_inside(nodes, i, j);
    }
}


proof fn lemma_ancestor_is_structure(nodes: Seq<NodeView>, a: int, m: int)
    requires
        spec_chunk_nested(nodes, 0, None),
        a != m,
        spec_is_ancestor_or_self(nodes, a, m),
    ensures
        nodes[a].2 is Structure,
    decreases m,
{
    assert(spec_parent_in_chunk(nodes, 0, None, m));
    let p = nodes[m].3->0 as int;
    if p != a {
        lemma_ancestor_is_structure(nodes, a, p);
    }
}

/// A match at row `m` of a built stream index brings row `j` into the search results exactly
/// when `j` is `m`, or a structure whose range holds `m`, or a row in `m`'s own range when `m` is
/// a structure.
pub proof fn law_search_reveals_by_ranges(
    schemas: Seq<(MessageKey, MessageDescriptor)>,
    keys: Seq<MessageKey>,
    q: Seq<char>,
    m: int,
    j: int,
)
    requires
        spec_index_nodes(schemas, keys).len() <= usize::MAX,
        0 <= m < spec_index_nodes(schemas, keys).len(),
        0 <= j < spec_index_nodes(schemas, keys).len(),
    ensures
        ({
            let nodes = spec_index_nodes(schemas, keys);
            spec_reveals(nodes, q, m, j) <==> spec_node_matches(nodes, q, m) && {
                ||| j == m
                ||| (nodes[j].2 matches IndexedNodeKind::Structure { subtree_end } && j < m < subtree_end)
                ||| (nodes[m].2 matches IndexedNodeKind::Structure { subtree_end } && m < j < subtree_end)
            }
        }),
{
    let nodes = spec_index_nodes(schemas, keys);
    lemma_index_nested(schemas, keys);
    if j != m && spec_is_ancestor_or_self(nodes, j, m) {
        lemma_ancestor_is_structure(nodes, j, m);
        law_structure_range_holds_its_descendants(schemas, keys, j, m);
    }
    if nodes[j].2 is Structure {
        law_structure_range_holds_its_descendants(schemas, keys, j, m);
    }
    if m == j {
        assert(spec_is_ancestor_or_self(nodes, j, m));
    }
}

/// Whether the rows of `chunk`, placed from position `start` with top-level depth `depth`, are
/// nested by depth: the first row has depth `depth` and no row less; the rows inside a
/// structure's range are deeper than it; and a row right after a structure's range, within the
/// chunk, is no deeper than the structure.
pub open spec fn spec_chunk_depths(chunk: Seq<NodeView>, start: int, depth: int) -> bool {
    &&& chunk.len() > 0 ==> chunk[0].1 == depth
    &&& forall|j: int| 0 <= j < chunk.len() ==> (#[trigger] chunk[j]).1 >= depth
    &&& forall|j: int| 0 <= j < chunk.len() ==> #[trigger] spec_depth_range(chunk, start, j)
}

/// Whether the range of row `j`, when it is a structure, holds only deeper rows and is followed,
/// within the chunk, by a row no deeper than it.
pub open spec fn spec_depth_range(chunk: Seq<NodeView>, start: int, j: int) -> bool {
    chunk[j].2 matches IndexedNodeKind::Structure { subtree_end } ==> {
        &&& forall|r: int|
            start + j < r < subtree_end && r < start + chunk.len() ==> #[trigger] chunk[r - start].1 > chunk[j].1
        &&& (subtree_end < start + chunk.len() ==> chunk[subtree_end - start].1 <= chunk[j].1)
    }
}

proof fn lemma_depths_concat(a: Seq<NodeView>, b: Seq<NodeView>, start: int, depth: int)
    requires
        spec_chunk_depths(a, start, depth),
        spec_chunk_depths(b, start + a.len(), depth),
        forall|j: int| 0 <= j < a.len() ==> #[trigger] spec_range_in_chunk(a, start, j),
        forall|j: int| 0 <= j < b.len() ==> #[trigger] spec_range_in_chunk(b, start + a.len(), j),
    ensures
        spec_chunk_depths(a + b, start, depth),
{
    let all = a + b;
    let sb = start + a.len();
    if a.len() > 0 {
        assert(all[0] == a[0]);
    } else if b.len() > 0 {
        assert(all[0] == b[0]);
    }
    assert forall|j: int| 0 <= j < all.len() implies (#[trigger] all[j]).1 >= depth by {
        if j < a.len() {
            assert(all[j] == a[j]);
        } else {
            assert(all[j] == b[j - a.len()]);
        }
    }
    assert forall|j: int| 0 <= j < all.len() implies #[trigger] spec_depth_range(all, start, j) by {
        if j < a.len() {
            assert(all[j] == a[j]);
            assert(spec_depth_range(a, start, j));
            assert(spec_range_in_chunk(a, start, j));
            if let IndexedNodeKind::Structure { subtree_end } = a[j].2 {
                assert forall|r: int|
                    start + j < r < subtree_end && r < start + all.len() implies #[trigger] all[r - start].1
                    > all[j].1 by {
                    assert(all[r - start] == a[r - start]);
                }
                if subtree_end < start + all.len() {
                    if subtree_end < sb {
                        assert(all[subtree_end - start] == a[subtree_end - start]);
                    } else {
                        assert(all[subtree_end - start] == b[0]);
                        assert((#[trigger] a[j]).1 >= depth);
                    }
                }
            }
        } else {
            let jb = j - a.len();
            assert(all[j] == b[jb]);
            assert(spec_depth_range(b, sb, jb));
            assert(spec_range_in_chunk(b, sb, jb));
            if let IndexedNodeKind::Structure { subtree_end } = b[jb].2 {
                assert forall|r: int|
                    start + j < r < subtree_end && r < start + all.len() implies #[trigger] all[r - start].1
                    > all[j].1 by {
                    assert(all[r - start] == b[r - sb]);
                    assert(b[r - sb].1 > b[jb].1);
                }
                if subtree_end < start + all.len() {
                    assert(all[subtree_end - start] == b[subtree_end - sb]);
                }
            }
        }
    }
}

proof fn lemma_depths_wrap(name: Seq<char>, depth: int, children: Seq<NodeView>, start: int, parent: Option<usize>)
    requires
        0 <= start,
        start + 1 + children.len() <= usize::MAX,
        spec_chunk_depths(children, start + 1, depth + 1),
        forall|j: int| 0 <= j < children.len() ==> #[trigger] spec_range_in_chunk(children, start + 1, j),
    ensures
        spec_chunk_depths(
            seq![
                (
                    name,
                    depth,
                    IndexedNodeKind::Structure { subtree_end: (start + 1 + children.len()) as usize },
                    parent,
                ),
            ] + children,
            start,
            depth,
        ),
{
    let end = start + 1 + children.len();
    let head: NodeView = (name, depth, IndexedNodeKind::Structure { subtree_end: end as usize }, parent);
    let all = seq![head] + children;
    assert(all[0] == head);
    assert forall|j: int| 0 <= j < all.len() implies (#[trigger] all[j]).1 >= depth by {
        if j > 0 {
            assert(all[j] == children[j - 1]);
        }
    }
    assert forall|j: int| 0 <= j < all.len() implies #[trigger] spec_depth_range(all, start, j) by {
        if j == 0 {
            assert forall|r: int| start < r < end && r < start + all.len() implies #[trigger] all[r - start].1
                > all[0].1 by {
                assert(all[r - start] == children[r - (start + 1)]);
                assert((#[trigger] children[r - (start + 1)]).1 >= depth + 1);
            }
        } else {
            assert(all[j] == children[j - 1]);
            assert(spec_depth_range(children, start + 1, j - 1));
            assert(spec_range_in_chunk(children, start + 1, j - 1));
            if let IndexedNodeKind::Structure { subtree_end } = children[j - 1].2 {
                assert forall|r: int|
                    start + j < r < subtree_end && r < start + all.len() implies #[trigger] all[r - start].1
                    > all[j].1 by {
                    assert(all[r - start] == children[r - (start + 1)]);
                    assert(children[r - (start + 1)].1 > children[j - 1].1);
                }
                if subtree_end < start + all.len() {
                    assert(all[subtree_end - start] == children[subtree_end - start - 1]);
                }
            }
        }
    }
}

proof fn lemma_flatten_from_depths(
    descs: Seq<FieldDescriptor>,
    k: int,
    depth: int,
    parent: Option<usize>,
    start: int,
)
    requires
        0 <= start,
        parent matches Some(p) ==> p < start,
        start + spec_flatten_from(descs, k, depth, parent, start).len() <= usize::MAX,
    ensures
        spec_chunk_depths(spec_flatten_from(descs, k, depth, parent, start), start, depth),
    decreases descs, descs.len() - k,
{
    if 0 <= k < descs.len() {
        let first = spec_flatten_one(descs[k], depth, parent, start);
        let rest = spec_flatten_from(descs, k + 1, depth, parent, start + first.len());
        lemma_flatten_one_depths(descs[k], depth, parent, start);
        lemma_flatten_from_depths(descs, k + 1, depth, parent, start + first.len());
        lemma_flatten_one_nested(descs[k], depth, parent, start);
        lemma_flatten_from_nested(descs, k + 1, depth, parent, start + first.len());
        lemma_depths_concat(first, rest, start, depth);
    }
}

proof fn lemma_flatten_one_depths(d: FieldDescriptor, depth: int, parent: Option<usize>, start: int)
    requires
        0 <= start,
        parent matches Some(p) ==> p < start,
        start + spec_flatten_one(d, depth, parent, start).len() <= usize::MAX,
    ensures
        spec_chunk_depths(spec_flatten_one(d, depth, parent, start), start, depth),
        spec_flatten_one(d, depth, parent, start).len() >= 1,
    decreases d, 0int,
{
    match d {
        FieldDescriptor::Structure { name, fields } => {
            lemma_flatten_from_depths(fields@, 0, depth + 1, Some(start as usize), start + 1);
            lemma_flatten_from_nested(fields@, 0, depth + 1, Some(start as usize), start + 1);
            let children = spec_flatten_from(fields@, 0, depth + 1, Some(start as usize), start + 1);
            lemma_depths_wrap(name@, depth, children, start, parent);
        },
        _ => {
            let all = spec_flatten_one(d, depth, parent, start);
            assert(spec_depth_range(all, start, 0));
        },
    }
}

/// The names of the stream messages `keys` that have a schema, in order.
pub open spec fn spec_stream_names(schemas: Seq<(MessageKey, MessageDescriptor)>, keys: Seq<MessageKey>) -> Seq<
    Seq<char>,
>
    decreases keys.len(),
{
    if keys.len() == 0 {
        Seq::empty()
    } else {
        let prev = spec_stream_names(schemas, keys.drop_last());
        match spec_schema(schemas, keys.last()) {
            Some(m) => prev.push(m.name@),
            None => prev,
        }
    }
}

/// The names of the top-level rows, in order.
pub open spec fn spec_top_names(nodes: Seq<NodeView>) -> Seq<Seq<char>>
    decreases nodes.len(),
{
    if nodes.len() == 0 {
        Seq::empty()
    } else if nodes.last().1 == 0 {
        spec_top_names(nodes.drop_last()).push(nodes.last().0)
    } else {
        spec_top_names(nodes.drop_last())
    }
}

proof fn lemma_top_names_concat(a: Seq<NodeView>, b: Seq<NodeView>)
    ensures
        spec_top_names(a + b) == spec_top_names(a) + spec_top_names(b),
    decreases b.len(),
{
    if b.len() == 0 {
        assert(a + b =~= a);
        assert(spec_top_names(a) + Seq::<Seq<char>>::empty() =~= spec_top_names(a));
    } else {
        lemma_top_names_concat(a, b.drop_last());
        assert((a + b).drop_last() =~= a + b.drop_last());
        assert((a + b).last() == b.last());
        if b.last().1 == 0 {
            assert((spec_top_names(a) + spec_top_names(b.drop_last())).push(b.last().0) =~= spec_top_names(a)
                + spec_top_names(b.drop_last()).push(b.last().0));
        }
    }
}

proof fn lemma_top_names_deep(nodes: Seq<NodeView>)
    requires
        forall|j: int| 0 <= j < nodes.len() ==> (#[trigger] nodes[j]).1 >= 1,
    ensures
        spec_top_names(nodes) == Seq::<Seq<char>>::empty(),
    decreases nodes.len(),
{
    if nodes.len() > 0 {
        assert(nodes.last() == nodes[nodes.len() - 1]);
        lemma_top_names_deep(nodes.drop_last());
    }
}

proof fn lemma_index_depths(schemas: Seq<(MessageKey, MessageDescriptor)>, keys: Seq<MessageKey>)
    requires
        spec_index_nodes(schemas, keys).len() <= usize::MAX,
    ensures
        spec_chunk_depths(spec_index_nodes(schemas, keys), 0, 0),
        spec_top_names(spec_index_nodes(schemas, keys)) == spec_stream_names(schemas, keys),
    decreases keys.len(),
{
    if keys.len() > 0 {
        let prev = spec_index_nodes(schemas, keys.drop_last());
        lemma_index_depths(schemas, keys.drop_last());
        lemma_index_nested(schemas, keys.drop_last());
        if let Some(m) = spec_schema(schemas, keys.last()) {
            let start = prev.len() as int;
            lemma_flatten_from_depths(m.fields@, 0, 1, Some(start as usize), start + 1);
            lemma_flatten_from_nested(m.fields@, 0, 1, Some(start as usize), start + 1);
            let children = spec_flatten_from(m.fields@, 0, 1, Some(start as usize), start + 1);
            lemma_depths_wrap(m.name@, 0, children, start, None);
            lemma_nested_wrap(m.name@, 0, children, start, None);
            let chunk = spec_message_nodes(m, start);
            assert(chunk == seq![
                (
                    m.name@,
                    0int,
                    IndexedNodeKind::Structure { subtree_end: (start + 1 + children.len()) as usize },
                    None::<usize>,
                ),
            ] + children);
            lemma_depths_concat(prev, chunk, 0, 0);
            lemma_top_names_concat(prev, chunk);
            lemma_top_names_deep(children);
            let head = seq![chunk[0]];
            assert(chunk == head + children);
            lemma_top_names_concat(head, children);
            assert(head.drop_last() =~= Seq::<NodeView>::empty());
            assert(head.len() == 1 && head.last() == chunk[0] && chunk[0].1 == 0 && chunk[0].0 == m.name@);
            assert(spec_top_names(head.drop_last()) == Seq::<Seq<char>>::empty());
            assert(spec_top_names(head) == Seq::<Seq<char>>::empty().push(m.name@));
            assert(spec_top_names(head) + Seq::<Seq<char>>::empty() =~= seq![m.name@]);
            assert(spec_stream_names(schemas, keys) == spec_stream_names(schemas, keys.drop_last()).push(m.name@));
            assert(spec_top_names(prev) + seq![m.name@] =~= spec_top_names(prev).push(m.name@));
        }
    } else {
        assert(spec_index_nodes(schemas, keys) == Seq::<NodeView>::empty());
    }
}

/// Whether the rows are nested by depth: each structure's range ends after it and within the
/// rows, the rows inside the range are deeper than the structure, and the row right after the
/// range, if any, is no deeper.
pub open spec fn spec_nested_by_depth(nodes: Seq<NodeView>) -> bool {
    forall|i: int|
        0 <= i < nodes.len() ==> ((#[trigger] nodes[i]).2 matches IndexedNodeKind::Structure { subtree_end } ==> {
            &&& i < subtree_end <= nodes.len()
            &&& forall|k: int| i < k < subtree_end ==> #[trigger] nodes[k].1 > nodes[i].1
            &&& (subtree_end == nodes.len() || nodes[subtree_end as int].1 <= nodes[i].1)
        })
}

/// The rows of every stream index are nested by depth, and its top-level rows are the stream
/// messages that have a schema, in order, named by their schemas.
pub proof fn law_index_is_nested_by_depth(schemas: Seq<(MessageKey, MessageDescriptor)>, keys: Seq<MessageKey>)
    requires
        spec_index_nodes(schemas, keys).len() <= usize::MAX,
    ensures
        spec_nested_by_depth(spec_index_nodes(schemas, keys)),
        spec_top_names(spec_index_nodes(schemas, keys)) == spec_stream_names(schemas, keys),
{
    let nodes = spec_index_nodes(schemas, keys);
    lemma_index_nested(schemas, keys);
    assert forall|i: int| 0 <= i < nodes.len() implies ((#[trigger] nodes[i]).2 matches IndexedNodeKind::Structure {
        subtree_end,
    } ==> {
        &&& i < subtree_end <= nodes.len()
        &&& forall|k: int| i < k < subtree_end ==> #[trigger] nodes[k].1 > nodes[i].1
        &&& (subtree_end == nodes.len() || nodes[subtree_end as int].1 <= nodes[i].1)
    }) by {
        law_rows_are_nested_by_depth(schemas, keys, i);
        assert(spec_range_in_chunk(nodes, 0, i));
    }
    lemma_index_depths(schemas, keys);
}

/// Rows are indented by their nesting: the rows inside a structure's range are deeper than the
/// structure, and the row right after the range is no deeper. The top-level rows are the stream
/// messages that have a schema, in order, named by their schemas.
pub proof fn law_rows_are_nested_by_depth(
    schemas: Seq<(MessageKey, MessageDescriptor)>,
    keys: Seq<MessageKey>,
    i: int,
)
    requires
        spec_index_nodes(schemas, keys).len() <= usize::MAX,
        0 <= i < spec_index_nodes(schemas, keys).len(),
    ensures
        ({
            let nodes = spec_index_nodes(schemas, keys);
            nodes[i].2 matches IndexedNodeKind::Structure { subtree_end } ==> {
                &&& forall|k: int| i < k < subtree_end ==> #[trigger] nodes[k].1 > nodes[i].1
                &&& (subtree_end == nodes.len() || nodes[subtree_end as int].1 <= nodes[i].1)
            }
        }),
        spec_top_names(spec_index_nodes(schemas, keys)) == spec_stream_names(schemas, keys),
{
    let nodes = spec_index_nodes(schemas, keys);
    lemma_index_depths(schemas, keys);
    lemma_index_nested(schemas, keys);
    assert(spec_depth_range(nodes, 0, i));
    assert(spec_range_in_chunk(nodes, 0, i));
    if let IndexedNodeKind::Structure { subtree_end } = nodes[i].2 {
        assert forall|k: int| i < k < subtree_end implies #[trigger] nodes[k].1 > nodes[i].1 by {
            assert(nodes[k - 0] == nodes[k]);
        }
    }
}

} // verus!
