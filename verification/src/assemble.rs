//! The graph assembler: takes the nodes that a decoding produced, holds
//! them against the rules of a finished graph, works out which dispatch
//! tables are total, and hands out the finished graph.

use vstd::prelude::*;

use crate::cells::{CellSize, CellTable, Extent};
use crate::checks::{
    block_is_linked, block_is_typed, has_distinct_keys, node_cell, note_links, piece, place,
    same_piece, table_is_linked, table_is_typed, Piece,
};
use crate::cursor::Cursor;
use crate::error::{no_hash, start_of, DisasmError, Location};
use crate::graph::{
    nodes_view, Block, BlockView, Graph, GraphView, InstructionView, ItemId, Literal, Node,
    NodeView, Table, TableView, Tail, TailView,
};
use crate::keys::{covers, covers_all_keys, entry_keys};
use crate::rules::{
    block_fits, block_linked, block_names, block_typed, found_earlier, instruction_linked,
    instruction_names, instruction_typed, keys_distinct, kind_of, kinds_of, lemma_used_step,
    links_to, named_by_first, node_accounted, node_fits, node_flagged, node_keyed, node_linked,
    node_nested, node_placed, node_typed, place_of, source_of, table_linked, table_names,
    table_typed, tail_agrees, used_bits, used_refs, Kind, Source,
};

verus! {

/// What the instructions had consumed when one of them ran past the end of a
/// window of the given size; nothing, if none does.
pub open spec fn first_overrun(opcodes: Seq<InstructionView>, bits: nat, refs: nat) -> Option<
    (nat, nat),
>
    decreases opcodes.len(),
{
    if opcodes.len() == 0 {
        None
    } else {
        match first_overrun(opcodes.drop_last(), bits, refs) {
            Some(used) => Some(used),
            None => if used_bits(opcodes) > bits || used_refs(opcodes) > refs {
                Some((used_bits(opcodes.drop_last()), used_refs(opcodes.drop_last())))
            } else {
                None
            },
        }
    }
}

/// Where in its cell a block runs out, if its instructions consume more than
/// it has.
pub open spec fn overrun_of(block: BlockView) -> Option<Location> {
    match first_overrun(block.opcodes, block.bits, block.refs) {
        Some(used) => Some(
            Location {
                cell_hash: block.cell_hash,
                offset_bits: (block.offset_bits + used.0) as u16,
                offset_refs: (block.offset_refs + used.1) as u8,
            },
        ),
        None => None,
    }
}

/// What is wrong with a block in a cell of the given size, if anything. A
/// block that runs past the end of its cell, or whose instructions run past
/// its own end, is truncated. A tail that does not say how the block ended,
/// or an id that is no position, makes the graph inconsistent. An id that
/// names a node of the wrong kind is a conflict.
pub open spec fn block_fault(block: BlockView, kinds: Seq<Kind>, cell: Extent) -> Option<
    DisasmError,
> {
    let node = NodeView::Code(block);
    if !block_fits(block, cell) {
        Some(DisasmError::Truncated(place_of(node)))
    } else if overrun_of(block) is Some {
        Some(DisasmError::Truncated(overrun_of(block)->0))
    } else if !tail_agrees(block) || !block_linked(block, kinds.len()) {
        Some(DisasmError::InconsistentGraph(place_of(node)))
    } else if !block_typed(block, kinds) {
        Some(DisasmError::ConflictingItemKind(place_of(node)))
    } else {
        None
    }
}

/// What is wrong with a table by itself, if anything. An id that is no
/// position, or a repeated key, makes the graph inconsistent. An entry that
/// dispatches to anything but code is a conflict.
pub open spec fn table_fault(table: TableView, kinds: Seq<Kind>) -> Option<DisasmError> {
    let node = NodeView::Table(table);
    if !table_linked(table, kinds.len()) || !keys_distinct(table) {
        Some(DisasmError::InconsistentGraph(place_of(node)))
    } else if !table_typed(table, kinds) {
        Some(DisasmError::ConflictingItemKind(place_of(node)))
    } else {
        None
    }
}

/// What is wrong with a node by itself, if anything, among nodes of the
/// given kinds. A node of a cell that is none of the given ones makes the
/// graph inconsistent; a slice of data that runs past the end of its cell is
/// truncated; blocks and tables have faults of their own.
pub open spec fn node_fault(
    node: NodeView,
    kinds: Seq<Kind>,
    cells: Map<[u8; 32], Extent>,
) -> Option<DisasmError> {
    if !node_placed(node, cells) {
        Some(DisasmError::InconsistentGraph(place_of(node)))
    } else {
        match node {
            NodeView::Code(block) => block_fault(block, kinds, cells[block.cell_hash]),
            NodeView::Table(table) => table_fault(table, kinds),
            NodeView::Data(_) => if node_fits(node, cells) {
                None
            } else {
                Some(DisasmError::Truncated(place_of(node)))
            },
            NodeView::Library { .. } => None,
        }
    }
}

/// The fault of the first faulty node at or after `from`.
pub open spec fn first_fault(
    items: Seq<NodeView>,
    cells: Map<[u8; 32], Extent>,
    from: nat,
) -> Option<DisasmError>
    decreases items.len() - from,
{
    if from >= items.len() {
        None
    } else {
        match node_fault(items[from as int], kinds_of(items), cells) {
            Some(e) => Some(e),
            None => first_fault(items, cells, from + 1),
        }
    }
}

/// The fault at the first node, at or after `from`, that no earlier node
/// names.
pub open spec fn first_orphan(items: Seq<NodeView>, from: nat) -> Option<DisasmError>
    decreases items.len() - from,
{
    if from >= items.len() {
        None
    } else if !found_earlier(items, from as int) {
        Some(DisasmError::InconsistentGraph(place_of(items[from as int])))
    } else {
        first_orphan(items, from + 1)
    }
}

/// The pieces of the input that the nodes stand for, in order.
pub open spec fn sources_of(items: Seq<NodeView>, cells: Map<[u8; 32], Extent>) -> Seq<Source> {
    items.map_values(|n: NodeView| source_of(n, cells))
}

/// The piece at `i` is the same as an earlier one.
pub open spec fn repeats(sources: Seq<Source>, i: int) -> bool {
    exists|j: int| 0 <= j < i && #[trigger] sources[j] == sources[i]
}

/// The conflict at the first node, at or after `from`, that stands for the
/// same piece of the input as an earlier one.
pub open spec fn first_repeat(
    items: Seq<NodeView>,
    cells: Map<[u8; 32], Extent>,
    from: nat,
) -> Option<DisasmError>
    decreases items.len() - from,
{
    if from >= items.len() {
        None
    } else if repeats(sources_of(items, cells), from as int) {
        Some(DisasmError::ConflictingItemKind(place_of(items[from as int])))
    } else {
        first_repeat(items, cells, from + 1)
    }
}

/// Where a graph begins: at its first node, if it has one.
pub open spec fn origin_of(items: Seq<NodeView>) -> Location {
    if items.len() > 0 {
        place_of(items[0])
    } else {
        start_of(no_hash())
    }
}

/// What keeps the nodes from being a graph, if anything. The root is looked
/// at first, then each node by itself in order, then the order of the nodes,
/// then repetitions in order.
pub open spec fn graph_fault(
    root: nat,
    items: Seq<NodeView>,
    cells: Map<[u8; 32], Extent>,
) -> Option<DisasmError> {
    if items.len() == 0 || root != 0 {
        Some(DisasmError::InconsistentGraph(origin_of(items)))
    } else {
        match first_fault(items, cells, 0) {
            Some(e) => Some(e),
            None => match first_orphan(items, 1) {
                Some(e) => Some(e),
                None => first_repeat(items, cells, 0),
            },
        }
    }
}

/// The node at a position with its marks set: a table is marked total
/// exactly if it is, a block is marked inline exactly if it is not at the
/// root's position.
pub open spec fn marked(node: NodeView, position: int) -> NodeView {
    match node {
        NodeView::Table(table) => NodeView::Table(
            TableView {
                is_full_code: covers(entry_keys(table.items), table.key_bits),
                ..table
            },
        ),
        NodeView::Code(block) => NodeView::Code(BlockView { is_inline: position != 0, ..block }),
        _ => node,
    }
}

/// Every node marked.
pub open spec fn marked_all(items: Seq<NodeView>) -> Seq<NodeView> {
    Seq::new(items.len(), |i: int| marked(items[i], i))
}

/// The graph of the marked nodes.
pub open spec fn marked_graph(root: nat, items: Seq<NodeView>) -> GraphView {
    GraphView { root, items: marked_all(items) }
}

/// What assembling gives: the fault, if the nodes have one, else the graph
/// of the marked nodes.
pub open spec fn assembled(
    root: nat,
    items: Seq<NodeView>,
    cells: Map<[u8; 32], Extent>,
) -> Result<GraphView, DisasmError> {
    match graph_fault(root, items, cells) {
        Some(e) => Err(e),
        None => Ok(marked_graph(root, items)),
    }
}

/// The model of a result of assembling.
pub open spec fn outcome_view(r: Result<Graph, DisasmError>) -> Result<GraphView, DisasmError> {
    match r {
        Ok(graph) => Ok(graph@),
        Err(e) => Err(e),
    }
}

/// Instructions that overrun after their first `n` overrun at the same place
/// as a whole.
pub proof fn lemma_overrun_stays(opcodes: Seq<InstructionView>, bits: nat, refs: nat, n: int)
    requires
        0 <= n <= opcodes.len(),
        first_overrun(opcodes.take(n), bits, refs) is Some,
    ensures
        first_overrun(opcodes, bits, refs) == first_overrun(opcodes.take(n), bits, refs),
    decreases opcodes.len() - n,
{
    if n == opcodes.len() {
        assert(opcodes.take(n) =~= opcodes);
    } else {
        assert(opcodes.drop_last().take(n) =~= opcodes.take(n));
        lemma_overrun_stays(opcodes.drop_last(), bits, refs, n);
    }
}

/// Instructions overrun nowhere exactly if together they consume no more
/// than the window has.
pub proof fn lemma_no_overrun(opcodes: Seq<InstructionView>, bits: nat, refs: nat)
    ensures
        first_overrun(opcodes, bits, refs) is None <==> used_bits(opcodes) <= bits && used_refs(
            opcodes,
        ) <= refs,
    decreases opcodes.len(),
{
    if opcodes.len() > 0 {
        lemma_no_overrun(opcodes.drop_last(), bits, refs);
    }
}

/// No fault from `from` on means that no node from `from` on is faulty.
pub proof fn lemma_no_fault(items: Seq<NodeView>, cells: Map<[u8; 32], Extent>, from: nat)
    requires
        first_fault(items, cells, from) is None,
    ensures
        forall|i: int|
            from <= i < items.len() ==> node_fault(
                #[trigger] items[i],
                kinds_of(items),
                cells,
            ) is None,
    decreases items.len() - from,
{
    if from < items.len() {
        lemma_no_fault(items, cells, from + 1);
    }
}

/// No fault of order from `from` on means that every node from `from` on is
/// named by an earlier one.
pub proof fn lemma_no_orphan(items: Seq<NodeView>, from: nat)
    requires
        first_orphan(items, from) is None,
    ensures
        forall|i: int| from <= i < items.len() ==> #[trigger] found_earlier(items, i),
    decreases items.len() - from,
{
    if from < items.len() {
        lemma_no_orphan(items, from + 1);
    }
}

/// No conflict from `from` on means that no node from `from` on repeats an
/// earlier one.
pub proof fn lemma_no_repeat(items: Seq<NodeView>, cells: Map<[u8; 32], Extent>, from: nat)
    requires
        first_repeat(items, cells, from) is None,
    ensures
        forall|i: int| from <= i < items.len() ==> !repeats(sources_of(items, cells), i),
    decreases items.len() - from,
{
    if from < items.len() {
        lemma_no_repeat(items, cells, from + 1);
    }
}

/// A node without a fault keeps every rule that speaks of one node.
pub proof fn lemma_sound_node(node: NodeView, kinds: Seq<Kind>, cells: Map<[u8; 32], Extent>)
    requires
        node_fault(node, kinds, cells) is None,
    ensures
        node_linked(node, kinds.len()),
        node_typed(node, kinds),
        node_placed(node, cells),
        node_fits(node, cells),
        node_accounted(node),
        node_keyed(node),
{
    if let NodeView::Code(block) = node {
        lemma_no_overrun(block.opcodes, block.bits, block.refs);
    }
}

/// Marking a node changes nothing but its mark.
pub proof fn lemma_marked(
    node: NodeView,
    position: int,
    kinds: Seq<Kind>,
    cells: Map<[u8; 32], Extent>,
)
    ensures
        kind_of(marked(node, position)) == kind_of(node),
        node_linked(marked(node, position), kinds.len()) == node_linked(node, kinds.len()),
        node_typed(marked(node, position), kinds) == node_typed(node, kinds),
        node_placed(marked(node, position), cells) == node_placed(node, cells),
        node_fits(marked(node, position), cells) == node_fits(node, cells),
        node_accounted(marked(node, position)) == node_accounted(node),
        node_keyed(marked(node, position)) == node_keyed(node),
        node_flagged(marked(node, position)),
        node_nested(marked(node, position), position),
        source_of(marked(node, position), cells) == source_of(node, cells),
        place_of(marked(node, position)) == place_of(node),
        forall|id: nat| #[trigger] links_to(marked(node, position), id) == links_to(node, id),
{
    let count = kinds.len();
    assert forall|id: nat| #[trigger] links_to(marked(node, position), id) == links_to(
        node,
        id,
    ) by {
        if let NodeView::Table(table) = node {
            let after = marked(node, position)->Table_0;
            if table_names(table, id) {
                let k = choose|k: int|
                    0 <= k < table.items.len() && (#[trigger] table.items[k]).target == id;
                assert(after.items[k].target == id);
            }
            if table_names(after, id) {
                let k = choose|k: int|
                    0 <= k < after.items.len() && (#[trigger] after.items[k]).target == id;
                assert(table.items[k].target == id);
            }
        }
        if let NodeView::Code(block) = node {
            let after = marked(node, position)->Code_0;
            if block_names(block, id) && block.tail != Some(TailView::Child { id }) {
                let j = choose|j: int|
                    0 <= j < block.opcodes.len() && instruction_names(
                        #[trigger] block.opcodes[j],
                        id,
                    );
                assert(instruction_names(after.opcodes[j], id));
            }
            if block_names(after, id) && after.tail != Some(TailView::Child { id }) {
                let j = choose|j: int|
                    0 <= j < after.opcodes.len() && instruction_names(
                        #[trigger] after.opcodes[j],
                        id,
                    );
                assert(instruction_names(block.opcodes[j], id));
            }
        }
    }
    if let NodeView::Table(table) = node {
        let after = marked(node, position)->Table_0;
        assert(after.items == table.items);
        if table_linked(table, count) {
            assert forall|k: int| 0 <= k < after.items.len() implies (
            #[trigger] after.items[k]).target < count by {
                assert(table.items[k].target < count);
            }
        }
        if table_linked(after, count) {
            assert forall|k: int| 0 <= k < table.items.len() implies (
            #[trigger] table.items[k]).target < count by {
                assert(after.items[k].target < count);
            }
        }
        if table_typed(table, kinds) {
            assert forall|k: int|
                0 <= k < after.items.len() && (#[trigger] after.items[k]).target
                    < kinds.len() implies kinds[after.items[k].target as int] is Code by {
                assert(table.items[k].target < kinds.len());
            }
        }
        if table_typed(after, kinds) {
            assert forall|k: int|
                0 <= k < table.items.len() && (#[trigger] table.items[k]).target
                    < kinds.len() implies kinds[table.items[k].target as int] is Code by {
                assert(after.items[k].target < kinds.len());
            }
        }
        if keys_distinct(table) {
            assert forall|a: int, b: int| 0 <= a < b < after.items.len() implies (
            #[trigger] after.items[a]).key != (#[trigger] after.items[b]).key by {
                assert(table.items[a].key != table.items[b].key);
            }
        }
        if keys_distinct(after) {
            assert forall|a: int, b: int| 0 <= a < b < table.items.len() implies (
            #[trigger] table.items[a]).key != (#[trigger] table.items[b]).key by {
                assert(after.items[a].key != after.items[b].key);
            }
        }
    }
    if let NodeView::Code(block) = node {
        let after = marked(node, position)->Code_0;
        assert(after.opcodes == block.opcodes);
        assert(after.tail == block.tail);
        if block_linked(block, count) {
            assert forall|j: int| 0 <= j < after.opcodes.len() implies instruction_linked(
                #[trigger] after.opcodes[j],
                count,
            ) by {
                assert(instruction_linked(block.opcodes[j], count));
            }
        }
        if block_linked(after, count) {
            assert forall|j: int| 0 <= j < block.opcodes.len() implies instruction_linked(
                #[trigger] block.opcodes[j],
                count,
            ) by {
                assert(instruction_linked(after.opcodes[j], count));
            }
        }
        if block_typed(block, kinds) {
            assert forall|j: int| 0 <= j < after.opcodes.len() implies instruction_typed(
                #[trigger] after.opcodes[j],
                kinds,
            ) by {
                assert(instruction_typed(block.opcodes[j], kinds));
            }
        }
        if block_typed(after, kinds) {
            assert forall|j: int| 0 <= j < block.opcodes.len() implies instruction_typed(
                #[trigger] block.opcodes[j],
                kinds,
            ) by {
                assert(instruction_typed(after.opcodes[j], kinds));
            }
        }
    }
}

/// Nodes without a fault, marked, are a finished graph.
pub proof fn lemma_assembled_wf(root: nat, items: Seq<NodeView>, cells: Map<[u8; 32], Extent>)
    requires
        graph_fault(root, items, cells) is None,
    ensures
        marked_graph(root, items).wf(cells),
{
    let graph = marked_graph(root, items);
    let kinds = kinds_of(items);
    let sources = sources_of(items, cells);
    lemma_no_fault(items, cells, 0);
    lemma_no_orphan(items, 1);
    lemma_no_repeat(items, cells, 0);
    assert forall|i: int| 0 < i < graph.items.len() implies #[trigger] found_earlier(
        graph.items,
        i,
    ) by {
        assert(found_earlier(items, i));
        let j = choose|j: int|
            0 <= j < i && j < items.len() && links_to(#[trigger] items[j], i as nat);
        lemma_marked(items[j], j, kinds, cells);
        assert(links_to(graph.items[j], i as nat));
    }
    assert(kinds_of(graph.items) =~= kinds) by {
        assert forall|i: int| 0 <= i < items.len() implies kinds_of(graph.items)[i] == kinds[i] by {
            lemma_marked(items[i], i, kinds, cells);
        }
    }
    assert forall|i: int| 0 <= i < graph.items.len() implies node_linked(
        #[trigger] graph.items[i],
        graph.items.len(),
    ) && node_typed(graph.items[i], kinds_of(graph.items)) && node_placed(graph.items[i], cells)
        && node_fits(graph.items[i], cells) && node_accounted(graph.items[i]) && node_keyed(
        graph.items[i],
    ) && node_flagged(graph.items[i]) && node_nested(graph.items[i], i) by {
        lemma_marked(items[i], i, kinds, cells);
        assert(node_fault(items[i], kinds, cells) is None);
        lemma_sound_node(items[i], kinds, cells);
    }
    assert forall|i: int, j: int| 0 <= i < j < graph.items.len() implies source_of(
        #[trigger] graph.items[i],
        cells,
    ) != source_of(#[trigger] graph.items[j], cells) by {
        lemma_marked(items[i], i, kinds, cells);
        lemma_marked(items[j], j, kinds, cells);
        assert(!repeats(sources, j));
        assert(sources[i] == source_of(items[i], cells));
        assert(sources[j] == source_of(items[j], cells));
    }
}

/// How the cursor stands after the first `n` instructions of a block.
pub open spec fn walked(block: BlockView, n: int) -> crate::cursor::CursorView {
    crate::cursor::CursorView {
        cell_hash: block.cell_hash,
        offset_bits: block.offset_bits + used_bits(block.opcodes.take(n)),
        offset_refs: block.offset_refs + used_refs(block.opcodes.take(n)),
        bits: (block.bits - used_bits(block.opcodes.take(n))) as nat,
        refs: (block.refs - used_refs(block.opcodes.take(n))) as nat,
    }
}

/// What is wrong with a block in a cell of the given size, if anything.
pub fn check_block(block: &Block, items: &Vec<Node>, size: &CellSize) -> (fault: Option<
    DisasmError,
>)
    requires
        size.cell_hash == block.cell_hash,
    ensures
        fault == block_fault(block@, kinds_of(nodes_view(items@)), size@),
{
    let ghost kinds = kinds_of(nodes_view(items@));
    let ghost view = block@;
    let at = Location {
        cell_hash: block.cell_hash,
        offset_bits: block.offset_bits,
        offset_refs: block.offset_refs,
    };
    let mut cursor = match Cursor::open(
        size,
        block.offset_bits,
        block.offset_refs,
        block.bits,
        block.refs,
    ) {
        None => {
            return Some(DisasmError::Truncated(at));
        },
        Some(cursor) => cursor,
    };
    proof {
        assert(view.opcodes.take(0) =~= Seq::<InstructionView>::empty());
    }
    let mut j: usize = 0;
    while j < block.opcodes.len()
        invariant
            0 <= j <= block.opcodes.len(),
            view == block@,
            kinds == kinds_of(nodes_view(items@)),
            size.cell_hash == block.cell_hash,
            block_fits(view, size@),
            used_bits(view.opcodes.take(j as int)) <= view.bits,
            used_refs(view.opcodes.take(j as int)) <= view.refs,
            cursor@ == walked(view, j as int),
            first_overrun(view.opcodes.take(j as int), view.bits, view.refs) is None,
        decreases block.opcodes.len() - j,
    {
        let opcode = &block.opcodes[j];
        proof {
            assert(view.opcodes[j as int] == opcode@);
            lemma_used_step(view.opcodes, j as int);
            assert(view.opcodes.take(j + 1).drop_last() =~= view.opcodes.take(j as int));
        }
        match cursor.take(opcode.bits, opcode.refs) {
            Err(e) => {
                proof {
                    lemma_overrun_stays(view.opcodes, view.bits, view.refs, j + 1);
                }
                return Some(e);
            },
            Ok(()) => {},
        }
        j = j + 1;
    }
    proof {
        assert(view.opcodes.take(block.opcodes.len() as int) =~= view.opcodes);
    }
    let left_bits = cursor.remaining_bits();
    let left_refs = cursor.remaining_refs();
    let ended = match block.tail {
        None => left_bits == 0 && left_refs == 0,
        Some(Tail::Child { .. }) => left_bits == 0 && left_refs > 0,
        Some(Tail::Incomplete) => left_bits > 0,
    };
    assert(ended == tail_agrees(view));
    if !ended || !block_is_linked(block, items.len()) {
        Some(DisasmError::InconsistentGraph(at))
    } else if !block_is_typed(block, items) {
        Some(DisasmError::ConflictingItemKind(at))
    } else {
        None
    }
}

/// What is wrong with a table by itself, if anything.
pub fn check_table(table: &Table, items: &Vec<Node>) -> (fault: Option<DisasmError>)
    ensures
        fault == table_fault(table@, kinds_of(nodes_view(items@))),
{
    let at = Location { cell_hash: table.cell_hash, offset_bits: 0, offset_refs: 0 };
    if !table_is_linked(table, items.len()) || !has_distinct_keys(table) {
        Some(DisasmError::InconsistentGraph(at))
    } else if !table_is_typed(table, items) {
        Some(DisasmError::ConflictingItemKind(at))
    } else {
        None
    }
}

/// What is wrong with a node by itself, if anything, among the given nodes.
pub fn check_node(node: &Node, items: &Vec<Node>, cells: &CellTable) -> (fault: Option<
    DisasmError,
>)
    ensures
        fault == node_fault(node@, kinds_of(nodes_view(items@)), cells@),
{
    let size = match cells.get(&node_cell(node)) {
        None => {
            return Some(DisasmError::InconsistentGraph(place(node)));
        },
        Some(size) => size,
    };
    match node {
        Node::Code(block) => check_block(block, items, &size),
        Node::Table(table) => check_table(table, items),
        Node::Data(Literal::Slice { offset_bits, offset_refs, bits, refs, .. }) => {
            match Cursor::open(&size, *offset_bits, *offset_refs, *bits, *refs) {
                Some(_) => None,
                None => Some(DisasmError::Truncated(place(node))),
            }
        },
        _ => None,
    }
}

/// Sets the marks of a node: a table is marked total exactly if it has an
/// entry for every key of its width, a block is marked inline exactly if it
/// is not at the root's position; any other node stays as it is.
pub fn mark(node: Node, position: usize) -> (r: Node)
    ensures
        r@ == marked(node@, position as int),
{
    match node {
        Node::Table(table) => {
            let full = covers_all_keys(&table.items, table.key_bits);
            Node::Table(
                Table {
                    cell_hash: table.cell_hash,
                    key_bits: table.key_bits,
                    items: table.items,
                    is_full_code: full,
                },
            )
        },
        Node::Code(block) => Node::Code(
            Block {
                cell_hash: block.cell_hash,
                is_inline: position != 0,
                offset_bits: block.offset_bits,
                offset_refs: block.offset_refs,
                bits: block.bits,
                refs: block.refs,
                opcodes: block.opcodes,
                tail: block.tail,
            },
        ),
        other => other,
    }
}

/// The pieces of the input that the nodes stand for, in order.
pub fn pieces(items: &Vec<Node>, cells: &CellTable) -> (found: Vec<Piece>)
    ensures
        found.len() == items.len(),
        forall|k: int|
            0 <= k < items.len() ==> (#[trigger] found[k])@ == sources_of(
                nodes_view(items@),
                cells@,
            )[k],
{
    let mut found: Vec<Piece> = Vec::new();
    let mut i: usize = 0;
    while i < items.len()
        invariant
            0 <= i <= items.len(),
            found.len() == i,
            forall|k: int| 0 <= k < i ==> (#[trigger] found[k])@ == source_of(items[k]@, cells@),
        decreases items.len() - i,
    {
        found.push(piece(&items[i], cells));
        i = i + 1;
    }
    found
}

/// Assembles the finished graph from a root id, the nodes in discovery order,
/// and the cells that the code was taken from. Fails on the first fault: a
/// root that is not the first node, then the first node that breaks a rule by
/// itself, then the first node that stands for the same piece of the input
/// as an earlier one. Otherwise the marks of every node are set, and the
/// graph is handed out.
pub fn assemble(root: ItemId, items: Vec<Node>, cells: &CellTable) -> (r: Result<
    Graph,
    DisasmError,
>)
    ensures
        outcome_view(r) == assembled(root as nat, nodes_view(items@), cells@),
        r matches Ok(graph) ==> graph@.wf(cells@),
{
    let ghost views = nodes_view(items@);
    let ghost sources = sources_of(views, cells@);
    let count: usize = items.len();
    if count == 0 {
        let at = Location { cell_hash: [0u8; 32], offset_bits: 0, offset_refs: 0 };
        assert(at.cell_hash =~= no_hash()) by {
            broadcast use vstd::array::group_array_axioms;

        }
        return Err(DisasmError::InconsistentGraph(at));
    }
    if root != 0 {
        assert(views[0] == items[0]@);
        return Err(DisasmError::InconsistentGraph(place(&items[0])));
    }
    let mut i: usize = 0;
    while i < count
        invariant
            0 <= i <= count,
            root == 0,
            count == items.len(),
            views == nodes_view(items@),
            first_fault(views, cells@, 0) == first_fault(views, cells@, i as nat),
        decreases count - i,
    {
        assert(views[i as int] == items[i as int]@);
        match check_node(&items[i], &items, cells) {
            Some(e) => {
                return Err(e);
            },
            None => {},
        }
        i = i + 1;
    }
    let mut named: Vec<bool> = Vec::new();
    let mut i: usize = 0;
    while i < count
        invariant
            0 <= i <= count,
            named.len() == i,
            forall|t: int| 0 <= t < i ==> !(#[trigger] named[t]),
        decreases count - i,
    {
        named.push(false);
        i = i + 1;
    }
    let mut i: usize = 0;
    while i < count
        invariant
            0 <= i <= count,
            root == 0,
            count == items.len(),
            count == named.len(),
            views == nodes_view(items@),
            first_fault(views, cells@, 0) is None,
            first_orphan(views, 1) == first_orphan(views, if i == 0 {
                1nat
            } else {
                i as nat
            }),
            forall|t: int|
                0 <= t < count ==> (#[trigger] named[t] <==> named_by_first(views, i as int, t as nat)),
        decreases count - i,
    {
        assert(views[i as int] == items[i as int]@);
        if i > 0 && !named[i] {
            return Err(DisasmError::InconsistentGraph(place(&items[i])));
        }
        let ghost earlier = named@;
        note_links(&items[i], &mut named);
        proof {
            assert forall|t: int| 0 <= t < count implies (#[trigger] named[t] <==> named_by_first(
                views,
                i + 1,
                t as nat,
            )) by {
                if named_by_first(views, i + 1, t as nat) {
                    let j = choose|j: int|
                        0 <= j < i + 1 && j < views.len() && links_to(
                            #[trigger] views[j],
                            t as nat,
                        );
                    if j < i {
                        assert(named_by_first(views, i as int, t as nat));
                    }
                }
                if earlier[t] {
                    let j = choose|j: int|
                        0 <= j < i && j < views.len() && links_to(#[trigger] views[j], t as nat);
                    assert(0 <= j < i + 1);
                }
                if links_to(views[i as int], t as nat) {
                    assert(named_by_first(views, i + 1, t as nat));
                }
            }
        }
        i = i + 1;
    }
    let found = pieces(&items, cells);
    let mut i: usize = 0;
    while i < count
        invariant
            0 <= i <= count,
            root == 0,
            count == items.len(),
            count == found.len(),
            views == nodes_view(items@),
            sources == sources_of(views, cells@),
            forall|k: int| 0 <= k < count ==> (#[trigger] found[k])@ == sources[k],
            first_fault(views, cells@, 0) is None,
            first_orphan(views, 1) is None,
            first_repeat(views, cells@, 0) == first_repeat(views, cells@, i as nat),
        decreases count - i,
    {
        let mut j: usize = 0;
        while j < i
            invariant
                0 <= j <= i < count,
                root == 0,
                count == items.len(),
                count == found.len(),
                views == nodes_view(items@),
                sources == sources_of(views, cells@),
                forall|k: int| 0 <= k < count ==> (#[trigger] found[k])@ == sources[k],
                first_fault(views, cells@, 0) is None,
                first_orphan(views, 1) is None,
                first_repeat(views, cells@, 0) == first_repeat(views, cells@, i as nat),
                forall|k: int| 0 <= k < j ==> #[trigger] sources[k] != sources[i as int],
            decreases i - j,
        {
            if same_piece(&found[j], &found[i]) {
                assert(sources[j as int] == sources[i as int]);
                assert(repeats(sources, i as int));
                assert(views[i as int] == items[i as int]@);
                return Err(DisasmError::ConflictingItemKind(place(&items[i])));
            }
            j = j + 1;
        }
        assert(!repeats(sources, i as int));
        i = i + 1;
    }
    proof {
        lemma_assembled_wf(root as nat, views, cells@);
    }
    let mut out: Vec<Node> = Vec::new();
    for node in it: items
        invariant
            it.seq() == items@,
            out.len() == it.index(),
            forall|k: int| 0 <= k < out.len() ==> (#[trigger] out[k])@ == marked(items[k]@, k),
    {
        let position = out.len();
        out.push(mark(node, position));
    }
    assert(nodes_view(out@) =~= marked_all(views));
    Ok(Graph { root, items: out })
}

} // verus!
