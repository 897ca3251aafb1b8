//! What holds of every finished graph, and of disassembling as a whole.

use vstd::arithmetic::power2::pow2;
use vstd::prelude::*;

use crate::assemble::lemma_assembled_wf;
use crate::cells::{reachable, tree_sizes, Extent};
use crate::engine::{bits_at, decoded_root, disassembly, refs_at};
use crate::error::DisasmError;
use crate::graph::{GraphView, NodeView, OperandView, TailView};
use crate::keys::{
    all_numbers, entry_keys, is_decimal, key_numbers, lemma_covers_is_set_equality,
    lemma_covers_plain_keys, plain_values,
};
use crate::lower::nodes_of;
use crate::rules::{
    cell_like, cell_of, continuation_like, found_earlier, instruction_linked, instruction_typed,
    kind_of, kinds_of, links_to, node_accounted, node_fits, node_flagged, node_linked,
    node_nested, node_placed, node_typed, operand_linked, operand_typed, slice_like, source_of,
    used_bits, used_refs,
};

verus! {

/// Disassembling is a function of the text: two results for one text are the
/// same, node for node and id for id.
pub proof fn law_deterministic(
    text: Seq<char>,
    first: Result<GraphView, DisasmError>,
    second: Result<GraphView, DisasmError>,
)
    requires
        first == crate::disassembled(text),
        second == crate::disassembled(text),
    ensures
        first == second,
{
}

/// In a finished graph the child of a tail is the position of a node.
pub proof fn law_tail_is_node(graph: GraphView, cells: Map<[u8; 32], Extent>, i: int)
    requires
        graph.wf(cells),
        0 <= i < graph.items.len(),
        graph.items[i] is Code,
    ensures
        graph.items[i]->Code_0.tail matches Some(TailView::Child { id }) ==> id
            < graph.items.len(),
{
}

/// In a finished graph an operand that names a node names the position of
/// one.
pub proof fn law_operand_is_node(
    graph: GraphView,
    cells: Map<[u8; 32], Extent>,
    i: int,
    j: int,
    k: int,
)
    requires
        graph.wf(cells),
        0 <= i < graph.items.len(),
        graph.items[i] is Code,
        0 <= j < graph.items[i]->Code_0.opcodes.len(),
        0 <= k < graph.items[i]->Code_0.opcodes[j].args.len(),
    ensures
        graph.items[i]->Code_0.opcodes[j].args[k] matches OperandView::Cell { id } ==> id
            < graph.items.len(),
        graph.items[i]->Code_0.opcodes[j].args[k] matches OperandView::Slice { id } ==> id
            < graph.items.len(),
{
    let block = graph.items[i]->Code_0;
    assert(node_linked(graph.items[i], graph.items.len()));
    assert(instruction_linked(block.opcodes[j], graph.items.len()));
    assert(operand_linked(block.opcodes[j].args[k], graph.items.len()));
}

/// In a finished graph every entry of a dispatch table dispatches to the
/// position of a node.
pub proof fn law_target_is_node(graph: GraphView, cells: Map<[u8; 32], Extent>, i: int, k: int)
    requires
        graph.wf(cells),
        0 <= i < graph.items.len(),
        graph.items[i] is Table,
        0 <= k < graph.items[i]->Table_0.items.len(),
    ensures
        graph.items[i]->Table_0.items[k].target < graph.items.len(),
{
    assert(node_linked(graph.items[i], graph.items.len()));
}

/// In a finished graph an operand that names a cell names a cell of data,
/// code, or a library; an operand that names a slice names a window of data,
/// code, or a dispatch table.
pub proof fn law_operand_names_its_kind(
    graph: GraphView,
    cells: Map<[u8; 32], Extent>,
    i: int,
    j: int,
    k: int,
)
    requires
        graph.wf(cells),
        0 <= i < graph.items.len(),
        graph.items[i] is Code,
        0 <= j < graph.items[i]->Code_0.opcodes.len(),
        0 <= k < graph.items[i]->Code_0.opcodes[j].args.len(),
    ensures
        graph.items[i]->Code_0.opcodes[j].args[k] matches OperandView::Cell { id } ==> cell_like(
            kind_of(graph.items[id as int]),
        ),
        graph.items[i]->Code_0.opcodes[j].args[k] matches OperandView::Slice { id } ==> slice_like(
            kind_of(graph.items[id as int]),
        ),
{
    let block = graph.items[i]->Code_0;
    let kinds = kinds_of(graph.items);
    law_operand_is_node(graph, cells, i, j, k);
    assert(node_typed(graph.items[i], kinds));
    assert(instruction_typed(block.opcodes[j], kinds));
    assert(operand_typed(block.opcodes[j].args[k], kinds));
}

/// In a finished graph a block goes on in code or in a library.
pub proof fn law_tail_names_code(graph: GraphView, cells: Map<[u8; 32], Extent>, i: int)
    requires
        graph.wf(cells),
        0 <= i < graph.items.len(),
        graph.items[i] is Code,
    ensures
        graph.items[i]->Code_0.tail matches Some(TailView::Child { id }) ==> continuation_like(
            kind_of(graph.items[id as int]),
        ),
{
    law_tail_is_node(graph, cells, i);
    assert(node_typed(graph.items[i], kinds_of(graph.items)));
}

/// In a finished graph a dispatch table dispatches to code.
pub proof fn law_target_names_code(
    graph: GraphView,
    cells: Map<[u8; 32], Extent>,
    i: int,
    k: int,
)
    requires
        graph.wf(cells),
        0 <= i < graph.items.len(),
        graph.items[i] is Table,
        0 <= k < graph.items[i]->Table_0.items.len(),
    ensures
        kind_of(graph.items[graph.items[i]->Table_0.items[k].target as int]) is Code,
{
    law_target_is_node(graph, cells, i, k);
    assert(node_typed(graph.items[i], kinds_of(graph.items)));
}

/// In a finished graph the instructions of a block consume no more than the
/// block has, and the tail says how the block ended: cleanly, with nothing
/// left; in a child, with no bits left and a reference to go on with; or
/// incomplete, with bits left over.
pub proof fn law_block_made_of_instructions(
    graph: GraphView,
    cells: Map<[u8; 32], Extent>,
    i: int,
)
    requires
        graph.wf(cells),
        0 <= i < graph.items.len(),
        graph.items[i] is Code,
    ensures
        used_bits(graph.items[i]->Code_0.opcodes) <= graph.items[i]->Code_0.bits,
        used_refs(graph.items[i]->Code_0.opcodes) <= graph.items[i]->Code_0.refs,
        graph.items[i]->Code_0.tail is None ==> used_bits(graph.items[i]->Code_0.opcodes)
            == graph.items[i]->Code_0.bits && used_refs(graph.items[i]->Code_0.opcodes)
            == graph.items[i]->Code_0.refs,
        graph.items[i]->Code_0.tail matches Some(TailView::Child { .. }) ==> used_bits(
            graph.items[i]->Code_0.opcodes,
        ) == graph.items[i]->Code_0.bits && used_refs(graph.items[i]->Code_0.opcodes)
            < graph.items[i]->Code_0.refs,
        graph.items[i]->Code_0.tail matches Some(TailView::Incomplete) ==> used_bits(
            graph.items[i]->Code_0.opcodes,
        ) < graph.items[i]->Code_0.bits,
{
    assert(node_accounted(graph.items[i]));
}

/// In a finished graph one piece of the input has one node: two positions
/// whose nodes stand for the same piece are one position.
pub proof fn law_one_node_per_piece(graph: GraphView, cells: Map<[u8; 32], Extent>, i: int, j: int)
    requires
        graph.wf(cells),
        0 <= i < graph.items.len(),
        0 <= j < graph.items.len(),
        source_of(graph.items[i], cells) == source_of(graph.items[j], cells),
    ensures
        i == j,
{
    if i < j {
        assert(source_of(graph.items[i], cells) != source_of(graph.items[j], cells));
    }
    if j < i {
        assert(source_of(graph.items[j], cells) != source_of(graph.items[i], cells));
    }
}

/// In a finished graph every node but the root is named by an earlier node,
/// in a tail, an operand, or an entry of a table: the nodes stand in the
/// order in which they were found.
pub proof fn law_found_from_earlier(graph: GraphView, cells: Map<[u8; 32], Extent>, i: int)
    requires
        graph.wf(cells),
        0 < i < graph.items.len(),
    ensures
        exists|j: int| 0 <= j < i && links_to(#[trigger] graph.items[j], i as nat),
{
    assert(found_earlier(graph.items, i));
}

/// A path leads from the first node to the last: each node on it names the
/// next.
pub open spec fn leads(items: Seq<NodeView>, path: Seq<int>) -> bool {
    forall|k: int|
        0 <= k < path.len() - 1 ==> 0 <= #[trigger] path[k] < items.len() && links_to(
            items[path[k]],
            path[k + 1] as nat,
        )
}

/// In a finished graph every node can be reached from the root: a path
/// leads from the root to it.
pub proof fn law_reached_from_root(graph: GraphView, cells: Map<[u8; 32], Extent>, i: int)
    requires
        graph.wf(cells),
        0 <= i < graph.items.len(),
    ensures
        exists|path: Seq<int>|
            path.len() > 0 && path[0] == graph.root && path.last() == i && #[trigger] leads(
                graph.items,
                path,
            ),
    decreases i,
{
    if i == 0 {
        let path = seq![0int];
        assert(path.len() > 0 && path[0] == graph.root && path.last() == i && leads(
            graph.items,
            path,
        ));
    } else {
        assert(found_earlier(graph.items, i));
        let j = choose|j: int|
            0 <= j < i && j < graph.items.len() && links_to(#[trigger] graph.items[j], i as nat);
        law_reached_from_root(graph, cells, j);
        let shorter = choose|path: Seq<int>|
            path.len() > 0 && path[0] == graph.root && path.last() == j && #[trigger] leads(
                graph.items,
                path,
            );
        let path = shorter.push(i);
        assert forall|k: int| 0 <= k < path.len() - 1 implies 0 <= #[trigger] path[k]
            < graph.items.len() && links_to(graph.items[path[k]], path[k + 1] as nat) by {
            if k < shorter.len() - 1 {
                assert(path[k] == shorter[k]);
                assert(path[k + 1] == shorter[k + 1]);
            }
        }
        assert(path.len() > 0 && path[0] == graph.root && path.last() == i && leads(
            graph.items,
            path,
        ));
    }
}

/// In a finished graph a code block is inline exactly if it is not the
/// root: the root is the program itself, and not inline.
pub proof fn law_inline_is_nested(graph: GraphView, cells: Map<[u8; 32], Extent>, i: int)
    requires
        graph.wf(cells),
        0 <= i < graph.items.len(),
        graph.items[i] is Code,
    ensures
        graph.items[i]->Code_0.is_inline <==> i != graph.root,
{
    assert(node_nested(graph.items[i], i));
}

/// In a finished graph a code block is of one of the cells, and its offset
/// and size together stay within the bits and the children of that cell.
pub proof fn law_block_within_cell(graph: GraphView, cells: Map<[u8; 32], Extent>, i: int)
    requires
        graph.wf(cells),
        0 <= i < graph.items.len(),
        graph.items[i] is Code,
    ensures
        cells.contains_key(graph.items[i]->Code_0.cell_hash),
        graph.items[i]->Code_0.offset_bits + graph.items[i]->Code_0.bits
            <= cells[graph.items[i]->Code_0.cell_hash].bits,
        graph.items[i]->Code_0.offset_refs + graph.items[i]->Code_0.refs
            <= cells[graph.items[i]->Code_0.cell_hash].refs,
{
    assert(node_placed(graph.items[i], cells));
    assert(node_fits(graph.items[i], cells));
}

/// In a finished graph every node is taken from one of the cells.
pub proof fn law_node_of_a_cell(graph: GraphView, cells: Map<[u8; 32], Extent>, i: int)
    requires
        graph.wf(cells),
        0 <= i < graph.items.len(),
    ensures
        cells.contains_key(cell_of(graph.items[i])),
{
    assert(node_placed(graph.items[i], cells));
}

/// In the graph of a text a code block is of a cell of the text's tree, and
/// its offset and size together stay within the bits and the children that
/// this cell has.
pub proof fn law_block_within_source(text: Seq<char>, i: int)
    requires
        crate::disassembled(text) is Ok,
        0 <= i < crate::disassembled(text)->Ok_0.items.len(),
        crate::disassembled(text)->Ok_0.items[i] is Code,
    ensures
        reachable(
            decoded_root(text)->0,
            crate::disassembled(text)->Ok_0.items[i]->Code_0.cell_hash,
        ),
        crate::disassembled(text)->Ok_0.items[i]->Code_0.offset_bits + crate::disassembled(
            text,
        )->Ok_0.items[i]->Code_0.bits <= bits_at(
            crate::disassembled(text)->Ok_0.items[i]->Code_0.cell_hash,
        ),
        crate::disassembled(text)->Ok_0.items[i]->Code_0.offset_refs + crate::disassembled(
            text,
        )->Ok_0.items[i]->Code_0.refs <= refs_at(
            crate::disassembled(text)->Ok_0.items[i]->Code_0.cell_hash,
        ),
{
    let root = decoded_root(text)->0;
    let code = disassembly(root)->Ok_0;
    let cells = tree_sizes(root);
    let items = nodes_of(code.items@);
    lemma_assembled_wf(code.root as nat, items, cells);
    law_block_within_cell(crate::disassembled(text)->Ok_0, cells, i);
}

/// The graph of a text is a finished graph of code in the cells of the
/// text's tree.
pub proof fn law_graph_is_finished(text: Seq<char>)
    requires
        crate::disassembled(text) is Ok,
    ensures
        crate::disassembled(text)->Ok_0.wf(tree_sizes(decoded_root(text)->0)),
{
    let root = decoded_root(text)->0;
    let code = disassembly(root)->Ok_0;
    lemma_assembled_wf(code.root as nat, nodes_of(code.items@), tree_sizes(root));
}

/// In a finished graph a dispatch table is marked total exactly if its keys,
/// read as numbers of its key width, are all the numbers below two to the
/// power of that width.
pub proof fn law_total_dispatch(graph: GraphView, cells: Map<[u8; 32], Extent>, i: int)
    requires
        graph.wf(cells),
        0 <= i < graph.items.len(),
        graph.items[i] is Table,
    ensures
        graph.items[i]->Table_0.is_full_code <==> key_numbers(
            entry_keys(graph.items[i]->Table_0.items),
            pow2(graph.items[i]->Table_0.key_bits),
        ) == all_numbers(pow2(graph.items[i]->Table_0.key_bits)),
{
    let table = graph.items[i]->Table_0;
    assert(node_flagged(graph.items[i]));
    lemma_covers_is_set_equality(entry_keys(table.items), table.key_bits);
}

/// In a finished graph a dispatch table whose keys are all written without a
/// sign is marked total exactly if the values of its keys are the numbers
/// from zero up to, and without, two to the power of its key width.
pub proof fn law_total_dispatch_plain(graph: GraphView, cells: Map<[u8; 32], Extent>, i: int)
    requires
        graph.wf(cells),
        0 <= i < graph.items.len(),
        graph.items[i] is Table,
        forall|k: int|
            0 <= k < graph.items[i]->Table_0.items.len() ==> is_decimal(
                #[trigger] entry_keys(graph.items[i]->Table_0.items)[k],
            ),
    ensures
        graph.items[i]->Table_0.is_full_code <==> plain_values(
            entry_keys(graph.items[i]->Table_0.items),
        ) == Set::new(|v: nat| v < pow2(graph.items[i]->Table_0.key_bits)),
{
    let table = graph.items[i]->Table_0;
    assert(node_flagged(graph.items[i]));
    lemma_covers_plain_keys(entry_keys(table.items), table.key_bits);
}

/// The root of a finished graph is its first node.
pub proof fn law_root_is_first(graph: GraphView, cells: Map<[u8; 32], Extent>)
    requires
        graph.wf(cells),
    ensures
        graph.root == 0,
        graph.items.len() > 0,
{
}

} // verus!
