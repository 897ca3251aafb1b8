//! The rules of a finished graph, stated over the models of its types: every
//! id names a node of the fitting kind, every block lies within its cell and
//! is made up of its instructions, every table knows whether it is total,
//! and no piece of the input has two nodes.

use vstd::prelude::*;

use crate::cells::Extent;
use crate::cursor::window_fits;
use crate::error::{start_of, Location};
use crate::graph::{
    BlockView, GraphView, InstructionView, LiteralView, NodeView, OperandView, TableView, TailView,
};
use crate::keys::{covers, entry_keys};

verus! {

/// What a node is, as far as a link to it cares.
#[derive(Clone, Copy, Debug, PartialEq, Eq)]
pub enum Kind {
    /// A dispatch table.
    Table,
    /// A block of code.
    Code,
    /// A window of data.
    Slice,
    /// A cell of data.
    Cell,
    /// A library.
    Library,
}

/// The kind of a node.
pub open spec fn kind_of(node: NodeView) -> Kind {
    match node {
        NodeView::Table(_) => Kind::Table,
        NodeView::Code(_) => Kind::Code,
        NodeView::Data(LiteralView::Slice { .. }) => Kind::Slice,
        NodeView::Data(LiteralView::Cell { .. }) => Kind::Cell,
        NodeView::Library { .. } => Kind::Library,
    }
}

/// The kinds of the nodes, in order.
pub open spec fn kinds_of(items: Seq<NodeView>) -> Seq<Kind> {
    items.map_values(|n: NodeView| kind_of(n))
}

/// What an operand that names a cell may name: a cell of data, code, or a
/// library.
pub open spec fn cell_like(kind: Kind) -> bool {
    kind is Cell || kind is Code || kind is Library
}

/// What an operand that names a slice may name: a window of data, code, or a
/// dispatch table.
pub open spec fn slice_like(kind: Kind) -> bool {
    kind is Slice || kind is Code || kind is Table
}

/// What a block may go on in: code, or a library.
pub open spec fn continuation_like(kind: Kind) -> bool {
    kind is Code || kind is Library
}

/// An operand that names a node names one of the first `count`.
pub open spec fn operand_linked(arg: OperandView, count: nat) -> bool {
    match arg {
        OperandView::Cell { id } => id < count,
        OperandView::Slice { id } => id < count,
        _ => true,
    }
}

/// Every operand of the instruction is linked.
pub open spec fn instruction_linked(opcode: InstructionView, count: nat) -> bool {
    forall|k: int| 0 <= k < opcode.args.len() ==> operand_linked(#[trigger] opcode.args[k], count)
}

/// A tail that names a node names one of the first `count`.
pub open spec fn tail_linked(tail: Option<TailView>, count: nat) -> bool {
    match tail {
        Some(TailView::Child { id }) => id < count,
        _ => true,
    }
}

/// The tail and every instruction of the block are linked.
pub open spec fn block_linked(block: BlockView, count: nat) -> bool {
    &&& tail_linked(block.tail, count)
    &&& forall|j: int|
        0 <= j < block.opcodes.len() ==> instruction_linked(#[trigger] block.opcodes[j], count)
}

/// Every entry of the table dispatches to one of the first `count` nodes.
pub open spec fn table_linked(table: TableView, count: nat) -> bool {
    forall|k: int| 0 <= k < table.items.len() ==> (#[trigger] table.items[k]).target < count
}

/// Every id that the node holds is the position of a node.
pub open spec fn node_linked(node: NodeView, count: nat) -> bool {
    match node {
        NodeView::Table(table) => table_linked(table, count),
        NodeView::Code(block) => block_linked(block, count),
        _ => true,
    }
}

/// An operand that names a node names one of the kind that it says.
pub open spec fn operand_typed(arg: OperandView, kinds: Seq<Kind>) -> bool {
    match arg {
        OperandView::Cell { id } => id < kinds.len() ==> cell_like(kinds[id as int]),
        OperandView::Slice { id } => id < kinds.len() ==> slice_like(kinds[id as int]),
        _ => true,
    }
}

/// Every operand of the instruction is typed.
pub open spec fn instruction_typed(opcode: InstructionView, kinds: Seq<Kind>) -> bool {
    forall|k: int| 0 <= k < opcode.args.len() ==> operand_typed(#[trigger] opcode.args[k], kinds)
}

/// A tail that names a node names one that a block may go on in.
pub open spec fn tail_typed(tail: Option<TailView>, kinds: Seq<Kind>) -> bool {
    match tail {
        Some(TailView::Child { id }) => id < kinds.len() ==> continuation_like(kinds[id as int]),
        _ => true,
    }
}

/// The tail and every instruction of the block are typed.
pub open spec fn block_typed(block: BlockView, kinds: Seq<Kind>) -> bool {
    &&& tail_typed(block.tail, kinds)
    &&& forall|j: int|
        0 <= j < block.opcodes.len() ==> instruction_typed(#[trigger] block.opcodes[j], kinds)
}

/// Every entry of the table dispatches to code.
pub open spec fn table_typed(table: TableView, kinds: Seq<Kind>) -> bool {
    forall|k: int|
        0 <= k < table.items.len() && (#[trigger] table.items[k]).target < kinds.len()
            ==> kinds[table.items[k].target as int] is Code
}

/// Every id that the node holds names a node of the fitting kind.
pub open spec fn node_typed(node: NodeView, kinds: Seq<Kind>) -> bool {
    match node {
        NodeView::Table(table) => table_typed(table, kinds),
        NodeView::Code(block) => block_typed(block, kinds),
        _ => true,
    }
}

/// The operand names the node at a position.
pub open spec fn operand_names(arg: OperandView, id: nat) -> bool {
    match arg {
        OperandView::Cell { id: named } => named == id,
        OperandView::Slice { id: named } => named == id,
        _ => false,
    }
}

/// One of the operands of the instruction names the node at a position.
pub open spec fn instruction_names(opcode: InstructionView, id: nat) -> bool {
    exists|k: int| 0 <= k < opcode.args.len() && operand_names(#[trigger] opcode.args[k], id)
}

/// The tail or one of the instructions of the block names the node at a
/// position.
pub open spec fn block_names(block: BlockView, id: nat) -> bool {
    ||| block.tail == Some(TailView::Child { id })
    ||| exists|j: int|
        0 <= j < block.opcodes.len() && instruction_names(#[trigger] block.opcodes[j], id)
}

/// One of the entries of the table dispatches to the node at a position.
pub open spec fn table_names(table: TableView, id: nat) -> bool {
    exists|k: int| 0 <= k < table.items.len() && (#[trigger] table.items[k]).target == id
}

/// The node names the node at a position: in a tail, an operand, or an entry.
pub open spec fn links_to(node: NodeView, id: nat) -> bool {
    match node {
        NodeView::Table(table) => table_names(table, id),
        NodeView::Code(block) => block_names(block, id),
        _ => false,
    }
}

/// One of the first `count` nodes names the node at a position.
pub open spec fn named_by_first(items: Seq<NodeView>, count: int, id: nat) -> bool {
    exists|j: int| 0 <= j < count && j < items.len() && links_to(#[trigger] items[j], id)
}

/// The node at a position is named by an earlier node: it was found from
/// there.
pub open spec fn found_earlier(items: Seq<NodeView>, position: int) -> bool {
    named_by_first(items, position, position as nat)
}

/// No key stands twice in the table.
pub open spec fn keys_distinct(table: TableView) -> bool {
    forall|a: int, b: int|
        0 <= a < b < table.items.len() ==> (#[trigger] table.items[a]).key != (
        #[trigger] table.items[b]).key
}

/// A dispatch table holds no key twice.
pub open spec fn node_keyed(node: NodeView) -> bool {
    node matches NodeView::Table(table) ==> keys_distinct(table)
}

/// A dispatch table is marked total exactly if its keys are all the keys of
/// its width.
pub open spec fn node_flagged(node: NodeView) -> bool {
    node matches NodeView::Table(table) ==> (table.is_full_code <==> covers(
        entry_keys(table.items),
        table.key_bits,
    ))
}

/// The hash of the cell that a node is taken from.
pub open spec fn cell_of(node: NodeView) -> [u8; 32] {
    match node {
        NodeView::Table(table) => table.cell_hash,
        NodeView::Code(block) => block.cell_hash,
        NodeView::Data(LiteralView::Slice { cell_hash, .. }) => cell_hash,
        NodeView::Data(LiteralView::Cell { cell_hash, .. }) => cell_hash,
        NodeView::Library { hash } => hash,
    }
}

/// The cell of a node is one of the given cells.
pub open spec fn node_placed(node: NodeView, cells: Map<[u8; 32], Extent>) -> bool {
    cells.contains_key(cell_of(node))
}

/// The block ends within its cell.
pub open spec fn block_fits(block: BlockView, cell: Extent) -> bool {
    window_fits(block.offset_bits, block.offset_refs, block.bits, block.refs, cell)
}

/// A code block and a slice of data end within their cell.
pub open spec fn node_fits(node: NodeView, cells: Map<[u8; 32], Extent>) -> bool {
    match node {
        NodeView::Code(block) => block_fits(block, cells[block.cell_hash]),
        NodeView::Data(
            LiteralView::Slice { cell_hash, offset_bits, offset_refs, bits, refs, .. },
        ) => {
            window_fits(offset_bits, offset_refs, bits, refs, cells[cell_hash])
        },
        _ => true,
    }
}

/// The bits that the instructions consume together.
pub open spec fn used_bits(opcodes: Seq<InstructionView>) -> nat
    decreases opcodes.len(),
{
    if opcodes.len() == 0 {
        0
    } else {
        used_bits(opcodes.drop_last()) + opcodes.last().bits
    }
}

/// The references that the instructions consume together.
pub open spec fn used_refs(opcodes: Seq<InstructionView>) -> nat
    decreases opcodes.len(),
{
    if opcodes.len() == 0 {
        0
    } else {
        used_refs(opcodes.drop_last()) + opcodes.last().refs
    }
}

/// The instructions of the block consume no more than the block has.
pub open spec fn block_accounted(block: BlockView) -> bool {
    used_bits(block.opcodes) <= block.bits && used_refs(block.opcodes) <= block.refs
}

/// The tail says how the block ended: cleanly, with nothing left; in a child,
/// with no bits left and a reference to go on with; or incomplete, with bits
/// left that are no instruction.
pub open spec fn tail_agrees(block: BlockView) -> bool {
    match block.tail {
        None => used_bits(block.opcodes) == block.bits && used_refs(block.opcodes) == block.refs,
        Some(TailView::Child { .. }) => used_bits(block.opcodes) == block.bits && used_refs(
            block.opcodes,
        ) < block.refs,
        Some(TailView::Incomplete) => used_bits(block.opcodes) < block.bits,
    }
}

/// A code block is inline exactly if it is not the node at the root's
/// position: the root is the program itself, every other block is code that
/// the program holds.
pub open spec fn node_nested(node: NodeView, position: int) -> bool {
    node matches NodeView::Code(block) ==> (block.is_inline <==> position != 0)
}

/// A code block is made up of its instructions, and its tail says how it
/// ended.
pub open spec fn node_accounted(node: NodeView) -> bool {
    node matches NodeView::Code(block) ==> block_accounted(block) && tail_agrees(block)
}

/// The piece of the input that a node stands for: a whole cell, or a window
/// into one.
pub struct Source {
    pub cell_hash: [u8; 32],
    pub whole: bool,
    pub offset_bits: nat,
    pub offset_refs: nat,
    pub bits: nat,
    pub refs: nat,
}

/// The whole cell with the given hash.
pub open spec fn whole_cell(cell_hash: [u8; 32]) -> Source {
    Source { cell_hash, whole: true, offset_bits: 0, offset_refs: 0, bits: 0, refs: 0 }
}

/// The block is all of its cell: it begins at the start of the cell and has
/// all of its bits and children.
pub open spec fn block_is_whole(block: BlockView, cells: Map<[u8; 32], Extent>) -> bool {
    &&& block.offset_bits == 0
    &&& block.offset_refs == 0
    &&& cells.contains_key(block.cell_hash)
    &&& block.bits == cells[block.cell_hash].bits
    &&& block.refs == cells[block.cell_hash].refs
}

/// The piece of the input that a node stands for. A table, a cell of data and
/// a library stand for a whole cell, and so does a block that is all of its
/// cell; any other block and a slice of data stand for a window.
pub open spec fn source_of(node: NodeView, cells: Map<[u8; 32], Extent>) -> Source {
    match node {
        NodeView::Table(table) => whole_cell(table.cell_hash),
        NodeView::Code(block) => if block_is_whole(block, cells) {
            whole_cell(block.cell_hash)
        } else {
            Source {
                cell_hash: block.cell_hash,
                whole: false,
                offset_bits: block.offset_bits,
                offset_refs: block.offset_refs,
                bits: block.bits,
                refs: block.refs,
            }
        },
        NodeView::Data(
            LiteralView::Slice { cell_hash, offset_bits, offset_refs, bits, refs, .. },
        ) => {
            Source { cell_hash, whole: false, offset_bits, offset_refs, bits, refs }
        },
        NodeView::Data(LiteralView::Cell { cell_hash, .. }) => whole_cell(cell_hash),
        NodeView::Library { hash } => whole_cell(hash),
    }
}

/// Where a node begins in the input.
pub open spec fn place_of(node: NodeView) -> Location {
    match node {
        NodeView::Table(table) => start_of(table.cell_hash),
        NodeView::Code(block) => Location {
            cell_hash: block.cell_hash,
            offset_bits: block.offset_bits as u16,
            offset_refs: block.offset_refs as u8,
        },
        NodeView::Data(LiteralView::Slice { cell_hash, offset_bits, offset_refs, .. }) => Location {
            cell_hash,
            offset_bits: offset_bits as u16,
            offset_refs: offset_refs as u8,
        },
        NodeView::Data(LiteralView::Cell { cell_hash, .. }) => start_of(cell_hash),
        NodeView::Library { hash } => start_of(hash),
    }
}

impl GraphView {
    /// The root is the first node.
    pub open spec fn rooted(self) -> bool {
        self.items.len() > 0 && self.root == 0
    }

    /// Every id in the graph is the position of a node.
    pub open spec fn linked(self) -> bool {
        forall|i: int|
            0 <= i < self.items.len() ==> node_linked(#[trigger] self.items[i], self.items.len())
    }

    /// Every id in the graph names a node of the fitting kind.
    pub open spec fn typed(self) -> bool {
        forall|i: int|
            0 <= i < self.items.len() ==> node_typed(#[trigger] self.items[i], kinds_of(self.items))
    }

    /// Every node is of one of the given cells, and every code block and
    /// every slice of data ends within its cell.
    pub open spec fn fitting(self, cells: Map<[u8; 32], Extent>) -> bool {
        forall|i: int|
            0 <= i < self.items.len() ==> node_placed(#[trigger] self.items[i], cells) && node_fits(
                self.items[i],
                cells,
            )
    }

    /// Every code block is made up of its instructions.
    pub open spec fn accounted(self) -> bool {
        forall|i: int| 0 <= i < self.items.len() ==> node_accounted(#[trigger] self.items[i])
    }

    /// No dispatch table holds a key twice.
    pub open spec fn keyed(self) -> bool {
        forall|i: int| 0 <= i < self.items.len() ==> node_keyed(#[trigger] self.items[i])
    }

    /// Every dispatch table is marked total exactly if it is.
    pub open spec fn flagged(self) -> bool {
        forall|i: int| 0 <= i < self.items.len() ==> node_flagged(#[trigger] self.items[i])
    }

    /// Every node but the root is named by an earlier node: the nodes stand
    /// in the order in which they were found, and each was found from the
    /// root.
    pub open spec fn ordered(self) -> bool {
        forall|i: int| 0 < i < self.items.len() ==> #[trigger] found_earlier(self.items, i)
    }

    /// Every code block but the root is inline.
    pub open spec fn nested(self) -> bool {
        forall|i: int| 0 <= i < self.items.len() ==> node_nested(#[trigger] self.items[i], i)
    }

    /// No two nodes stand for the same piece of the input.
    pub open spec fn deduplicated(self, cells: Map<[u8; 32], Extent>) -> bool {
        forall|i: int, j: int|
            0 <= i < j < self.items.len() ==> source_of(#[trigger] self.items[i], cells)
                != source_of(#[trigger] self.items[j], cells)
    }

    /// The invariant of a finished graph of code in the given cells.
    pub open spec fn wf(self, cells: Map<[u8; 32], Extent>) -> bool {
        &&& self.rooted()
        &&& self.linked()
        &&& self.typed()
        &&& self.fitting(cells)
        &&& self.accounted()
        &&& self.keyed()
        &&& self.flagged()
        &&& self.ordered()
        &&& self.nested()
        &&& self.deduplicated(cells)
    }
}

/// One more instruction consumes its own bits and references on top.
pub proof fn lemma_used_step(opcodes: Seq<InstructionView>, n: int)
    requires
        0 <= n < opcodes.len(),
    ensures
        used_bits(opcodes.take(n + 1)) == used_bits(opcodes.take(n)) + opcodes[n].bits,
        used_refs(opcodes.take(n + 1)) == used_refs(opcodes.take(n)) + opcodes[n].refs,
{
    assert(opcodes.take(n + 1).drop_last() =~= opcodes.take(n));
    assert(opcodes.take(n + 1).last() == opcodes[n]);
}

} // verus!
