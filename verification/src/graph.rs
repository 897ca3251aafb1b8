//! The disassembly graph: a flat table of nodes that refer to one another by
//! position, and the mathematical model of each of its types.

use vstd::prelude::*;

verus! {

/// Position of a node in [`Graph::items`].
pub type ItemId = u32;

/// One operand of a decoded instruction.
#[derive(Clone, Debug, PartialEq, Eq)]
pub enum Operand {
    /// Integer immediate, as exact decimal text.
    Int { value: String },
    /// Stack slot index.
    Stack { idx: i32 },
    /// Control register index.
    Reg { idx: u8 },
    /// Reference to a node held as a whole cell.
    Cell { id: ItemId },
    /// Reference to a node held as a slice of a cell.
    Slice { id: ItemId },
}

/// One decoded instruction.
#[derive(Clone, Debug, PartialEq, Eq)]
pub struct Instruction {
    /// Bits consumed by the instruction.
    pub bits: u16,
    /// References consumed by the instruction.
    pub refs: u8,
    /// Mnemonic.
    pub name: String,
    /// Operands in textual order.
    pub args: Vec<Operand>,
    /// Gas charged for the instruction.
    pub gas: u64,
}

/// How the decoding of a code block ended, when it did not end cleanly.
#[derive(Clone, Copy, Debug, PartialEq, Eq)]
pub enum Tail {
    /// The remaining bits match no instruction.
    Incomplete,
    /// The block goes on in another node.
    Child { id: ItemId },
}

/// A decoded instruction stream: a code block.
#[derive(Clone, Debug, PartialEq, Eq)]
pub struct Block {
    /// Hash of the cell that holds the code.
    pub cell_hash: [u8; 32],
    /// The block is code that the program holds, not the program itself.
    pub is_inline: bool,
    /// Where in the cell's bits the block begins.
    pub offset_bits: u16,
    /// Where in the cell's references the block begins.
    pub offset_refs: u8,
    /// Bits of the block.
    pub bits: u16,
    /// References of the block.
    pub refs: u8,
    /// The instructions in order.
    pub opcodes: Vec<Instruction>,
    /// How decoding ended; `None` when it ended cleanly.
    pub tail: Option<Tail>,
}

/// One entry of a dispatch table.
#[derive(Clone, Debug, PartialEq, Eq)]
pub struct JumpEntry {
    /// Key as decimal text.
    pub key: String,
    /// Node that the key dispatches to.
    pub target: ItemId,
}

/// A key-indexed dispatch table: a jump table.
#[derive(Clone, Debug, PartialEq, Eq)]
pub struct Table {
    /// Hash of the cell that holds the dictionary.
    pub cell_hash: [u8; 32],
    /// Width of a key in bits.
    pub key_bits: u16,
    /// The entries in the dictionary's order.
    pub items: Vec<JumpEntry>,
    /// The table has an entry for every key of its width.
    pub is_full_code: bool,
}

/// Literal data referenced by an instruction: a data block.
#[derive(Clone, Debug, PartialEq, Eq)]
pub enum Literal {
    /// A window into a cell: the cell's hash, where the window begins, how
    /// much it holds, and the cell itself, serialized and written in base64.
    Slice {
        cell_hash: [u8; 32],
        offset_bits: u16,
        offset_refs: u8,
        bits: u16,
        refs: u8,
        boc: String,
    },
    /// A whole cell: its hash, and the cell itself, serialized and written
    /// in base64.
    Cell { cell_hash: [u8; 32], boc: String },
}

/// Code that lives outside the tree: a library.
#[derive(Clone, Debug, PartialEq, Eq)]
pub struct LibraryRef {
    /// Hash of the cell that refers to the library.
    pub hash: [u8; 32],
}

/// One node of the graph.
#[derive(Clone, Debug, PartialEq, Eq)]
pub enum Node {
    Table(Table),
    Code(Block),
    Data(Literal),
    Library(LibraryRef),
}

/// The whole graph: the root's id and the nodes in discovery order.
#[derive(Clone, Debug, PartialEq, Eq)]
pub struct Graph {
    pub root: ItemId,
    pub items: Vec<Node>,
}

/// Model of [`Operand`].
pub enum OperandView {
    Int { value: Seq<char> },
    Stack { idx: int },
    Reg { idx: nat },
    Cell { id: nat },
    Slice { id: nat },
}

/// Model of [`Instruction`].
pub struct InstructionView {
    pub bits: nat,
    pub refs: nat,
    pub name: Seq<char>,
    pub args: Seq<OperandView>,
    pub gas: nat,
}

/// Model of [`Tail`].
pub enum TailView {
    Incomplete,
    Child { id: nat },
}

/// Model of [`Block`].
pub struct BlockView {
    pub cell_hash: [u8; 32],
    pub is_inline: bool,
    pub offset_bits: nat,
    pub offset_refs: nat,
    pub bits: nat,
    pub refs: nat,
    pub opcodes: Seq<InstructionView>,
    pub tail: Option<TailView>,
}

/// Model of [`JumpEntry`].
pub struct EntryView {
    pub key: Seq<char>,
    pub target: nat,
}

/// Model of [`Table`].
pub struct TableView {
    pub cell_hash: [u8; 32],
    pub key_bits: nat,
    pub items: Seq<EntryView>,
    pub is_full_code: bool,
}

/// Model of [`Literal`].
pub enum LiteralView {
    Slice {
        cell_hash: [u8; 32],
        offset_bits: nat,
        offset_refs: nat,
        bits: nat,
        refs: nat,
        boc: Seq<char>,
    },
    Cell { cell_hash: [u8; 32], boc: Seq<char> },
}

/// Model of [`Node`].
pub enum NodeView {
    Table(TableView),
    Code(BlockView),
    Data(LiteralView),
    Library { hash: [u8; 32] },
}

/// Model of [`Graph`].
pub struct GraphView {
    pub root: nat,
    pub items: Seq<NodeView>,
}

impl View for Operand {
    type V = OperandView;

    open spec fn view(&self) -> OperandView {
        match *self {
            Operand::Int { value } => OperandView::Int { value: value@ },
            Operand::Stack { idx } => OperandView::Stack { idx: idx as int },
            Operand::Reg { idx } => OperandView::Reg { idx: idx as nat },
            Operand::Cell { id } => OperandView::Cell { id: id as nat },
            Operand::Slice { id } => OperandView::Slice { id: id as nat },
        }
    }
}

/// Model of a list of operands.
pub open spec fn operands_view(args: Seq<Operand>) -> Seq<OperandView> {
    args.map_values(|a: Operand| a@)
}

impl View for Instruction {
    type V = InstructionView;

    open spec fn view(&self) -> InstructionView {
        InstructionView {
            bits: self.bits as nat,
            refs: self.refs as nat,
            name: self.name@,
            args: operands_view(self.args@),
            gas: self.gas as nat,
        }
    }
}

/// Model of a list of instructions.
pub open spec fn instructions_view(opcodes: Seq<Instruction>) -> Seq<InstructionView> {
    opcodes.map_values(|o: Instruction| o@)
}

impl View for Tail {
    type V = TailView;

    open spec fn view(&self) -> TailView {
        match *self {
            Tail::Incomplete => TailView::Incomplete,
            Tail::Child { id } => TailView::Child { id: id as nat },
        }
    }
}

/// Model of an optional tail.
pub open spec fn tail_view(tail: Option<Tail>) -> Option<TailView> {
    match tail {
        Some(t) => Some(t@),
        None => None,
    }
}

impl View for Block {
    type V = BlockView;

    open spec fn view(&self) -> BlockView {
        BlockView {
            cell_hash: self.cell_hash,
            is_inline: self.is_inline,
            offset_bits: self.offset_bits as nat,
            offset_refs: self.offset_refs as nat,
            bits: self.bits as nat,
            refs: self.refs as nat,
            opcodes: instructions_view(self.opcodes@),
            tail: tail_view(self.tail),
        }
    }
}

impl View for JumpEntry {
    type V = EntryView;

    open spec fn view(&self) -> EntryView {
        EntryView { key: self.key@, target: self.target as nat }
    }
}

/// Model of a list of entries.
pub open spec fn entries_view(entries: Seq<JumpEntry>) -> Seq<EntryView> {
    entries.map_values(|e: JumpEntry| e@)
}

impl View for Table {
    type V = TableView;

    open spec fn view(&self) -> TableView {
        TableView {
            cell_hash: self.cell_hash,
            key_bits: self.key_bits as nat,
            items: entries_view(self.items@),
            is_full_code: self.is_full_code,
        }
    }
}

impl View for Literal {
    type V = LiteralView;

    open spec fn view(&self) -> LiteralView {
        match *self {
            Literal::Slice { cell_hash, offset_bits, offset_refs, bits, refs, boc } => {
                LiteralView::Slice {
                    cell_hash,
                    offset_bits: offset_bits as nat,
                    offset_refs: offset_refs as nat,
                    bits: bits as nat,
                    refs: refs as nat,
                    boc: boc@,
                }
            },
            Literal::Cell { cell_hash, boc } => LiteralView::Cell { cell_hash, boc: boc@ },
        }
    }
}

impl View for Node {
    type V = NodeView;

    open spec fn view(&self) -> NodeView {
        match *self {
            Node::Table(table) => NodeView::Table(table@),
            Node::Code(block) => NodeView::Code(block@),
            Node::Data(literal) => NodeView::Data(literal@),
            Node::Library(library) => NodeView::Library { hash: library.hash },
        }
    }
}

/// Model of a list of nodes.
pub open spec fn nodes_view(items: Seq<Node>) -> Seq<NodeView> {
    items.map_values(|n: Node| n@)
}

impl View for Graph {
    type V = GraphView;

    open spec fn view(&self) -> GraphView {
        GraphView { root: self.root as nat, items: nodes_view(self.items@) }
    }
}

} // verus!
