//! From the decoder's graph to this library's nodes: the same graph, with
//! every number, hash and text held as a plain value.

use vstd::prelude::*;

use crate::engine::{
    bigint_decimal, boc_of, cell_boc, cell_hash, decimal_of, hash_of, name_text, range_window,
    text_of, window_of,
};
use crate::graph::{
    entries_view, instructions_view, nodes_view, operands_view, Block, BlockView, EntryView,
    Instruction, InstructionView, JumpEntry, LibraryRef, Literal, LiteralView, Node, NodeView,
    Operand, OperandView, Table, TableView, Tail, TailView,
};

verus! {

/// The operand that stands for one of the decoder's.
pub open spec fn operand_of(arg: tycho_disasm::OpcodeArg) -> OperandView {
    match arg {
        tycho_disasm::OpcodeArg::Int(value) => OperandView::Int { value: decimal_of(value) },
        tycho_disasm::OpcodeArg::Stack { idx } => OperandView::Stack { idx: idx as int },
        tycho_disasm::OpcodeArg::Reg { idx } => OperandView::Reg { idx: idx as nat },
        tycho_disasm::OpcodeArg::Cell { id } => OperandView::Cell { id: id as nat },
        tycho_disasm::OpcodeArg::Slice { id } => OperandView::Slice { id: id as nat },
    }
}

/// The operands that stand for the decoder's, in order.
pub open spec fn operands_of(args: Seq<tycho_disasm::OpcodeArg>) -> Seq<OperandView> {
    args.map_values(|a: tycho_disasm::OpcodeArg| operand_of(a))
}

/// The instruction that stands for one of the decoder's.
pub open spec fn instruction_of(opcode: tycho_disasm::Opcode) -> InstructionView {
    InstructionView {
        bits: opcode.bits as nat,
        refs: opcode.refs as nat,
        name: text_of(opcode.name),
        args: operands_of(opcode.args@),
        gas: opcode.gas as nat,
    }
}

/// The instructions that stand for the decoder's, in order.
pub open spec fn instructions_of(opcodes: Seq<tycho_disasm::Opcode>) -> Seq<InstructionView> {
    opcodes.map_values(|o: tycho_disasm::Opcode| instruction_of(o))
}

/// The tail that stands for one of the decoder's.
pub open spec fn tail_of(tail: Option<tycho_disasm::CodeBlockTail>) -> Option<TailView> {
    match tail {
        None => None,
        Some(tycho_disasm::CodeBlockTail::Incomplete) => Some(TailView::Incomplete),
        Some(tycho_disasm::CodeBlockTail::Child { id }) => Some(TailView::Child { id: id as nat }),
    }
}

/// The code block that stands for one of the decoder's.
pub open spec fn block_of(block: tycho_disasm::CodeBlock) -> BlockView {
    BlockView {
        cell_hash: block.cell_hash.0,
        is_inline: block.is_inline,
        offset_bits: block.offset_bits as nat,
        offset_refs: block.offset_refs as nat,
        bits: block.bits as nat,
        refs: block.refs as nat,
        opcodes: instructions_of(block.opcodes@),
        tail: tail_of(block.tail),
    }
}

/// The table entry that stands for one of the decoder's.
pub open spec fn entry_of(entry: (num_bigint::BigInt, u32)) -> EntryView {
    EntryView { key: decimal_of(entry.0), target: entry.1 as nat }
}

/// The table entries that stand for the decoder's, in order.
pub open spec fn entries_of(entries: Seq<(num_bigint::BigInt, u32)>) -> Seq<EntryView> {
    entries.map_values(|e: (num_bigint::BigInt, u32)| entry_of(e))
}

/// The dispatch table that stands for one of the decoder's.
pub open spec fn table_of(table: tycho_disasm::JumpTable) -> TableView {
    TableView {
        cell_hash: table.cell_hash.0,
        key_bits: table.key_bits as nat,
        items: entries_of(table.items@),
        is_full_code: table.is_full_code,
    }
}

/// The literal that stands for one of the decoder's.
pub open spec fn literal_of(data: tycho_disasm::Data) -> LiteralView {
    match data {
        tycho_disasm::Data::Slice(parts) => LiteralView::Slice {
            cell_hash: hash_of(parts.1),
            offset_bits: window_of(parts.0).offset_bits as nat,
            offset_refs: window_of(parts.0).offset_refs as nat,
            bits: window_of(parts.0).bits as nat,
            refs: window_of(parts.0).refs as nat,
            boc: boc_of(hash_of(parts.1)),
        },
        tycho_disasm::Data::Cell(cell) => LiteralView::Cell {
            cell_hash: hash_of(cell),
            boc: boc_of(hash_of(cell)),
        },
    }
}

/// The node that stands for one of the decoder's items.
pub open spec fn node_of(item: tycho_disasm::Item) -> NodeView {
    match item {
        tycho_disasm::Item::JumpTable(table) => NodeView::Table(table_of(table)),
        tycho_disasm::Item::Code(block) => NodeView::Code(block_of(block)),
        tycho_disasm::Item::Data(block) => NodeView::Data(literal_of(block.data)),
        tycho_disasm::Item::Library(library) => NodeView::Library { hash: library.cell_hash.0 },
    }
}

/// The nodes that stand for the decoder's items, in order.
pub open spec fn nodes_of(items: Seq<tycho_disasm::Item>) -> Seq<NodeView> {
    items.map_values(|i: tycho_disasm::Item| node_of(i))
}

/// Lowers one operand.
pub fn lower_operand(arg: &tycho_disasm::OpcodeArg) -> (r: Operand)
    ensures
        r@ == operand_of(*arg),
{
    match arg {
        tycho_disasm::OpcodeArg::Int(value) => Operand::Int { value: bigint_decimal(value) },
        tycho_disasm::OpcodeArg::Stack { idx } => Operand::Stack { idx: *idx },
        tycho_disasm::OpcodeArg::Reg { idx } => Operand::Reg { idx: *idx },
        tycho_disasm::OpcodeArg::Cell { id } => Operand::Cell { id: *id },
        tycho_disasm::OpcodeArg::Slice { id } => Operand::Slice { id: *id },
    }
}

/// Lowers one instruction.
pub fn lower_instruction(opcode: &tycho_disasm::Opcode) -> (r: Instruction)
    ensures
        r@ == instruction_of(*opcode),
{
    let mut args: Vec<Operand> = Vec::new();
    let mut i: usize = 0;
    while i < opcode.args.len()
        invariant
            0 <= i <= opcode.args.len(),
            args.len() == i,
            forall|k: int| 0 <= k < i ==> (#[trigger] args[k])@ == operand_of(opcode.args[k]),
        decreases opcode.args.len() - i,
    {
        args.push(lower_operand(&opcode.args[i]));
        i = i + 1;
    }
    assert(operands_view(args@) =~= operands_of(opcode.args@));
    Instruction {
        bits: opcode.bits,
        refs: opcode.refs,
        name: name_text(&opcode.name),
        args,
        gas: opcode.gas,
    }
}

/// Lowers one code block.
pub fn lower_block(block: &tycho_disasm::CodeBlock) -> (r: Block)
    ensures
        r@ == block_of(*block),
{
    let mut opcodes: Vec<Instruction> = Vec::new();
    let mut i: usize = 0;
    while i < block.opcodes.len()
        invariant
            0 <= i <= block.opcodes.len(),
            opcodes.len() == i,
            forall|k: int|
                0 <= k < i ==> (#[trigger] opcodes[k])@ == instruction_of(block.opcodes[k]),
        decreases block.opcodes.len() - i,
    {
        opcodes.push(lower_instruction(&block.opcodes[i]));
        i = i + 1;
    }
    assert(instructions_view(opcodes@) =~= instructions_of(block.opcodes@));
    let tail = match &block.tail {
        None => None,
        Some(tycho_disasm::CodeBlockTail::Incomplete) => Some(Tail::Incomplete),
        Some(tycho_disasm::CodeBlockTail::Child { id }) => Some(Tail::Child { id: *id }),
    };
    Block {
        cell_hash: block.cell_hash.0,
        is_inline: block.is_inline,
        offset_bits: block.offset_bits,
        offset_refs: block.offset_refs,
        bits: block.bits,
        refs: block.refs,
        opcodes,
        tail,
    }
}

/// Lowers one dispatch table.
pub fn lower_table(table: &tycho_disasm::JumpTable) -> (r: Table)
    ensures
        r@ == table_of(*table),
{
    let mut items: Vec<JumpEntry> = Vec::new();
    let mut i: usize = 0;
    while i < table.items.len()
        invariant
            0 <= i <= table.items.len(),
            items.len() == i,
            forall|k: int| 0 <= k < i ==> (#[trigger] items[k])@ == entry_of(table.items[k]),
        decreases table.items.len() - i,
    {
        let entry = &table.items[i];
        items.push(JumpEntry { key: bigint_decimal(&entry.0), target: entry.1 });
        i = i + 1;
    }
    assert(entries_view(items@) =~= entries_of(table.items@));
    Table {
        cell_hash: table.cell_hash.0,
        key_bits: table.key_bits,
        items,
        is_full_code: table.is_full_code,
    }
}

/// Lowers one literal.
pub fn lower_literal(data: &tycho_disasm::Data) -> (r: Literal)
    ensures
        r@ == literal_of(*data),
{
    match data {
        tycho_disasm::Data::Slice(parts) => {
            let window = range_window(&parts.0);
            Literal::Slice {
                cell_hash: cell_hash(&parts.1),
                offset_bits: window.offset_bits,
                offset_refs: window.offset_refs,
                bits: window.bits,
                refs: window.refs,
                boc: cell_boc(&parts.1),
            }
        },
        tycho_disasm::Data::Cell(cell) => Literal::Cell {
            cell_hash: cell_hash(cell),
            boc: cell_boc(cell),
        },
    }
}

/// Lowers one item.
pub fn lower_node(item: &tycho_disasm::Item) -> (r: Node)
    ensures
        r@ == node_of(*item),
{
    match item {
        tycho_disasm::Item::JumpTable(table) => Node::Table(lower_table(table)),
        tycho_disasm::Item::Code(block) => Node::Code(lower_block(block)),
        tycho_disasm::Item::Data(block) => Node::Data(lower_literal(&block.data)),
        tycho_disasm::Item::Library(library) => Node::Library(
            LibraryRef { hash: library.cell_hash.0 },
        ),
    }
}

/// Lowers every item of the decoder's graph, in order.
pub fn lower_items(code: &tycho_disasm::Code) -> (r: Vec<Node>)
    ensures
        nodes_view(r@) == nodes_of(code.items@),
{
    let mut items: Vec<Node> = Vec::new();
    let mut i: usize = 0;
    while i < code.items.len()
        invariant
            0 <= i <= code.items.len(),
            items.len() == i,
            forall|k: int| 0 <= k < i ==> (#[trigger] items[k])@ == node_of(code.items[k]),
        decreases code.items.len() - i,
    {
        items.push(lower_node(&code.items[i]));
        i = i + 1;
    }
    assert(nodes_view(items@) =~= nodes_of(code.items@));
    items
}

} // verus!
