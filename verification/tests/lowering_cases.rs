use num_bigint::BigInt;
use tvm_disasm::cells::{CellSize, CellTable};
use tvm_disasm::error::{DisasmError, Location};
use tvm_disasm::graph::{
    Block, Graph, Instruction, JumpEntry, LibraryRef, Literal, Node, Operand, Table, Tail,
};
use tvm_disasm::graph_from;
use tvm_disasm::lower::{
    lower_block, lower_instruction, lower_items, lower_literal, lower_node, lower_operand,
    lower_table,
};
use tycho_types::boc::Boc;
use tycho_types::cell::{Cell, CellBuilder, CellSliceRange, HashBytes};

fn cell(bytes: &[u8]) -> Cell {
    let mut builder = CellBuilder::new();
    for byte in bytes {
        builder.store_u8(*byte).unwrap();
    }
    builder.build().unwrap()
}

fn cells() -> CellTable {
    let mut table = CellTable::new();
    for tag in 1..4 {
        table = table.with(CellSize { cell_hash: [tag; 32], bits: 100, refs: 2 }).0;
    }
    table
}

fn engine_opcode(name: &str, args: Vec<tycho_disasm::OpcodeArg>) -> tycho_disasm::Opcode {
    tycho_disasm::Opcode { bits: 24, refs: 1, name: name.into(), args, gas: 34 }
}

/// A block of a hundred bits and two references, of which its instructions
/// consume some; what is left is no instruction.
fn engine_block(tag: u8, opcodes: Vec<tycho_disasm::Opcode>) -> tycho_disasm::CodeBlock {
    tycho_disasm::CodeBlock {
        cell_hash: HashBytes([tag; 32]),
        is_inline: false,
        offset_bits: 0,
        offset_refs: 0,
        bits: 100,
        refs: 2,
        opcodes,
        tail: Some(tycho_disasm::CodeBlockTail::Incomplete),
    }
}

fn engine_inline(tag: u8) -> tycho_disasm::CodeBlock {
    let mut block = engine_block(tag, vec![]);
    block.is_inline = true;
    block.offset_bits = 2;
    block.bits = 8;
    block.refs = 0;
    block
}

#[test]
fn operands_keep_their_kind_and_value() {
    let big: BigInt = "-123456789012345678901234567890".parse().unwrap();
    assert_eq!(
        lower_operand(&tycho_disasm::OpcodeArg::Int(big)),
        Operand::Int { value: "-123456789012345678901234567890".to_string() }
    );
    assert_eq!(
        lower_operand(&tycho_disasm::OpcodeArg::Int(BigInt::from(0))),
        Operand::Int { value: "0".to_string() }
    );
    assert_eq!(
        lower_operand(&tycho_disasm::OpcodeArg::Stack { idx: -2 }),
        Operand::Stack { idx: -2 }
    );
    assert_eq!(lower_operand(&tycho_disasm::OpcodeArg::Reg { idx: 7 }), Operand::Reg { idx: 7 });
    assert_eq!(lower_operand(&tycho_disasm::OpcodeArg::Cell { id: 3 }), Operand::Cell { id: 3 });
    assert_eq!(lower_operand(&tycho_disasm::OpcodeArg::Slice { id: 4 }), Operand::Slice { id: 4 });
}

#[test]
fn instructions_keep_their_fields_and_operand_order() {
    let opcode = engine_opcode(
        "XCHG3",
        vec![
            tycho_disasm::OpcodeArg::Stack { idx: 1 },
            tycho_disasm::OpcodeArg::Stack { idx: 2 },
            tycho_disasm::OpcodeArg::Stack { idx: 3 },
        ],
    );
    assert_eq!(
        lower_instruction(&opcode),
        Instruction {
            bits: 24,
            refs: 1,
            name: "XCHG3".to_string(),
            args: vec![
                Operand::Stack { idx: 1 },
                Operand::Stack { idx: 2 },
                Operand::Stack { idx: 3 }
            ],
            gas: 34,
        }
    );
}

#[test]
fn blocks_keep_their_window_and_tail() {
    let mut block = engine_block(5, vec![engine_opcode("NOP", vec![])]);
    block.is_inline = true;
    block.offset_bits = 16;
    block.offset_refs = 1;
    block.tail = Some(tycho_disasm::CodeBlockTail::Child { id: 2 });
    let lowered = lower_block(&block);
    assert_eq!(lowered.cell_hash, [5u8; 32]);
    assert!(lowered.is_inline);
    assert_eq!((lowered.offset_bits, lowered.offset_refs), (16, 1));
    assert_eq!((lowered.bits, lowered.refs), (100, 2));
    assert_eq!(lowered.opcodes.len(), 1);
    assert_eq!(lowered.tail, Some(Tail::Child { id: 2 }));
    block.tail = Some(tycho_disasm::CodeBlockTail::Incomplete);
    assert_eq!(lower_block(&block).tail, Some(Tail::Incomplete));
    block.tail = None;
    assert_eq!(lower_block(&block).tail, None);
    block.tail = Some(tycho_disasm::CodeBlockTail::Incomplete);
}

#[test]
fn tables_keep_their_entries_with_decimal_keys() {
    let table = tycho_disasm::JumpTable {
        cell_hash: HashBytes([6; 32]),
        key_bits: 19,
        items: vec![(BigInt::from(-1), 1), (BigInt::from(0), 2), (BigInt::from(85143), 3)],
        is_full_code: true,
    };
    assert_eq!(
        lower_table(&table),
        Table {
            cell_hash: [6; 32],
            key_bits: 19,
            items: vec![
                JumpEntry { key: "-1".to_string(), target: 1 },
                JumpEntry { key: "0".to_string(), target: 2 },
                JumpEntry { key: "85143".to_string(), target: 3 },
            ],
            is_full_code: true,
        }
    );
}

#[test]
fn literals_carry_hash_window_and_serialized_cell() {
    let data = cell(&[1, 2, 3]);
    assert_eq!(
        lower_literal(&tycho_disasm::Data::Cell(data.clone())),
        Literal::Cell { cell_hash: data.repr_hash().0, boc: Boc::encode_base64(&data) }
    );
    let mut range = CellSliceRange::full(data.as_ref());
    range.skip_first(5, 0).unwrap();
    range.skip_last(3, 0).unwrap();
    assert_eq!(
        lower_literal(&tycho_disasm::Data::Slice((range, data.clone()))),
        Literal::Slice {
            cell_hash: data.repr_hash().0,
            offset_bits: 5,
            offset_refs: 0,
            bits: 16,
            refs: 0,
            boc: Boc::encode_base64(&data),
        }
    );
}

#[test]
fn items_keep_their_kind() {
    let library = tycho_disasm::Item::Library(tycho_disasm::Library {
        cell_hash: HashBytes([9; 32]),
    });
    assert_eq!(lower_node(&library), Node::Library(LibraryRef { hash: [9; 32] }));
    let code = tycho_disasm::Item::Code(engine_block(1, vec![]));
    assert!(matches!(lower_node(&code), Node::Code(_)));
    let data = tycho_disasm::Item::Data(tycho_disasm::DataBlock {
        data: tycho_disasm::Data::Cell(cell(&[])),
    });
    assert!(matches!(lower_node(&data), Node::Data(Literal::Cell { .. })));
}

#[test]
fn lowering_keeps_the_order_of_items() {
    let graph = tycho_disasm::Code {
        root: 0,
        items: vec![
            tycho_disasm::Item::Code(engine_block(1, vec![])),
            tycho_disasm::Item::Code(engine_block(2, vec![])),
            tycho_disasm::Item::Code(engine_block(3, vec![])),
        ],
    };
    let hashes: Vec<[u8; 32]> = lower_items(&graph)
        .iter()
        .map(|node| match node {
            Node::Code(Block { cell_hash, .. }) => *cell_hash,
            other => panic!("unexpected {:?}", other),
        })
        .collect();
    assert_eq!(hashes, vec![[1u8; 32], [2u8; 32], [3u8; 32]]);
}

#[test]
fn total_table_of_the_decoder_is_remarked_by_its_keys() {
    let graph = tycho_disasm::Code {
        root: 0,
        items: vec![
            tycho_disasm::Item::Code(engine_block(
                1,
                vec![
                    engine_opcode(
                        "DICTPUSHCONST",
                        vec![
                            tycho_disasm::OpcodeArg::Int(BigInt::from(1)),
                            tycho_disasm::OpcodeArg::Slice { id: 1 },
                        ],
                    ),
                    engine_opcode(
                        "DICTPUSHCONST",
                        vec![
                            tycho_disasm::OpcodeArg::Int(BigInt::from(1)),
                            tycho_disasm::OpcodeArg::Slice { id: 2 },
                        ],
                    ),
                ],
            )),
            tycho_disasm::Item::JumpTable(tycho_disasm::JumpTable {
                cell_hash: HashBytes([2; 32]),
                key_bits: 1,
                items: vec![(BigInt::from(0), 3)],
                is_full_code: true,
            }),
            tycho_disasm::Item::JumpTable(tycho_disasm::JumpTable {
                cell_hash: HashBytes([3; 32]),
                key_bits: 1,
                items: vec![(BigInt::from(-1), 3), (BigInt::from(0), 3)],
                is_full_code: false,
            }),
            tycho_disasm::Item::Code(engine_inline(2)),
        ],
    };
    let Graph { root, items } = graph_from(&graph, &cells()).unwrap();
    assert_eq!(root, 0);
    assert!(matches!(&items[1], Node::Table(Table { is_full_code: false, .. })));
    assert!(matches!(&items[2], Node::Table(Table { is_full_code: true, .. })));
}

#[test]
fn graph_of_the_decoder_with_a_dangling_id_is_refused() {
    let graph = tycho_disasm::Code {
        root: 0,
        items: vec![tycho_disasm::Item::Code(engine_block(
            1,
            vec![engine_opcode("PUSHREF", vec![tycho_disasm::OpcodeArg::Cell { id: 1 }])],
        ))],
    };
    let at = Location { cell_hash: [1; 32], offset_bits: 0, offset_refs: 0 };
    assert_eq!(graph_from(&graph, &cells()), Err(DisasmError::InconsistentGraph(at)));
}
