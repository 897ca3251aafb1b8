use tvm_disasm::cells::index_cells;
use tvm_disasm::disasm_structured;
use tvm_disasm::error::{DisasmError, Location};
use tvm_disasm::graph::{Block, Graph, Literal, Node, Operand, Table, Tail};
use tycho_types::boc::Boc;
use tycho_types::cell::{Cell, CellBuilder, HashBytes};
use tycho_types::dict::RawDict;
use tycho_types::merkle::MerkleProof;

const NOP: u8 = 0x00;
const PUSHREF: u8 = 0x88;
const PUSHREFCONT: u8 = 0x8a;

fn cell(bytes: &[u8], refs: &[Cell]) -> Cell {
    let mut builder = CellBuilder::new();
    for byte in bytes {
        builder.store_u8(*byte).unwrap();
    }
    for child in refs {
        builder.store_reference(child.clone()).unwrap();
    }
    builder.build().unwrap()
}

fn text(root: &Cell) -> String {
    Boc::encode_base64(root)
}

fn run(root: &Cell) -> Graph {
    disasm_structured(&text(root)).unwrap()
}

fn block(graph: &Graph, id: usize) -> &Block {
    match &graph.items[id] {
        Node::Code(block) => block,
        other => panic!("item {} is no code block: {:?}", id, other),
    }
}

fn ids_in_range(graph: &Graph) -> bool {
    let count = graph.items.len();
    graph.items.iter().all(|node| match node {
        Node::Code(block) => {
            let tail_ok = match block.tail {
                Some(Tail::Child { id }) => (id as usize) < count,
                _ => true,
            };
            tail_ok
                && block.opcodes.iter().all(|opcode| {
                    opcode.args.iter().all(|arg| match arg {
                        Operand::Cell { id } | Operand::Slice { id } => (*id as usize) < count,
                        _ => true,
                    })
                })
        }
        Node::Table(table) => table.items.iter().all(|entry| (entry.target as usize) < count),
        _ => true,
    })
}

#[test]
fn empty_program_is_one_clean_block() {
    let root = cell(&[], &[]);
    let graph = run(&root);
    assert_eq!(graph.root, 0);
    assert_eq!(graph.items.len(), 1);
    let only = block(&graph, 0);
    assert_eq!(only.cell_hash, root.repr_hash().0);
    assert!(!only.is_inline);
    assert_eq!((only.offset_bits, only.offset_refs), (0, 0));
    assert_eq!((only.bits, only.refs), (0, 0));
    assert!(only.opcodes.is_empty());
    assert_eq!(only.tail, None);
}

#[test]
fn single_opcode_ends_cleanly() {
    let graph = run(&cell(&[NOP], &[]));
    assert_eq!(graph.root, 0);
    assert_eq!(graph.items.len(), 1);
    let only = block(&graph, 0);
    assert_eq!((only.bits, only.refs), (8, 0));
    assert_eq!(only.opcodes.len(), 1);
    assert_eq!(only.opcodes[0].name, "NOP");
    assert_eq!((only.opcodes[0].bits, only.opcodes[0].refs), (8, 0));
    assert_eq!(only.opcodes[0].gas, 18);
    assert!(only.opcodes[0].args.is_empty());
    assert_eq!(only.tail, None);
}

#[test]
fn nested_continuation_is_the_second_item() {
    let child = cell(&[NOP, NOP], &[]);
    let root = cell(&[PUSHREFCONT], &[child.clone()]);
    let graph = run(&root);
    assert_eq!(graph.root, 0);
    assert_eq!(graph.items.len(), 2);
    let outer = block(&graph, 0);
    assert_eq!(outer.opcodes.len(), 1);
    assert_eq!(outer.opcodes[0].name, "PUSHREFCONT");
    assert_eq!((outer.opcodes[0].bits, outer.opcodes[0].refs), (8, 1));
    assert_eq!(outer.opcodes[0].args, vec![Operand::Cell { id: 1 }]);
    assert_eq!(outer.tail, None);
    let inner = block(&graph, 1);
    assert_eq!(inner.cell_hash, child.repr_hash().0);
    assert!(inner.is_inline);
    assert!(!outer.is_inline);
    assert_eq!(inner.opcodes.len(), 2);
}

#[test]
fn inline_continuation_shares_the_cell_of_its_parent() {
    // PUSHCONT with one byte of code, then that byte: NOP.
    let root = cell(&[0x91, NOP], &[]);
    let graph = run(&root);
    assert_eq!(graph.items.len(), 2);
    let outer = block(&graph, 0);
    assert_eq!(outer.opcodes.len(), 1);
    assert_eq!(outer.opcodes[0].name, "PUSHCONT");
    assert_eq!(outer.opcodes[0].bits, 16);
    assert_eq!(outer.opcodes[0].args, vec![Operand::Slice { id: 1 }]);
    let inner = block(&graph, 1);
    assert!(inner.is_inline);
    assert_eq!(inner.cell_hash, root.repr_hash().0);
    assert_eq!((inner.offset_bits, inner.offset_refs), (8, 0));
    assert_eq!((inner.bits, inner.refs), (8, 0));
    assert_eq!(inner.opcodes.len(), 1);
    assert_eq!(inner.opcodes[0].name, "NOP");
}

#[test]
fn shared_child_is_one_item() {
    let child = cell(&[NOP], &[]);
    let left = cell(&[PUSHREFCONT, NOP], &[child.clone()]);
    let right = cell(&[PUSHREFCONT, NOP, NOP], &[child.clone()]);
    let root = cell(&[PUSHREFCONT, PUSHREFCONT], &[left.clone(), right.clone()]);
    let graph = run(&root);
    let holders: Vec<usize> = (0..graph.items.len())
        .filter(|id| block(&graph, *id).cell_hash == child.repr_hash().0)
        .collect();
    assert_eq!(holders.len(), 1);
    let shared = holders[0] as u32;
    assert_eq!(graph.items.len(), 4);
    let mut parents = 0;
    for id in 0..graph.items.len() {
        let parent = block(&graph, id);
        if parent.cell_hash == left.repr_hash().0 || parent.cell_hash == right.repr_hash().0 {
            assert_eq!(parent.opcodes[0].args, vec![Operand::Cell { id: shared }]);
            parents += 1;
        }
    }
    assert_eq!(parents, 2);
}

#[test]
fn leftover_bits_are_an_incomplete_tail() {
    // One byte of a two-byte instruction, and no reference to go on with.
    let graph = run(&cell(&[0xff], &[]));
    assert_eq!(graph.items.len(), 1);
    let only = block(&graph, 0);
    assert!(only.opcodes.is_empty());
    assert_eq!(only.tail, Some(Tail::Incomplete));
}

#[test]
fn spare_reference_continues_the_block() {
    let next = cell(&[NOP], &[]);
    let root = cell(&[NOP], &[next.clone()]);
    let graph = run(&root);
    assert_eq!(graph.items.len(), 2);
    assert_eq!(block(&graph, 0).tail, Some(Tail::Child { id: 1 }));
    assert_eq!(block(&graph, 1).cell_hash, next.repr_hash().0);
    assert_eq!(block(&graph, 1).tail, None);
}

#[test]
fn pushed_cell_is_a_data_item_with_its_serialized_form() {
    let data = cell(&[0xde, 0xad], &[]);
    let root = cell(&[PUSHREF], &[data.clone()]);
    let graph = run(&root);
    assert_eq!(graph.items.len(), 2);
    assert_eq!(block(&graph, 0).opcodes[0].name, "PUSHREF");
    assert_eq!(block(&graph, 0).opcodes[0].args, vec![Operand::Cell { id: 1 }]);
    assert_eq!(
        graph.items[1],
        Node::Data(Literal::Cell { cell_hash: data.repr_hash().0, boc: text(&data) })
    );
}

#[test]
fn pushed_slice_is_a_window_into_the_code_cell() {
    // PUSHSLICE with four bits of payload: `0110`, of which `01` is data and
    // `10` the end mark.
    let mut builder = CellBuilder::new();
    builder.store_u8(0x8b).unwrap();
    builder.store_small_uint(0x0, 4).unwrap();
    builder.store_small_uint(0b0110, 4).unwrap();
    let root = builder.build().unwrap();
    let graph = run(&root);
    assert_eq!(graph.items.len(), 2);
    assert_eq!(block(&graph, 0).opcodes[0].name, "PUSHSLICE");
    assert_eq!(block(&graph, 0).opcodes[0].args, vec![Operand::Slice { id: 1 }]);
    assert_eq!(
        graph.items[1],
        Node::Data(Literal::Slice {
            cell_hash: root.repr_hash().0,
            offset_bits: 12,
            offset_refs: 0,
            bits: 2,
            refs: 0,
            boc: text(&root),
        })
    );
}

#[test]
fn integer_operand_is_exact_decimal_text() {
    // PUSHINT with an 8-bit signed immediate: -5.
    let graph = run(&cell(&[0x80, 0xfb], &[]));
    let only = block(&graph, 0);
    assert_eq!(only.opcodes[0].name, "PUSHINT");
    assert_eq!(only.opcodes[0].args, vec![Operand::Int { value: "-5".to_string() }]);
}

#[test]
fn stack_and_register_operands_are_indices() {
    // XCHG s1, s2 and PUSH c4.
    let graph = run(&cell(&[0x10, 0x12, 0xed, 0x44], &[]));
    let only = block(&graph, 0);
    assert_eq!(only.opcodes.len(), 2);
    assert_eq!(
        only.opcodes[0].args,
        vec![Operand::Stack { idx: 1 }, Operand::Stack { idx: 2 }]
    );
    assert_eq!(only.opcodes[1].args, vec![Operand::Reg { idx: 4 }]);
}

#[test]
fn library_as_the_whole_program_is_the_only_item() {
    let library = CellBuilder::build_library(&HashBytes([8u8; 32]));
    let graph = run(&library);
    assert_eq!(graph.root, 0);
    assert_eq!(graph.items.len(), 1);
    match &graph.items[0] {
        Node::Library(found) => assert_eq!(found.hash, library.repr_hash().0),
        other => panic!("expected a library, found {:?}", other),
    }
}

#[test]
fn library_cell_is_a_library_item() {
    let library = CellBuilder::build_library(&HashBytes([7u8; 32]));
    let root = cell(&[PUSHREFCONT], &[library.clone()]);
    let graph = run(&root);
    assert_eq!(graph.items.len(), 2);
    match &graph.items[1] {
        Node::Library(found) => assert_eq!(found.hash, library.repr_hash().0),
        other => panic!("expected a library, found {:?}", other),
    }
}

fn dispatch(key_bits: u16, keys: &[u8]) -> Cell {
    let mut dict = RawDict::<2>::new();
    for key in keys {
        let mut builder = CellBuilder::new();
        builder.store_small_uint(*key, key_bits).unwrap();
        let bits = builder.build().unwrap();
        // The value is one byte of code: XCHG s0, s(key), which is NOP for 0.
        dict.set(bits.as_slice().unwrap(), *key).unwrap();
    }
    // DICTPUSHCONST with a key width of two bits.
    cell(&[0xf4, 0xa4, 0x02], &[dict.into_root().unwrap()])
}

fn table(graph: &Graph, id: usize) -> &Table {
    match &graph.items[id] {
        Node::Table(table) => table,
        other => panic!("item {} is no table: {:?}", id, other),
    }
}

#[test]
fn dispatch_table_with_every_key_is_total() {
    let graph = run(&dispatch(2, &[0, 1, 2, 3]));
    assert_eq!(graph.items.len(), 6);
    let outer = block(&graph, 0);
    assert_eq!(outer.opcodes[0].name, "DICTPUSHCONST");
    assert_eq!(
        outer.opcodes[0].args,
        vec![Operand::Int { value: "2".to_string() }, Operand::Slice { id: 1 }]
    );
    let found = table(&graph, 1);
    assert_eq!(found.key_bits, 2);
    assert!(found.is_full_code);
    let mut keys: Vec<&str> = found.items.iter().map(|entry| entry.key.as_str()).collect();
    keys.sort();
    assert_eq!(keys, vec!["-1", "-2", "0", "1"]);
    for entry in &found.items {
        let target = block(&graph, entry.target as usize);
        assert!(target.is_inline);
        assert_eq!(target.opcodes.len(), 1);
    }
}

#[test]
fn dispatch_table_with_a_missing_key_is_partial() {
    let graph = run(&dispatch(2, &[0, 1, 2]));
    let found = table(&graph, 1);
    assert_eq!(found.items.len(), 3);
    assert!(!found.is_full_code);
}

#[test]
fn text_that_is_no_container_is_rejected() {
    assert_eq!(disasm_structured("not a container"), Err(DisasmError::InvalidContainer));
    assert_eq!(disasm_structured(""), Err(DisasmError::InvalidContainer));
    // Well-formed base64, but of bytes that are no bag of cells.
    assert_eq!(disasm_structured("AAAAAAAA"), Err(DisasmError::InvalidContainer));
}

#[test]
fn code_in_a_proof_cell_fails_at_the_root() {
    let inner = cell(&[NOP], &[]);
    let proof = CellBuilder::build_from(MerkleProof {
        hash: *inner.repr_hash(),
        depth: inner.repr_depth(),
        cell: inner,
    })
    .unwrap();
    let root = cell(&[PUSHREFCONT], &[proof]);
    let expected = DisasmError::MalformedImmediate(Location {
        cell_hash: root.repr_hash().0,
        offset_bits: 0,
        offset_refs: 0,
    });
    assert_eq!(disasm_structured(&text(&root)), Err(expected));
}

#[test]
fn same_cell_as_code_and_as_data_is_a_conflict() {
    let shared = cell(&[NOP], &[]);
    let root = cell(&[PUSHREF, PUSHREFCONT], &[shared.clone(), shared.clone()]);
    let expected = DisasmError::ConflictingItemKind(Location {
        cell_hash: shared.repr_hash().0,
        offset_bits: 0,
        offset_refs: 0,
    });
    assert_eq!(disasm_structured(&text(&root)), Err(expected));
}

#[test]
fn same_data_pushed_twice_is_one_item() {
    let data = cell(&[0xde, 0xad], &[]);
    let root = cell(&[PUSHREF, PUSHREF], &[data.clone(), data.clone()]);
    let graph = run(&root);
    assert_eq!(graph.items.len(), 2);
    let only = block(&graph, 0);
    assert_eq!(only.opcodes[0].args, vec![Operand::Cell { id: 1 }]);
    assert_eq!(only.opcodes[1].args, vec![Operand::Cell { id: 1 }]);
}

#[test]
fn repeated_runs_give_the_same_graph() {
    let child = cell(&[NOP, 0x91, NOP], &[]);
    let root = cell(&[PUSHREFCONT, PUSHREF], &[child.clone(), cell(&[0x01], &[])]);
    let first = disasm_structured(&text(&root));
    let second = disasm_structured(&text(&root));
    assert!(first.is_ok());
    assert_eq!(first, second);
}

const WALLET_V3: &str = "te6ccgEBAQEAcQAA3v8AIN0gggFMl7ohggEznLqxn3Gw7UTQ0x/THzHXC//jBOCk8mCDCNcYINMf0x/TH/gjE7vyY+1E0NMf0x/T/9FRMrryoVFEuvKiBPkBVBBV+RDyo/gAkyDXSpbTB9QC+wDo0QGkyMsfyx/L/8ntVA==";

const EVER_WALLET: &str = "te6ccgEBBgEA/AABFP8A9KQT9LzyyAsBAgEgBQIC5vJx1wEBwADyeoMI1xjtRNCDB9cB1ws/yPgozxYjzxbJ+QADcdcBAcMAmoMH1wFRE7ry4GTegEDXAYAg1wGAINcBVBZ1+RDyqPgju/J5Zr74I4EHCKCBA+ioUiC8sfJ0AiCCEEzuZGy64w8ByMv/yz/J7VQEAwA+ghAWnj4Ruo4R+AACkyDXSpd41wHUAvsA6NGTMvI84gCYMALXTND6QIMG1wFx1wF41wHXTPgAcIAQBKoCFLHIywVQBc8WUAP6AstpItAhzzEh10mghAm5mDNwAcsAWM8WlzBxAcsAEsziyQH7AAAE0jA=";

const ELECTOR: &str = "\
te6ccgECZwEAD0kAART/APSkE/S88sgLAQIBIAMCAFGl//8YdqJoegJ6AhE3Sqz4FXkgTio4EPgS+SAs+BR5IHF4E3\
kgeBSYQAIBSB0EAgEgCgUCASAJBgIBWAgHADOz4DtRND0BDH0BDCDB/QOb6GT+gAwkjBw4oAFtsKV7UTQ9AUgbpIwb\
eDbPBAmXwZthP+OGyKDB/R+b6UgnQL6ADBSEG8CUANvAgKRMuIBs+YwMYF0BSbmHXbPBA1XwWDH22OFFESgCD0fm+l\
MiGVUgNvAgLeAbMS5mwhhmAgEgFAsCASANDAEzt9P7Z4CwYTQANQB0wEoAlQJUADUANBBjtBA8AgFqDw4BQqss7UTQ\
9AUgbpJbcODbPBAmXwaDB/QOb6GT+gAwkjBw4l0CASATEAIBSBIRAYe6rtRND0BSBumDBwVHAAbVMR4Ns8bYT/jick\
gwf0fm+lII4YAvoA0x8x0x/T/9P/0W8EUhBvAlADbwICkTLiAbPmMDOF0AI7h+1E0PQFIG6SMHCU0NcLH+KAEDp8kc\
AgEgGhUCASAZFgIBIBgXAl2vS22eCBqvgsGPtsdPKIlAEHo/N9KQR0aBbZ4TqrA3hCgBt4EBSJlxANmJczYQwGZkAi\
esDoDtnkGD+gc30MdBbZ5JGDbxQBwbAmGwojbPBA1XwWDH22OoFESgCD0fm+lII6PAts8XwQjQxNvBFADbwICkTLiA\
bMS5mwhgZmQCU7ZIW2eQn+2x06oiUGD+j830pBHRgFtnikIN4EoAbeBAUiZcQDZiXM2EMBwbAkrbPG2DH44SJIAQ9H\
5vpTIhlVIDbwIC3gGz5jAzA9DbPG8IA28ETEkCKNs8EDVfBYAg9A5voZIwbeHbPGxhZmQCAsUfHgEqqoIxghBOQ29k\
ghDOQ29kWXCAQNs8XwIByTcgEgFuGvOUNbn1tSxF8phBAuyGW7nLg95oy46AHrC3l/EAegAISCchAgFIIyIB3UMYAk\
+DNukltw4XH4M9DXC//4KPpEAaQCvbGSW3DggCL4MyBuk18DcODwDTAyAtCAKNch1wsf+CNRE6FcuZNfBnDgXKHBPJ\
ExkTDigBH4M9D6ADADoFICoXBtEDQQI3Bw2zzI9AD0AAHPFsntVH+FwCASAlJAN5Ns8f48yJIAg9HxvpSCPIwLTHzD\
4I7tTFL2wjxUxVBVE2zwUoFR2E1RzWNs8A1BUcAHekTLiAbPmbGFus4GZRZQOTAHbPGxRk18DcOEC9ARRMYAg9A5vo\
ZNfBHDhgEDXIdcL/4Ai+DMh2zyAJPgzWNs8sY4TcMjKABL0APQAAc8Wye1U8CYwf+BfA3CBdJiYAGCFukltwlQH5AA\
G64gIBIDYoAgEgKykDp02zyAIvgz+QBTAbqTXwdw4CKOL1MkgCD0Dm+hjiDTHzEg0x/T/zBQBLryufgjUAOgyMsfWM\
8WQASAIPRDApMTXwPikmwh4n+K5iBukjBw3gHbPH+GYqZQCWI4Ag9HxvpSCOPALTP9P/UxW6ji40A/QE+gD6ACirAl\
GZoVApoATIyz8Wy/8S9AAB+gIB+gJYzxZUIAWAIPRDA3ABkl8D4pEy4gGzAgEgLywD9QB2zw0+CMluZNfCHDgcPgzb\
pRfCPAi4IAR+DPQ+gD6APoA0x/RU2G5lF8M8CLgBJRfC/Ai4AaTXwpw4CMQSVEyUHfwJCDAACCzKwYQWxBKEDlN3ds\
8I44QMWxSyPQA9AABzxbJ7VTwIuHwDTL4IwGgpsQptgmAEPgz0IF1cLQK6gBDXIdcLD1JwtghTE6CAEsjLB1Iwyx/L\
HxjLDxfLDxrLPxP0AMlw+DPQ1wv/UxjbPAn0BFBToCigCfkAEEkQOEBlcG3bPEA1gCD0QwPI9AAS9AAS9AABzxbJ7V\
R/LmMARoIQTlZTVHCCAMT/yMsQFcv/gx36AhTLahPLHxLLP8zJcfsAA/cgBD4M9DTD9MPMdMP0XG2CXBtf45BKYMH9\
HxvpSCOMgL6ANMf0x/T/9P/0QOjBMjLfxTKH1JAy//J0FEatgjIyx8Ty//L/0AUgQGg9EEDpEMTkTLiAbPmMDRYtgh\
TAbmXXwdtcG1TEeBtiuYzNKVckm8R5HAgiuY2NlsigNTMwAV7AAFJDuRKxl18EbXBtUxHgUwGlkm8R5G8QbxBwUwBt\
bYrmNDQ0NlJVuvKxUERDEzEB/gZvIgFvJFMdgwf0Dm+h8r36ADHTPzHXC/9TnLmOXVE6qKsPUkC2CFFEoSSqOy6pBF\
GVoFGJoIIQjoEniiOSgHOSgFPiyMsHyx9SQMv/UqDLPyOUE8v/ApEz4lQiqIAQ9ENwJMjL/xrLP1AF+gIYygBAGoMH\
9EMIEEUTFJJsMeIyASIhjoVMANs8CpFb4gSkJG4VF1QBSAJvIgFvEASkU0i+jpBUZQbbPFMCvJRsIiICkTDikTTiUz\
a+EzQANHACjhMCbyIhbxACbxEkqKsPErYIEqBY5DAxAGQDgQGg9JJvpSCOIQHTf1EZtggB0x8x1wv/A9Mf0/8x1wv/\
QTAUbwRQBW8CBJJsIeKzFAADacICASA+OATjpwF9IgDSSa+Bv/AQ67JBg19Jr4G+8G2eCBqvgoFpj6mJwBB6BzfQya\
+DP3CQa4WP/BHQkGCAya+DvnARbZ42ERn8Ee2eBcGF/KGZQYTQLFQA0wEoBdQNUCgD1CgEUBBBjtAoBlzJr4W98CoK\
Aaoc25PAZkk8OQSk2zzJAts8UbODB/QOb6GUXw6A+uGBAUDXIfoAMFIIqbQfGaBSB7yUXwyA+eBRW7uUXwuA+OBtcF\
MHVSDbPAb5AEYJgwf0U5RfCoD34UZQEDcQJztkSzoDIts8AoAg9EPbPDMQRRA0WNs8Y2ZlADSAvMjKBxjL/xbMFMsf\
EssHy/8B+gIB+gLLHwEkgA34MyBuljCDI3GDCI6C2zziPQAe0NMHAcAa8on6APoA+gDRAgEgQD8AHbsAH/BnoaQ/pD\
+kP64UPwR/2A6GmBgLjYSS+B8H0gGBDjgEdCGIDtnnAA6Y+Q4ABHQi2A7Z5waZ+RQQgnObol3UdCmQgR7Z5wEUEII7\
K6El1GBgV0EEeo6ENBPbPOAighBOQ29kuo8YNFRSRNs8loIQzkNvZJKEH+JAM3CAQNs84CKCEO52T0u6I4IQ7nZPb7\
pSELFWVV9CBJaOhjM0QwDbPOAwIoIQUmdDcLqOplRDFfAegEAhoyLC/5dbdPsCcIMGkTLiAYIQ8mdjUKADRERwAds8\
4DQhghBWdENwuuMCMyCDHrBQX0RDARyOiYQfQDNwgEDbPOFfA18EagODCNcYINMf0w/TH9P/0QOCEFZ0Q1C68qUh2z\
ww2zxFZvkR8qJVAts8ghDWdFJAoEAzcIBATk1GRQEE2zxfBFDbPFOTgCD0Dm+hOwqTXwp+4QnbPDRbbCJJNxjbPDIh\
wQGTGF8I4CBuZmRKRwIqkjA0jolDUNs8MRWgUETiRRNERts8SGUCmtDbPDQ0NFNFgwf0Dm+hk18GcOHT/9M/+gDSAN\
FSFqm0HxagUlC2CFFVoQLIy//LPwH6AhLKAEBFgwf0QyOrAgKqAhK2CFEzoURD2zxZSVQALtIHAcC88onT/9TTH9MH\
0//6APoA0x/RA75TI4MH9A5voZRfBG1/4ds8MAH5AALbPFMVvZlfA20Cc6nUAAKSNDTiU1CAEPQOb6ExlF8HbXDg+C\
PIyx9AZoAQ9ENUIAShUTOyJFAzBNs8QDSDB/RDAcL/kzFtceABck9MSwAcgC3IywcUzBL0AMv/yj8AHtMHAcAt8onU\
9ATT/9I/0QA20wcBgN+wwFPyqdMfAYIQjoEnirryqdP/0z8wARjbPDJZgBD0Dm+hMAFPACyAIvgzINDTBwHAEvKogG\
DXIdM/9ATRAqAyAvpEcPgz0NcL/+1E0PQEBKRavbEhbrGSXwTg2zxsUVIVvQSzFLGSXwPg+AABkVuOnfQE9AT6AEM0\
2zxwyMoAE/QA9ABZoPoCAc8Wye1U4l1RA0QBgCD0Zm+hkjBw4ds8MGwzIMIAjoQQNNs8joUwECPbPOISZFNSAXJwIH\
+OrSSDB/R8b6Ugjp4C0//TPzH6ANIA0ZQxUTOgjodUGIjbPAcD4lBDoAORMuIBs+YwMwG68rtUAZhwUwB/jrcmgwf0\
fG+lII6oAtP/0z8x+gDSANGUMVEzoI6RVHcIqYRRZqBSF6BLsNs8CQPiUFOgBJEy4gGz5jA1A7pTIbuw8rsSoAGhVA\
AyUxKDB/QOb6GU+gAwoJEw4sgB+gICgwf0QwBucPgzIG6TXwRw4NDXC/8j+kQBpAK9sZNfA3Dg+AAB1CH7BCDHAJJf\
BJwB0O0e7VMB8QaC8gDifwLWMSH6RAGkjo4wghD////+QBNwgEDbPODtRND0BPQEUDODB/Rmb6GOj18EghD////+QB\
NwgEDbPOE2BfoA0QHI9AAV9AABzxbJ7VSCEPlvcyRwgBjIywVQBM8WUAT6AhLLahLLH8s/yYBA+wBfXwTOI/pE7UTQ\
9AQhbgSkFLGOhxA1XwVw2zzgBNP/0x/TH9P/1AHQAdEg10mDCL2OhxB5Xwlx2zzggwjXGYIQZUxQdMjLH1JAyx9SMM\
sfUmDL/1Igy//J0FEV+RGOhxBoXwhx2zzhIYMPuV5eXlgEVo6HEGhfCHbbPOAH2zwxDYIQO5rKAKEgqgsjuY6HEL1f\
DXLbPOBRIqBRdb1eXV5ZBHyOhxCsXwxz2zzgDI6HEJtfC3DbPOBTa4MH9A5voSCfMPoAWaAB0z8x0/8wUoC9kTHijo\
cQm18LdNs84FMBuV5eXloDgI6HEJtfC3XbPOAg8qz4APgjyFj6AssfFMsfFsv/GMv/QDiDB/RDEEVBMBZwcNs8yPQA\
WM8Wye1UII6DcNs84FteXFsBIIIQ83RITFmCEDuaygBy2zxfACoGyMsfFcsfUAP6AgH6AvQAygDKAMkAINDTH9Mf+g\
D6APQE0gDSANEBGIIQ7m9FTFlwgEDbPF8ARHCAGMjLBVAHzxZY+gIVy2oTyx/LPyHC/5LLH5Ex4skB+wAEVNs8B/pE\
AaSxIcAAsY6IBaAQNVUS2zzgUwKAIPQOb6GUMAWgAeMNEDVBQ2ZlYmEBBNs8ZQIg2zwMoFUFC9s8VCBTgCD0Q2RjAC\
gGyMsfFcsfE8v/9AAB+gIB+gL0AAAe0x/TH9P/9AT6APoA9ATRACgFyPQAFPQAEvQAAfoCyx/L/8ntVAAg7UTQ9AT0\
BPQE+gDTH9P/0Q==\
";

/// Holds a graph against the rules of a finished graph, and against what the
/// decoder itself makes of the same text.
fn hold_against_the_decoder(text: &str) -> Graph {
    let graph = disasm_structured(text).unwrap();
    assert_eq!(graph.root, 0);
    assert!(!graph.items.is_empty());
    assert!(ids_in_range(&graph));
    let root = Boc::decode_base64(text).unwrap();
    let cells = index_cells(root.clone());
    for (id, node) in graph.items.iter().enumerate() {
        if let Node::Code(block) = node {
            assert_eq!(block.is_inline, id != 0);
            let size = cells.get(&block.cell_hash).unwrap();
            assert!(block.offset_bits + block.bits <= size.bits);
            assert!(block.offset_refs + block.refs <= size.refs);
            let used_bits: u32 = block.opcodes.iter().map(|opcode| opcode.bits as u32).sum();
            let used_refs: u32 = block.opcodes.iter().map(|opcode| opcode.refs as u32).sum();
            match block.tail {
                None => assert_eq!((used_bits, used_refs), (block.bits as u32, block.refs as u32)),
                Some(Tail::Child { .. }) => {
                    assert_eq!(used_bits, block.bits as u32);
                    assert!(used_refs < block.refs as u32);
                }
                Some(Tail::Incomplete) => assert!(used_bits < block.bits as u32),
            }
        }
    }
    let engine = tycho_disasm::disasm_structured(root).unwrap();
    assert_eq!(graph.root, engine.root);
    assert_eq!(graph.items.len(), engine.items.len());
    for (ours, theirs) in graph.items.iter().zip(engine.items.iter()) {
        match (ours, theirs) {
            (Node::Code(a), tycho_disasm::Item::Code(b)) => {
                assert_eq!(a.cell_hash, b.cell_hash.0);
                assert_eq!((a.offset_bits, a.offset_refs), (b.offset_bits, b.offset_refs));
                assert_eq!((a.bits, a.refs), (b.bits, b.refs));
                assert_eq!(a.opcodes.len(), b.opcodes.len());
                for (x, y) in a.opcodes.iter().zip(b.opcodes.iter()) {
                    assert_eq!(x.name, y.name.to_string());
                    assert_eq!((x.bits, x.refs, x.gas), (y.bits, y.refs, y.gas));
                    assert_eq!(x.args.len(), y.args.len());
                }
            }
            (Node::Table(a), tycho_disasm::Item::JumpTable(b)) => {
                assert_eq!(a.cell_hash, b.cell_hash.0);
                assert_eq!(a.key_bits, b.key_bits);
                assert_eq!(a.items.len(), b.items.len());
                for (x, y) in a.items.iter().zip(b.items.iter()) {
                    assert_eq!((x.key.clone(), x.target), (y.0.to_string(), y.1));
                }
            }
            (Node::Data(_), tycho_disasm::Item::Data(_)) => {}
            (Node::Library(a), tycho_disasm::Item::Library(b)) => {
                assert_eq!(a.hash, b.cell_hash.0)
            }
            (a, b) => panic!("kinds differ: {:?} and {:?}", a, b),
        }
    }
    graph
}

#[test]
fn wallet_code_keeps_the_rules() {
    let graph = hold_against_the_decoder(WALLET_V3);
    assert_eq!(graph.items.len(), 4);
}

#[test]
fn multisig_wallet_code_keeps_the_rules() {
    let graph = hold_against_the_decoder(EVER_WALLET);
    assert_eq!(graph.items.len(), 13);
    let found = table(&graph, 1);
    assert_eq!(found.key_bits, 19);
    let keys: Vec<&str> = found.items.iter().map(|entry| entry.key.as_str()).collect();
    assert_eq!(keys, vec!["0", "-1"]);
    assert!(!found.is_full_code);
}

#[test]
fn elector_code_keeps_the_rules() {
    let graph = hold_against_the_decoder(ELECTOR);
    assert_eq!(graph.items.len(), 242);
    let found = table(&graph, 1);
    assert_eq!(found.items.len(), 24);
    assert!(!found.is_full_code);
}
