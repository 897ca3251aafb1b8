//! Structured disassembly of TVM bytecode: a checked graph of code blocks,
//! dispatch tables, data and library references.
//!
//! The cell codec and the instruction decoder are outside crates; what they
//! hand out is lowered to plain values and assembled into a [`graph::Graph`]
//! whose invariant is proved.

use vstd::prelude::*;

pub mod assemble;
pub mod cells;
pub mod checks;
pub mod cursor;
pub mod engine;
pub mod error;
pub mod graph;
pub mod keys;
pub mod laws;
pub mod lower;
pub mod rules;

use crate::assemble::{assemble, assembled, outcome_view};
use crate::cells::{index_cells, tree_sizes, CellTable, Extent};
use crate::engine::{cell_hash, classify, decode_boc, decoded_root, disassembly, run_engine};
use crate::error::{engine_error, error_of, DisasmError};
use crate::graph::{Graph, GraphView};
use crate::lower::{lower_items, nodes_of};

verus! {

/// What the decoder's graph becomes: its items lowered and assembled, the
/// blocks held against the given cells.
pub open spec fn graph_of(code: tycho_disasm::Code, cells: Map<[u8; 32], Extent>) -> Result<
    GraphView,
    DisasmError,
> {
    assembled(code.root as nat, nodes_of(code.items@), cells)
}

/// What disassembling a text gives. A text that is no container of cells is
/// an invalid container; a failure of the decoder is an error at the root;
/// otherwise the decoder's graph is lowered and assembled, the blocks held
/// against the cells of the tree.
pub open spec fn disassembled(text: Seq<char>) -> Result<GraphView, DisasmError> {
    match decoded_root(text) {
        None => Err(DisasmError::InvalidContainer),
        Some(root) => match disassembly(root) {
            Err(failure) => Err(error_of(failure, root)),
            Ok(code) => graph_of(code, tree_sizes(root)),
        },
    }
}

/// Lowers the decoder's graph to plain values and assembles it.
pub fn graph_from(code: &tycho_disasm::Code, cells: &CellTable) -> (r: Result<Graph, DisasmError>)
    ensures
        outcome_view(r) == graph_of(*code, cells@),
        r matches Ok(graph) ==> graph@.wf(cells@),
{
    assemble(code.root, lower_items(code), cells)
}

/// Disassembles the code in a base64 text of a serialized tree of cells.
pub fn disasm_structured(code: &str) -> (r: Result<Graph, DisasmError>)
    ensures
        outcome_view(r) == disassembled(code@),
        r matches Ok(graph) ==> graph@.wf(tree_sizes(decoded_root(code@)->0)),
{
    let root = match decode_boc(code) {
        Ok(root) => root,
        Err(_) => {
            return Err(DisasmError::InvalidContainer);
        },
    };
    match run_engine(&root) {
        Ok(graph) => {
            let cells = index_cells(root);
            graph_from(&graph, &cells)
        },
        Err(e) => Err(engine_error(classify(&e), cell_hash(&root))),
    }
}

} // verus!
