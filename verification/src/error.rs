//! Why a disassembly failed, and where.

use vstd::prelude::*;

verus! {

/// A place in the input: a cell, and an offset into its bits and references.
#[derive(Clone, Copy, Debug, PartialEq, Eq)]
pub struct Location {
    pub cell_hash: [u8; 32],
    pub offset_bits: u16,
    pub offset_refs: u8,
}

/// Every way in which a disassembly can fail. Each failure is fatal: no
/// partial graph is ever returned.
#[derive(Clone, Copy, Debug, PartialEq, Eq)]
pub enum DisasmError {
    /// The text is not a serialized tree of cells.
    InvalidContainer,
    /// The bits or references of a cell ran out.
    Truncated(Location),
    /// No instruction matches the bits.
    UnknownOpcode(Location),
    /// An operand could not be read.
    MalformedImmediate(Location),
    /// One piece of the input stands in the graph more than once, or a link
    /// names a node of the wrong kind.
    ConflictingItemKind(Location),
    /// The nodes are no graph: an id that is no position, a root that is not
    /// the first node, a node of a cell that is not in the tree, a tail that
    /// does not say how its block ended, or a key that stands twice.
    InconsistentGraph(Location),
}

/// How the instruction decoder gave up.
#[derive(Clone, Copy, Debug, PartialEq, Eq)]
pub enum EngineFailure {
    /// It needed more bits or references than the cell had.
    CellUnderflow,
    /// It met bits that are no instruction.
    InvalidOpcode,
    /// Anything else.
    Other,
}

/// The hash that stands where no cell is meant: 32 zero bytes.
pub open spec fn no_hash() -> [u8; 32] {
    vstd::array::spec_array_fill_for_copy_type::<u8, 32>(0u8)
}

/// The start of the cell with the given hash.
pub open spec fn start_of(cell_hash: [u8; 32]) -> Location {
    Location { cell_hash, offset_bits: 0, offset_refs: 0 }
}

/// The error that stands for a failure of the decoder on the tree with the
/// given root.
pub open spec fn error_of(failure: EngineFailure, root_hash: [u8; 32]) -> DisasmError {
    match failure {
        EngineFailure::CellUnderflow => DisasmError::Truncated(start_of(root_hash)),
        EngineFailure::InvalidOpcode => DisasmError::UnknownOpcode(start_of(root_hash)),
        EngineFailure::Other => DisasmError::MalformedImmediate(start_of(root_hash)),
    }
}

/// The text that a caller is shown for an error.
pub open spec fn message_of(error: DisasmError) -> Seq<char> {
    match error {
        DisasmError::InvalidContainer => "Failed to deserialize code cell"@,
        _ => "Failed to disasm code"@,
    }
}

/// Turns a failure of the decoder into an error, located at the root.
pub fn engine_error(failure: EngineFailure, root_hash: [u8; 32]) -> (e: DisasmError)
    ensures
        e == error_of(failure, root_hash),
{
    let at = Location { cell_hash: root_hash, offset_bits: 0, offset_refs: 0 };
    match failure {
        EngineFailure::CellUnderflow => DisasmError::Truncated(at),
        EngineFailure::InvalidOpcode => DisasmError::UnknownOpcode(at),
        EngineFailure::Other => DisasmError::MalformedImmediate(at),
    }
}

impl DisasmError {
    /// Where the error arose; a container that cannot be read has no place.
    pub open spec fn place(self) -> Option<Location> {
        match self {
            DisasmError::InvalidContainer => None,
            DisasmError::Truncated(at) => Some(at),
            DisasmError::UnknownOpcode(at) => Some(at),
            DisasmError::MalformedImmediate(at) => Some(at),
            DisasmError::ConflictingItemKind(at) => Some(at),
            DisasmError::InconsistentGraph(at) => Some(at),
        }
    }

    /// Where the error arose.
    pub fn location(&self) -> (r: Option<Location>)
        ensures
            r == self.place(),
    {
        match self {
            DisasmError::InvalidContainer => None,
            DisasmError::Truncated(at) => Some(*at),
            DisasmError::UnknownOpcode(at) => Some(*at),
            DisasmError::MalformedImmediate(at) => Some(*at),
            DisasmError::ConflictingItemKind(at) => Some(*at),
            DisasmError::InconsistentGraph(at) => Some(*at),
        }
    }

    /// The text that a caller is shown.
    pub fn message(&self) -> (text: String)
        ensures
            text@ == message_of(*self),
    {
        match self {
            DisasmError::InvalidContainer => "Failed to deserialize code cell".to_owned(),
            _ => "Failed to disasm code".to_owned(),
        }
    }
}

} // verus!
