//! The outside world: the cell codec and the instruction decoder that this
//! library is built on. Nothing in this file is proved. Each contract says
//! what the named outside function is taken to do.

use vstd::prelude::*;

use crate::error::EngineFailure;

verus! {

/// A cell of the input tree. Immutable, shared, and known by its content.
#[verifier::external_type_specification]
#[verifier::external_body]
pub struct ExCell(tycho_types::cell::Cell);

/// A window into a cell: where its bits and references begin and end.
#[verifier::external_type_specification]
#[verifier::external_body]
pub struct ExCellSliceRange(tycho_types::cell::CellSliceRange);

/// The 32 bytes of a cell hash, declared with its one field.
#[verifier::external_type_specification]
pub struct ExHashBytes(tycho_types::cell::HashBytes);

/// Why a container could not be read.
#[verifier::external_type_specification]
#[verifier::external_body]
pub struct ExBocError(tycho_types::boc::de::Error);

/// An integer of any size.
#[verifier::external_type_specification]
#[verifier::external_body]
pub struct ExBigInt(num_bigint::BigInt);

/// A short immutable string.
#[verifier::external_type_specification]
#[verifier::external_body]
pub struct ExSmolStr(smol_str::SmolStr);

/// Why the decoder gave up.
#[verifier::external_type_specification]
#[verifier::external_body]
pub struct ExAnyhowError(anyhow::Error);

/// The decoder's graph: the root's id and the items. This type and the nine
/// that follow are declared with their fields, which the verifier reads from
/// the decoder's crate itself.
#[verifier::external_type_specification]
pub struct ExCode(tycho_disasm::Code);

/// The decoder's item: a table, a block, data, or a library.
#[verifier::external_type_specification]
pub struct ExItem(tycho_disasm::Item);

/// The decoder's dispatch table.
#[verifier::external_type_specification]
pub struct ExJumpTable(tycho_disasm::JumpTable);

/// The decoder's block of code.
#[verifier::external_type_specification]
pub struct ExCodeBlock(tycho_disasm::CodeBlock);

/// The decoder's tail of a block.
#[verifier::external_type_specification]
pub struct ExCodeBlockTail(tycho_disasm::CodeBlockTail);

/// The decoder's item of data.
#[verifier::external_type_specification]
pub struct ExDataBlock(tycho_disasm::DataBlock);

/// The decoder's data: a slice or a cell.
#[verifier::external_type_specification]
pub struct ExData(tycho_disasm::Data);

/// The decoder's library reference.
#[verifier::external_type_specification]
pub struct ExLibrary(tycho_disasm::Library);

/// The decoder's instruction.
#[verifier::external_type_specification]
pub struct ExOpcode(tycho_disasm::Opcode);

/// The decoder's operand.
#[verifier::external_type_specification]
pub struct ExOpcodeArg(tycho_disasm::OpcodeArg);

/// A window into a cell, as plain numbers.
#[derive(Clone, Copy, Debug, PartialEq, Eq)]
pub struct Window {
    pub offset_bits: u16,
    pub offset_refs: u8,
    pub bits: u16,
    pub refs: u8,
}

/// The representation hash of a cell. A cell is told by this hash: it covers
/// the bits of the cell and the hashes of its children, so what follows
/// speaks of cells by their hashes.
pub uninterp spec fn hash_of(cell: tycho_types::cell::Cell) -> [u8; 32];

/// The hash of the root cell that a base64 text encodes, if it encodes a tree
/// of cells.
pub uninterp spec fn decoded_root(text: Seq<char>) -> Option<[u8; 32]>;

/// What the decoder makes of the tree under the cell with a given hash.
pub uninterp spec fn disassembly(root: [u8; 32]) -> Result<tycho_disasm::Code, EngineFailure>;

/// The class of a failure of the decoder.
pub uninterp spec fn failure_class(error: anyhow::Error) -> EngineFailure;

/// How many bits the cell with a given hash holds.
pub uninterp spec fn bits_at(cell_hash: [u8; 32]) -> nat;

/// How many children the cell with a given hash has.
pub uninterp spec fn refs_at(cell_hash: [u8; 32]) -> nat;

/// The hash of a child of the cell with a given hash.
pub uninterp spec fn child_at(cell_hash: [u8; 32], index: nat) -> [u8; 32];

/// The tree under the cell with a given hash, serialized and written in
/// base64.
pub uninterp spec fn boc_of(cell_hash: [u8; 32]) -> Seq<char>;

/// The four numbers of a window.
pub uninterp spec fn window_of(range: tycho_types::cell::CellSliceRange) -> Window;

/// An integer in decimal, with `-` in front if it is negative.
pub uninterp spec fn decimal_of(value: num_bigint::BigInt) -> Seq<char>;

/// The characters of a short string.
pub uninterp spec fn text_of(name: smol_str::SmolStr) -> Seq<char>;

/// `tycho_types::boc::Boc::decode_base64`: reads base64 text as a serialized
/// tree of cells and hands out its root. The same text always gives the same
/// tree, or always fails.
#[verifier::external_body]
pub(crate) fn decode_boc(text: &str) -> (r: Result<
    tycho_types::cell::Cell,
    tycho_types::boc::de::Error,
>)
    ensures
        r matches Ok(root) ==> decoded_root(text@) == Some(hash_of(root)),
        r is Err ==> decoded_root(text@) is None,
{
    tycho_types::boc::Boc::decode_base64(text)
}

/// `tycho_disasm::disasm_structured`: decodes the code under a root cell into
/// a graph. The graph, or the failure, depends on the tree alone.
#[verifier::external_body]
pub(crate) fn run_engine(root: &tycho_types::cell::Cell) -> (r: Result<
    tycho_disasm::Code,
    anyhow::Error,
>)
    ensures
        r matches Ok(code) ==> disassembly(hash_of(*root)) is Ok && disassembly(
            hash_of(*root),
        )->Ok_0 == code,
        r matches Err(e) ==> disassembly(hash_of(*root)) is Err && disassembly(
            hash_of(*root),
        )->Err_0 == failure_class(e),
{
    tycho_disasm::disasm_structured(root.clone())
}

/// `anyhow::Error::downcast_ref`: tells the decoder's failures apart by the
/// type and variant of the error that it carries.
#[verifier::external_body]
pub(crate) fn classify(error: &anyhow::Error) -> (class: EngineFailure)
    ensures
        class == failure_class(*error),
{
    match error.downcast_ref::<tycho_vm::DumpError>() {
        Some(tycho_vm::DumpError::InvalidOpcode) => EngineFailure::InvalidOpcode,
        Some(tycho_vm::DumpError::InvalidCode(tycho_types::error::Error::CellUnderflow)) => {
            EngineFailure::CellUnderflow
        },
        Some(_) => EngineFailure::Other,
        None => match error.downcast_ref::<tycho_types::error::Error>() {
            Some(tycho_types::error::Error::CellUnderflow) => EngineFailure::CellUnderflow,
            _ => EngineFailure::Other,
        },
    }
}

/// `DynCell::repr_hash`: the representation hash of a cell.
#[verifier::external_body]
pub(crate) fn cell_hash(cell: &tycho_types::cell::Cell) -> (hash: [u8; 32])
    ensures
        hash == hash_of(*cell),
{
    cell.repr_hash().0
}

/// `DynCell::bit_len`: how many bits the cell holds.
#[verifier::external_body]
pub(crate) fn cell_bits(cell: &tycho_types::cell::Cell) -> (bits: u16)
    ensures
        bits == bits_at(hash_of(*cell)),
{
    cell.bit_len()
}

/// `DynCell::reference_count`: how many children the cell has.
#[verifier::external_body]
pub(crate) fn cell_refs(cell: &tycho_types::cell::Cell) -> (refs: u8)
    ensures
        refs == refs_at(hash_of(*cell)),
{
    cell.reference_count()
}

/// `DynCell::reference_cloned`: the child at an index, which is there for
/// every index below the number of children.
#[verifier::external_body]
pub(crate) fn cell_child(cell: &tycho_types::cell::Cell, index: u8) -> (child: Option<
    tycho_types::cell::Cell,
>)
    ensures
        index < refs_at(hash_of(*cell)) ==> child is Some,
        child matches Some(c) ==> hash_of(c) == child_at(hash_of(*cell), index as nat),
{
    cell.reference_cloned(index)
}

/// `tycho_types::boc::Boc::encode_base64`: serializes the tree under a cell
/// and writes it in base64.
#[verifier::external_body]
pub(crate) fn cell_boc(cell: &tycho_types::cell::Cell) -> (text: String)
    ensures
        text@ == boc_of(hash_of(*cell)),
{
    tycho_types::boc::Boc::encode_base64(cell)
}

/// `CellSliceRange::offset_bits`, `offset_refs`, `size_bits` and `size_refs`:
/// the four numbers of a window.
#[verifier::external_body]
pub(crate) fn range_window(range: &tycho_types::cell::CellSliceRange) -> (window: Window)
    ensures
        window == window_of(*range),
{
    Window {
        offset_bits: range.offset_bits(),
        offset_refs: range.offset_refs(),
        bits: range.size_bits(),
        refs: range.size_refs(),
    }
}

/// `BigInt`'s `to_string`: the integer in decimal.
#[verifier::external_body]
pub(crate) fn bigint_decimal(value: &num_bigint::BigInt) -> (text: String)
    ensures
        text@ == decimal_of(*value),
{
    value.to_string()
}

/// `SmolStr`'s `to_string`: the characters of the string.
#[verifier::external_body]
pub(crate) fn name_text(name: &smol_str::SmolStr) -> (text: String)
    ensures
        text@ == text_of(*name),
{
    name.to_string()
}

} // verus!
