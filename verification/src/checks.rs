//! The rules of a finished graph, checked on the nodes themselves.

use vstd::prelude::*;

use crate::cells::CellTable;
use crate::error::Location;
use crate::graph::{
    nodes_view, Block, Instruction, Literal, Node, Operand, Table, Tail, TailView,
};
use crate::rules::{
    block_linked, block_names, block_typed, cell_like, cell_of, continuation_like,
    instruction_linked, instruction_names, instruction_typed, keys_distinct, kind_of, kinds_of,
    links_to, operand_linked, operand_names, operand_typed, place_of, slice_like, source_of,
    table_linked, table_names, table_typed, tail_linked, tail_typed, whole_cell, Kind, Source,
};

verus! {

/// Whether two hashes are the same.
pub fn same_hash(a: &[u8; 32], b: &[u8; 32]) -> (same: bool)
    ensures
        same == (*a == *b),
{
    let mut i: usize = 0;
    while i < 32
        invariant
            0 <= i <= 32,
            forall|k: int| 0 <= k < i ==> a[k] == b[k],
        decreases 32 - i,
    {
        if a[i] != b[i] {
            return false;
        }
        i = i + 1;
    }
    assert(*a =~= *b);
    true
}

/// Whether every operand of an instruction is linked.
pub fn instruction_is_linked(opcode: &Instruction, count: usize) -> (linked: bool)
    ensures
        linked == instruction_linked(opcode@, count as nat),
{
    let mut k: usize = 0;
    while k < opcode.args.len()
        invariant
            0 <= k <= opcode.args.len(),
            forall|m: int| 0 <= m < k ==> operand_linked(#[trigger] opcode@.args[m], count as nat),
        decreases opcode.args.len() - k,
    {
        let linked = match &opcode.args[k] {
            Operand::Cell { id } => (*id as usize) < count,
            Operand::Slice { id } => (*id as usize) < count,
            _ => true,
        };
        assert(linked == operand_linked(opcode@.args[k as int], count as nat));
        if !linked {
            return false;
        }
        k = k + 1;
    }
    true
}

/// Whether the tail and every instruction of a block are linked.
pub fn block_is_linked(block: &Block, count: usize) -> (linked: bool)
    ensures
        linked == block_linked(block@, count as nat),
{
    match block.tail {
        Some(Tail::Child { id }) => {
            if (id as usize) >= count {
                return false;
            }
        },
        _ => {},
    }
    let mut j: usize = 0;
    while j < block.opcodes.len()
        invariant
            0 <= j <= block.opcodes.len(),
            tail_linked(block@.tail, count as nat),
            forall|m: int|
                0 <= m < j ==> instruction_linked(#[trigger] block@.opcodes[m], count as nat),
        decreases block.opcodes.len() - j,
    {
        let linked = instruction_is_linked(&block.opcodes[j], count);
        assert(block@.opcodes[j as int] == block.opcodes[j as int]@);
        if !linked {
            return false;
        }
        j = j + 1;
    }
    true
}

/// Whether every entry of a table dispatches to a node.
pub fn table_is_linked(table: &Table, count: usize) -> (linked: bool)
    ensures
        linked == table_linked(table@, count as nat),
{
    let mut k: usize = 0;
    while k < table.items.len()
        invariant
            0 <= k <= table.items.len(),
            forall|m: int| 0 <= m < k ==> (#[trigger] table@.items[m]).target < count,
        decreases table.items.len() - k,
    {
        assert(table@.items[k as int] == table.items[k as int]@);
        if (table.items[k].target as usize) >= count {
            return false;
        }
        k = k + 1;
    }
    true
}

/// Whether a table holds no key twice.
pub fn has_distinct_keys(table: &Table) -> (distinct: bool)
    ensures
        distinct == keys_distinct(table@),
{
    let mut b: usize = 0;
    while b < table.items.len()
        invariant
            0 <= b <= table.items.len(),
            forall|x: int, y: int|
                0 <= x < y < b ==> (#[trigger] table@.items[x]).key != (
                #[trigger] table@.items[y]).key,
        decreases table.items.len() - b,
    {
        let mut a: usize = 0;
        while a < b
            invariant
                0 <= a <= b < table.items.len(),
                forall|x: int|
                    0 <= x < a ==> (#[trigger] table@.items[x]).key != table@.items[b as int].key,
            decreases b - a,
        {
            assert(table@.items[a as int] == table.items[a as int]@);
            assert(table@.items[b as int] == table.items[b as int]@);
            if table.items[a].key == table.items[b].key {
                return false;
            }
            a = a + 1;
        }
        b = b + 1;
    }
    true
}

/// Notes the nodes that an instruction names: sets the flag at the position
/// of each.
pub fn note_operands(opcode: &Instruction, named: &mut Vec<bool>)
    ensures
        final(named).len() == old(named).len(),
        forall|t: int|
            0 <= t < old(named).len() ==> (#[trigger] final(named)[t] <==> old(named)[t]
                || instruction_names(opcode@, t as nat)),
{
    let ghost before = named@;
    let mut k: usize = 0;
    while k < opcode.args.len()
        invariant
            0 <= k <= opcode.args.len(),
            named.len() == before.len(),
            forall|t: int|
                0 <= t < before.len() ==> (#[trigger] named[t] <==> before[t] || exists|m: int|
                    0 <= m < k && operand_names(#[trigger] opcode@.args[m], t as nat)),
        decreases opcode.args.len() - k,
    {
        let ghost earlier = named@;
        let id: Option<u32> = match &opcode.args[k] {
            Operand::Cell { id } => Some(*id),
            Operand::Slice { id } => Some(*id),
            _ => None,
        };
        match id {
            Some(id) => {
                if (id as usize) < named.len() {
                    named.set(id as usize, true);
                }
            },
            None => {},
        }
        proof {
            let arg = opcode@.args[k as int];
            assert forall|t: int| 0 <= t < before.len() implies (#[trigger] named[t] <==> before[t]
                || exists|m: int|
                0 <= m < k + 1 && operand_names(#[trigger] opcode@.args[m], t as nat)) by {
                if operand_names(arg, t as nat) {
                    assert(named[t]);
                } else {
                    assert(named[t] == earlier[t]);
                    if exists|m: int|
                        0 <= m < k + 1 && operand_names(#[trigger] opcode@.args[m], t as nat) {
                        let m = choose|m: int|
                            0 <= m < k + 1 && operand_names(#[trigger] opcode@.args[m], t as nat);
                        assert(m < k);
                    }
                }
                if earlier[t] && !before[t] {
                    let m = choose|m: int|
                        0 <= m < k && operand_names(#[trigger] opcode@.args[m], t as nat);
                    assert(0 <= m < k + 1);
                }
            }
        }
        k = k + 1;
    }
}

/// Notes the nodes that a block names.
pub fn note_block(block: &Block, named: &mut Vec<bool>)
    ensures
        final(named).len() == old(named).len(),
        forall|t: int|
            0 <= t < old(named).len() ==> (#[trigger] final(named)[t] <==> old(named)[t]
                || block_names(block@, t as nat)),
{
    let ghost before = named@;
    match block.tail {
        Some(Tail::Child { id }) => {
            if (id as usize) < named.len() {
                named.set(id as usize, true);
            }
        },
        _ => {},
    }
    let mut j: usize = 0;
    while j < block.opcodes.len()
        invariant
            0 <= j <= block.opcodes.len(),
            named.len() == before.len(),
            forall|t: int|
                0 <= t < before.len() ==> (#[trigger] named[t] <==> before[t] || block@.tail
                    == Some(TailView::Child { id: t as nat }) || exists|m: int|
                    0 <= m < j && instruction_names(#[trigger] block@.opcodes[m], t as nat)),
        decreases block.opcodes.len() - j,
    {
        let ghost earlier = named@;
        note_operands(&block.opcodes[j], named);
        proof {
            assert(block@.opcodes[j as int] == block.opcodes[j as int]@);
            let opcode = block@.opcodes[j as int];
            assert forall|t: int| 0 <= t < before.len() implies (#[trigger] named[t] <==> before[t]
                || block@.tail == Some(TailView::Child { id: t as nat }) || exists|m: int|
                0 <= m < j + 1 && instruction_names(#[trigger] block@.opcodes[m], t as nat)) by {
                assert(named[t] <==> earlier[t] || instruction_names(opcode, t as nat));
                if exists|m: int|
                    0 <= m < j + 1 && instruction_names(#[trigger] block@.opcodes[m], t as nat) {
                    let m = choose|m: int|
                        0 <= m < j + 1 && instruction_names(
                            #[trigger] block@.opcodes[m],
                            t as nat,
                        );
                    if m < j {
                        assert(earlier[t]);
                    }
                }
                if earlier[t] && !before[t] && block@.tail != Some(
                    TailView::Child { id: t as nat },
                ) {
                    let m = choose|m: int|
                        0 <= m < j && instruction_names(#[trigger] block@.opcodes[m], t as nat);
                    assert(0 <= m < j + 1);
                }
            }
        }
        j = j + 1;
    }
}

/// Notes the nodes that a table dispatches to.
pub fn note_table(table: &Table, named: &mut Vec<bool>)
    ensures
        final(named).len() == old(named).len(),
        forall|t: int|
            0 <= t < old(named).len() ==> (#[trigger] final(named)[t] <==> old(named)[t]
                || table_names(table@, t as nat)),
{
    let ghost before = named@;
    let mut k: usize = 0;
    while k < table.items.len()
        invariant
            0 <= k <= table.items.len(),
            named.len() == before.len(),
            forall|t: int|
                0 <= t < before.len() ==> (#[trigger] named[t] <==> before[t] || exists|m: int|
                    0 <= m < k && (#[trigger] table@.items[m]).target == t),
        decreases table.items.len() - k,
    {
        let ghost earlier = named@;
        let target = table.items[k].target;
        if (target as usize) < named.len() {
            named.set(target as usize, true);
        }
        proof {
            assert(table@.items[k as int] == table.items[k as int]@);
            assert forall|t: int| 0 <= t < before.len() implies (#[trigger] named[t] <==> before[t]
                || exists|m: int| 0 <= m < k + 1 && (#[trigger] table@.items[m]).target == t) by {
                if target == t {
                    assert(table@.items[k as int].target == t);
                } else {
                    assert(named[t] == earlier[t]);
                    if exists|m: int| 0 <= m < k + 1 && (#[trigger] table@.items[m]).target == t {
                        let m = choose|m: int|
                            0 <= m < k + 1 && (#[trigger] table@.items[m]).target == t;
                        assert(m < k);
                    }
                }
                if earlier[t] && !before[t] {
                    let m = choose|m: int| 0 <= m < k && (#[trigger] table@.items[m]).target == t;
                    assert(0 <= m < k + 1);
                }
            }
        }
        k = k + 1;
    }
}

/// Notes the nodes that a node names.
pub fn note_links(node: &Node, named: &mut Vec<bool>)
    ensures
        final(named).len() == old(named).len(),
        forall|t: int|
            0 <= t < old(named).len() ==> (#[trigger] final(named)[t] <==> old(named)[t]
                || links_to(node@, t as nat)),
{
    match node {
        Node::Code(block) => note_block(block, named),
        Node::Table(table) => note_table(table, named),
        _ => {},
    }
}

/// Where a node begins in the input.
pub fn place(node: &Node) -> (at: Location)
    ensures
        at == place_of(node@),
{
    match node {
        Node::Table(table) => Location {
            cell_hash: table.cell_hash,
            offset_bits: 0,
            offset_refs: 0,
        },
        Node::Code(block) => Location {
            cell_hash: block.cell_hash,
            offset_bits: block.offset_bits,
            offset_refs: block.offset_refs,
        },
        Node::Data(Literal::Slice { cell_hash, offset_bits, offset_refs, .. }) => Location {
            cell_hash: *cell_hash,
            offset_bits: *offset_bits,
            offset_refs: *offset_refs,
        },
        Node::Data(Literal::Cell { cell_hash, .. }) => Location {
            cell_hash: *cell_hash,
            offset_bits: 0,
            offset_refs: 0,
        },
        Node::Library(library) => Location {
            cell_hash: library.hash,
            offset_bits: 0,
            offset_refs: 0,
        },
    }
}

/// The hash of the cell that a node is taken from.
pub fn node_cell(node: &Node) -> (cell_hash: [u8; 32])
    ensures
        cell_hash == cell_of(node@),
{
    match node {
        Node::Table(table) => table.cell_hash,
        Node::Code(block) => block.cell_hash,
        Node::Data(Literal::Slice { cell_hash, .. }) => *cell_hash,
        Node::Data(Literal::Cell { cell_hash, .. }) => *cell_hash,
        Node::Library(library) => library.hash,
    }
}

/// The piece of the input that a node stands for.
#[derive(Clone, Copy, Debug, PartialEq, Eq)]
pub struct Piece {
    pub cell_hash: [u8; 32],
    pub whole: bool,
    pub offset_bits: u16,
    pub offset_refs: u8,
    pub bits: u16,
    pub refs: u8,
}

impl View for Piece {
    type V = Source;

    open spec fn view(&self) -> Source {
        Source {
            cell_hash: self.cell_hash,
            whole: self.whole,
            offset_bits: self.offset_bits as nat,
            offset_refs: self.offset_refs as nat,
            bits: self.bits as nat,
            refs: self.refs as nat,
        }
    }
}

/// The whole cell with a hash, as a piece.
pub fn whole(cell_hash: [u8; 32]) -> (p: Piece)
    ensures
        p@ == whole_cell(cell_hash),
{
    Piece { cell_hash, whole: true, offset_bits: 0, offset_refs: 0, bits: 0, refs: 0 }
}

/// The piece of the input that a node stands for.
pub fn piece(node: &Node, cells: &CellTable) -> (p: Piece)
    ensures
        p@ == source_of(node@, cells@),
{
    match node {
        Node::Table(table) => whole(table.cell_hash),
        Node::Code(block) => {
            let all = block.offset_bits == 0 && block.offset_refs == 0 && match cells.get(
                &block.cell_hash,
            ) {
                Some(size) => block.bits == size.bits && block.refs == size.refs,
                None => false,
            };
            if all {
                whole(block.cell_hash)
            } else {
                Piece {
                    cell_hash: block.cell_hash,
                    whole: false,
                    offset_bits: block.offset_bits,
                    offset_refs: block.offset_refs,
                    bits: block.bits,
                    refs: block.refs,
                }
            }
        },
        Node::Data(Literal::Slice { cell_hash, offset_bits, offset_refs, bits, refs, .. }) => {
            Piece {
                cell_hash: *cell_hash,
                whole: false,
                offset_bits: *offset_bits,
                offset_refs: *offset_refs,
                bits: *bits,
                refs: *refs,
            }
        },
        Node::Data(Literal::Cell { cell_hash, .. }) => whole(*cell_hash),
        Node::Library(library) => whole(library.hash),
    }
}

/// Whether two pieces are the same.
pub fn same_piece(a: &Piece, b: &Piece) -> (same: bool)
    ensures
        same == (a@ == b@),
{
    same_hash(&a.cell_hash, &b.cell_hash) && a.whole == b.whole && a.offset_bits == b.offset_bits
        && a.offset_refs == b.offset_refs && a.bits == b.bits && a.refs == b.refs
}

/// The kind of a node.
pub fn kind(node: &Node) -> (k: Kind)
    ensures
        k == kind_of(node@),
{
    match node {
        Node::Table(_) => Kind::Table,
        Node::Code(_) => Kind::Code,
        Node::Data(Literal::Slice { .. }) => Kind::Slice,
        Node::Data(Literal::Cell { .. }) => Kind::Cell,
        Node::Library(_) => Kind::Library,
    }
}

/// Whether an operand that names a cell may name a node of this kind.
pub fn is_cell_like(k: Kind) -> (r: bool)
    ensures
        r == cell_like(k),
{
    match k {
        Kind::Cell => true,
        Kind::Code => true,
        Kind::Library => true,
        _ => false,
    }
}

/// Whether an operand that names a slice may name a node of this kind.
pub fn is_slice_like(k: Kind) -> (r: bool)
    ensures
        r == slice_like(k),
{
    match k {
        Kind::Slice => true,
        Kind::Code => true,
        Kind::Table => true,
        _ => false,
    }
}

/// Whether a block may go on in a node of this kind.
pub fn is_continuation_like(k: Kind) -> (r: bool)
    ensures
        r == continuation_like(k),
{
    match k {
        Kind::Code => true,
        Kind::Library => true,
        _ => false,
    }
}

/// Whether every operand of an instruction names a node of the fitting kind.
pub fn instruction_is_typed(opcode: &Instruction, items: &Vec<Node>) -> (typed: bool)
    ensures
        typed == instruction_typed(opcode@, kinds_of(nodes_view(items@))),
{
    let ghost kinds = kinds_of(nodes_view(items@));
    let mut k: usize = 0;
    while k < opcode.args.len()
        invariant
            0 <= k <= opcode.args.len(),
            kinds == kinds_of(nodes_view(items@)),
            forall|m: int| 0 <= m < k ==> operand_typed(#[trigger] opcode@.args[m], kinds),
        decreases opcode.args.len() - k,
    {
        let typed = match &opcode.args[k] {
            Operand::Cell { id } => {
                if (*id as usize) < items.len() {
                    assert(kinds[*id as int] == kind_of(items[*id as int]@));
                    is_cell_like(kind(&items[*id as usize]))
                } else {
                    true
                }
            },
            Operand::Slice { id } => {
                if (*id as usize) < items.len() {
                    assert(kinds[*id as int] == kind_of(items[*id as int]@));
                    is_slice_like(kind(&items[*id as usize]))
                } else {
                    true
                }
            },
            _ => true,
        };
        assert(typed == operand_typed(opcode@.args[k as int], kinds));
        if !typed {
            return false;
        }
        k = k + 1;
    }
    true
}

/// Whether the tail and every instruction of a block name nodes of the
/// fitting kind.
pub fn block_is_typed(block: &Block, items: &Vec<Node>) -> (typed: bool)
    ensures
        typed == block_typed(block@, kinds_of(nodes_view(items@))),
{
    let ghost kinds = kinds_of(nodes_view(items@));
    match block.tail {
        Some(Tail::Child { id }) => {
            if (id as usize) < items.len() {
                assert(kinds[id as int] == kind_of(items[id as int]@));
                if !is_continuation_like(kind(&items[id as usize])) {
                    return false;
                }
            }
        },
        _ => {},
    }
    let mut j: usize = 0;
    while j < block.opcodes.len()
        invariant
            0 <= j <= block.opcodes.len(),
            kinds == kinds_of(nodes_view(items@)),
            tail_typed(block@.tail, kinds),
            forall|m: int| 0 <= m < j ==> instruction_typed(#[trigger] block@.opcodes[m], kinds),
        decreases block.opcodes.len() - j,
    {
        let typed = instruction_is_typed(&block.opcodes[j], items);
        assert(block@.opcodes[j as int] == block.opcodes[j as int]@);
        if !typed {
            return false;
        }
        j = j + 1;
    }
    true
}

/// Whether every entry of a table dispatches to code.
pub fn table_is_typed(table: &Table, items: &Vec<Node>) -> (typed: bool)
    ensures
        typed == table_typed(table@, kinds_of(nodes_view(items@))),
{
    let ghost kinds = kinds_of(nodes_view(items@));
    let mut k: usize = 0;
    while k < table.items.len()
        invariant
            0 <= k <= table.items.len(),
            kinds == kinds_of(nodes_view(items@)),
            forall|m: int|
                0 <= m < k && (#[trigger] table@.items[m]).target < kinds.len()
                    ==> kinds[table@.items[m].target as int] is Code,
        decreases table.items.len() - k,
    {
        assert(table@.items[k as int] == table.items[k as int]@);
        let target = table.items[k].target;
        if (target as usize) < items.len() {
            assert(kinds[target as int] == kind_of(items[target as int]@));
            match kind(&items[target as usize]) {
                Kind::Code => {},
                _ => {
                    return false;
                },
            }
        }
        k = k + 1;
    }
    true
}

} // verus!
