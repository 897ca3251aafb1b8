//! A cursor over a window of a cell: a position that only moves forward, and
//! that says so when the window has too little left.

use vstd::prelude::*;

use crate::cells::{CellSize, Extent};
use crate::error::{DisasmError, Location};

verus! {

/// Model of [`Cursor`]: the cell, where the cursor stands, and how much of
/// the window is left.
pub struct CursorView {
    pub cell_hash: [u8; 32],
    pub offset_bits: nat,
    pub offset_refs: nat,
    pub bits: nat,
    pub refs: nat,
}

/// A position in the bits and the references of one cell, with the end of
/// the window that it reads.
#[derive(Clone, Copy, Debug, PartialEq, Eq)]
pub struct Cursor {
    cell_hash: [u8; 32],
    bits_start: u16,
    bits_end: u16,
    refs_start: u8,
    refs_end: u8,
}

/// A window lies within a cell: its offset and size together stay within
/// the bits and the children that the cell has.
pub open spec fn window_fits(
    offset_bits: nat,
    offset_refs: nat,
    bits: nat,
    refs: nat,
    cell: Extent,
) -> bool {
    offset_bits + bits <= cell.bits && offset_refs + refs <= cell.refs
}

impl View for Cursor {
    type V = CursorView;

    closed spec fn view(&self) -> CursorView {
        CursorView {
            cell_hash: self.cell_hash,
            offset_bits: self.bits_start as nat,
            offset_refs: self.refs_start as nat,
            bits: (self.bits_end - self.bits_start) as nat,
            refs: (self.refs_end - self.refs_start) as nat,
        }
    }
}

impl CursorView {
    /// Where the cursor stands.
    pub open spec fn place(self) -> Location {
        Location {
            cell_hash: self.cell_hash,
            offset_bits: self.offset_bits as u16,
            offset_refs: self.offset_refs as u8,
        }
    }

    /// The window has this much left.
    pub open spec fn has(self, bits: nat, refs: nat) -> bool {
        bits <= self.bits && refs <= self.refs
    }

    /// The cursor after reading this much.
    pub open spec fn after(self, bits: nat, refs: nat) -> CursorView {
        CursorView {
            cell_hash: self.cell_hash,
            offset_bits: self.offset_bits + bits,
            offset_refs: self.offset_refs + refs,
            bits: (self.bits - bits) as nat,
            refs: (self.refs - refs) as nat,
        }
    }
}

impl Cursor {
    #[verifier::type_invariant]
    spec fn wf(self) -> bool {
        self.bits_start <= self.bits_end && self.refs_start <= self.refs_end
    }

    /// A cursor at the start of a window of a cell, if the window lies within
    /// the cell.
    pub fn open(cell: &CellSize, offset_bits: u16, offset_refs: u8, bits: u16, refs: u8) -> (r:
        Option<Cursor>)
        ensures
            r is Some <==> window_fits(
                offset_bits as nat,
                offset_refs as nat,
                bits as nat,
                refs as nat,
                cell@,
            ),
            r matches Some(cursor) ==> cursor@ == (CursorView {
                cell_hash: cell.cell_hash,
                offset_bits: offset_bits as nat,
                offset_refs: offset_refs as nat,
                bits: bits as nat,
                refs: refs as nat,
            }),
    {
        let bits_end: u32 = offset_bits as u32 + bits as u32;
        let refs_end: u32 = offset_refs as u32 + refs as u32;
        if bits_end <= cell.bits as u32 && refs_end <= cell.refs as u32 {
            Some(
                Cursor {
                    cell_hash: cell.cell_hash,
                    bits_start: offset_bits,
                    bits_end: bits_end as u16,
                    refs_start: offset_refs,
                    refs_end: refs_end as u8,
                },
            )
        } else {
            None
        }
    }

    /// How many bits are left.
    pub fn remaining_bits(&self) -> (bits: u16)
        ensures
            bits == self@.bits,
    {
        proof {
            use_type_invariant(self);
        }
        self.bits_end - self.bits_start
    }

    /// How many references are left.
    pub fn remaining_refs(&self) -> (refs: u8)
        ensures
            refs == self@.refs,
    {
        proof {
            use_type_invariant(self);
        }
        self.refs_end - self.refs_start
    }

    /// Where the cursor stands.
    pub fn position(&self) -> (at: Location)
        ensures
            at == self@.place(),
    {
        Location {
            cell_hash: self.cell_hash,
            offset_bits: self.bits_start,
            offset_refs: self.refs_start,
        }
    }

    /// Reads past some bits and references. Fails, without moving, where the
    /// window has fewer left.
    pub fn take(&mut self, bits: u16, refs: u8) -> (r: Result<(), DisasmError>)
        ensures
            old(self)@.has(bits as nat, refs as nat) ==> r is Ok && final(self)@ == old(
                self,
            )@.after(bits as nat, refs as nat),
            !old(self)@.has(bits as nat, refs as nat) ==> r == Err::<(), DisasmError>(
                DisasmError::Truncated(old(self)@.place()),
            ) && *final(self) == *old(self),
    {
        proof {
            use_type_invariant(&*self);
        }
        if bits <= self.bits_end - self.bits_start && refs <= self.refs_end - self.refs_start {
            self.bits_start = self.bits_start + bits;
            self.refs_start = self.refs_start + refs;
            Ok(())
        } else {
            Err(DisasmError::Truncated(self.position()))
        }
    }

    /// Reads past some bits.
    pub fn take_bits(&mut self, bits: u16) -> (r: Result<(), DisasmError>)
        ensures
            old(self)@.has(bits as nat, 0) ==> r is Ok && final(self)@ == old(self)@.after(
                bits as nat,
                0,
            ),
            !old(self)@.has(bits as nat, 0) ==> r == Err::<(), DisasmError>(
                DisasmError::Truncated(old(self)@.place()),
            ) && *final(self) == *old(self),
    {
        self.take(bits, 0)
    }

    /// Reads past one reference.
    pub fn take_ref(&mut self) -> (r: Result<(), DisasmError>)
        ensures
            old(self)@.has(0, 1) ==> r is Ok && final(self)@ == old(self)@.after(0, 1),
            !old(self)@.has(0, 1) ==> r == Err::<(), DisasmError>(
                DisasmError::Truncated(old(self)@.place()),
            ) && *final(self) == *old(self),
    {
        self.take(0, 1)
    }
}

} // verus!
