use tvm_disasm::cells::CellSize;
use tvm_disasm::cursor::Cursor;
use tvm_disasm::error::{DisasmError, Location};

fn cell() -> CellSize {
    CellSize { cell_hash: [3; 32], bits: 100, refs: 3 }
}

fn at(offset_bits: u16, offset_refs: u8) -> Location {
    Location { cell_hash: [3; 32], offset_bits, offset_refs }
}

#[test]
fn cursor_opens_on_a_window_within_the_cell() {
    let cursor = Cursor::open(&cell(), 10, 1, 90, 2).unwrap();
    assert_eq!(cursor.remaining_bits(), 90);
    assert_eq!(cursor.remaining_refs(), 2);
    assert_eq!(cursor.position(), at(10, 1));
    assert!(Cursor::open(&cell(), 0, 0, 100, 3).is_some());
    assert!(Cursor::open(&cell(), 100, 3, 0, 0).is_some());
}

#[test]
fn cursor_does_not_open_past_the_end_of_the_cell() {
    assert_eq!(Cursor::open(&cell(), 10, 1, 91, 2), None);
    assert_eq!(Cursor::open(&cell(), 10, 1, 90, 3), None);
    assert_eq!(Cursor::open(&cell(), 101, 0, 0, 0), None);
    assert_eq!(Cursor::open(&cell(), 65535, 255, 65535, 255), None);
}

#[test]
fn taking_moves_the_cursor_forward() {
    let mut cursor = Cursor::open(&cell(), 10, 1, 90, 2).unwrap();
    assert_eq!(cursor.take(8, 1), Ok(()));
    assert_eq!(cursor.position(), at(18, 2));
    assert_eq!((cursor.remaining_bits(), cursor.remaining_refs()), (82, 1));
    assert_eq!(cursor.take_bits(82), Ok(()));
    assert_eq!(cursor.take_ref(), Ok(()));
    assert_eq!(cursor.position(), at(100, 3));
    assert_eq!((cursor.remaining_bits(), cursor.remaining_refs()), (0, 0));
    assert_eq!(cursor.take(0, 0), Ok(()));
}

#[test]
fn taking_too_much_fails_where_the_cursor_stands() {
    let mut cursor = Cursor::open(&cell(), 10, 1, 16, 1).unwrap();
    assert_eq!(cursor.take(17, 0), Err(DisasmError::Truncated(at(10, 1))));
    assert_eq!(cursor.take(0, 2), Err(DisasmError::Truncated(at(10, 1))));
    assert_eq!(cursor.position(), at(10, 1));
    assert_eq!(cursor.take(16, 1), Ok(()));
    assert_eq!(cursor.take_bits(1), Err(DisasmError::Truncated(at(26, 2))));
    assert_eq!(cursor.take_ref(), Err(DisasmError::Truncated(at(26, 2))));
    assert_eq!((cursor.remaining_bits(), cursor.remaining_refs()), (0, 0));
}
