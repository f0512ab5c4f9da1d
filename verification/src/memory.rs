//! Memory layout of the transaction kernel.
//!
//! The execution engine lays consumed-note data out in a fixed region of
//! its linear memory; test drivers compute pointers into that region.

use vstd::prelude::*;

verus! {

/// A transaction-kernel memory address.
pub type MemoryAddress = u32;

/// Start of the consumed-notes data section.
pub const CONSUMED_NOTE_SECTION_OFFSET: MemoryAddress = 1048576;

/// Number of memory words reserved for each consumed note.
pub const CONSUMED_NOTE_SIZE: u32 = 1024;

/// Returns the memory address at which the data of the consumed note
/// with the specified index begins: one note-sized block past the section
/// offset for each preceding note, after the section's own header block.
pub fn consumed_note_data_ptr(note_idx: u32) -> (r: MemoryAddress)
    requires
        CONSUMED_NOTE_SECTION_OFFSET + (1 + note_idx) * CONSUMED_NOTE_SIZE <= u32::MAX,
    ensures
        r == CONSUMED_NOTE_SECTION_OFFSET + (1 + note_idx) * CONSUMED_NOTE_SIZE,
{
    CONSUMED_NOTE_SECTION_OFFSET + (1 + note_idx) * CONSUMED_NOTE_SIZE
}

} // verus!
