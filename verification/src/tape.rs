//! The tape: a fixed-length array of unsigned 8-bit cells and a pointer.
//!
//! Cell arithmetic wraps modulo 256 by design. Pointer movement follows the
//! fixed-size policy: a step that would leave the array is refused and
//! reported by the caller as a runtime bounds error, never wrapped silently.

use vstd::prelude::*;

verus! {

/// The value of a cell after one increment: one more, wrapping 255 to 0.
pub open spec fn wrapping_inc(v: u8) -> u8 {
    (((v as int) + 1) % 256) as u8
}

/// The value of a cell after one decrement: one less, wrapping 0 to 255.
pub open spec fn wrapping_dec(v: u8) -> u8 {
    (((v as int) + 255) % 256) as u8
}

/// The tape of one run: its cells and the pointer into them.
pub struct VirtualMachine {
    pub cells: Vec<u8>,
    pub pointer: usize,
}

impl VirtualMachine {
    /// The pointer always stays strictly inside the cell array.
    pub open spec fn wf(&self) -> bool {
        self.pointer < self.cells@.len()
    }

    /// A fresh tape: `cells_size` zeroed cells, pointer at the midpoint
    /// offset `cells_size / 2 - 1`.
    pub fn new(cells_size: usize) -> (vm: Self)
        requires
            cells_size >= 2,
        ensures
            vm.wf(),
            vm.cells@.len() == cells_size,
            forall|j: int| 0 <= j < cells_size ==> vm.cells@[j] == 0u8,
            vm.pointer == cells_size / 2 - 1,
    {
        let mut cells: Vec<u8> = Vec::new();
        let mut i: usize = 0;
        while i < cells_size
            invariant
                i <= cells_size,
                cells@.len() == i,
                forall|j: int| 0 <= j < i ==> cells@[j] == 0u8,
            decreases cells_size - i,
        {
            cells.push(0);
            i = i + 1;
        }
        VirtualMachine { cells, pointer: cells_size / 2 - 1 }
    }

    /// The value of the cell under the pointer.
    pub fn read_cell(&self) -> (v: u8)
        requires
            self.wf(),
        ensures
            v == self.cells@[self.pointer as int],
    {
        self.cells[self.pointer]
    }

    /// Overwrite the cell under the pointer.
    pub fn write_cell(&mut self, v: u8)
        requires
            old(self).wf(),
        ensures
            final(self).wf(),
            final(self).cells@ == old(self).cells@.update(old(self).pointer as int, v),
            final(self).pointer == old(self).pointer,
    {
        let p = self.pointer;
        self.cells.set(p, v);
    }

    /// Add one to the cell under the pointer, wrapping modulo 256.
    pub fn increment(&mut self)
        requires
            old(self).wf(),
        ensures
            final(self).wf(),
            final(self).cells@ == old(self).cells@.update(
                old(self).pointer as int,
                wrapping_inc(old(self).cells@[old(self).pointer as int]),
            ),
            final(self).pointer == old(self).pointer,
    {
        let v = self.read_cell();
        let w: u8 = if v == 255 { 0 } else { v + 1 };
        self.write_cell(w);
    }

    /// Subtract one from the cell under the pointer, wrapping modulo 256.
    pub fn decrement(&mut self)
        requires
            old(self).wf(),
        ensures
            final(self).wf(),
            final(self).cells@ == old(self).cells@.update(
                old(self).pointer as int,
                wrapping_dec(old(self).cells@[old(self).pointer as int]),
            ),
            final(self).pointer == old(self).pointer,
    {
        let v = self.read_cell();
        let w: u8 = if v == 0 { 255 } else { v - 1 };
        self.write_cell(w);
    }

    /// Move the pointer one cell to the right; refused (returning `false`,
    /// tape unchanged) when the pointer already rests on the last cell.
    pub fn move_right(&mut self) -> (moved: bool)
        requires
            old(self).wf(),
        ensures
            final(self).wf(),
            final(self).cells@ == old(self).cells@,
            moved == (old(self).pointer + 1 < old(self).cells@.len()),
            moved ==> final(self).pointer == old(self).pointer + 1,
            !moved ==> final(self).pointer == old(self).pointer,
    {
        if self.pointer < self.cells.len() - 1 {
            self.pointer = self.pointer + 1;
            true
        } else {
            false
        }
    }

    /// Move the pointer one cell to the left; refused (returning `false`,
    /// tape unchanged) when the pointer already rests on cell 0.
    pub fn move_left(&mut self) -> (moved: bool)
        requires
            old(self).wf(),
        ensures
            final(self).wf(),
            final(self).cells@ == old(self).cells@,
            moved == (old(self).pointer > 0),
            moved ==> final(self).pointer == old(self).pointer - 1,
            !moved ==> final(self).pointer == old(self).pointer,
    {
        if self.pointer > 0 {
            self.pointer = self.pointer - 1;
            true
        } else {
            false
        }
    }
}

} // verus!
