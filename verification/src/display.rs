use vstd::prelude::*;

verus! {

/// Width of the pixel grid in cells.
pub const DISPLAY_WIDTH: usize = 64;

/// Height of the pixel grid in cells.
pub const DISPLAY_HEIGHT: usize = 32;

/// Number of cells in the grid, row-major: index = x + y * DISPLAY_WIDTH.
pub const DISPLAY_SIZE: usize = 2048;

/// Monochrome pixel grid. A cell is only ever toggled (XOR) or cleared,
/// never written directly: overlap during sprite drawing erases pixels,
/// which is what collision detection reports.
pub struct Display {
    pub buffer: [bool; DISPLAY_SIZE],
}

impl View for Display {
    type V = Seq<bool>;

    open spec fn view(&self) -> Seq<bool> {
        self.buffer@
    }
}

impl Display {
    /// Fresh display with every cell unset.
    pub fn new() -> (r: Display)
        ensures
            r@.len() == DISPLAY_SIZE,
            forall|k: int| 0 <= k < DISPLAY_SIZE ==> r@[k] == false,
    {
        Display { buffer: [false; DISPLAY_SIZE] }
    }

    /// Reset every cell to unset.
    pub fn clear(&mut self)
        ensures
            final(self)@.len() == DISPLAY_SIZE,
            forall|k: int| 0 <= k < DISPLAY_SIZE ==> final(self)@[k] == false,
    {
        self.buffer = [false; DISPLAY_SIZE];
    }

    /// Toggle (XOR) the cell at `index`.
    pub fn set_pixel(&mut self, index: usize)
        requires
            index < DISPLAY_SIZE,
        ensures
            final(self)@ == old(self)@.update(index as int, !old(self)@[index as int]),
    {
        self.buffer[index] = !self.buffer[index];
    }

    /// Read the cell at `index`.
    pub fn get_pixel(&self, index: usize) -> (r: bool)
        requires
            index < DISPLAY_SIZE,
        ensures
            r == self@[index as int],
    {
        self.buffer[index]
    }

    /// Read-only view of all cells for the host renderer.
    pub fn get_buffer(&self) -> (r: &[bool])
        ensures
            r@ == self@,
    {
        self.buffer.as_slice()
    }
}

} // verus!
