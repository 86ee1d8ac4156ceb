use vstd::prelude::*;

verus! {

/// Number of addressable bytes: addresses run from 0x000 through 0xFFF.
pub const MEM_SIZE: usize = 4096;

/// Flat byte storage for the whole machine: font data below 0x200,
/// program code and data from 0x200 up.
pub struct Memory {
    pub mem: [u8; MEM_SIZE],
}

impl View for Memory {
    type V = Seq<u8>;

    open spec fn view(&self) -> Seq<u8> {
        self.mem@
    }
}

impl Memory {
    /// Fresh memory with every byte zero.
    pub fn new() -> (r: Memory)
        ensures
            r@.len() == MEM_SIZE,
            forall|a: int| 0 <= a < MEM_SIZE ==> r@[a] == 0u8,
    {
        Memory { mem: [0; MEM_SIZE] }
    }

    /// Store one byte at `addr`; every other address keeps its value.
    pub fn write_byte(&mut self, addr: u16, byte: &u8)
        requires
            addr < MEM_SIZE,
        ensures
            final(self)@ == old(self)@.update(addr as int, *byte),
    {
        self.mem[addr as usize] = *byte;
    }

    /// Read the byte at `addr`.
    pub fn read_byte(&mut self, addr: u16) -> (r: u8)
        requires
            addr < MEM_SIZE,
        ensures
            r == old(self)@[addr as int],
            *final(self) == *old(self),
    {
        self.mem[addr as usize]
    }
}

} // verus!
