use vstd::prelude::*;

use crate::cpu::Cpu;
use crate::cpu::CpuState;
use crate::cpu::Fault;
use crate::cpu::step_spec;
use crate::memory::MEM_SIZE;

verus! {

/// Address at which ROM code and data are loaded.
pub const PROGRAM_START: u16 = 0x200;

/// Number of bytes of font data: 16 glyphs of 5 bytes each, loaded at
/// address 0.
pub const FONT_BYTES: usize = 80;

/// The font table: glyph g (0x0..=0xF) occupies bytes 5g..5g+5, one
/// byte per sprite row.
pub const FONT_SPRITES: [u8; 80] = [
    0xF0, 0x90, 0x90, 0x90, 0xF0,
    0x20, 0x60, 0x20, 0x20, 0x70,
    0xF0, 0x10, 0xF0, 0x80, 0xF0,
    0xF0, 0x10, 0xF0, 0x10, 0xF0,
    0x90, 0x90, 0xF0, 0x10, 0x10,
    0xF0, 0x80, 0xF0, 0x10, 0xF0,
    0xF0, 0x80, 0xF0, 0x90, 0xF0,
    0xF0, 0x10, 0x20, 0x40, 0x40,
    0xF0, 0x90, 0xF0, 0x90, 0xF0,
    0xF0, 0x90, 0xF0, 0x10, 0xF0,
    0xF0, 0x90, 0xF0, 0x90, 0x90,
    0xE0, 0x90, 0xE0, 0x90, 0xE0,
    0xF0, 0x80, 0x80, 0x80, 0xF0,
    0xE0, 0x90, 0x90, 0x90, 0xE0,
    0xF0, 0x80, 0xF0, 0x80, 0xF0,
    0xF0, 0x80, 0xF0, 0x80, 0x80,
];

/// The session: wires the interpreter to the host loop, owning ROM
/// loading, font setup, stepping, timer ticking, keypad injection and
/// framebuffer read-out.
pub struct Emu {
    pub cpu: Cpu,
}

impl Emu {
    /// The machine state of the session's interpreter.
    pub open spec fn st(&self) -> CpuState {
        self.cpu.st()
    }

    /// Fresh session: zeroed machine with the program counter at the
    /// ROM load address.
    pub fn new() -> (r: Emu)
        ensures
            r.st().pc == PROGRAM_START,
            r.st().i == 0,
            r.st().stack.len() == 0,
            r.st().delay == 0,
            r.st().sound == 0,
            forall|j: int| 0 <= j < 16 ==> r.st().vx[j] == 0u8,
            forall|j: int| 0 <= j < 16 ==> r.st().keys[j] == false,
            forall|a: int| 0 <= a < MEM_SIZE ==> r.st().mem[a] == 0u8,
            forall|k: int| 0 <= k < 2048 ==> r.st().disp[k] == false,
    {
        Emu { cpu: Cpu::new(PROGRAM_START) }
    }

    /// Load the font table into memory at address 0; nothing else
    /// changes.
    pub fn load_fonts(&mut self)
        ensures
            final(self).st() == (CpuState {
                mem: Seq::new(
                    MEM_SIZE as nat,
                    |a: int|
                        if 0 <= a < FONT_BYTES {
                            FONT_SPRITES@[a]
                        } else {
                            old(self).st().mem[a]
                        },
                ),
                ..old(self).st()
            }),
    {
        let ghost pre = self.st();
        proof {
            assert(pre.mem =~= Seq::new(
                MEM_SIZE as nat,
                |a: int|
                    if 0 <= a < 0 {
                        FONT_SPRITES@[a]
                    } else {
                        pre.mem[a]
                    },
            ));
        }
        let mut addr: usize = 0;
        #[verifier::loop_isolation(false)]
        while addr < FONT_BYTES
            invariant
                addr <= FONT_BYTES,
                self.st() == (CpuState {
                    mem: Seq::new(
                        MEM_SIZE as nat,
                        |a: int|
                            if 0 <= a < addr {
                                FONT_SPRITES@[a]
                            } else {
                                pre.mem[a]
                            },
                    ),
                    ..pre
                }),
            decreases FONT_BYTES - addr,
        {
            let byte = FONT_SPRITES[addr];
            self.cpu.bus.write_mem_byte(addr as u16, byte);
            proof {
                assert(self.cpu.bus.mem() =~= Seq::new(
                    MEM_SIZE as nat,
                    |a: int|
                        if 0 <= a < addr + 1 {
                            FONT_SPRITES@[a]
                        } else {
                            pre.mem[a]
                        },
                ));
            }
            addr = addr + 1;
        }
    }

    /// Initialize the session: load the font sprites at address 0.
    pub fn init(&mut self)
        ensures
            final(self).st() == (CpuState {
                mem: Seq::new(
                    MEM_SIZE as nat,
                    |a: int|
                        if 0 <= a < FONT_BYTES {
                            FONT_SPRITES@[a]
                        } else {
                            old(self).st().mem[a]
                        },
                ),
                ..old(self).st()
            }),
    {
        self.load_fonts();
    }

    /// Copy the ROM bytes into memory starting at the load address, in
    /// order. The caller must hand a ROM that fits below the end of
    /// memory.
    pub fn load_rom(&mut self, data: &[u8])
        requires
            data@.len() <= MEM_SIZE - PROGRAM_START,
        ensures
            final(self).st() == (CpuState {
                mem: Seq::new(
                    MEM_SIZE as nat,
                    |a: int|
                        if PROGRAM_START <= a < PROGRAM_START + data@.len() {
                            data@[a - PROGRAM_START]
                        } else {
                            old(self).st().mem[a]
                        },
                ),
                ..old(self).st()
            }),
    {
        let ghost pre = self.st();
        proof {
            assert(pre.mem =~= Seq::new(
                MEM_SIZE as nat,
                |a: int|
                    if PROGRAM_START <= a < PROGRAM_START as int + 0 {
                        data@[a - PROGRAM_START]
                    } else {
                        pre.mem[a]
                    },
            ));
        }
        let mut idx: usize = 0;
        #[verifier::loop_isolation(false)]
        while idx < data.len()
            invariant
                idx <= data@.len(),
                self.st() == (CpuState {
                    mem: Seq::new(
                        MEM_SIZE as nat,
                        |a: int|
                            if PROGRAM_START <= a < PROGRAM_START + idx {
                                data@[a - PROGRAM_START]
                            } else {
                                pre.mem[a]
                            },
                    ),
                    ..pre
                }),
            decreases data@.len() - idx,
        {
            let byte = data[idx];
            self.cpu.bus.write_mem_byte(PROGRAM_START + idx as u16, byte);
            proof {
                assert(self.cpu.bus.mem() =~= Seq::new(
                    MEM_SIZE as nat,
                    |a: int|
                        if PROGRAM_START <= a < PROGRAM_START + (idx + 1) {
                            data@[a - PROGRAM_START]
                        } else {
                            pre.mem[a]
                        },
                ));
            }
            idx = idx + 1;
        }
    }

    /// Record a key transition from the host: key `code` is now pressed
    /// (`true`) or released (`false`).
    pub fn key_pressed(&mut self, code: usize, released: bool)
        requires
            code < 16,
        ensures
            final(self).st() == (CpuState {
                keys: old(self).st().keys.update(code as int, released),
                ..old(self).st()
            }),
    {
        self.cpu.keys_map[code] = released;
    }

    /// Execute exactly one instruction; see `step_spec` for the exact
    /// behaviour, fault cases included.
    pub fn run_instruction(&mut self) -> (r: Result<u16, Fault>)
        ensures
            match r {
                Ok(pc2) => pc2 == final(self).st().pc && exists|rnd: u8|
                    step_spec(old(self).st(), rnd) == Ok::<CpuState, Fault>(final(self).st()),
                Err(f) => *final(self) == *old(self) && forall|rnd: u8|
                    step_spec(old(self).st(), rnd) == Err::<CpuState, Fault>(f),
            },
    {
        self.cpu.run_instruction()
    }

    /// Decrement each timer by one, flooring at zero; nothing else
    /// changes. Called by the host at a fixed rate, independent of the
    /// instruction rate.
    pub fn tick_timers(&mut self)
        ensures
            final(self).st() == (CpuState {
                delay: if old(self).st().delay > 0 {
                    (old(self).st().delay - 1) as u8
                } else {
                    0u8
                },
                sound: if old(self).st().sound > 0 {
                    (old(self).st().sound - 1) as u8
                } else {
                    0u8
                },
                ..old(self).st()
            }),
    {
        if self.cpu.delay_timer > 0 {
            self.cpu.delay_timer = self.cpu.delay_timer - 1;
        }
        if self.cpu.sound_timer > 0 {
            self.cpu.sound_timer = self.cpu.sound_timer - 1;
        }
    }

    /// Read-only view of the 64x32 cell grid for the host renderer.
    pub fn get_display_buffer(&self) -> (r: &[bool])
        ensures
            r@ == self.st().disp,
    {
        self.cpu.bus.get_display_buffer()
    }
}

} // verus!
