use vstd::prelude::*;

use crate::bus::Bus;
use crate::bus::draw_collides;
use crate::bus::draw_result;
use crate::memory::MEM_SIZE;
use crate::display::DISPLAY_SIZE;

verus! {

/// Number of keypad keys.
pub const NUM_KEYS: usize = 16;

/// A condition that aborts the run. Each variant carries the program
/// counter of the instruction that failed, so the host can diagnose it.
#[derive(Clone, Copy, Debug, PartialEq, Eq, Structural)]
pub enum Fault {
    /// The fetched word matches no recognized instruction pattern.
    InvalidOpcode { opcode: u16, pc: u16 },
    /// RET was executed with an empty call stack.
    StackUnderflow { pc: u16 },
    /// An instruction would touch memory outside 0x000..=0xFFF.
    /// `addr` is the base address of the offending access.
    AddressOutOfRange { addr: u16, pc: u16 },
    /// A key-test instruction named a key index above 0xF.
    KeyOutOfRange { key: u8, pc: u16 },
}

/// The whole machine state, as mathematics: what one interpreter step
/// reads and writes.
#[verifier::ext_equal]
pub ghost struct CpuState {
    pub mem: Seq<u8>,
    pub disp: Seq<bool>,
    pub vx: Seq<u8>,
    pub pc: u16,
    pub i: u16,
    pub stack: Seq<u16>,
    pub keys: Seq<bool>,
    pub delay: u8,
    pub sound: u8,
}

/// Big-endian combination of the two instruction bytes at `pc`.
pub open spec fn fetch16(mem: Seq<u8>, pc: int) -> u16 {
    ((mem[pc] as int) * 256 + (mem[pc + 1] as int)) as u16
}

/// Top nibble: the instruction family.
pub open spec fn op_fam(op: u16) -> u16 {
    op / 0x1000
}

/// Second nibble: the Vx register operand.
pub open spec fn op_x(op: u16) -> int {
    (op as int / 0x100) % 0x10
}

/// Third nibble: the Vy register operand.
pub open spec fn op_y(op: u16) -> int {
    (op as int / 0x10) % 0x10
}

/// Low twelve bits: an address operand.
pub open spec fn op_nnn(op: u16) -> u16 {
    op % 0x1000
}

/// Low byte: an immediate operand.
pub open spec fn op_nn(op: u16) -> u8 {
    (op % 0x100) as u8
}

/// Low nibble: a small immediate operand.
pub open spec fn op_n(op: u16) -> u8 {
    (op % 0x10) as u8
}

/// 8-bit addition with wraparound.
pub open spec fn wadd8(a: u8, b: u8) -> u8 {
    if a + b > 255 {
        (a + b - 0x100) as u8
    } else {
        (a + b) as u8
    }
}

/// 8-bit subtraction with wraparound.
pub open spec fn wsub8(a: u8, b: u8) -> u8 {
    if a - b < 0 {
        (a - b + 0x100) as u8
    } else {
        (a - b) as u8
    }
}

/// 16-bit addition with wraparound.
pub open spec fn wadd16(a: u16, b: u16) -> u16 {
    if a + b > 0xffff {
        (a + b - 0x10000) as u16
    } else {
        (a + b) as u16
    }
}

/// Highest pressed key index below `k`. The executable scan runs
/// upward over the keypad and lets the last pressed key it sees win,
/// which is the largest index; the canonical instruction set leaves
/// this tie-break unspecified.
pub open spec fn last_key_below(keys: Seq<bool>, k: int) -> Option<int>
    decreases k,
{
    if k <= 0 {
        None
    } else if keys[k - 1] {
        Some(k - 1)
    } else {
        last_key_below(keys, k - 1)
    }
}

/// Memory after the BCD store: hundreds digit at `i`, tens at `i + 1`,
/// ones at `i + 2`.
pub open spec fn bcd_mem(mem: Seq<u8>, i: int, v: u8) -> Seq<u8> {
    mem.update(i, (v / 100) as u8).update(i + 1, ((v / 10) % 10) as u8).update(
        i + 2,
        (v % 10) as u8,
    )
}

/// The 0nnn family: only 00E0 (clear) and 00EE (return) are recognized.
pub open spec fn spec_sys(s: CpuState, op: u16) -> Result<CpuState, Fault> {
    if op_nnn(op) == 0x0e0 {
        Ok(CpuState { disp: Seq::new(2048, |k: int| false), pc: (s.pc + 2) as u16, ..s })
    } else if op_nnn(op) == 0x0ee {
        if s.stack.len() == 0 {
            Err(Fault::StackUnderflow { pc: s.pc })
        } else {
            Ok(CpuState { pc: s.stack.last(), stack: s.stack.drop_last(), ..s })
        }
    } else {
        Err(Fault::InvalidOpcode { opcode: op, pc: s.pc })
    }
}

/// The 8xyN arithmetic/logic family. SUB (N=5) and reverse SUB (N=7)
/// set VF by a signed-compare rule: the wrapped difference read as a
/// signed byte is strictly positive (N=5) or strictly negative (N=7);
/// at Vx == Vy this yields VF = 0, which deviates from the canonical
/// no-borrow rule. ADD (N=4) sets no carry flag at all. Both rules are
/// preserved deliberately.
pub open spec fn spec_alu(s: CpuState, op: u16) -> Result<CpuState, Fault> {
    let x = op_x(op);
    let y = op_y(op);
    let pc2 = (s.pc + 2) as u16;
    let n = op_n(op);
    if n == 0 {
        Ok(CpuState { vx: s.vx.update(x, s.vx[y]), pc: pc2, ..s })
    } else if n == 1 {
        Ok(CpuState { vx: s.vx.update(x, s.vx[x] | s.vx[y]), pc: pc2, ..s })
    } else if n == 2 {
        Ok(CpuState { vx: s.vx.update(x, s.vx[x] & s.vx[y]), pc: pc2, ..s })
    } else if n == 3 {
        Ok(CpuState { vx: s.vx.update(x, s.vx[x] ^ s.vx[y]), pc: pc2, ..s })
    } else if n == 4 {
        Ok(CpuState { vx: s.vx.update(x, wadd8(s.vx[x], s.vx[y])), pc: pc2, ..s })
    } else if n == 5 {
        let r = wsub8(s.vx[x], s.vx[y]);
        let flag: u8 = if 0 < r < 0x80 {
            1
        } else {
            0
        };
        Ok(CpuState { vx: s.vx.update(x, r).update(15, flag), pc: pc2, ..s })
    } else if n == 6 {
        let flag: u8 = if s.vx[x] & 1 == 1 {
            1
        } else {
            0
        };
        Ok(CpuState { vx: s.vx.update(x, s.vx[x] >> 1u8).update(15, flag), pc: pc2, ..s })
    } else if n == 7 {
        let r = wsub8(s.vx[y], s.vx[x]);
        let flag: u8 = if r >= 0x80 {
            1
        } else {
            0
        };
        Ok(CpuState { vx: s.vx.update(x, r).update(15, flag), pc: pc2, ..s })
    } else if n == 0xe {
        let flag: u8 = if (s.vx[x] & 0x80) >> 7u8 == 1 {
            1
        } else {
            0
        };
        Ok(CpuState { vx: s.vx.update(x, s.vx[x] << 1u8).update(15, flag), pc: pc2, ..s })
    } else {
        Err(Fault::InvalidOpcode { opcode: op, pc: s.pc })
    }
}

/// The Dxyn draw instruction: blit the sprite at I, set VF to the
/// collision flag, advance.
pub open spec fn spec_draw(s: CpuState, op: u16) -> Result<CpuState, Fault> {
    let n = op_n(op);
    let sx = s.vx[op_x(op)] as int;
    let sy = s.vx[op_y(op)] as int;
    if n > 0 && s.i as int + n as int > MEM_SIZE {
        Err(Fault::AddressOutOfRange { addr: s.i, pc: s.pc })
    } else {
        let collided = draw_collides(s.disp, s.mem, sx, sy, n as int, s.i as int);
        Ok(
            CpuState {
                disp: draw_result(s.disp, s.mem, sx, sy, n as int, s.i as int),
                vx: s.vx.update(
                    15,
                    if collided {
                        1u8
                    } else {
                        0u8
                    },
                ),
                pc: (s.pc + 2) as u16,
                ..s
            },
        )
    }
}

/// The Ex9E / ExA1 key-test family.
pub open spec fn spec_key(s: CpuState, op: u16) -> Result<CpuState, Fault> {
    let key = s.vx[op_x(op)];
    let nn = op_nn(op);
    if nn != 0x9e && nn != 0xa1 {
        Err(Fault::InvalidOpcode { opcode: op, pc: s.pc })
    } else if key >= 16 {
        Err(Fault::KeyOutOfRange { key, pc: s.pc })
    } else {
        let pressed = s.keys[key as int];
        let skip = if nn == 0x9e {
            pressed
        } else {
            !pressed
        };
        Ok(
            CpuState {
                pc: if skip {
                    (s.pc + 4) as u16
                } else {
                    (s.pc + 2) as u16
                },
                ..s
            },
        )
    }
}

/// The FxNN family: timers, wait-for-key, index arithmetic, font
/// lookup, BCD, and register block store/load.
pub open spec fn spec_misc(s: CpuState, op: u16) -> Result<CpuState, Fault> {
    let x = op_x(op);
    let nn = op_nn(op);
    let pc2 = (s.pc + 2) as u16;
    if nn == 0x07 {
        Ok(CpuState { vx: s.vx.update(x, s.delay), pc: pc2, ..s })
    } else if nn == 0x0a {
        match last_key_below(s.keys, 16) {
            Some(k) => Ok(CpuState { vx: s.vx.update(x, k as u8), pc: pc2, ..s }),
            None => Ok(s),
        }
    } else if nn == 0x15 {
        Ok(CpuState { delay: s.vx[x], pc: pc2, ..s })
    } else if nn == 0x18 {
        Ok(CpuState { sound: s.vx[x], pc: pc2, ..s })
    } else if nn == 0x1e {
        Ok(CpuState { i: wadd16(s.i, s.vx[x] as u16), pc: pc2, ..s })
    } else if nn == 0x29 {
        Ok(CpuState { i: (s.vx[x] * 5) as u16, pc: pc2, ..s })
    } else if nn == 0x33 {
        if s.i as int + 2 >= MEM_SIZE {
            Err(Fault::AddressOutOfRange { addr: s.i, pc: s.pc })
        } else {
            Ok(CpuState { mem: bcd_mem(s.mem, s.i as int, s.vx[x]), pc: pc2, ..s })
        }
    } else if nn == 0x55 {
        if s.i as int + x >= MEM_SIZE {
            Err(Fault::AddressOutOfRange { addr: s.i, pc: s.pc })
        } else {
            Ok(
                CpuState {
                    mem: Seq::new(
                        MEM_SIZE as nat,
                        |a: int|
                            if s.i <= a <= s.i + x {
                                s.vx[a - s.i]
                            } else {
                                s.mem[a]
                            },
                    ),
                    pc: pc2,
                    ..s
                },
            )
        }
    } else if nn == 0x65 {
        if s.i as int + x >= MEM_SIZE {
            Err(Fault::AddressOutOfRange { addr: s.i, pc: s.pc })
        } else {
            Ok(
                CpuState {
                    vx: Seq::new(
                        16,
                        |j: int|
                            if j <= x {
                                s.mem[s.i + j]
                            } else {
                                s.vx[j]
                            },
                    ),
                    pc: pc2,
                    ..s
                },
            )
        }
    } else {
        Err(Fault::InvalidOpcode { opcode: op, pc: s.pc })
    }
}

/// Effect of the already-fetched instruction `op` on state `s`. `rnd`
/// is the byte the random source supplied; only Cxnn reads it.
pub open spec fn exec_opcode(s: CpuState, op: u16, rnd: u8) -> Result<CpuState, Fault> {
    let fam = op_fam(op);
    let x = op_x(op);
    let y = op_y(op);
    let nnn = op_nnn(op);
    let nn = op_nn(op);
    let n = op_n(op);
    let pc2 = (s.pc + 2) as u16;
    let pc4 = (s.pc + 4) as u16;
    if fam == 0 {
        spec_sys(s, op)
    } else if fam == 1 {
        Ok(CpuState { pc: nnn, ..s })
    } else if fam == 2 {
        Ok(CpuState { stack: s.stack.push(pc2), pc: nnn, ..s })
    } else if fam == 3 {
        Ok(
            CpuState {
                pc: if s.vx[x] == nn {
                    pc4
                } else {
                    pc2
                },
                ..s
            },
        )
    } else if fam == 4 {
        Ok(
            CpuState {
                pc: if s.vx[x] != nn {
                    pc4
                } else {
                    pc2
                },
                ..s
            },
        )
    } else if fam == 5 {
        if n != 0 {
            Err(Fault::InvalidOpcode { opcode: op, pc: s.pc })
        } else {
            Ok(
                CpuState {
                    pc: if s.vx[x] == s.vx[y] {
                        pc4
                    } else {
                        pc2
                    },
                    ..s
                },
            )
        }
    } else if fam == 6 {
        Ok(CpuState { vx: s.vx.update(x, nn), pc: pc2, ..s })
    } else if fam == 7 {
        Ok(CpuState { vx: s.vx.update(x, wadd8(s.vx[x], nn)), pc: pc2, ..s })
    } else if fam == 8 {
        spec_alu(s, op)
    } else if fam == 9 {
        if n != 0 {
            Err(Fault::InvalidOpcode { opcode: op, pc: s.pc })
        } else {
            Ok(
                CpuState {
                    pc: if s.vx[x] != s.vx[y] {
                        pc4
                    } else {
                        pc2
                    },
                    ..s
                },
            )
        }
    } else if fam == 0xa {
        Ok(CpuState { i: nnn, pc: pc2, ..s })
    } else if fam == 0xb {
        Ok(CpuState { pc: (nnn + s.vx[0] as u16) as u16, ..s })
    } else if fam == 0xc {
        Ok(CpuState { vx: s.vx.update(x, rnd & nn), pc: pc2, ..s })
    } else if fam == 0xd {
        spec_draw(s, op)
    } else if fam == 0xe {
        spec_key(s, op)
    } else if fam == 0xf {
        spec_misc(s, op)
    } else {
        Err(Fault::InvalidOpcode { opcode: op, pc: s.pc })
    }
}

/// One whole interpreter step from state `s`: fetch the word at the
/// program counter, then execute it. Fails if the two instruction bytes
/// do not both lie inside memory.
pub open spec fn step_spec(s: CpuState, rnd: u8) -> Result<CpuState, Fault> {
    if s.pc as int + 1 >= MEM_SIZE {
        Err(Fault::AddressOutOfRange { addr: s.pc, pc: s.pc })
    } else {
        exec_opcode(s, fetch16(s.mem, s.pc as int), rnd)
    }
}

/// A satisfied skip instruction advances the program counter by 4, an
/// unsatisfied one by 2, for every state and every operand (3xnn, 4xnn,
/// 5xy0, 9xy0).
pub proof fn lemma_skip_advance(s: CpuState, rnd: u8, s1: CpuState)
    requires
        step_spec(s, rnd) == Ok::<CpuState, Fault>(s1),
        ({
            let op = fetch16(s.mem, s.pc as int);
            ||| op_fam(op) == 3
            ||| op_fam(op) == 4
            ||| (op_fam(op) == 5 && op_n(op) == 0)
            ||| (op_fam(op) == 9 && op_n(op) == 0)
        }),
    ensures
        ({
            let op = fetch16(s.mem, s.pc as int);
            let sat = if op_fam(op) == 3 {
                s.vx[op_x(op)] == op_nn(op)
            } else if op_fam(op) == 4 {
                s.vx[op_x(op)] != op_nn(op)
            } else if op_fam(op) == 5 {
                s.vx[op_x(op)] == s.vx[op_y(op)]
            } else {
                s.vx[op_x(op)] != s.vx[op_y(op)]
            };
            s1.pc == if sat {
                (s.pc + 4) as u16
            } else {
                (s.pc + 2) as u16
            }
        }),
{
}

/// CALL pushes the address of the following instruction and RET pops
/// it: a call followed at once by a return leaves the program counter
/// two bytes past the CALL and the call stack exactly as it was.
pub proof fn lemma_call_then_ret(s: CpuState, rnd1: u8, rnd2: u8, s1: CpuState, s2: CpuState)
    requires
        step_spec(s, rnd1) == Ok::<CpuState, Fault>(s1),
        op_fam(fetch16(s.mem, s.pc as int)) == 2,
        step_spec(s1, rnd2) == Ok::<CpuState, Fault>(s2),
        op_fam(fetch16(s1.mem, s1.pc as int)) == 0,
        op_nnn(fetch16(s1.mem, s1.pc as int)) == 0x0ee,
    ensures
        s2.pc == (s.pc + 2) as u16,
        s2.stack == s.stack,
{
    assert(s1.stack == s.stack.push((s.pc + 2) as u16));
    assert(s2.pc == s1.stack.last());
    assert(s2.stack == s1.stack.drop_last());
    assert(s2.stack =~= s.stack);
}

/// Fx55 then Fx65 with the same register count and the same index
/// register round-trips: storing V0..Vx at I and then loading from the
/// same address leaves every register with its original value.
pub proof fn lemma_store_load_roundtrip(
    s: CpuState,
    rnd1: u8,
    rnd2: u8,
    s1: CpuState,
    s2: CpuState,
)
    requires
        s.vx.len() == 16,
        step_spec(s, rnd1) == Ok::<CpuState, Fault>(s1),
        ({
            let op = fetch16(s.mem, s.pc as int);
            op_fam(op) == 0xf && op_nn(op) == 0x55
        }),
        step_spec(s1, rnd2) == Ok::<CpuState, Fault>(s2),
        ({
            let op1 = fetch16(s1.mem, s1.pc as int);
            op_fam(op1) == 0xf && op_nn(op1) == 0x65 && op_x(op1) == op_x(
                fetch16(s.mem, s.pc as int),
            )
        }),
    ensures
        s2.vx == s.vx,
{
    let op = fetch16(s.mem, s.pc as int);
    let x = op_x(op);
    assert(s1.mem == Seq::new(
        MEM_SIZE as nat,
        |a: int|
            if s.i <= a <= s.i + x {
                s.vx[a - s.i]
            } else {
                s.mem[a]
            },
    ));
    assert(s1.vx == s.vx && s1.i == s.i);
    assert(s2.vx == Seq::new(
        16,
        |j: int|
            if j <= x {
                s1.mem[s1.i + j]
            } else {
                s1.vx[j]
            },
    ));
    assert forall|j: int| 0 <= j < 16 implies s2.vx[j] == s.vx[j] by {
        if j <= x {
            assert(s1.mem[s.i + j] == s.vx[j]);
        }
    }
    assert(s2.vx =~= s.vx);
}

/// Relies on rand::thread_rng and rand::Rng::gen for one byte from the
/// thread-local generator. Nothing is promised of the value: callers
/// state what holds of every outcome.
#[verifier::external_body]
fn random_byte() -> u8 {
    rand::Rng::gen(&mut rand::thread_rng())
}

/// The interpreter: registers, program counter, index register, call
/// stack, keypad snapshot and timers, with the bus it drives.
pub struct Cpu {
    pub bus: Bus,
    pub vx: [u8; 16],
    pub pc: u16,
    pub i: u16,
    pub stack: Vec<u16>,
    pub keys_map: [bool; NUM_KEYS],
    pub delay_timer: u8,
    pub sound_timer: u8,
}

impl Cpu {
    /// The machine state this interpreter is in.
    pub open spec fn st(&self) -> CpuState {
        CpuState {
            mem: self.bus.mem(),
            disp: self.bus.disp(),
            vx: self.vx@,
            pc: self.pc,
            i: self.i,
            stack: self.stack@,
            keys: self.keys_map@,
            delay: self.delay_timer,
            sound: self.sound_timer,
        }
    }

    /// Fresh interpreter: zeroed memory and registers, cleared display,
    /// empty stack, program counter at `start_addr`.
    pub fn new(start_addr: u16) -> (r: Cpu)
        ensures
            r.st().pc == start_addr,
            r.st().i == 0,
            r.st().stack.len() == 0,
            r.st().delay == 0,
            r.st().sound == 0,
            forall|j: int| 0 <= j < 16 ==> r.st().vx[j] == 0u8,
            forall|j: int| 0 <= j < 16 ==> r.st().keys[j] == false,
            forall|a: int| 0 <= a < MEM_SIZE ==> r.st().mem[a] == 0u8,
            forall|k: int| 0 <= k < DISPLAY_SIZE ==> r.st().disp[k] == false,
    {
        Cpu {
            bus: Bus::new(),
            vx: [0; 16],
            pc: start_addr,
            i: 0,
            stack: Vec::<u16>::new(),
            keys_map: [false; NUM_KEYS],
            delay_timer: 0,
            sound_timer: 0,
        }
    }

    /// Execute exactly one instruction: the behaviour is `step_spec` of
    /// the old state, for the byte the random source supplied. On a
    /// fault nothing is changed and the fault is the one `step_spec`
    /// names for every possible random byte; on success the updated
    /// program counter is returned.
    pub fn run_instruction(&mut self) -> (r: Result<u16, Fault>)
        ensures
            match r {
                Ok(pc2) => pc2 == final(self).pc && exists|rnd: u8|
                    step_spec(old(self).st(), rnd) == Ok::<CpuState, Fault>(final(self).st()),
                Err(f) => *final(self) == *old(self) && forall|rnd: u8|
                    step_spec(old(self).st(), rnd) == Err::<CpuState, Fault>(f),
            },
    {
        let ghost pre = self.st();
        if self.pc >= 0xfff {
            return Err(Fault::AddressOutOfRange { addr: self.pc, pc: self.pc });
        }
        let first_byte = self.bus.read_mem_byte(self.pc);
        let second_byte = self.bus.read_mem_byte(self.pc + 1);
        let opcode: u16 = (first_byte as u16) * 256 + (second_byte as u16);
        proof {
            assert(opcode == fetch16(pre.mem, pre.pc as int));
        }
        let nibble = opcode / 0x1000;
        let x = ((opcode / 0x100) % 0x10) as usize;
        let y = ((opcode / 0x10) % 0x10) as usize;
        let nnn = opcode % 0x1000;
        let nn = (opcode % 0x100) as u8;
        let n = (opcode % 0x10) as u8;
        match nibble {
            0x0 => {
                if nnn == 0x0e0 {
                    self.bus.clear_display();
                    self.pc = self.pc + 2;
                    proof {
                        assert(self.st().disp =~= Seq::new(2048, |k: int| false));
                        assert(step_spec(pre, 0u8) == Ok::<CpuState, Fault>(self.st()));
                    }
                    Ok(self.pc)
                } else if nnn == 0x0ee {
                    if self.stack.len() == 0 {
                        Err(Fault::StackUnderflow { pc: self.pc })
                    } else {
                        let ret_addr = self.stack.pop().unwrap();
                        self.pc = ret_addr;
                        proof {
                            assert(step_spec(pre, 0u8) == Ok::<CpuState, Fault>(self.st()));
                        }
                        Ok(self.pc)
                    }
                } else {
                    Err(Fault::InvalidOpcode { opcode, pc: self.pc })
                }
            },
            0x1 => {
                self.pc = nnn;
                proof {
                    assert(step_spec(pre, 0u8) == Ok::<CpuState, Fault>(self.st()));
                }
                Ok(self.pc)
            },
            0x2 => {
                self.stack.push(self.pc + 2);
                self.pc = nnn;
                proof {
                    assert(step_spec(pre, 0u8) == Ok::<CpuState, Fault>(self.st()));
                }
                Ok(self.pc)
            },
            0x3 => {
                if self.vx[x] == nn {
                    self.pc = self.pc + 4;
                } else {
                    self.pc = self.pc + 2;
                }
                proof {
                    assert(step_spec(pre, 0u8) == Ok::<CpuState, Fault>(self.st()));
                }
                Ok(self.pc)
            },
            0x4 => {
                if self.vx[x] != nn {
                    self.pc = self.pc + 4;
                } else {
                    self.pc = self.pc + 2;
                }
                proof {
                    assert(step_spec(pre, 0u8) == Ok::<CpuState, Fault>(self.st()));
                }
                Ok(self.pc)
            },
            0x5 => {
                if n != 0 {
                    return Err(Fault::InvalidOpcode { opcode, pc: self.pc });
                }
                if self.vx[x] == self.vx[y] {
                    self.pc = self.pc + 4;
                } else {
                    self.pc = self.pc + 2;
                }
                proof {
                    assert(step_spec(pre, 0u8) == Ok::<CpuState, Fault>(self.st()));
                }
                Ok(self.pc)
            },
            0x6 => {
                self.vx[x] = nn;
                self.pc = self.pc + 2;
                proof {
                    assert(step_spec(pre, 0u8) == Ok::<CpuState, Fault>(self.st()));
                }
                Ok(self.pc)
            },
            0x7 => {
                self.vx[x] = self.vx[x].wrapping_add(nn);
                self.pc = self.pc + 2;
                proof {
                    assert(step_spec(pre, 0u8) == Ok::<CpuState, Fault>(self.st()));
                }
                Ok(self.pc)
            },
            0x8 => {
                match n {
                    0 => {
                        self.vx[x] = self.vx[y];
                    },
                    1 => {
                        self.vx[x] = self.vx[x] | self.vx[y];
                    },
                    2 => {
                        self.vx[x] = self.vx[x] & self.vx[y];
                    },
                    3 => {
                        self.vx[x] = self.vx[x] ^ self.vx[y];
                    },
                    4 => {
                        self.vx[x] = self.vx[x].wrapping_add(self.vx[y]);
                    },
                    5 => {
                        let res = self.vx[x].wrapping_sub(self.vx[y]);
                        self.vx[x] = res;
                        if 0 < res && res < 0x80 {
                            self.vx[0xf] = 1;
                        } else {
                            self.vx[0xf] = 0;
                        }
                    },
                    6 => {
                        let bit = self.vx[x] & 0x1;
                        self.vx[x] = self.vx[x] >> 1u8;
                        if bit == 1 {
                            self.vx[0xf] = 1;
                        } else {
                            self.vx[0xf] = 0;
                        }
                    },
                    7 => {
                        let res = self.vx[y].wrapping_sub(self.vx[x]);
                        self.vx[x] = res;
                        if res >= 0x80 {
                            self.vx[0xf] = 1;
                        } else {
                            self.vx[0xf] = 0;
                        }
                    },
                    0xe => {
                        let bit = (self.vx[x] & 0x80) >> 7u8;
                        self.vx[x] = self.vx[x] << 1u8;
                        if bit == 1 {
                            self.vx[0xf] = 1;
                        } else {
                            self.vx[0xf] = 0;
                        }
                    },
                    _ => {
                        return Err(Fault::InvalidOpcode { opcode, pc: self.pc });
                    },
                }
                self.pc = self.pc + 2;
                proof {
                    assert(step_spec(pre, 0u8) == Ok::<CpuState, Fault>(self.st()));
                }
                Ok(self.pc)
            },
            0x9 => {
                if n != 0 {
                    return Err(Fault::InvalidOpcode { opcode, pc: self.pc });
                }
                if self.vx[x] != self.vx[y] {
                    self.pc = self.pc + 4;
                } else {
                    self.pc = self.pc + 2;
                }
                proof {
                    assert(step_spec(pre, 0u8) == Ok::<CpuState, Fault>(self.st()));
                }
                Ok(self.pc)
            },
            0xa => {
                self.i = nnn;
                self.pc = self.pc + 2;
                proof {
                    assert(step_spec(pre, 0u8) == Ok::<CpuState, Fault>(self.st()));
                }
                Ok(self.pc)
            },
            0xb => {
                self.pc = nnn + self.vx[0] as u16;
                proof {
                    assert(step_spec(pre, 0u8) == Ok::<CpuState, Fault>(self.st()));
                }
                Ok(self.pc)
            },
            0xc => {
                let rnd: u8 = random_byte();
                self.vx[x] = rnd & nn;
                self.pc = self.pc + 2;
                proof {
                    assert(step_spec(pre, rnd) == Ok::<CpuState, Fault>(self.st()));
                }
                Ok(self.pc)
            },
            0xd => {
                let start_addr = self.i;
                let sx = self.vx[x] as u16;
                let sy = self.vx[y] as u16;
                if n > 0 && start_addr as usize + n as usize > MEM_SIZE {
                    return Err(Fault::AddressOutOfRange { addr: start_addr, pc: self.pc });
                }
                let should_set_vf = self.bus.draw_sprite(sx, sy, n, start_addr);
                if should_set_vf {
                    self.vx[0xf] = 1;
                } else {
                    self.vx[0xf] = 0;
                }
                self.pc = self.pc + 2;
                proof {
                    assert(step_spec(pre, 0u8) == Ok::<CpuState, Fault>(self.st()));
                }
                Ok(self.pc)
            },
            0xe => {
                if nn != 0x9e && nn != 0xa1 {
                    return Err(Fault::InvalidOpcode { opcode, pc: self.pc });
                }
                let key = self.vx[x];
                if key >= 16 {
                    return Err(Fault::KeyOutOfRange { key, pc: self.pc });
                }
                let pressed = self.keys_map[key as usize];
                let skip = if nn == 0x9e {
                    pressed
                } else {
                    !pressed
                };
                if skip {
                    self.pc = self.pc + 4;
                } else {
                    self.pc = self.pc + 2;
                }
                proof {
                    assert(step_spec(pre, 0u8) == Ok::<CpuState, Fault>(self.st()));
                }
                Ok(self.pc)
            },
            0xf => {
                match nn {
                    0x07 => {
                        self.vx[x] = self.delay_timer;
                        self.pc = self.pc + 2;
                    },
                    0x0a => {
                        let mut found = false;
                        let mut key: u8 = 0;
                        let mut ki: u8 = 0;
                        #[verifier::loop_isolation(false)]
                        while ki < 16
                            invariant
                                ki <= 16,
                                match last_key_below(pre.keys, ki as int) {
                                    Some(k) => found && key == k as u8,
                                    None => !found,
                                },
                            decreases 16 - ki,
                        {
                            if self.keys_map[ki as usize] {
                                key = ki;
                                found = true;
                            }
                            ki = ki + 1;
                        }
                        if found {
                            self.vx[x] = key;
                            self.pc = self.pc + 2;
                        }
                    },
                    0x15 => {
                        self.delay_timer = self.vx[x];
                        self.pc = self.pc + 2;
                    },
                    0x18 => {
                        self.sound_timer = self.vx[x];
                        self.pc = self.pc + 2;
                    },
                    0x1e => {
                        self.i = self.i.wrapping_add(self.vx[x] as u16);
                        self.pc = self.pc + 2;
                    },
                    0x29 => {
                        self.i = (self.vx[x] as u16) * 5;
                        self.pc = self.pc + 2;
                    },
                    0x33 => {
                        if self.i as usize + 2 >= MEM_SIZE {
                            return Err(Fault::AddressOutOfRange { addr: self.i, pc: self.pc });
                        }
                        let v = self.vx[x];
                        self.bus.write_mem_byte(self.i, v / 100);
                        self.bus.write_mem_byte(self.i + 1, (v / 10) % 10);
                        self.bus.write_mem_byte(self.i + 2, v % 10);
                        self.pc = self.pc + 2;
                    },
                    0x55 => {
                        if self.i as usize + x >= MEM_SIZE {
                            return Err(Fault::AddressOutOfRange { addr: self.i, pc: self.pc });
                        }
                        let mut index: usize = 0;
                        #[verifier::loop_isolation(false)]
                        while index <= x
                            invariant
                                index <= x + 1,
                                self.st() == (CpuState {
                                    mem: Seq::new(
                                        MEM_SIZE as nat,
                                        |a: int|
                                            if pre.i <= a < pre.i + index {
                                                pre.vx[a - pre.i]
                                            } else {
                                                pre.mem[a]
                                            },
                                    ),
                                    ..pre
                                }),
                            decreases x + 1 - index,
                        {
                            let val = self.vx[index];
                            self.bus.write_mem_byte(self.i + index as u16, val);
                            proof {
                                assert(self.bus.mem() =~= Seq::new(
                                    MEM_SIZE as nat,
                                    |a: int|
                                        if pre.i <= a < pre.i + (index + 1) {
                                            pre.vx[a - pre.i]
                                        } else {
                                            pre.mem[a]
                                        },
                                ));
                            }
                            index = index + 1;
                        }
                        proof {
                            assert(self.bus.mem() =~= Seq::new(
                                MEM_SIZE as nat,
                                |a: int|
                                    if pre.i <= a <= pre.i + x {
                                        pre.vx[a - pre.i]
                                    } else {
                                        pre.mem[a]
                                    },
                            ));
                        }
                        self.pc = self.pc + 2;
                    },
                    0x65 => {
                        if self.i as usize + x >= MEM_SIZE {
                            return Err(Fault::AddressOutOfRange { addr: self.i, pc: self.pc });
                        }
                        let mut index: usize = 0;
                        #[verifier::loop_isolation(false)]
                        while index <= x
                            invariant
                                index <= x + 1,
                                self.st() == (CpuState {
                                    vx: Seq::new(
                                        16,
                                        |j: int|
                                            if 0 <= j < index {
                                                pre.mem[pre.i + j]
                                            } else {
                                                pre.vx[j]
                                            },
                                    ),
                                    ..pre
                                }),
                            decreases x + 1 - index,
                        {
                            let val = self.bus.read_mem_byte(self.i + index as u16);
                            self.vx[index] = val;
                            proof {
                                assert(self.vx@ =~= Seq::new(
                                    16,
                                    |j: int|
                                        if 0 <= j < index + 1 {
                                            pre.mem[pre.i + j]
                                        } else {
                                            pre.vx[j]
                                        },
                                ));
                            }
                            index = index + 1;
                        }
                        proof {
                            assert(self.vx@ =~= Seq::new(
                                16,
                                |j: int|
                                    if j <= x {
                                        pre.mem[pre.i + j]
                                    } else {
                                        pre.vx[j]
                                    },
                            ));
                        }
                        self.pc = self.pc + 2;
                    },
                    _ => {
                        return Err(Fault::InvalidOpcode { opcode, pc: self.pc });
                    },
                }
                proof {
                    assert(step_spec(pre, 0u8) == Ok::<CpuState, Fault>(self.st()));
                }
                Ok(self.pc)
            },
            _ => {
                Err(Fault::InvalidOpcode { opcode, pc: self.pc })
            },
        }
    }
}

} // verus!
