//! The machine state and the interpreter: fetch, decode and execute of the
//! CHIP-8 instruction table, the call stack, the timers, and the two-phase
//! key-wait protocol.

use vstd::prelude::*;

use crate::display::{collides, drawn, Display};
use crate::N_PIXELS;

verus! {

/// Bytes of addressable memory.
pub const MEMORY_SIZE: usize = 4096;

/// Address at which a program image is loaded, and where execution starts.
pub const PROGRAM_START: usize = 0x200;

/// Number of general-purpose registers, and of keys on the keypad.
pub const N_REGS: usize = 16;

/// Capacity of the call stack.
pub const STACK_SIZE: usize = 16;

/// Index of the flag register.
pub const FLAG: usize = 0xF;

/// Bytes per glyph of the built-in font.
pub const GLYPH_SIZE: usize = 5;

/// Where the interpreter stands with respect to the key-wait instruction.
#[derive(Clone, Copy, Debug, PartialEq, Eq, Structural)]
pub enum KeyWait {
    /// Executing instructions normally.
    Running,
    /// Suspended on a key-wait whose result goes to register `reg`.
    Awaiting { reg: u8 },
    /// A key press arrived during the wait; the next step stores it in `reg`.
    Delivered { reg: u8, key: u8 },
}

/// The kinds of condition that halt emulation.
#[derive(Clone, Copy, Debug, PartialEq, Eq, Structural)]
pub enum FaultKind {
    /// The instruction word matches no row of the instruction table.
    UnknownOpcode,
    /// A call with all stack entries in use.
    StackOverflow,
    /// A return with an empty stack.
    StackUnderflow,
    /// A fetch, sprite read, or block transfer reaching past the end of memory.
    MemoryOutOfBounds,
    /// A keypad instruction naming a key outside `0x0`–`0xF`.
    KeyOutOfRange,
}

/// A fatal condition, with the address of the offending instruction and, when it
/// could be fetched, its instruction word.
#[derive(Clone, Copy, Debug, PartialEq, Eq, Structural)]
pub struct Fault {
    pub kind: FaultKind,
    pub addr: u16,
    pub opcode: Option<u16>,
}

/// The mathematical state of the machine. `stack` holds the live return
/// addresses, oldest first.
pub ghost struct Machine {
    pub memory: Seq<u8>,
    pub pc: u16,
    pub index: u16,
    pub regs: Seq<u8>,
    pub pixels: Seq<bool>,
    pub delay_timer: u8,
    pub sound_timer: u8,
    pub stack: Seq<u16>,
    pub keypad: Seq<bool>,
    pub wait: KeyWait,
}

impl Machine {
    pub open spec fn wf(self) -> bool {
        &&& self.memory.len() == MEMORY_SIZE
        &&& self.regs.len() == N_REGS
        &&& self.pixels.len() == N_PIXELS
        &&& self.stack.len() <= STACK_SIZE
        &&& self.keypad.len() == N_REGS
        &&& match self.wait {
            KeyWait::Running => true,
            KeyWait::Awaiting { reg } => reg < N_REGS && self.pc + 2 <= MEMORY_SIZE,
            KeyWait::Delivered { reg, .. } => reg < N_REGS && self.pc + 2 <= MEMORY_SIZE,
        }
    }
}

/// The glyphs of the hexadecimal digits `0`–`F`, five rows each.
pub open spec fn font() -> Seq<u8> {
    seq![
        0xF0u8, 0x90, 0x90, 0x90, 0xF0,
        0x20, 0x60, 0x20, 0x20, 0x70,
        0xF0, 0x10, 0xF0, 0x80, 0xF0,
        0xF0, 0x10, 0xF0, 0x10, 0xF0,
        0x90, 0x90, 0xF0, 0x10, 0x10,
        0xF0, 0x80, 0xF0, 0x10, 0xF0,
        0xF0, 0x80, 0xF0, 0x90, 0xF0,
        0xF0, 0x10, 0x20, 0x40, 0x40,
        0xF0, 0x90, 0xF0, 0x90, 0xF0,
        0xF0, 0x90, 0xF0, 0x10, 0xF0,
        0xF0, 0x90, 0xF0, 0x90, 0x90,
        0xE0, 0x90, 0xE0, 0x90, 0xE0,
        0xF0, 0x80, 0x80, 0x80, 0xF0,
        0xE0, 0x90, 0x90, 0x90, 0xE0,
        0xF0, 0x80, 0xF0, 0x80, 0xF0,
        0xF0, 0x80, 0xF0, 0x80, 0x80,
    ]
}

/// `mem` with `program` written from `PROGRAM_START` on.
pub open spec fn loaded(mem: Seq<u8>, program: Seq<u8>) -> Seq<u8> {
    Seq::new(
        mem.len(),
        |a: int|
            if PROGRAM_START <= a < PROGRAM_START + program.len() {
                program[a - PROGRAM_START]
            } else {
                mem[a]
            },
    )
}

/// A timer after one tick: one less, stopping at zero.
pub open spec fn tick(t: u8) -> u8 {
    if t > 0 {
        (t - 1) as u8
    } else {
        0
    }
}

/// The keypad state when exactly the keys in `keys` are down.
pub open spec fn keypad_of(keys: Seq<u8>) -> Seq<bool> {
    Seq::new(N_REGS as nat, |k: int| keys.contains(k as u8))
}

/// The big-endian instruction word at `addr`.
pub open spec fn opcode_at(mem: Seq<u8>, addr: int) -> u16 {
    (mem[addr] as int * 256 + mem[addr + 1] as int) as u16
}

/// The top nibble of an instruction word, which selects its family.
pub open spec fn family(op: u16) -> int {
    op as int / 0x1000
}

/// The register index in bits 8–11.
pub open spec fn x_of(op: u16) -> int {
    op as int / 0x100 % 0x10
}

/// The register index in bits 4–7.
pub open spec fn y_of(op: u16) -> int {
    op as int / 0x10 % 0x10
}

/// The low nibble.
pub open spec fn n_of(op: u16) -> int {
    op as int % 0x10
}

/// The low byte.
pub open spec fn kk_of(op: u16) -> u8 {
    (op as int % 0x100) as u8
}

/// The low twelve bits, an address.
pub open spec fn nnn_of(op: u16) -> u16 {
    (op as int % 0x1000) as u16
}

/// `m` with the program counter moved on to `pc`.
pub open spec fn goto(m: Machine, pc: int) -> Machine {
    Machine { pc: pc as u16, ..m }
}

/// Moves past the next instruction when `cond` holds, else just past this one.
pub open spec fn skip_if(m: Machine, cond: bool) -> Machine {
    goto(m, if cond { m.pc + 4 } else { m.pc + 2 })
}

/// `m` moved past this instruction, with register `x` set to `v`.
pub open spec fn set_reg(m: Machine, x: int, v: u8) -> Machine {
    Machine { pc: (m.pc + 2) as u16, regs: m.regs.update(x, v), ..m }
}

/// `m` moved past this instruction, with the flag register set to `flag` and then
/// register `x` to `v`.
pub open spec fn set_reg_flag(m: Machine, x: int, v: u8, flag: bool) -> Machine {
    Machine {
        pc: (m.pc + 2) as u16,
        regs: m.regs.update(FLAG as int, if flag { 1u8 } else { 0u8 }).update(x, v),
        ..m
    }
}

/// The result of the arithmetic and logic instruction `8xyn` on `Vx = a` and
/// `Vy = b`: the new `Vx`, and the new flag register for the instructions that set
/// it; `None` for a low nibble that names no instruction.
pub open spec fn alu_result(n: int, a: u8, b: u8) -> Option<(u8, Option<bool>)> {
    if n == 0 {
        Some((b, None))
    } else if n == 1 {
        Some((a | b, None))
    } else if n == 2 {
        Some((a & b, None))
    } else if n == 3 {
        Some((a ^ b, None))
    } else if n == 4 {
        Some((((a + b) % 256) as u8, Some(a + b > 255)))
    } else if n == 5 {
        Some((((a - b) % 256) as u8, Some(a >= b)))
    } else if n == 6 {
        Some((a / 2, Some(a % 2 == 1)))
    } else if n == 7 {
        Some((((b - a) % 256) as u8, Some(b >= a)))
    } else if n == 0xE {
        Some((((a * 2) % 256) as u8, Some(a >= 128)))
    } else {
        None
    }
}

/// The effect of the register-pair instructions of families 5, 8 and 9.
pub open spec fn two_reg_effect(m: Machine, op: u16) -> Result<Machine, FaultKind> {
    let x = x_of(op);
    let a = m.regs[x];
    let b = m.regs[y_of(op)];
    let n = n_of(op);
    if family(op) == 5 {
        if n == 0 { Ok(skip_if(m, a == b)) } else { Err(FaultKind::UnknownOpcode) }
    } else if family(op) == 9 {
        if n == 0 { Ok(skip_if(m, a != b)) } else { Err(FaultKind::UnknownOpcode) }
    } else {
        match alu_result(n, a, b) {
            None => Err(FaultKind::UnknownOpcode),
            Some((v, None)) => Ok(set_reg(m, x, v)),
            Some((v, Some(flag))) => Ok(set_reg_flag(m, x, v, flag)),
        }
    }
}

/// The effect of the timer, key-wait, index and memory-block instructions of
/// family F.
pub open spec fn misc_effect(m: Machine, op: u16) -> Result<Machine, FaultKind> {
    let x = x_of(op);
    let v = m.regs[x];
    let next = (m.pc + 2) as u16;
    let i = m.index as int;
    let k = kk_of(op);
    if k == 0x07 {
        Ok(set_reg(m, x, m.delay_timer))
    } else if k == 0x0A {
        Ok(Machine { wait: KeyWait::Awaiting { reg: x as u8 }, ..m })
    } else if k == 0x15 {
        Ok(Machine { pc: next, delay_timer: v, ..m })
    } else if k == 0x18 {
        Ok(Machine { pc: next, sound_timer: v, ..m })
    } else if k == 0x1E {
        Ok(Machine { pc: next, index: ((i + v) % 0x10000) as u16, ..m })
    } else if k == 0x29 {
        Ok(Machine { pc: next, index: (v * GLYPH_SIZE) as u16, ..m })
    } else if k == 0x33 {
        if i + 3 > MEMORY_SIZE {
            Err(FaultKind::MemoryOutOfBounds)
        } else {
            Ok(
                Machine {
                    pc: next,
                    memory: m.memory.update(i, v / 100).update(i + 1, v / 10 % 10).update(
                        i + 2,
                        v % 10,
                    ),
                    ..m
                },
            )
        }
    } else if k == 0x55 {
        if i + x + 1 > MEMORY_SIZE {
            Err(FaultKind::MemoryOutOfBounds)
        } else {
            Ok(
                Machine {
                    pc: next,
                    memory: Seq::new(
                        m.memory.len(),
                        |a: int|
                            if i <= a <= i + x {
                                m.regs[a - i]
                            } else {
                                m.memory[a]
                            },
                    ),
                    ..m
                },
            )
        }
    } else if k == 0x65 {
        if i + x + 1 > MEMORY_SIZE {
            Err(FaultKind::MemoryOutOfBounds)
        } else {
            Ok(
                Machine {
                    pc: next,
                    regs: Seq::new(
                        m.regs.len(),
                        |j: int|
                            if j <= x {
                                m.memory[i + j]
                            } else {
                                m.regs[j]
                            },
                    ),
                    ..m
                },
            )
        }
    } else {
        Err(FaultKind::UnknownOpcode)
    }
}

/// The effect of executing instruction word `op`, fetched from `m.pc`, with
/// `rand` as the random byte: the next state, or the fault that stops it.
pub open spec fn execute_effect(m: Machine, op: u16, rand: u8) -> Result<Machine, FaultKind> {
    let x = x_of(op);
    let y = y_of(op);
    let next = (m.pc + 2) as u16;
    let f = family(op);
    if f == 0 {
        if op == 0x00E0 {
            Ok(Machine { pc: next, pixels: Seq::new(m.pixels.len(), |k: int| false), ..m })
        } else if op == 0x00EE {
            if m.stack.len() == 0 {
                Err(FaultKind::StackUnderflow)
            } else {
                Ok(Machine { pc: m.stack.last(), stack: m.stack.drop_last(), ..m })
            }
        } else {
            Ok(goto(m, next as int))
        }
    } else if f == 1 {
        Ok(goto(m, nnn_of(op) as int))
    } else if f == 2 {
        if m.stack.len() >= STACK_SIZE {
            Err(FaultKind::StackOverflow)
        } else {
            Ok(Machine { pc: nnn_of(op), stack: m.stack.push(next), ..m })
        }
    } else if f == 3 {
        Ok(skip_if(m, m.regs[x] == kk_of(op)))
    } else if f == 4 {
        Ok(skip_if(m, m.regs[x] != kk_of(op)))
    } else if f == 6 {
        Ok(set_reg(m, x, kk_of(op)))
    } else if f == 7 {
        Ok(set_reg(m, x, ((m.regs[x] + kk_of(op)) % 256) as u8))
    } else if f == 5 || f == 8 || f == 9 {
        two_reg_effect(m, op)
    } else if f == 0xA {
        Ok(Machine { pc: next, index: nnn_of(op), ..m })
    } else if f == 0xB {
        Ok(goto(m, nnn_of(op) + m.regs[0]))
    } else if f == 0xC {
        Ok(set_reg(m, x, rand & kk_of(op)))
    } else if f == 0xD {
        let i = m.index as int;
        let n = n_of(op);
        if i + n > MEMORY_SIZE {
            Err(FaultKind::MemoryOutOfBounds)
        } else {
            let sprite = m.memory.subrange(i, i + n);
            let hit = collides(m.pixels, m.regs[x] as int, m.regs[y] as int, sprite);
            Ok(
                Machine {
                    pc: next,
                    pixels: drawn(m.pixels, m.regs[x] as int, m.regs[y] as int, sprite),
                    regs: m.regs.update(FLAG as int, if hit { 1u8 } else { 0u8 }),
                    ..m
                },
            )
        }
    } else if f == 0xE {
        let k = kk_of(op);
        if k != 0x9E && k != 0xA1 {
            Err(FaultKind::UnknownOpcode)
        } else if m.regs[x] >= N_REGS {
            Err(FaultKind::KeyOutOfRange)
        } else if k == 0x9E {
            Ok(skip_if(m, m.keypad[m.regs[x] as int]))
        } else {
            Ok(skip_if(m, !m.keypad[m.regs[x] as int]))
        }
    } else {
        misc_effect(m, op)
    }
}

/// One step of the interpreter with `rand` as the random byte: the state after it,
/// and whether the display needs redrawing, or the fault that stops it (the state
/// then stays as it was).
pub open spec fn step_outcome(m: Machine, rand: u8) -> (Machine, Result<bool, Fault>) {
    match m.wait {
        KeyWait::Awaiting { .. } => (m, Ok(false)),
        KeyWait::Delivered { reg, key } => (
            Machine {
                pc: (m.pc + 2) as u16,
                regs: m.regs.update(reg as int, key),
                wait: KeyWait::Running,
                ..m
            },
            Ok(false),
        ),
        KeyWait::Running => {
            if m.pc + 2 > MEMORY_SIZE {
                (m, Err(Fault { kind: FaultKind::MemoryOutOfBounds, addr: m.pc, opcode: None }))
            } else {
                let op = opcode_at(m.memory, m.pc as int);
                match execute_effect(m, op, rand) {
                    Ok(next) => (next, Ok(family(op) == 0xD)),
                    Err(kind) => (m, Err(Fault { kind, addr: m.pc, opcode: Some(op) })),
                }
            }
        },
    }
}

/// The state after a key press `key` arrives: recorded when the machine waits
/// for one, ignored otherwise.
pub open spec fn deliver(m: Machine, key: u8) -> Machine {
    match m.wait {
        KeyWait::Awaiting { reg } => Machine { wait: KeyWait::Delivered { reg, key }, ..m },
        _ => m,
    }
}

/// The state after a run of steps, one per random byte of `rands`.
pub open spec fn run(m: Machine, rands: Seq<u8>) -> Machine
    decreases rands.len(),
{
    if rands.len() == 0 {
        m
    } else {
        run(step_outcome(m, rands[0]).0, rands.drop_first())
    }
}

/// Whether `m` is about to fetch and execute an instruction.
pub open spec fn ready(m: Machine) -> bool {
    &&& m.wf()
    &&& m.wait == KeyWait::Running
    &&& m.pc + 2 <= MEMORY_SIZE
}

/// `8xy4` with `x` other than the flag register sets the flag register to 1 exactly
/// when `Vx + Vy` exceeds 255, and `Vx` to the sum modulo 256.
pub proof fn lemma_add_carry(m: Machine, rand: u8)
    requires
        ready(m),
        family(opcode_at(m.memory, m.pc as int)) == 8,
        n_of(opcode_at(m.memory, m.pc as int)) == 4,
        x_of(opcode_at(m.memory, m.pc as int)) != FLAG,
    ensures
        ({
            let op = opcode_at(m.memory, m.pc as int);
            let a = m.regs[x_of(op)] as int;
            let b = m.regs[y_of(op)] as int;
            let (next, r) = step_outcome(m, rand);
            &&& r == Ok::<bool, Fault>(false)
            &&& next.regs[FLAG as int] == if a + b > 255 { 1u8 } else { 0u8 }
            &&& next.regs[x_of(op)] == (a + b) % 256
        }),
{
}

/// `8xy5` with `x` other than the flag register sets the flag register to 1 exactly
/// when `Vx >= Vy`, and `Vx` to the difference modulo 256.
pub proof fn lemma_sub_borrow(m: Machine, rand: u8)
    requires
        ready(m),
        family(opcode_at(m.memory, m.pc as int)) == 8,
        n_of(opcode_at(m.memory, m.pc as int)) == 5,
        x_of(opcode_at(m.memory, m.pc as int)) != FLAG,
    ensures
        ({
            let op = opcode_at(m.memory, m.pc as int);
            let a = m.regs[x_of(op)] as int;
            let b = m.regs[y_of(op)] as int;
            let (next, r) = step_outcome(m, rand);
            &&& r == Ok::<bool, Fault>(false)
            &&& next.regs[FLAG as int] == if a >= b { 1u8 } else { 0u8 }
            &&& next.regs[x_of(op)] == (a - b) % 256
        }),
{
}

/// A call with a free stack entry jumps to its target; a later return, taken with
/// the stack as the call left it, comes back to the instruction after the call and
/// gives back the stack of before the call.
pub proof fn lemma_call_return(m: Machine, later: Machine, rand: u8, rand2: u8)
    requires
        ready(m),
        family(opcode_at(m.memory, m.pc as int)) == 2,
        m.stack.len() < STACK_SIZE,
        ready(later),
        opcode_at(later.memory, later.pc as int) == 0x00EE,
        later.stack == step_outcome(m, rand).0.stack,
    ensures
        step_outcome(m, rand).1 == Ok::<bool, Fault>(false),
        step_outcome(m, rand).0.pc == nnn_of(opcode_at(m.memory, m.pc as int)),
        step_outcome(m, rand).0.stack.len() == m.stack.len() + 1,
        step_outcome(later, rand2).1 == Ok::<bool, Fault>(false),
        step_outcome(later, rand2).0.pc == m.pc + 2,
        step_outcome(later, rand2).0.stack == m.stack,
{
    assert(later.stack.drop_last() =~= m.stack);
}

/// Once a key-wait has begun, steps change nothing at all.
pub proof fn lemma_waiting_run(m: Machine, rands: Seq<u8>)
    requires
        m.wait is Awaiting,
    ensures
        run(m, rands) == m,
    decreases rands.len(),
{
    if rands.len() > 0 {
        lemma_waiting_run(m, rands.drop_first());
    }
}

/// `Fx0A` suspends execution with the program counter on it and the registers
/// untouched; steps then change nothing, however many; once a key `key` is
/// delivered, the next step stores it in `Vx` and moves past the instruction.
pub proof fn lemma_key_wait(m: Machine, key: u8, rand: u8, rands: Seq<u8>, rand2: u8)
    requires
        ready(m),
        family(opcode_at(m.memory, m.pc as int)) == 0xF,
        kk_of(opcode_at(m.memory, m.pc as int)) == 0x0A,
    ensures
        ({
            let x = x_of(opcode_at(m.memory, m.pc as int));
            let (waiting, r) = step_outcome(m, rand);
            let (resumed, r2) = step_outcome(deliver(run(waiting, rands), key), rand2);
            &&& r == Ok::<bool, Fault>(false)
            &&& waiting.pc == m.pc
            &&& waiting.regs == m.regs
            &&& run(waiting, rands) == waiting
            &&& r2 == Ok::<bool, Fault>(false)
            &&& resumed.regs == m.regs.update(x, key)
            &&& resumed.pc == m.pc + 2
            &&& resumed.wait == KeyWait::Running
        }),
{
    let waiting = step_outcome(m, rand).0;
    lemma_waiting_run(waiting, rands);
}

/// The fields of an instruction word, as masks and shifts extract them.
proof fn lemma_fields(op: u16)
    ensures
        op >> 12u16 == op / 0x1000,
        (op & 0x0F00u16) >> 8u16 == op / 0x100 % 0x10,
        (op & 0x00F0u16) >> 4u16 == op / 0x10 % 0x10,
        op & 0x000Fu16 == op % 0x10,
        op & 0x00FFu16 == op % 0x100,
        op & 0x0FFFu16 == op % 0x1000,
{
    assert(op >> 12u16 == op / 0x1000) by (bit_vector);
    assert((op & 0x0F00u16) >> 8u16 == op / 0x100 % 0x10) by (bit_vector);
    assert((op & 0x00F0u16) >> 4u16 == op / 0x10 % 0x10) by (bit_vector);
    assert(op & 0x000Fu16 == op % 0x10) by (bit_vector);
    assert(op & 0x00FFu16 == op % 0x100) by (bit_vector);
    assert(op & 0x0FFFu16 == op % 0x1000) by (bit_vector);
}

/// Two bytes joined big-endian by a shift and an or.
proof fn lemma_join(hi: u8, lo: u8)
    ensures
        ((hi as u16) << 8u16) | (lo as u16) == hi as int * 256 + lo as int,
{
    assert(((hi as u16) << 8u16) | (lo as u16) == (hi as u16) * 256 + (lo as u16)) by (bit_vector);
}

/// The shifts and bit tests of the shift instructions, as arithmetic.
proof fn lemma_shifts(a: u8)
    ensures
        a >> 1u8 == a / 2,
        (a & 1u8) == a % 2,
        ((a & 0x80u8) == 0x80u8) == (a >= 128),
        (a << 1u8) == (a as int * 2) % 256,
{
    assert(a >> 1u8 == a / 2) by (bit_vector);
    assert((a & 1u8) == a % 2) by (bit_vector);
    assert(((a & 0x80u8) == 0x80u8) == (a >= 128)) by (bit_vector);
    assert((a << 1u8) == ((a as u16 * 2) % 256) as u8) by (bit_vector);
}

/// The arithmetic and logic instruction `8xyn` on `Vx = a` and `Vy = b`.
fn alu(n: u16, a: u8, b: u8) -> (r: Option<(u8, Option<bool>)>)
    ensures
        r == alu_result(n as int, a, b),
{
    proof {
        lemma_shifts(a);
    }
    if n == 0x0 {
        Some((b, None))
    } else if n == 0x1 {
        Some((a | b, None))
    } else if n == 0x2 {
        Some((a & b, None))
    } else if n == 0x3 {
        Some((a ^ b, None))
    } else if n == 0x4 {
        Some((a.wrapping_add(b), Some(a as u16 + b as u16 > 0xFF)))
    } else if n == 0x5 {
        Some((a.wrapping_sub(b), Some(a >= b)))
    } else if n == 0x6 {
        Some((a >> 1, Some(a & 1 == 1)))
    } else if n == 0x7 {
        Some((b.wrapping_sub(a), Some(b >= a)))
    } else if n == 0xE {
        Some((a << 1, Some((a & 0x80) == 0x80)))
    } else {
        None
    }
}

/// Relies on rand::random: a byte from the thread-local generator. Nothing is
/// known of its value.
#[verifier::external_body]
fn random_byte() -> (r: u8) {
    rand::random::<u8>()
}

pub struct Cpu {
    memory: [u8; MEMORY_SIZE],
    pc: u16,
    i: u16,
    regs: [u8; N_REGS],
    display: Display,
    delay_timer: u8,
    sound_timer: u8,
    stack: [u16; STACK_SIZE],
    sp: u8,
    keyboard: [bool; N_REGS],
    wait: KeyWait,
}

impl View for Cpu {
    type V = Machine;

    closed spec fn view(&self) -> Machine {
        Machine {
            memory: self.memory@,
            pc: self.pc,
            index: self.i,
            regs: self.regs@,
            pixels: self.display@,
            delay_timer: self.delay_timer,
            sound_timer: self.sound_timer,
            stack: self.stack@.take(self.sp as int),
            keypad: self.keyboard@,
            wait: self.wait,
        }
    }
}

impl Cpu {
    pub closed spec fn wf(&self) -> bool {
        &&& self.sp <= STACK_SIZE
        &&& self.display.wf()
        &&& self@.wf()
    }

    /// A machine with zeroed memory, registers, timers, stack and keypad, the font
    /// at address 0, an unset framebuffer, and the program counter at
    /// `PROGRAM_START`.
    pub fn new() -> (cpu: Cpu)
        ensures
            cpu.wf(),
            cpu@.memory == font() + Seq::new((MEMORY_SIZE - 80) as nat, |a: int| 0u8),
            cpu@.pc == PROGRAM_START,
            cpu@.index == 0,
            cpu@.regs == Seq::new(N_REGS as nat, |j: int| 0u8),
            cpu@.pixels == Seq::new(N_PIXELS as nat, |k: int| false),
            cpu@.delay_timer == 0,
            cpu@.sound_timer == 0,
            cpu@.stack == Seq::<u16>::empty(),
            cpu@.keypad == Seq::new(N_REGS as nat, |j: int| false),
            cpu@.wait == KeyWait::Running,
    {
        let mut cpu = Cpu {
            memory: [0; MEMORY_SIZE],
            pc: PROGRAM_START as u16,
            i: 0,
            regs: [0; N_REGS],
            display: Display::new(),
            delay_timer: 0,
            sound_timer: 0,
            stack: [0; STACK_SIZE],
            sp: 0,
            keyboard: [false; N_REGS],
            wait: KeyWait::Running,
        };
        cpu.load_fontset();
        proof {
            assert(cpu@.regs =~= Seq::new(N_REGS as nat, |j: int| 0u8));
            assert(cpu@.pixels =~= Seq::new(N_PIXELS as nat, |k: int| false));
            assert(cpu@.stack =~= Seq::<u16>::empty());
            assert(cpu@.keypad =~= Seq::new(N_REGS as nat, |j: int| false));
        }
        cpu
    }

    /// Writes the font over the first 80 bytes of memory.
    fn load_fontset(&mut self)
        requires
            old(self).wf(),
        ensures
            final(self).wf(),
            final(self)@ == (Machine {
                memory: font() + old(self)@.memory.skip(80),
                ..old(self)@
            }),
    {
        let fontset: [u8; 80] = [
            0xF0, 0x90, 0x90, 0x90, 0xF0, // 0
            0x20, 0x60, 0x20, 0x20, 0x70, // 1
            0xF0, 0x10, 0xF0, 0x80, 0xF0, // 2
            0xF0, 0x10, 0xF0, 0x10, 0xF0, // 3
            0x90, 0x90, 0xF0, 0x10, 0x10, // 4
            0xF0, 0x80, 0xF0, 0x10, 0xF0, // 5
            0xF0, 0x80, 0xF0, 0x90, 0xF0, // 6
            0xF0, 0x10, 0x20, 0x40, 0x40, // 7
            0xF0, 0x90, 0xF0, 0x90, 0xF0, // 8
            0xF0, 0x90, 0xF0, 0x10, 0xF0, // 9
            0xF0, 0x90, 0xF0, 0x90, 0x90, // A
            0xE0, 0x90, 0xE0, 0x90, 0xE0, // B
            0xF0, 0x80, 0x80, 0x80, 0xF0, // C
            0xE0, 0x90, 0x90, 0x90, 0xE0, // D
            0xF0, 0x80, 0xF0, 0x80, 0xF0, // E
            0xF0, 0x80, 0xF0, 0x80, 0x80, // F
        ];
        proof {
            assert(fontset@ =~= font());
        }
        let mut a: usize = 0;
        while a < 80
            invariant
                a <= 80,
                self.wf(),
                fontset@ == font(),
                forall|b: int| 0 <= b < a ==> self.memory@[b] == font()[b],
                forall|b: int| a <= b < MEMORY_SIZE ==> self.memory@[b] == old(self).memory@[b],
                self@ == (Machine { memory: self@.memory, ..old(self)@ }),
            decreases 80 - a,
        {
            self.memory[a] = fontset[a];
            a += 1;
        }
        proof {
            assert(self@.memory =~= font() + old(self)@.memory.skip(80));
        }
    }

    /// Copies a program image into memory from `PROGRAM_START` on.
    pub fn load_binary(&mut self, binary: &Vec<u8>)
        requires
            old(self).wf(),
            binary@.len() <= MEMORY_SIZE - PROGRAM_START,
        ensures
            final(self).wf(),
            final(self)@ == (Machine {
                memory: loaded(old(self)@.memory, binary@),
                ..old(self)@
            }),
    {
        let mut a: usize = 0;
        while a < binary.len()
            invariant
                a <= binary@.len() <= MEMORY_SIZE - PROGRAM_START,
                self.wf(),
                forall|b: int|
                    0 <= b < MEMORY_SIZE ==> #[trigger] self.memory@[b] == if PROGRAM_START <= b
                        < PROGRAM_START + a {
                        binary@[b - PROGRAM_START]
                    } else {
                        old(self).memory@[b]
                    },
                self@ == (Machine { memory: self@.memory, ..old(self)@ }),
            decreases binary@.len() - a,
        {
            self.memory[PROGRAM_START + a] = binary[a];
            a += 1;
        }
        proof {
            assert(self@.memory =~= loaded(old(self)@.memory, binary@));
        }
    }

    /// One tick of the 60 Hz clock: each timer that is above zero goes down by one.
    pub fn timer_interrupt(&mut self)
        requires
            old(self).wf(),
        ensures
            final(self).wf(),
            final(self)@ == (Machine {
                delay_timer: tick(old(self)@.delay_timer),
                sound_timer: tick(old(self)@.sound_timer),
                ..old(self)@
            }),
    {
        if self.delay_timer > 0 {
            self.delay_timer -= 1;
        }
        if self.sound_timer > 0 {
            self.sound_timer -= 1;
        }
    }

    /// A key-press edge from the host: recorded when a key-wait is pending,
    /// ignored otherwise.
    pub fn key_press_interrupt(&mut self, key: u8)
        requires
            old(self).wf(),
        ensures
            final(self).wf(),
            final(self)@ == deliver(old(self)@, key),
    {
        if let KeyWait::Awaiting { reg } = self.wait {
            self.wait = KeyWait::Delivered { reg, key };
        }
    }

    /// Replaces the keypad state: exactly the keys in `keys` are down.
    pub fn update_keyboard(&mut self, keys: &[u8])
        requires
            old(self).wf(),
            forall|j: int| 0 <= j < keys@.len() ==> #[trigger] keys@[j] < N_REGS,
        ensures
            final(self).wf(),
            final(self)@ == (Machine { keypad: keypad_of(keys@), ..old(self)@ }),
    {
        let mut k: usize = 0;
        while k < N_REGS
            invariant
                k <= N_REGS,
                self.wf(),
                forall|j: int| 0 <= j < k ==> !#[trigger] self.keyboard@[j],
                self@ == (Machine { keypad: self@.keypad, ..old(self)@ }),
            decreases N_REGS - k,
        {
            self.keyboard[k] = false;
            k += 1;
        }
        let mut j: usize = 0;
        while j < keys.len()
            invariant
                j <= keys@.len(),
                forall|t: int| 0 <= t < keys@.len() ==> #[trigger] keys@[t] < N_REGS,
                self.wf(),
                forall|b: int|
                    0 <= b < N_REGS ==> #[trigger] self.keyboard@[b] == keys@.take(j as int).contains(
                        b as u8,
                    ),
                self@ == (Machine { keypad: self@.keypad, ..old(self)@ }),
            decreases keys@.len() - j,
        {
            let key = keys[j];
            proof {
                assert forall|b: int| 0 <= b < N_REGS implies #[trigger] keys@.take(j + 1).contains(b as u8)
                    == (keys@.take(j as int).contains(b as u8) || b == key) by {
                    if keys@.take(j as int).contains(b as u8) {
                        let t = choose|t: int| 0 <= t < j && #[trigger] keys@.take(j as int)[t] == b as u8;
                        assert(keys@.take(j + 1)[t] == b as u8);
                    }
                    if b == key {
                        assert(keys@.take(j + 1)[j as int] == b as u8);
                    }
                    if keys@.take(j + 1).contains(b as u8) {
                        let t = choose|t: int| 0 <= t < j + 1 && #[trigger] keys@.take(j + 1)[t] == b as u8;
                        if t < j {
                            assert(keys@.take(j as int)[t] == b as u8);
                        }
                    }
                }
            }
            self.keyboard[key as usize] = true;
            j += 1;
        }
        proof {
            assert(keys@.take(j as int) =~= keys@);
            assert(self@.keypad =~= keypad_of(keys@));
        }
    }

    /// The big-endian instruction word at the program counter.
    fn fetch_opcode(&self) -> (op: u16)
        requires
            self.wf(),
            self@.pc + 2 <= MEMORY_SIZE,
        ensures
            op == opcode_at(self@.memory, self@.pc as int),
    {
        let pc = self.pc as usize;
        let hi = self.memory[pc];
        let lo = self.memory[pc + 1];
        proof {
            lemma_join(hi, lo);
        }
        (hi as u16) << 8 | lo as u16
    }

    /// One step of the interpreter, with `random_byte` as the random byte of
    /// `Cxkk`: while a key-wait is pending nothing happens; once a key has been
    /// delivered it is stored and execution moves on; otherwise one instruction is
    /// fetched and executed. Returns whether the display needs redrawing, which is
    /// so after a sprite draw, or the fault that halts emulation.
    pub fn cycle_with(&mut self, random_byte: u8) -> (r: Result<bool, Fault>)
        requires
            old(self).wf(),
        ensures
            final(self).wf(),
            (final(self)@, r) == step_outcome(old(self)@, random_byte),
    {
        match self.wait {
            KeyWait::Awaiting { .. } => Ok(false),
            KeyWait::Delivered { reg, key } => {
                let ghost before = self@;
                self.regs[reg as usize] = key;
                self.pc = self.pc + 2;
                self.wait = KeyWait::Running;
                proof {
                    assert(self@.regs =~= before.regs.update(reg as int, key));
                }
                Ok(false)
            },
            KeyWait::Running => {
                if self.pc as usize + 2 > MEMORY_SIZE {
                    return Err(Fault { kind: FaultKind::MemoryOutOfBounds, addr: self.pc, opcode: None });
                }
                let opcode = self.fetch_opcode();
                proof {
                    lemma_fields(opcode);
                }
                match self.execute(opcode, random_byte) {
                    Ok(()) => Ok(opcode >> 12 == 0xD),
                    Err(kind) => Err(Fault { kind, addr: self.pc, opcode: Some(opcode) }),
                }
            },
        }
    }

    /// One step of the interpreter, as `cycle_with`, with a random byte drawn from
    /// the thread-local generator.
    pub fn cycle(&mut self) -> (r: Result<bool, Fault>)
        requires
            old(self).wf(),
        ensures
            final(self).wf(),
            exists|b: u8| (final(self)@, r) == step_outcome(old(self)@, b),
    {
        let b = random_byte();
        self.cycle_with(b)
    }

    /// Executes instruction word `opcode`, fetched from the program counter, with
    /// `rand` as the random byte of `Cxkk`. On a fault nothing changes.
    fn execute(&mut self, opcode: u16, rand: u8) -> (r: Result<(), FaultKind>)
        requires
            old(self).wf(),
            old(self)@.wait == KeyWait::Running,
            old(self)@.pc + 2 <= MEMORY_SIZE,
        ensures
            final(self).wf(),
            match execute_effect(old(self)@, opcode, rand) {
                Ok(m) => r is Ok && final(self)@ == m,
                Err(k) => r == Err::<(), FaultKind>(k) && final(self)@ == old(self)@,
            },
    {
        proof {
            lemma_fields(opcode);
        }
        let ghost before = self@;
        let next = self.pc + 2;
        let x = ((opcode & 0x0F00) >> 8) as usize;
        let y = ((opcode & 0x00F0) >> 4) as usize;
        let kk = (opcode & 0x00FF) as u8;
        let nnn = opcode & 0x0FFF;
        let f = opcode >> 12;
        if f == 0x0 {
            if opcode == 0x00E0 {
                self.display.clear();
                self.pc = next;
                proof {
                    assert(self@.pixels =~= Seq::new(before.pixels.len(), |k: int| false));
                }
            } else if opcode == 0x00EE {
                if self.sp == 0 {
                    return Err(FaultKind::StackUnderflow);
                }
                self.sp -= 1;
                self.pc = self.stack[self.sp as usize];
                proof {
                    assert(self@.stack =~= before.stack.drop_last());
                }
            } else {
                self.pc = next;
            }
        } else if f == 0x1 {
            self.pc = nnn;
        } else if f == 0x2 {
            if self.sp as usize >= STACK_SIZE {
                return Err(FaultKind::StackOverflow);
            }
            self.stack[self.sp as usize] = next;
            self.sp += 1;
            self.pc = nnn;
            proof {
                assert(self@.stack =~= before.stack.push(next));
            }
        } else if f == 0x3 {
            self.pc = if self.regs[x] == kk { next + 2 } else { next };
        } else if f == 0x4 {
            self.pc = if self.regs[x] != kk { next + 2 } else { next };
        } else if f == 0x6 {
            self.regs[x] = kk;
            self.pc = next;
            proof {
                assert(self@.regs =~= before.regs.update(x as int, kk));
            }
        } else if f == 0x7 {
            self.regs[x] = self.regs[x].wrapping_add(kk);
            self.pc = next;
            proof {
                assert(self@.regs =~= before.regs.update(
                    x as int,
                    ((before.regs[x as int] + kk) % 256) as u8,
                ));
            }
        } else if f == 0x5 || f == 0x8 || f == 0x9 {
            return self.execute_two_reg_opcode(x, y, opcode);
        } else if f == 0xA {
            self.i = nnn;
            self.pc = next;
        } else if f == 0xB {
            self.pc = nnn + self.regs[0] as u16;
        } else if f == 0xC {
            self.regs[x] = rand & kk;
            self.pc = next;
            proof {
                assert(self@.regs =~= before.regs.update(x as int, rand & kk));
            }
        } else if f == 0xD {
            let n = (opcode & 0x000F) as usize;
            let start = self.i as usize;
            if start + n > MEMORY_SIZE {
                return Err(FaultKind::MemoryOutOfBounds);
            }
            let mut sprite: Vec<u8> = Vec::new();
            let mut j: usize = 0;
            while j < n
                invariant
                    j <= n < 16,
                    start + n <= MEMORY_SIZE,
                    self@ == before,
                    self.wf(),
                    sprite@ == before.memory.subrange(start as int, start + j),
                decreases n - j,
            {
                sprite.push(self.memory[start + j]);
                j += 1;
                proof {
                    assert(sprite@ =~= before.memory.subrange(start as int, start + j));
                }
            }
            let hit = self.display.draw(
                self.regs[x] as u32,
                self.regs[y] as u32,
                sprite.as_slice(),
            );
            self.regs[FLAG] = hit as u8;
            self.pc = next;
            proof {
                assert(self@.regs =~= before.regs.update(
                    FLAG as int,
                    if hit { 1u8 } else { 0u8 },
                ));
            }
        } else if f == 0xE {
            if kk != 0x9E && kk != 0xA1 {
                return Err(FaultKind::UnknownOpcode);
            }
            let key = self.regs[x] as usize;
            if key >= N_REGS {
                return Err(FaultKind::KeyOutOfRange);
            }
            if (kk == 0x9E) == self.keyboard[key] {
                self.pc = next + 2;
            } else {
                self.pc = next;
            }
        } else {
            return self.execute_misc_opcode(x, opcode);
        }
        Ok(())
    }

    /// Executes an instruction of the register-pair families 5, 8 and 9.
    fn execute_two_reg_opcode(&mut self, x: usize, y: usize, opcode: u16) -> (r: Result<
        (),
        FaultKind,
    >)
        requires
            old(self).wf(),
            old(self)@.wait == KeyWait::Running,
            old(self)@.pc + 2 <= MEMORY_SIZE,
            x == x_of(opcode),
            y == y_of(opcode),
            family(opcode) == 5 || family(opcode) == 8 || family(opcode) == 9,
        ensures
            final(self).wf(),
            match two_reg_effect(old(self)@, opcode) {
                Ok(m) => r is Ok && final(self)@ == m,
                Err(k) => r == Err::<(), FaultKind>(k) && final(self)@ == old(self)@,
            },
    {
        proof {
            lemma_fields(opcode);
        }
        let next = self.pc + 2;
        let a = self.regs[x];
        let b = self.regs[y];
        let n = opcode & 0x000F;
        let f = opcode >> 12;
        if f == 0x5 || f == 0x9 {
            if n != 0 {
                return Err(FaultKind::UnknownOpcode);
            }
            if (f == 0x5) == (a == b) {
                self.pc = next + 2;
            } else {
                self.pc = next;
            }
            return Ok(());
        }
        let (v, flag) = match alu(n, a, b) {
            Some(result) => result,
            None => {
                return Err(FaultKind::UnknownOpcode);
            },
        };
        let ghost before = self@;
        if let Some(carry) = flag {
            self.regs[FLAG] = carry as u8;
        }
        self.regs[x] = v;
        self.pc = next;
        proof {
            match flag {
                Some(carry) => {
                    assert(self@.regs =~= before.regs.update(FLAG as int, if carry { 1u8 } else { 0u8 }).update(x as int, v));
                    assert(self@ == set_reg_flag(before, x as int, v, carry));
                },
                None => {
                    assert(self@.regs =~= before.regs.update(x as int, v));
                    assert(self@ == set_reg(before, x as int, v));
                },
            }
        }
        Ok(())
    }

    /// Executes an instruction of family F: timers, key-wait, index register and
    /// memory-block transfers.
    fn execute_misc_opcode(&mut self, x: usize, opcode: u16) -> (r: Result<(), FaultKind>)
        requires
            old(self).wf(),
            old(self)@.wait == KeyWait::Running,
            old(self)@.pc + 2 <= MEMORY_SIZE,
            x == x_of(opcode),
        ensures
            final(self).wf(),
            match misc_effect(old(self)@, opcode) {
                Ok(m) => r is Ok && final(self)@ == m,
                Err(k) => r == Err::<(), FaultKind>(k) && final(self)@ == old(self)@,
            },
    {
        proof {
            lemma_fields(opcode);
        }
        let ghost before = self@;
        let next = self.pc + 2;
        let v = self.regs[x];
        let kk = opcode & 0x00FF;
        let i = self.i as usize;
        if kk == 0x07 {
            self.regs[x] = self.delay_timer;
            self.pc = next;
            proof {
                assert(self@.regs =~= before.regs.update(x as int, before.delay_timer));
            }
        } else if kk == 0x0A {
            self.wait = KeyWait::Awaiting { reg: x as u8 };
        } else if kk == 0x15 {
            self.delay_timer = v;
            self.pc = next;
        } else if kk == 0x18 {
            self.sound_timer = v;
            self.pc = next;
        } else if kk == 0x1E {
            self.i = self.i.wrapping_add(v as u16);
            self.pc = next;
        } else if kk == 0x29 {
            self.i = v as u16 * GLYPH_SIZE as u16;
            self.pc = next;
        } else if kk == 0x33 {
            if i + 3 > MEMORY_SIZE {
                return Err(FaultKind::MemoryOutOfBounds);
            }
            self.memory[i] = v / 100;
            self.memory[i + 1] = v / 10 % 10;
            self.memory[i + 2] = v % 10;
            self.pc = next;
            proof {
                assert(self@.memory =~= before.memory.update(i as int, v / 100).update(
                    i + 1,
                    v / 10 % 10,
                ).update(i + 2, v % 10));
            }
        } else if kk == 0x55 {
            if i + x + 1 > MEMORY_SIZE {
                return Err(FaultKind::MemoryOutOfBounds);
            }
            let mut j: usize = 0;
            while j <= x
                invariant
                    x < N_REGS,
                    i + x + 1 <= MEMORY_SIZE,
                    j <= x + 1,
                    self.wf(),
                    self@ == (Machine { memory: self@.memory, ..before }),
                    forall|a: int|
                        0 <= a < MEMORY_SIZE ==> #[trigger] self@.memory[a] == if i <= a < i + j {
                            before.regs[a - i]
                        } else {
                            before.memory[a]
                        },
                decreases x + 1 - j,
            {
                self.memory[i + j] = self.regs[j];
                j += 1;
            }
            self.pc = next;
            proof {
                assert(self@.memory =~= Seq::new(
                    before.memory.len(),
                    |a: int|
                        if i <= a <= i + x {
                            before.regs[a - i]
                        } else {
                            before.memory[a]
                        },
                ));
            }
        } else if kk == 0x65 {
            if i + x + 1 > MEMORY_SIZE {
                return Err(FaultKind::MemoryOutOfBounds);
            }
            let mut j: usize = 0;
            while j <= x
                invariant
                    x < N_REGS,
                    i + x + 1 <= MEMORY_SIZE,
                    j <= x + 1,
                    self.wf(),
                    self@ == (Machine { regs: self@.regs, ..before }),
                    forall|t: int|
                        0 <= t < N_REGS ==> #[trigger] self@.regs[t] == if t < j {
                            before.memory[i + t]
                        } else {
                            before.regs[t]
                        },
                decreases x + 1 - j,
            {
                self.regs[j] = self.memory[i + j];
                j += 1;
            }
            self.pc = next;
            proof {
                assert(self@.regs =~= Seq::new(
                    before.regs.len(),
                    |t: int|
                        if t <= x {
                            before.memory[i + t]
                        } else {
                            before.regs[t]
                        },
                ));
            }
        } else {
            return Err(FaultKind::UnknownOpcode);
        }
        Ok(())
    }

    /// The program counter.
    pub fn pc(&self) -> (r: u16)
        ensures
            r == self@.pc,
    {
        self.pc
    }

    /// The index register.
    pub fn index_register(&self) -> (r: u16)
        ensures
            r == self@.index,
    {
        self.i
    }

    /// General-purpose register `x`.
    pub fn register(&self, x: usize) -> (r: u8)
        requires
            self.wf(),
            x < N_REGS,
        ensures
            r == self@.regs[x as int],
    {
        self.regs[x]
    }

    /// The byte of memory at `addr`.
    pub fn memory_at(&self, addr: usize) -> (r: u8)
        requires
            self.wf(),
            addr < MEMORY_SIZE,
        ensures
            r == self@.memory[addr as int],
    {
        self.memory[addr]
    }

    /// The delay timer.
    pub fn delay_timer(&self) -> (r: u8)
        ensures
            r == self@.delay_timer,
    {
        self.delay_timer
    }

    /// The sound timer.
    pub fn sound_timer(&self) -> (r: u8)
        ensures
            r == self@.sound_timer,
    {
        self.sound_timer
    }

    /// The number of live return addresses on the call stack.
    pub fn stack_depth(&self) -> (r: usize)
        requires
            self.wf(),
        ensures
            r == self@.stack.len(),
    {
        self.sp as usize
    }

    /// Whether key `k` was down at the last keypad update.
    pub fn is_key_down(&self, k: usize) -> (r: bool)
        requires
            self.wf(),
            k < N_REGS,
        ensures
            r == self@.keypad[k as int],
    {
        self.keyboard[k]
    }

    /// Where the interpreter stands with respect to the key-wait instruction.
    pub fn key_wait(&self) -> (r: KeyWait)
        ensures
            r == self@.wait,
    {
        self.wait
    }

    /// The framebuffer's cells, row-major.
    pub fn display_buffer(&self) -> (b: &[bool])
        ensures
            b@ == self@.pixels,
    {
        self.display.buffer()
    }
}

} // verus!
