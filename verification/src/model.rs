//! The mathematical model of the machine: its state as plain values, the
//! decoding of an opcode, and the effect of each instruction, of one
//! fetch-decode-execute step and of a whole cycle.

use vstd::prelude::*;

use crate::framebuffer::{blank, num_pixels, pixel_bit};

verus! {

/// Bytes of addressable memory.
pub const MEMORY_SIZE: usize = 4096;

/// Address at which programs are loaded and execution starts.
pub const PROGRAM_START: u16 = 0x200;

/// Address of the built-in hexadecimal font.
pub const FONT_OFFSET: usize = 0x050;

/// Instructions executed per cycle (one cycle per displayed frame).
pub const STEPS_PER_CYCLE: usize = 12;

/// Why the machine could not go on: the conditions under which the
/// interpreter stops instead of executing an instruction.
#[derive(PartialEq, Eq, Structural, Debug, Clone, Copy)]
pub enum Fault {
    /// The opcode is not one of the instruction set.
    UnknownOpcode,
    /// A return was executed with an empty call stack.
    StackUnderflow,
    /// A call was executed with a full call stack.
    StackOverflow,
    /// The program counter points past the last whole opcode in memory.
    ProgramCounterOutOfBounds,
    /// An instruction reads or writes memory past its end.
    MemoryOutOfBounds,
    /// Adding to the index register would exceed 16 bits.
    IndexOverflow,
}

/// An opcode split into the fields that the instruction set reads.
#[allow(non_snake_case)]
#[derive(PartialEq, Eq, Structural, Debug, Clone, Copy)]
pub struct Instruction {
    /// The highest nibble: the instruction group.
    pub group: u8,
    /// The second nibble: usually a register number.
    pub x: u8,
    /// The third nibble: usually a register number.
    pub y: u8,
    /// The lowest nibble.
    pub N: u8,
    /// The lowest byte.
    pub kk: u8,
    /// The lowest twelve bits: usually an address.
    pub nnn: u16,
}

/// The fields of `opcode`.
pub open spec fn decode_spec(opcode: u16) -> Instruction {
    Instruction {
        group: (opcode / 4096) as u8,
        x: ((opcode / 256) % 16) as u8,
        y: ((opcode / 16) % 16) as u8,
        N: (opcode % 16) as u8,
        kk: (opcode % 256) as u8,
        nnn: (opcode % 4096) as u16,
    }
}

/// The fields lie in the ranges that decoding gives them.
pub open spec fn instruction_wf(ins: Instruction) -> bool {
    &&& ins.group < 16
    &&& ins.x < 16
    &&& ins.y < 16
    &&& ins.N < 16
    &&& ins.nnn < 4096
}

/// The state of the machine as plain values.
#[verifier::ext_equal]
pub struct CpuState {
    pub pc: u16,
    pub index: u16,
    pub memory: Seq<u8>,
    pub stack: Seq<u16>,
    pub stack_ptr: u8,
    pub prev_keys: Seq<u8>,
    pub keypad: Seq<u8>,
    /// The screen, packed as in `FrameBuffer`.
    pub frame: Seq<u8>,
    pub registers: Seq<u8>,
    pub delay_timer: u8,
    pub sound_timer: u8,
}

/// The shape every reachable state has: fixed sizes, a stack pointer within
/// the stack, and keys that are either up (0) or down (1).
pub open spec fn state_wf(s: CpuState) -> bool {
    &&& s.memory.len() == MEMORY_SIZE
    &&& s.stack.len() == 16
    &&& s.stack_ptr <= 16
    &&& s.prev_keys.len() == 16
    &&& s.keypad.len() == 16
    &&& s.frame.len() == 256
    &&& s.registers.len() == 16
    &&& forall|i: int| 0 <= i < 16 ==> #[trigger] s.keypad[i] <= 1
    &&& forall|i: int| 0 <= i < 16 ==> #[trigger] s.prev_keys[i] <= 1
}

/// The sprites of the hexadecimal digits 0 to F, five rows each.
pub open spec fn font() -> Seq<u8> {
    seq![
        0xF0u8, 0x90, 0x90, 0x90, 0xF0,
        0x20, 0x60, 0x20, 0x20, 0x70,
        0xF0, 0x10, 0xF0, 0x80, 0xF0,
        0xF0, 0x10, 0xF0, 0x10, 0xF0,
        0x90, 0x90, 0xF0, 0x10, 0x10,
        0xF0, 0x80, 0xF0, 0x10, 0xF0,
        0xF0, 0x80, 0xF0, 0x90, 0xF0,
        0xF0, 0x10, 0x20, 0x40, 0x40,
        0xF0, 0x90, 0xF0, 0x90, 0xF0,
        0xF0, 0x90, 0xF0, 0x10, 0xF0,
        0xF0, 0x90, 0xF0, 0x90, 0x90,
        0xE0, 0x90, 0xE0, 0x90, 0xE0,
        0xF0, 0x80, 0x80, 0x80, 0xF0,
        0xE0, 0x90, 0x90, 0x90, 0xE0,
        0xF0, 0x80, 0xF0, 0x80, 0xF0,
        0xF0, 0x80, 0xF0, 0x80, 0x80,
    ]
}

/// Memory at power-on: the font at `FONT_OFFSET`, zero elsewhere.
pub open spec fn initial_memory() -> Seq<u8> {
    Seq::new(
        MEMORY_SIZE as nat,
        |a: int|
            if FONT_OFFSET <= a < FONT_OFFSET + 80 {
                font()[a - FONT_OFFSET]
            } else {
                0u8
            },
    )
}

/// The state at power-on.
pub open spec fn initial_state() -> CpuState {
    CpuState {
        pc: PROGRAM_START,
        index: 0,
        memory: initial_memory(),
        stack: Seq::new(16, |i: int| 0u16),
        stack_ptr: 0,
        prev_keys: Seq::new(16, |i: int| 0u8),
        keypad: Seq::new(16, |i: int| 0u8),
        frame: blank(),
        registers: Seq::new(16, |i: int| 0u8),
        delay_timer: 0,
        sound_timer: 0,
    }
}

// ---------------------------------------------------------------------
// Single instructions. `s` is the state after the opcode was fetched, so
// `s.pc` already points at the next instruction.
// ---------------------------------------------------------------------

/// Register `i` of `s`.
pub open spec fn reg(s: CpuState, i: u8) -> u8 {
    s.registers[i as int]
}

/// `s` with register `i` set to `v`.
pub open spec fn with_reg(s: CpuState, i: u8, v: u8) -> CpuState {
    CpuState { registers: s.registers.update(i as int, v), ..s }
}

/// `s` with the next instruction skipped when `cond` holds.
pub open spec fn skip_if(s: CpuState, cond: bool) -> CpuState {
    if cond {
        CpuState { pc: (s.pc + 2) as u16, ..s }
    } else {
        s
    }
}

/// 00E0: clear the screen.
pub open spec fn op_cls(s: CpuState) -> CpuState {
    CpuState { frame: blank(), ..s }
}

/// 00EE: return from a subroutine.
pub open spec fn op_ret(s: CpuState) -> Result<CpuState, Fault> {
    if s.stack_ptr < 1 {
        Err(Fault::StackUnderflow)
    } else {
        Ok(
            CpuState {
                stack_ptr: (s.stack_ptr - 1) as u8,
                pc: s.stack[s.stack_ptr - 1],
                ..s
            },
        )
    }
}

/// 1nnn: jump to `nnn`.
pub open spec fn op_jp(s: CpuState, nnn: u16) -> CpuState {
    CpuState { pc: nnn, ..s }
}

/// 2nnn: call the subroutine at `nnn`.
pub open spec fn op_call(s: CpuState, nnn: u16) -> Result<CpuState, Fault> {
    if s.stack_ptr > 15 {
        Err(Fault::StackOverflow)
    } else {
        Ok(
            CpuState {
                stack: s.stack.update(s.stack_ptr as int, s.pc),
                stack_ptr: (s.stack_ptr + 1) as u8,
                pc: nnn,
                ..s
            },
        )
    }
}

/// 8xy4: Vx += Vy, then VF = 1 on a carry, else 0.
pub open spec fn op_add_vy(s: CpuState, x: u8, y: u8) -> CpuState {
    let sum = reg(s, x) + reg(s, y);
    with_reg(with_reg(s, x, (sum % 256) as u8), 15, if sum > 255 { 1u8 } else { 0u8 })
}

/// 8xy5: Vx -= Vy, then VF = 1 when there was no borrow, else 0.
pub open spec fn op_sub_vy(s: CpuState, x: u8, y: u8) -> CpuState {
    let a = reg(s, x);
    let b = reg(s, y);
    with_reg(with_reg(s, x, ((a - b + 256) % 256) as u8), 15, if a >= b { 1u8 } else { 0u8 })
}

/// 8xy6: Vx is halved, then VF = the bit it lost.
pub open spec fn op_shr(s: CpuState, x: u8) -> CpuState {
    let v = reg(s, x);
    with_reg(with_reg(s, x, v / 2), 15, v % 2)
}

/// 8xy7: Vx = Vy - Vx, then VF = 1 when there was no borrow, else 0.
pub open spec fn op_subn(s: CpuState, x: u8, y: u8) -> CpuState {
    let a = reg(s, x);
    let b = reg(s, y);
    with_reg(with_reg(s, x, ((b - a + 256) % 256) as u8), 15, if b >= a { 1u8 } else { 0u8 })
}

/// 8xyE: Vx is doubled, dropping the carry, then VF = the bit it lost.
pub open spec fn op_shl(s: CpuState, x: u8) -> CpuState {
    let v = reg(s, x);
    with_reg(with_reg(s, x, ((v * 2) % 256) as u8), 15, v / 128)
}

/// Bnnn: jump to `nnn` + V0.
pub open spec fn op_jp_v0(s: CpuState, nnn: u16) -> CpuState {
    CpuState { pc: (nnn + reg(s, 0)) as u16, ..s }
}

/// Cxkk: Vx = `kk` & `random`.
pub open spec fn op_rnd(s: CpuState, x: u8, kk: u8, random: u8) -> CpuState {
    with_reg(s, x, kk & random)
}

/// The pixel (0 or 1) that a sprite of `n` rows, read from `mem` at `index`
/// and drawn with its top-left corner at column `x0`, row `y0`, puts over
/// the screen pixel at column `px`, row `py`: 0 where the sprite does not
/// reach, including the parts cut off at the right and bottom edges.
pub open spec fn sprite_pixel(mem: Seq<u8>, index: int, x0: int, y0: int, n: int, px: int, py: int) -> u8 {
    if y0 <= py < y0 + n && py < 32 && x0 <= px < x0 + 8 && px < 64 {
        (mem[index + (py - y0)] >> ((7 - (px - x0)) as u8)) & 1u8
    } else {
        0u8
    }
}

/// The sprite pixel over screen pixel `p`.
pub open spec fn sprite_at(mem: Seq<u8>, index: int, x0: int, y0: int, n: int, p: int) -> u8 {
    sprite_pixel(mem, index, x0, y0, n, p % 64, p / 64)
}

/// The sprite pixels over screen byte `i`, packed as the screen packs them.
pub open spec fn sprite_byte(mem: Seq<u8>, index: int, x0: int, y0: int, n: int, i: int) -> u8 {
    (sprite_at(mem, index, x0, y0, n, 8 * i) * 128 + sprite_at(mem, index, x0, y0, n, 8 * i + 1) * 64
        + sprite_at(mem, index, x0, y0, n, 8 * i + 2) * 32 + sprite_at(mem, index, x0, y0, n, 8 * i + 3)
        * 16 + sprite_at(mem, index, x0, y0, n, 8 * i + 4) * 8 + sprite_at(mem, index, x0, y0, n, 8 * i
        + 5) * 4 + sprite_at(mem, index, x0, y0, n, 8 * i + 6) * 2 + sprite_at(
        mem,
        index,
        x0,
        y0,
        n,
        8 * i + 7,
    )) as u8
}

/// The screen `frame` with the sprite XOR-ed onto it.
pub open spec fn drawn_frame(frame: Seq<u8>, mem: Seq<u8>, index: int, x0: int, y0: int, n: int) -> Seq<u8> {
    Seq::new(frame.len(), |i: int| frame[i] ^ sprite_byte(mem, index, x0, y0, n, i))
}

/// Whether the sprite covers a lit pixel of `frame`, which drawing turns off.
pub open spec fn collides(frame: Seq<u8>, mem: Seq<u8>, index: int, x0: int, y0: int, n: int) -> bool {
    exists|p: int|
        0 <= p < num_pixels() && sprite_at(mem, index, x0, y0, n, p) == 1 && #[trigger] pixel_bit(
            frame,
            p,
        ) == 1
}

/// Number of sprite rows that Dxyn reads from memory: rows are read until
/// `n` rows were read or a row past the bottom edge was read.
pub open spec fn rows_read(y0: int, n: int) -> int {
    if n <= 33 - y0 {
        n
    } else {
        33 - y0
    }
}

/// Dxyn: draw the `n`-row sprite stored at I with its top-left corner at
/// column Vx, row Vy (each wrapped onto the screen), XOR-ing it onto the
/// screen and clipping it at the right and bottom edges; VF = 1 when a lit
/// pixel was turned off, else 0. I is left alone.
pub open spec fn op_drw(s: CpuState, x: u8, y: u8, n: u8) -> Result<CpuState, Fault> {
    let x0 = (reg(s, x) % 64) as int;
    let y0 = (reg(s, y) % 32) as int;
    let count = rows_read(y0, n as int);
    let i = s.index as int;
    if count > 0 && i + count > MEMORY_SIZE {
        Err(Fault::MemoryOutOfBounds)
    } else {
        Ok(
            CpuState {
                frame: drawn_frame(s.frame, s.memory, i, x0, y0, n as int),
                registers: s.registers.update(
                    15,
                    if collides(s.frame, s.memory, i, x0, y0, n as int) {
                        1u8
                    } else {
                        0u8
                    },
                ),
                ..s
            },
        )
    }
}

/// Ex9E / ExA1: whether the key numbered by the low nibble of Vx is down.
pub open spec fn key_down(s: CpuState, x: u8) -> bool {
    s.keypad[(reg(s, x) % 16) as int] > 0
}

/// The lowest key number at or after `i` that is down now and was up at
/// the last key check.
pub open spec fn first_new_key_from(keypad: Seq<u8>, prev: Seq<u8>, i: int) -> Option<u8>
    decreases 16 - i,
{
    if i < 0 || i >= 16 {
        None
    } else if keypad[i] != 0 && prev[i] == 0 {
        Some(i as u8)
    } else {
        first_new_key_from(keypad, prev, i + 1)
    }
}

/// Fx0A: wait for a key press: store the first newly pressed key in Vx, or,
/// with none, execute this instruction again.
pub open spec fn op_ldf_key(s: CpuState, x: u8) -> CpuState {
    match first_new_key_from(s.keypad, s.prev_keys, 0) {
        Some(k) => with_reg(s, x, k),
        None => CpuState { pc: (s.pc - 2) as u16, ..s },
    }
}

/// Fx1E: I += Vx.
pub open spec fn op_add_i(s: CpuState, x: u8) -> Result<CpuState, Fault> {
    if s.index + reg(s, x) > 0xFFFF {
        Err(Fault::IndexOverflow)
    } else {
        Ok(CpuState { index: (s.index + reg(s, x)) as u16, ..s })
    }
}

/// Fx29: point I at the font sprite of the low nibble of Vx.
pub open spec fn op_ld_i_sprite(s: CpuState, x: u8) -> CpuState {
    CpuState { index: (FONT_OFFSET + (reg(s, x) % 16) * 5) as u16, ..s }
}

/// Fx33: store the decimal digits of Vx at I, I + 1 and I + 2.
pub open spec fn op_ld_bcd(s: CpuState, x: u8) -> Result<CpuState, Fault> {
    let v = reg(s, x);
    let i = s.index as int;
    if i + 2 >= MEMORY_SIZE {
        Err(Fault::MemoryOutOfBounds)
    } else {
        Ok(
            CpuState {
                memory: s.memory.update(i, v / 100).update(i + 1, (v / 10) % 10).update(
                    i + 2,
                    v % 10,
                ),
                ..s
            },
        )
    }
}

/// Fx55: store V0..=Vx in memory from I on.
pub open spec fn op_ldf_registers(s: CpuState, x: u8) -> Result<CpuState, Fault> {
    let i = s.index as int;
    if i + x >= MEMORY_SIZE {
        Err(Fault::MemoryOutOfBounds)
    } else {
        Ok(
            CpuState {
                memory: Seq::new(
                    s.memory.len(),
                    |a: int|
                        if i <= a <= i + x {
                            s.registers[a - i]
                        } else {
                            s.memory[a]
                        },
                ),
                ..s
            },
        )
    }
}

/// Fx65: load V0..=Vx from memory from I on.
pub open spec fn op_ld_registers(s: CpuState, x: u8) -> Result<CpuState, Fault> {
    let i = s.index as int;
    if i + x >= MEMORY_SIZE {
        Err(Fault::MemoryOutOfBounds)
    } else {
        Ok(
            CpuState {
                registers: Seq::new(
                    s.registers.len(),
                    |r: int|
                        if r <= x {
                            s.memory[i + r]
                        } else {
                            s.registers[r]
                        },
                ),
                ..s
            },
        )
    }
}

/// `result` and `after` are what an operation specified by `expected`
/// returns and leaves when started in `before`: on success the new state,
/// on a fault the fault, with the state unchanged.
pub open spec fn outcome(
    before: CpuState,
    expected: Result<CpuState, Fault>,
    result: Result<(), Fault>,
    after: CpuState,
) -> bool {
    match result {
        Ok(_) => expected == Ok::<CpuState, Fault>(after),
        Err(f) => expected == Err::<CpuState, Fault>(f) && after == before,
    }
}

/// The effect of executing `ins` on `s`; `random` is the byte that Cxkk
/// draws (no other instruction reads it).
#[verifier::opaque]
pub open spec fn exec_spec(s: CpuState, ins: Instruction, random: u8) -> Result<CpuState, Fault> {
    let x = ins.x;
    let y = ins.y;
    let kk = ins.kk;
    let nnn = ins.nnn;
    match (ins.group, ins.x, ins.y, ins.N) {
        (0x0, 0x0, 0xE, 0x0) => Ok(op_cls(s)),
        (0x0, 0x0, 0xE, 0xE) => op_ret(s),
        (0x1, _, _, _) => Ok(op_jp(s, nnn)),
        (0x2, _, _, _) => op_call(s, nnn),
        (0x3, _, _, _) => Ok(skip_if(s, reg(s, x) == kk)),
        (0x4, _, _, _) => Ok(skip_if(s, reg(s, x) != kk)),
        (0x5, _, _, 0x0) => Ok(skip_if(s, reg(s, x) == reg(s, y))),
        (0x6, _, _, _) => Ok(with_reg(s, x, kk)),
        (0x7, _, _, _) => Ok(with_reg(s, x, ((reg(s, x) + kk) % 256) as u8)),
        (0x8, _, _, 0x0) => Ok(with_reg(s, x, reg(s, y))),
        (0x8, _, _, 0x1) => Ok(with_reg(s, x, reg(s, x) | reg(s, y))),
        (0x8, _, _, 0x2) => Ok(with_reg(s, x, reg(s, x) & reg(s, y))),
        (0x8, _, _, 0x3) => Ok(with_reg(s, x, reg(s, x) ^ reg(s, y))),
        (0x8, _, _, 0x4) => Ok(op_add_vy(s, x, y)),
        (0x8, _, _, 0x5) => Ok(op_sub_vy(s, x, y)),
        (0x8, _, _, 0x6) => Ok(op_shr(s, x)),
        (0x8, _, _, 0x7) => Ok(op_subn(s, x, y)),
        (0x8, _, _, 0xE) => Ok(op_shl(s, x)),
        (0x9, _, _, 0x0) => Ok(skip_if(s, reg(s, x) != reg(s, y))),
        (0xA, _, _, _) => Ok(CpuState { index: nnn, ..s }),
        (0xB, _, _, _) => Ok(op_jp_v0(s, nnn)),
        (0xC, _, _, _) => Ok(op_rnd(s, x, kk, random)),
        (0xD, _, _, _) => op_drw(s, x, y, ins.N),
        (0xE, _, 0x9, 0xE) => Ok(skip_if(s, key_down(s, x))),
        (0xE, _, 0xA, 0x1) => Ok(skip_if(s, !key_down(s, x))),
        (0xF, _, 0x0, 0x7) => Ok(with_reg(s, x, s.delay_timer)),
        (0xF, _, 0x0, 0xA) => Ok(op_ldf_key(s, x)),
        (0xF, _, 0x1, 0x5) => Ok(CpuState { delay_timer: reg(s, x), ..s }),
        (0xF, _, 0x1, 0x8) => Ok(CpuState { sound_timer: reg(s, x), ..s }),
        (0xF, _, 0x1, 0xE) => op_add_i(s, x),
        (0xF, _, 0x2, 0x9) => Ok(op_ld_i_sprite(s, x)),
        (0xF, _, 0x3, 0x3) => op_ld_bcd(s, x),
        (0xF, _, 0x5, 0x5) => op_ldf_registers(s, x),
        (0xF, _, 0x6, 0x5) => op_ld_registers(s, x),
        _ => Err(Fault::UnknownOpcode),
    }
}

/// Memory `mem` with the program `rom` copied in from `PROGRAM_START` on.
pub open spec fn with_program(mem: Seq<u8>, rom: Seq<u8>) -> Seq<u8> {
    Seq::new(
        mem.len(),
        |a: int|
            if PROGRAM_START <= a < PROGRAM_START + rom.len() {
                rom[a - PROGRAM_START]
            } else {
                mem[a]
            },
    )
}

// ---------------------------------------------------------------------
// Steps and cycles.
// ---------------------------------------------------------------------

/// The big-endian opcode at address `pc`.
pub open spec fn opcode_at(mem: Seq<u8>, pc: int) -> u16 {
    (mem[pc] * 256 + mem[pc + 1]) as u16
}

/// Fetch, decode and execute the instruction at the program counter.
#[verifier::opaque]
pub open spec fn step_spec(s: CpuState, random: u8) -> Result<CpuState, Fault> {
    if s.pc as int + 1 >= MEMORY_SIZE {
        Err(Fault::ProgramCounterOutOfBounds)
    } else {
        exec_spec(
            CpuState { pc: (s.pc + 2) as u16, ..s },
            decode_spec(opcode_at(s.memory, s.pc as int)),
            random,
        )
    }
}

/// Run one step per byte of `randoms`, in order, each step drawing its byte;
/// stops at the first fault, giving it and the state before the faulting step.
pub open spec fn run_spec(s: CpuState, randoms: Seq<u8>) -> (Option<Fault>, CpuState)
    decreases randoms.len(),
{
    if randoms.len() == 0 {
        (None, s)
    } else {
        let before = run_spec(s, randoms.drop_last());
        if before.0 is Some {
            before
        } else {
            match step_spec(before.1, randoms.last()) {
                Ok(next) => (None, next),
                Err(f) => (Some(f), before.1),
            }
        }
    }
}

/// Count both timers down by one, stopping at zero.
pub open spec fn tick_timers(s: CpuState) -> CpuState {
    CpuState {
        delay_timer: if s.delay_timer > 0 {
            (s.delay_timer - 1) as u8
        } else {
            0
        },
        sound_timer: if s.sound_timer > 0 {
            (s.sound_timer - 1) as u8
        } else {
            0
        },
        ..s
    }
}

/// Record which keys are down, for the next Fx0A to tell new presses apart.
pub open spec fn check_keys_spec(s: CpuState) -> CpuState {
    CpuState {
        prev_keys: Seq::new(
            16,
            |i: int|
                if s.keypad[i] == 1 && s.prev_keys[i] == 0 {
                    1u8
                } else if s.keypad[i] == 0 && s.prev_keys[i] == 1 {
                    0u8
                } else {
                    s.prev_keys[i]
                },
        ),
        ..s
    }
}

/// One cycle: tick the timers, run `STEPS_PER_CYCLE` steps drawing the bytes
/// of `randoms`, then record the keys. A fault ends the cycle early with the
/// state before the faulting step.
pub open spec fn cycle_spec(s: CpuState, randoms: Seq<u8>) -> (Result<(), Fault>, CpuState) {
    let ran = run_spec(tick_timers(s), randoms);
    match ran.0 {
        Some(f) => (Err(f), ran.1),
        None => (Ok(()), check_keys_spec(ran.1)),
    }
}

} // verus!
