//! What each instruction does, stated directly in terms of the machine
//! before and after it: the registers, timers, program counter, index,
//! memory and stack. `s` is the state once the opcode was fetched, so
//! `s.pc` already points past it; skipping an instruction adds 2 more.
//! Every law also says which parts of the machine stay as they were.

use vstd::prelude::*;

use crate::framebuffer::{num_pixels, pixel_bit};
use crate::model::{
    check_keys_spec, cycle_spec, decode_spec, exec_spec, first_new_key_from, initial_state,
    instruction_wf, op_drw, opcode_at, run_spec, sprite_pixel, state_wf, step_spec, tick_timers, with_program, CpuState,
    Fault, Instruction,
};

verus! {

/// The registers `v` and `w` agree everywhere except at `a` and `b`.
pub open spec fn same_except(v: Seq<u8>, w: Seq<u8>, a: int, b: int) -> bool {
    forall|i: int| 0 <= i < 16 && i != a && i != b ==> #[trigger] w[i] == v[i]
}

/// 6xkk loads `kk` into Vx; nothing else changes.
pub proof fn lemma_load_byte(s: CpuState, ins: Instruction, r: u8)
    requires
        state_wf(s),
        instruction_wf(ins),
        ins.group == 6,
    ensures
        exec_spec(s, ins, r) is Ok,
        ({
            let t = exec_spec(s, ins, r)->Ok_0;
            &&& t.registers[ins.x as int] == ins.kk
            &&& same_except(s.registers, t.registers, ins.x as int, ins.x as int)
            &&& t.registers.len() == 16
            &&& t == (CpuState { registers: t.registers, ..s })
        }),
{
    reveal(exec_spec);
}

/// 7xkk adds `kk` to Vx modulo 256 and leaves VF alone (unless Vx is VF).
pub proof fn lemma_add_byte(s: CpuState, ins: Instruction, r: u8)
    requires
        state_wf(s),
        instruction_wf(ins),
        ins.group == 7,
    ensures
        exec_spec(s, ins, r) is Ok,
        ({
            let t = exec_spec(s, ins, r)->Ok_0;
            let a = s.registers[ins.x as int] as int;
            let sum = t.registers[ins.x as int] as int;
            &&& sum == a + ins.kk || sum == a + ins.kk - 256
            &&& same_except(s.registers, t.registers, ins.x as int, ins.x as int)
            &&& t.registers.len() == 16
            &&& t == (CpuState { registers: t.registers, ..s })
        }),
{
    reveal(exec_spec);
}

/// 8xy0 copies Vy into Vx; 8xy1, 8xy2 and 8xy3 combine them bit by bit
/// with or, and and exclusive or.
pub proof fn lemma_register_logic(s: CpuState, ins: Instruction, r: u8)
    requires
        state_wf(s),
        instruction_wf(ins),
        ins.group == 8,
        ins.N <= 3,
    ensures
        exec_spec(s, ins, r) is Ok,
        ({
            let t = exec_spec(s, ins, r)->Ok_0;
            let a = s.registers[ins.x as int];
            let b = s.registers[ins.y as int];
            let c = t.registers[ins.x as int];
            &&& forall|k: u8|
                k < 8 ==> #[trigger] ((c >> k) & 1u8) == (if ins.N == 0 {
                    (b >> k) & 1u8
                } else if ins.N == 1 {
                    if (a >> k) & 1u8 == 1 || (b >> k) & 1u8 == 1 {
                        1u8
                    } else {
                        0u8
                    }
                } else if ins.N == 2 {
                    if (a >> k) & 1u8 == 1 && (b >> k) & 1u8 == 1 {
                        1u8
                    } else {
                        0u8
                    }
                } else {
                    if (a >> k) & 1u8 != (b >> k) & 1u8 {
                        1u8
                    } else {
                        0u8
                    }
                })
            &&& same_except(s.registers, t.registers, ins.x as int, ins.x as int)
            &&& t.registers.len() == 16
            &&& t == (CpuState { registers: t.registers, ..s })
        }),
{
    reveal(exec_spec);
    let t = exec_spec(s, ins, r)->Ok_0;
    let a = s.registers[ins.x as int];
    let b = s.registers[ins.y as int];
    let c = t.registers[ins.x as int];
    assert forall|k: u8| k < 8 implies #[trigger] ((c >> k) & 1u8) == (if ins.N == 0 {
        (b >> k) & 1u8
    } else if ins.N == 1 {
        if (a >> k) & 1u8 == 1 || (b >> k) & 1u8 == 1 {
            1u8
        } else {
            0u8
        }
    } else if ins.N == 2 {
        if (a >> k) & 1u8 == 1 && (b >> k) & 1u8 == 1 {
            1u8
        } else {
            0u8
        }
    } else {
        if (a >> k) & 1u8 != (b >> k) & 1u8 {
            1u8
        } else {
            0u8
        }
    }) by {
        assert(((a | b) >> k) & 1u8 == (if (a >> k) & 1u8 == 1 || (b >> k) & 1u8 == 1 {
            1u8
        } else {
            0u8
        })) by (bit_vector);
        assert(((a & b) >> k) & 1u8 == (if (a >> k) & 1u8 == 1 && (b >> k) & 1u8 == 1 {
            1u8
        } else {
            0u8
        })) by (bit_vector);
        assert(((a ^ b) >> k) & 1u8 == (if (a >> k) & 1u8 != (b >> k) & 1u8 {
            1u8
        } else {
            0u8
        })) by (bit_vector);
    }
}

/// 8xy4 adds Vy to Vx: the new Vx and the carry in VF make up the full sum.
/// VF ends as the carry even when Vx is VF.
pub proof fn lemma_add_registers(s: CpuState, ins: Instruction, r: u8)
    requires
        state_wf(s),
        instruction_wf(ins),
        ins.group == 8,
        ins.N == 4,
    ensures
        exec_spec(s, ins, r) is Ok,
        ({
            let t = exec_spec(s, ins, r)->Ok_0;
            let a = s.registers[ins.x as int] as int;
            let b = s.registers[ins.y as int] as int;
            &&& t.registers[15] == (if a + b > 255 { 1u8 } else { 0u8 })
            &&& ins.x != 15 ==> t.registers[ins.x as int] + 256 * t.registers[15] == a + b
            &&& same_except(s.registers, t.registers, ins.x as int, 15)
            &&& t.registers.len() == 16
            &&& t == (CpuState { registers: t.registers, ..s })
        }),
{
    reveal(exec_spec);
}

/// 8xy5 subtracts Vy from Vx: VF is 1 when no borrow was needed
/// (Vx >= Vy), and the new Vx plus Vy gives the old Vx, borrowing 256 when
/// VF is 0.
pub proof fn lemma_sub_registers(s: CpuState, ins: Instruction, r: u8)
    requires
        state_wf(s),
        instruction_wf(ins),
        ins.group == 8,
        ins.N == 5,
    ensures
        exec_spec(s, ins, r) is Ok,
        ({
            let t = exec_spec(s, ins, r)->Ok_0;
            let a = s.registers[ins.x as int] as int;
            let b = s.registers[ins.y as int] as int;
            &&& t.registers[15] == (if a >= b { 1u8 } else { 0u8 })
            &&& ins.x != 15 ==> t.registers[ins.x as int] + b == a + 256 * (1 - t.registers[15])
            &&& same_except(s.registers, t.registers, ins.x as int, 15)
            &&& t.registers.len() == 16
            &&& t == (CpuState { registers: t.registers, ..s })
        }),
{
    reveal(exec_spec);
}

/// 8xy7 sets Vx to Vy minus Vx: VF is 1 when no borrow was needed
/// (Vy >= Vx), and the new Vx plus the old Vx gives Vy, borrowing 256 when
/// VF is 0.
pub proof fn lemma_sub_reversed(s: CpuState, ins: Instruction, r: u8)
    requires
        state_wf(s),
        instruction_wf(ins),
        ins.group == 8,
        ins.N == 7,
    ensures
        exec_spec(s, ins, r) is Ok,
        ({
            let t = exec_spec(s, ins, r)->Ok_0;
            let a = s.registers[ins.x as int] as int;
            let b = s.registers[ins.y as int] as int;
            &&& t.registers[15] == (if b >= a { 1u8 } else { 0u8 })
            &&& ins.x != 15 ==> t.registers[ins.x as int] + a == b + 256 * (1 - t.registers[15])
            &&& same_except(s.registers, t.registers, ins.x as int, 15)
            &&& t.registers.len() == 16
            &&& t == (CpuState { registers: t.registers, ..s })
        }),
{
    reveal(exec_spec);
}

/// 8xy5 and 8xy7 on the same registers give results that add up to 0
/// modulo 256 (when Vx is not VF).
pub proof fn lemma_sub_and_reversed_sub_cancel(s: CpuState, sub: Instruction, subn: Instruction, r1: u8, r2: u8)
    requires
        state_wf(s),
        instruction_wf(sub),
        sub.group == 8,
        sub.N == 5,
        subn == (Instruction { N: 7, ..sub }),
        sub.x != 15,
    ensures
        exec_spec(s, sub, r1) is Ok,
        exec_spec(s, subn, r2) is Ok,
        (exec_spec(s, sub, r1)->Ok_0.registers[sub.x as int] + exec_spec(s, subn, r2)->Ok_0.registers[sub.x as int]) % 256 == 0,
{
    lemma_sub_registers(s, sub, r1);
    lemma_sub_reversed(s, subn, r2);
}

/// 8xy6 halves Vx: twice the new Vx plus the bit shifted out, left in VF,
/// gives the old Vx.
pub proof fn lemma_shift_right(s: CpuState, ins: Instruction, r: u8)
    requires
        state_wf(s),
        instruction_wf(ins),
        ins.group == 8,
        ins.N == 6,
    ensures
        exec_spec(s, ins, r) is Ok,
        ({
            let t = exec_spec(s, ins, r)->Ok_0;
            let a = s.registers[ins.x as int] as int;
            &&& t.registers[15] <= 1
            &&& (t.registers[15] == 1 <==> a % 2 == 1)
            &&& ins.x != 15 ==> 2 * t.registers[ins.x as int] + t.registers[15] == a
            &&& same_except(s.registers, t.registers, ins.x as int, 15)
            &&& t.registers.len() == 16
            &&& t == (CpuState { registers: t.registers, ..s })
        }),
{
    reveal(exec_spec);
}

/// 8xyE doubles Vx: the new Vx plus 256 times the bit shifted out, left in
/// VF, gives twice the old Vx.
pub proof fn lemma_shift_left(s: CpuState, ins: Instruction, r: u8)
    requires
        state_wf(s),
        instruction_wf(ins),
        ins.group == 8,
        ins.N == 0xE,
    ensures
        exec_spec(s, ins, r) is Ok,
        ({
            let t = exec_spec(s, ins, r)->Ok_0;
            let a = s.registers[ins.x as int] as int;
            &&& t.registers[15] <= 1
            &&& (t.registers[15] == 1 <==> a >= 128)
            &&& ins.x != 15 ==> t.registers[ins.x as int] + 256 * t.registers[15] == 2 * a
            &&& same_except(s.registers, t.registers, ins.x as int, 15)
            &&& t.registers.len() == 16
            &&& t == (CpuState { registers: t.registers, ..s })
        }),
{
    reveal(exec_spec);
}

/// The conditional skips: 3xkk skips when Vx equals `kk`, 4xkk when it
/// does not, 5xy0 when Vx equals Vy, 9xy0 when it does not, Ex9E when the
/// key numbered by the low nibble of the value in Vx is down, ExA1 when it
/// is up. Skipping moves the program counter on by one more instruction;
/// nothing else changes.
pub proof fn lemma_skips(s: CpuState, ins: Instruction, r: u8)
    requires
        state_wf(s),
        instruction_wf(ins),
        s.pc <= 4096,
        ins.group == 3 || ins.group == 4 || (ins.group == 5 && ins.N == 0) || (ins.group == 9
            && ins.N == 0) || (ins.group == 0xE && ins.y == 9 && ins.N == 0xE) || (ins.group == 0xE
            && ins.y == 0xA && ins.N == 1),
    ensures
        exec_spec(s, ins, r) is Ok,
        ({
            let t = exec_spec(s, ins, r)->Ok_0;
            let vx = s.registers[ins.x as int];
            let vy = s.registers[ins.y as int];
            let key = s.keypad[(vx % 16) as int];
            let skip = if ins.group == 3 {
                vx == ins.kk
            } else if ins.group == 4 {
                vx != ins.kk
            } else if ins.group == 5 {
                vx == vy
            } else if ins.group == 9 {
                vx != vy
            } else if ins.y == 9 {
                key == 1
            } else {
                key == 0
            };
            &&& t.pc == (if skip { s.pc + 2 } else { s.pc as int })
            &&& t == (CpuState { pc: t.pc, ..s })
        }),
{
    reveal(exec_spec);
}

/// 1nnn jumps to `nnn`; Bnnn jumps to `nnn` plus V0, that is V0 bytes
/// past where 1nnn lands. Nothing else changes.
pub proof fn lemma_jumps(s: CpuState, ins: Instruction, r: u8)
    requires
        state_wf(s),
        instruction_wf(ins),
        ins.group == 1 || ins.group == 0xB,
    ensures
        exec_spec(s, ins, r) is Ok,
        ({
            let t = exec_spec(s, ins, r)->Ok_0;
            &&& t.pc == ins.nnn + (if ins.group == 0xB { s.registers[0] as int } else { 0 })
            &&& t == (CpuState { pc: t.pc, ..s })
        }),
{
    reveal(exec_spec);
}

/// 2nnn pushes the address of the next instruction on the stack and jumps
/// to `nnn`; with all sixteen stack slots in use it faults instead.
pub proof fn lemma_call(s: CpuState, ins: Instruction, r: u8)
    requires
        state_wf(s),
        instruction_wf(ins),
        ins.group == 2,
    ensures
        s.stack_ptr == 16 ==> exec_spec(s, ins, r) == Err::<CpuState, Fault>(Fault::StackOverflow),
        s.stack_ptr < 16 ==> exec_spec(s, ins, r) is Ok,
        s.stack_ptr < 16 ==> ({
            let t = exec_spec(s, ins, r)->Ok_0;
            &&& t.pc == ins.nnn
            &&& t.stack_ptr == s.stack_ptr + 1
            &&& t.stack[s.stack_ptr as int] == s.pc
            &&& t.stack.len() == 16
            &&& forall|i: int| 0 <= i < 16 && i != s.stack_ptr ==> #[trigger] t.stack[i] == s.stack[i]
            &&& t == (CpuState { pc: t.pc, stack: t.stack, stack_ptr: t.stack_ptr, ..s })
        }),
{
    reveal(exec_spec);
}

/// 00EE pops the return address off the stack and jumps there; with an
/// empty stack it faults instead.
pub proof fn lemma_return(s: CpuState, ins: Instruction, r: u8)
    requires
        state_wf(s),
        ins == (Instruction { group: 0, x: 0, y: 0xE, N: 0xE, kk: 0xEE, nnn: 0x0EE }),
    ensures
        s.stack_ptr == 0 ==> exec_spec(s, ins, r) == Err::<CpuState, Fault>(Fault::StackUnderflow),
        s.stack_ptr > 0 ==> exec_spec(s, ins, r) is Ok,
        s.stack_ptr > 0 ==> ({
            let t = exec_spec(s, ins, r)->Ok_0;
            &&& t.stack_ptr + 1 == s.stack_ptr
            &&& t.pc == s.stack[t.stack_ptr as int]
            &&& t == (CpuState { pc: t.pc, stack_ptr: t.stack_ptr, ..s })
        }),
{
    reveal(exec_spec);
}

/// The timers: Fx07 copies the delay timer into Vx, Fx15 sets the delay
/// timer to Vx and Fx18 the sound timer; each changes nothing else.
pub proof fn lemma_timers(s: CpuState, ins: Instruction, r: u8)
    requires
        state_wf(s),
        instruction_wf(ins),
        ins.group == 0xF,
        (ins.y == 0 && ins.N == 7) || (ins.y == 1 && ins.N == 5) || (ins.y == 1 && ins.N == 8),
    ensures
        exec_spec(s, ins, r) is Ok,
        ({
            let t = exec_spec(s, ins, r)->Ok_0;
            let vx = s.registers[ins.x as int];
            &&& ins.N == 7 ==> t.registers[ins.x as int] == s.delay_timer && same_except(
                s.registers,
                t.registers,
                ins.x as int,
                ins.x as int,
            ) && t.registers.len() == 16 && t == (CpuState { registers: t.registers, ..s })
            &&& ins.N == 5 ==> t == (CpuState { delay_timer: vx, ..s })
            &&& ins.N == 8 ==> t == (CpuState { sound_timer: vx, ..s })
        }),
{
    reveal(exec_spec);
}

/// Cxkk puts into Vx a byte whose set bits all lie in `kk`: the random byte
/// masked with `kk`. Nothing else changes.
pub proof fn lemma_random(s: CpuState, ins: Instruction, r: u8)
    requires
        state_wf(s),
        instruction_wf(ins),
        ins.group == 0xC,
    ensures
        exec_spec(s, ins, r) is Ok,
        ({
            let t = exec_spec(s, ins, r)->Ok_0;
            let c = t.registers[ins.x as int];
            &&& forall|k: u8|
                k < 8 ==> #[trigger] ((c >> k) & 1u8) == (if (ins.kk >> k) & 1u8 == 1 {
                    (r >> k) & 1u8
                } else {
                    0u8
                })
            &&& same_except(s.registers, t.registers, ins.x as int, ins.x as int)
            &&& t.registers.len() == 16
            &&& t == (CpuState { registers: t.registers, ..s })
        }),
{
    reveal(exec_spec);
    let kk = ins.kk;
    assert forall|k: u8| k < 8 implies #[trigger] (((kk & r) >> k) & 1u8) == (if (kk >> k) & 1u8
        == 1 {
        (r >> k) & 1u8
    } else {
        0u8
    }) by {
        assert(((kk & r) >> k) & 1u8 == (if (kk >> k) & 1u8 == 1 {
            (r >> k) & 1u8
        } else {
            0u8
        })) by (bit_vector);
    }
}

/// The index register: Annn sets I to `nnn`; Fx1E adds Vx to I, faulting
/// when the sum does not fit in 16 bits; Fx29 points I at the five-byte
/// font sprite of the low nibble of Vx, which lies at 0x50 + 5 * digit.
pub proof fn lemma_index(s: CpuState, ins: Instruction, r: u8)
    requires
        state_wf(s),
        instruction_wf(ins),
        ins.group == 0xA || (ins.group == 0xF && ((ins.y == 1 && ins.N == 0xE) || (ins.y == 2
            && ins.N == 9))),
    ensures
        ({
            let vx = s.registers[ins.x as int] as int;
            &&& (ins.group == 0xF && ins.y == 1 && s.index + vx > 0xFFFF) ==> exec_spec(s, ins, r)
                == Err::<CpuState, Fault>(Fault::IndexOverflow)
            &&& !(ins.group == 0xF && ins.y == 1 && s.index + vx > 0xFFFF) ==> exec_spec(s, ins, r) is Ok
            &&& !(ins.group == 0xF && ins.y == 1 && s.index + vx > 0xFFFF) ==> ({
                let t = exec_spec(s, ins, r)->Ok_0;
                &&& t.index == (if ins.group == 0xA {
                    ins.nnn as int
                } else if ins.y == 1 {
                    s.index + vx
                } else {
                    0x50 + 5 * (vx % 16)
                })
                &&& t == (CpuState { index: t.index, ..s })
            })
        }),
{
    reveal(exec_spec);
}

/// Fx55 stores V0..=Vx at I, I + 1, ... and Fx65 loads them from there; I
/// is left alone, and an access past the end of memory faults instead.
pub proof fn lemma_store_load_registers(s: CpuState, ins: Instruction, r: u8)
    requires
        state_wf(s),
        instruction_wf(ins),
        ins.group == 0xF,
        (ins.y == 5 && ins.N == 5) || (ins.y == 6 && ins.N == 5),
    ensures
        s.index + ins.x >= 4096 ==> exec_spec(s, ins, r) == Err::<CpuState, Fault>(
            Fault::MemoryOutOfBounds,
        ),
        s.index + ins.x < 4096 ==> exec_spec(s, ins, r) is Ok,
        s.index + ins.x < 4096 ==> ({
            let t = exec_spec(s, ins, r)->Ok_0;
            let i = s.index as int;
            let x = ins.x as int;
            &&& ins.y == 5 ==> {
                &&& forall|k: int| 0 <= k <= x ==> #[trigger] t.memory[i + k] == s.registers[k]
                &&& forall|a: int|
                    0 <= a < 4096 && !(i <= a <= i + x) ==> #[trigger] t.memory[a] == s.memory[a]
                &&& t.memory.len() == 4096
                &&& t == (CpuState { memory: t.memory, ..s })
            }
            &&& ins.y == 6 ==> {
                &&& forall|k: int| 0 <= k <= x ==> #[trigger] t.registers[k] == s.memory[i + k]
                &&& forall|k: int| x < k < 16 ==> #[trigger] t.registers[k] == s.registers[k]
                &&& t.registers.len() == 16
                &&& t == (CpuState { registers: t.registers, ..s })
            }
        }),
{
    reveal(exec_spec);
}

/// 00E0 turns every pixel off; nothing else changes.
pub proof fn lemma_clear_screen(s: CpuState, ins: Instruction, r: u8)
    requires
        state_wf(s),
        ins == (Instruction { group: 0, x: 0, y: 0xE, N: 0, kk: 0xE0, nnn: 0x0E0 }),
    ensures
        exec_spec(s, ins, r) is Ok,
        ({
            let t = exec_spec(s, ins, r)->Ok_0;
            &&& t.frame.len() == 256
            &&& forall|i: int| 0 <= i < 256 ==> #[trigger] t.frame[i] == 0
            &&& t == (CpuState { frame: t.frame, ..s })
        }),
{
    reveal(exec_spec);
}

/// Dxyn draws, with its top-left corner at column Vx mod 64 and row Vy mod
/// 32, the `n`-row sprite whose rows are the bytes at I, I + 1, ...: every
/// screen pixel under a set sprite bit is flipped, every other pixel stays,
/// and the sprite is cut off at the right and bottom edges. VF becomes 1
/// exactly when a lit pixel was flipped off. Rows are read until `n` were
/// read or one past the bottom edge was read; reading past the end of
/// memory faults.
pub proof fn lemma_draw(s: CpuState, ins: Instruction, r: u8)
    requires
        state_wf(s),
        instruction_wf(ins),
        ins.group == 0xD,
    ensures
        ({
            let x0 = (s.registers[ins.x as int] % 64) as int;
            let y0 = (s.registers[ins.y as int] % 32) as int;
            let n = ins.N as int;
            let i = s.index as int;
            let rows = if n <= 33 - y0 { n } else { 33 - y0 };
            let under = |p: int|
                if y0 <= p / 64 < y0 + n && p / 64 < 32 && x0 <= p % 64 < x0 + 8 {
                    (s.memory[i + (p / 64 - y0)] >> ((7 - (p % 64 - x0)) as u8)) & 1u8
                } else {
                    0u8
                };
            &&& (rows > 0 && i + rows > 4096) ==> exec_spec(s, ins, r) == Err::<CpuState, Fault>(
                Fault::MemoryOutOfBounds,
            )
            &&& !(rows > 0 && i + rows > 4096) ==> exec_spec(s, ins, r) is Ok
            &&& !(rows > 0 && i + rows > 4096) ==> ({
                let t = exec_spec(s, ins, r)->Ok_0;
                &&& forall|p: int|
                    0 <= p < num_pixels() ==> #[trigger] pixel_bit(t.frame, p) == (if under(p) == 1 {
                        1 - pixel_bit(s.frame, p)
                    } else {
                        pixel_bit(s.frame, p) as int
                    })
                &&& t.registers[15] == (if exists|p: int|
                    0 <= p < num_pixels() && under(p) == 1 && #[trigger] pixel_bit(s.frame, p) == 1 {
                    1u8
                } else {
                    0u8
                })
                &&& same_except(s.registers, t.registers, 15, 15)
                &&& t.registers.len() == 16
                &&& t == (CpuState { frame: t.frame, registers: t.registers, ..s })
            })
        }),
{
    let x0 = (s.registers[ins.x as int] % 64) as int;
    let y0 = (s.registers[ins.y as int] % 32) as int;
    let n = ins.N as int;
    let i = s.index as int;
    let rows = if n <= 33 - y0 { n } else { 33 - y0 };
    assert(exec_spec(s, ins, r) == op_drw(s, ins.x, ins.y, ins.N)) by {
        reveal(exec_spec);
    }
    if !(rows > 0 && i + rows > 4096) {
        crate::laws::lemma_draw_xors_sprite(s, ins, r);
        let t = exec_spec(s, ins, r)->Ok_0;
        let under = |p: int|
            if y0 <= p / 64 < y0 + n && p / 64 < 32 && x0 <= p % 64 < x0 + 8 {
                (s.memory[i + (p / 64 - y0)] >> ((7 - (p % 64 - x0)) as u8)) & 1u8
            } else {
                0u8
            };
        assert forall|p: int| 0 <= p < num_pixels() implies under(p) == #[trigger] sprite_pixel(
            s.memory,
            i,
            x0,
            y0,
            n,
            p % 64,
            p / 64,
        ) by {}
        assert forall|p: int| 0 <= p < num_pixels() implies #[trigger] pixel_bit(t.frame, p) == (if under(
            p,
        ) == 1 {
            1 - pixel_bit(s.frame, p)
        } else {
            pixel_bit(s.frame, p) as int
        }) by {
            let a = pixel_bit(s.frame, p);
            let kp = (7 - p % 8) as u8;
            let b = s.frame[p / 8];
            assert((b >> kp) & 1u8 <= 1) by (bit_vector);
            let c = under(p);
            let m = s.memory[i + (p / 64 - y0)];
            let k = (7 - (p % 64 - x0)) as u8;
            assert((m >> k) & 1u8 <= 1) by (bit_vector);
            assert(c <= 1);
            assert(a ^ 1 == 1 - a && a ^ 0 == a) by (bit_vector)
                requires
                    a <= 1,
            ;
        }
        let hit = exists|p: int|
            0 <= p < num_pixels() && under(p) == 1 && #[trigger] pixel_bit(s.frame, p) == 1;
        let hit2 = exists|p: int|
            0 <= p < num_pixels() && sprite_pixel(s.memory, i, x0, y0, n, p % 64, p / 64) == 1
                && #[trigger] pixel_bit(s.frame, p) == 1;
        if hit {
            let p = choose|p: int|
                0 <= p < num_pixels() && under(p) == 1 && #[trigger] pixel_bit(s.frame, p) == 1;
            assert(sprite_pixel(s.memory, i, x0, y0, n, p % 64, p / 64) == 1);
        }
        if hit2 {
            let p = choose|p: int|
                0 <= p < num_pixels() && sprite_pixel(s.memory, i, x0, y0, n, p % 64, p / 64) == 1
                    && #[trigger] pixel_bit(s.frame, p) == 1;
            assert(under(p) == 1);
        }
        assert(same_except(s.registers, t.registers, 15, 15));
    }
}

/// The lowest key number from `i` on that is down now and was up at the
/// last key check, described by what it is.
proof fn lemma_first_new_key(keypad: Seq<u8>, prev: Seq<u8>, i: int)
    requires
        0 <= i <= 16,
    ensures
        match first_new_key_from(keypad, prev, i) {
            Some(k) => i <= k < 16 && keypad[k as int] != 0 && prev[k as int] == 0 && forall|j: int|
                i <= j < k ==> !(#[trigger] keypad[j] != 0 && prev[j] == 0),
            None => forall|j: int| i <= j < 16 ==> !(#[trigger] keypad[j] != 0 && prev[j] == 0),
        },
    decreases 16 - i,
{
    if i < 16 {
        lemma_first_new_key(keypad, prev, i + 1);
    }
}

/// Fx0A waits for a key press: when some key is down that was up at the
/// last key check, the lowest such key number goes into Vx; when there is
/// none, the program counter steps back so that Fx0A runs again, and
/// nothing else changes.
pub proof fn lemma_wait_for_key(s: CpuState, ins: Instruction, r: u8)
    requires
        state_wf(s),
        instruction_wf(ins),
        ins.group == 0xF,
        ins.y == 0,
        ins.N == 0xA,
        s.pc >= 2,
    ensures
        exec_spec(s, ins, r) is Ok,
        ({
            let t = exec_spec(s, ins, r)->Ok_0;
            let pressed = |k: int| s.keypad[k] == 1 && s.prev_keys[k] == 0;
            &&& (exists|k: int| 0 <= k < 16 && #[trigger] pressed(k)) ==> {
                let k = t.registers[ins.x as int] as int;
                &&& 0 <= k < 16
                &&& pressed(k)
                &&& forall|j: int| 0 <= j < k ==> !#[trigger] pressed(j)
                &&& same_except(s.registers, t.registers, ins.x as int, ins.x as int)
                &&& t.registers.len() == 16
                &&& t == (CpuState { registers: t.registers, ..s })
            }
            &&& !(exists|k: int| 0 <= k < 16 && #[trigger] pressed(k)) ==> t == (CpuState {
                pc: (s.pc - 2) as u16,
                ..s
            })
        }),
{
    reveal(exec_spec);
    lemma_first_new_key(s.keypad, s.prev_keys, 0);
    let pressed = |k: int| s.keypad[k] == 1 && s.prev_keys[k] == 0;
    match first_new_key_from(s.keypad, s.prev_keys, 0) {
        Some(k) => {
            assert(pressed(k as int));
        },
        None => {
            if exists|k: int| 0 <= k < 16 && #[trigger] pressed(k) {
                let k = choose|k: int| 0 <= k < 16 && #[trigger] pressed(k);
                assert(!(s.keypad[k] != 0 && s.prev_keys[k] == 0));
            }
        },
    }
}

/// Exactly the opcodes of the instruction set execute; every other one
/// faults as unknown.
pub proof fn lemma_unknown_opcodes(s: CpuState, ins: Instruction, r: u8)
    requires
        state_wf(s),
        instruction_wf(ins),
    ensures
        ({
            let g = ins.group;
            let known = (g == 0 && ins.x == 0 && ins.y == 0xE && (ins.N == 0 || ins.N == 0xE)) || (1
                <= g <= 4) || (g == 5 && ins.N == 0) || (6 <= g <= 7) || (g == 8 && (ins.N <= 7
                || ins.N == 0xE)) || (g == 9 && ins.N == 0) || (0xA <= g <= 0xD) || (g == 0xE && (
            (ins.y == 9 && ins.N == 0xE) || (ins.y == 0xA && ins.N == 1))) || (g == 0xF && ((ins.y
                == 0 && (ins.N == 7 || ins.N == 0xA)) || (ins.y == 1 && (ins.N == 5 || ins.N == 8
                || ins.N == 0xE)) || (ins.y == 2 && ins.N == 9) || (ins.y == 3 && ins.N == 3) || (
            (ins.y == 5 || ins.y == 6) && ins.N == 5)));
            known <==> exec_spec(s, ins, r) != Err::<CpuState, Fault>(Fault::UnknownOpcode)
        }),
{
    reveal(exec_spec);
}

/// A machine whose program counter points at a jump to itself stays put:
/// a step changes nothing.
pub proof fn lemma_self_jump_step(s: CpuState, r: u8)
    requires
        state_wf(s),
        s.pc + 1 < 4096,
        s.memory[s.pc as int] == 0x10 + s.pc / 256,
        s.memory[s.pc + 1] == s.pc % 256,
    ensures
        step_spec(s, r) == Ok::<CpuState, Fault>(s),
{
    reveal(step_spec);
    reveal(exec_spec);
    let op = opcode_at(s.memory, s.pc as int);
    assert(op == 0x1000 + s.pc);
    let ins = decode_spec(op);
    assert(ins.group == 1);
    assert(ins.nnn == s.pc);
}

/// Any number of steps on a machine parked on a jump to itself changes nothing.
proof fn lemma_self_jump_run(s: CpuState, randoms: Seq<u8>)
    requires
        state_wf(s),
        s.pc + 1 < 4096,
        s.memory[s.pc as int] == 0x10 + s.pc / 256,
        s.memory[s.pc + 1] == s.pc % 256,
    ensures
        run_spec(s, randoms) == (None::<Fault>, s),
    decreases randoms.len(),
{
    if randoms.len() > 0 {
        lemma_self_jump_run(s, randoms.drop_last());
        lemma_self_jump_step(s, randoms.last());
    }
}

/// A cycle of a machine parked on a jump to itself counts each timer down
/// by one (a timer at zero stays at zero), records the keys that are down,
/// and changes nothing else.
pub proof fn lemma_idle_cycle(s: CpuState, randoms: Seq<u8>)
    requires
        state_wf(s),
        s.pc + 1 < 4096,
        s.memory[s.pc as int] == 0x10 + s.pc / 256,
        s.memory[s.pc + 1] == s.pc % 256,
    ensures
        cycle_spec(s, randoms).0 == Ok::<(), Fault>(()),
        ({
            let t = cycle_spec(s, randoms).1;
            &&& t.delay_timer == (if s.delay_timer == 0 { 0 } else { s.delay_timer - 1 })
            &&& t.sound_timer == (if s.sound_timer == 0 { 0 } else { s.sound_timer - 1 })
            &&& t.prev_keys == s.keypad
            &&& t == (CpuState {
                delay_timer: t.delay_timer,
                sound_timer: t.sound_timer,
                prev_keys: t.prev_keys,
                ..s
            })
        }),
{
    lemma_self_jump_run(tick_timers(s), randoms);
    crate::laws::lemma_check_keys_records(tick_timers(s));
}

/// A program loaded into the machine at power-on starts running at 0x200
/// with its first two bytes as the first opcode: the program occupies
/// 0x200, 0x201, ... in order, the font stays at 0x50, and the rest of
/// memory is zero.
pub proof fn lemma_loaded_program(rom: Seq<u8>)
    requires
        2 <= rom.len() <= 4096 - 0x200,
    ensures
        ({
            let s = CpuState { memory: with_program(initial_state().memory, rom), ..initial_state() };
            &&& s.pc == 0x200
            &&& opcode_at(s.memory, s.pc as int) == rom[0] * 256 + rom[1]
            &&& forall|k: int| 0 <= k < rom.len() ==> #[trigger] s.memory[0x200 + k] == rom[k]
            &&& s.memory[0x50] == 0xF0 && s.memory[0x54] == 0xF0 && s.memory[0x9F] == 0x80
            &&& forall|a: int|
                0 <= a < 4096 && !(0x50 <= a < 0xA0) && !(0x200 <= a < 0x200 + rom.len())
                    ==> #[trigger] s.memory[a] == 0
        }),
{
    let s = CpuState { memory: with_program(initial_state().memory, rom), ..initial_state() };
    assert(s.memory[0x200] == rom[0]);
    assert(s.memory[0x201] == rom[1]);
    assert forall|k: int| 0 <= k < rom.len() implies #[trigger] s.memory[0x200 + k] == rom[k] by {}
    assert(s.memory[0x50] == crate::model::font()[0]);
    assert(s.memory[0x54] == crate::model::font()[4]);
    assert(s.memory[0x9F] == crate::model::font()[79]);
}

} // verus!
