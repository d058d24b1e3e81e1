//! Properties of the instruction set that span several instructions or
//! hold of every state, proved over the model.

use vstd::prelude::*;

use crate::drawing::lemma_drawn_frame_pixel;
use crate::framebuffer::{num_pixels, pixel_bit};
use crate::model::{
    check_keys_spec, cycle_spec, decode_spec, exec_spec, first_new_key_from, font, initial_state,
    instruction_wf, op_add_vy, op_drw, op_sub_vy, opcode_at, reg, run_spec, sprite_byte,
    sprite_pixel, state_wf, step_spec,
    tick_timers, CpuState, Fault, Instruction, FONT_OFFSET,
};

verus! {

/// The fields of a decoded opcode put back together give the opcode:
/// `group`, `x`, `y` and `N` are its four nibbles, `kk` its low byte and
/// `nnn` its low twelve bits.
pub proof fn lemma_decode_fields(opcode: u16)
    ensures
        ({
            let ins = decode_spec(opcode);
            &&& instruction_wf(ins)
            &&& ins.group * 4096 + ins.x * 256 + ins.y * 16 + ins.N == opcode
            &&& ins.kk == ins.y * 16 + ins.N
            &&& ins.nnn == ins.x * 256 + ins.kk
        }),
{
    assert(opcode / 4096 < 16) by (bit_vector);
    assert((opcode / 4096) * 4096 + ((opcode / 256) % 16) * 256 + ((opcode / 16) % 16) * 16 + opcode
        % 16 == opcode) by (bit_vector);
    assert(opcode % 256 == ((opcode / 16) % 16) * 16 + opcode % 16) by (bit_vector);
    assert(opcode % 4096 == ((opcode / 256) % 16) * 256 + opcode % 256) by (bit_vector);
}

/// A return executed right after a call resumes at the instruction after
/// the call, with the stack pointer where it was; only the stack slot that
/// held the return address differs.
pub proof fn lemma_call_then_return(s: CpuState, call: Instruction, ret: Instruction, r1: u8, r2: u8)
    requires
        state_wf(s),
        s.stack_ptr < 16,
        instruction_wf(call),
        call.group == 2,
        ret == decode_spec(0x00EE),
    ensures
        exec_spec(s, call, r1) is Ok,
        exec_spec(exec_spec(s, call, r1)->Ok_0, ret, r2) == Ok::<CpuState, Fault>(
            CpuState { stack: s.stack.update(s.stack_ptr as int, s.pc), ..s },
        ),
{
    reveal(exec_spec);
}

/// Fx33 stores the three decimal digits of Vx: each is below ten, and
/// together they make Vx. No other memory byte changes.
pub proof fn lemma_bcd_digits(s: CpuState, ins: Instruction, r: u8)
    requires
        state_wf(s),
        instruction_wf(ins),
        ins.group == 0xF,
        ins.y == 3,
        ins.N == 3,
        s.index + 2 < 4096,
    ensures
        exec_spec(s, ins, r) is Ok,
        ({
            let t = exec_spec(s, ins, r)->Ok_0;
            let i = s.index as int;
            &&& t.memory[i] < 10
            &&& t.memory[i + 1] < 10
            &&& t.memory[i + 2] < 10
            &&& t.memory[i] * 100 + t.memory[i + 1] * 10 + t.memory[i + 2] == reg(s, ins.x)
            &&& forall|a: int|
                0 <= a < 4096 && !(i <= a < i + 3) ==> #[trigger] t.memory[a] == s.memory[a]
            &&& t == (CpuState { memory: t.memory, ..s })
        }),
{
    reveal(exec_spec);
}

/// Loading V0..=Vx (Fx65) right after storing them (Fx55) at the same
/// address changes nothing more.
pub proof fn lemma_store_then_load(s: CpuState, store: Instruction, load: Instruction, r1: u8, r2: u8)
    requires
        state_wf(s),
        instruction_wf(store),
        store.group == 0xF,
        store.y == 5,
        store.N == 5,
        load == (Instruction { y: 6, ..store }),
        s.index + store.x < 4096,
    ensures
        exec_spec(s, store, r1) is Ok,
        exec_spec(exec_spec(s, store, r1)->Ok_0, load, r2) == exec_spec(s, store, r1),
{
    reveal(exec_spec);
    let t = exec_spec(s, store, r1)->Ok_0;
    let u = exec_spec(t, load, r2)->Ok_0;
    assert(u.registers =~= t.registers);
}

/// Adding Vy to Vx (8xy4) and then subtracting it again (8xy5) gives Vx
/// back; the flag then tells whether the subtraction did not borrow.
pub proof fn lemma_add_then_sub(s: CpuState, add: Instruction, sub: Instruction, r1: u8, r2: u8)
    requires
        state_wf(s),
        instruction_wf(add),
        add.group == 8,
        add.N == 4,
        sub == (Instruction { N: 5, ..add }),
        add.x != 15,
        add.y != 15,
        add.x != add.y,
    ensures
        exec_spec(s, add, r1) is Ok,
        exec_spec(exec_spec(s, add, r1)->Ok_0, sub, r2) is Ok,
        ({
            let t = exec_spec(exec_spec(s, add, r1)->Ok_0, sub, r2)->Ok_0;
            &&& reg(t, add.x) == reg(s, add.x)
            &&& reg(t, 15) == (if reg(s, add.x) + reg(s, add.y) <= 255 { 1u8 } else { 0u8 })
            &&& t == (CpuState { registers: t.registers, ..s })
            &&& forall|i: int|
                0 <= i < 16 && i != 15 ==> #[trigger] t.registers[i] == s.registers[i]
        }),
{
    let x = add.x;
    let y = add.y;
    assert(exec_spec(s, add, r1) == Ok::<CpuState, Fault>(op_add_vy(s, x, y))) by {
        reveal(exec_spec);
    }
    let t = op_add_vy(s, x, y);
    assert(exec_spec(t, sub, r2) == Ok::<CpuState, Fault>(op_sub_vy(t, x, y))) by {
        reveal(exec_spec);
    }
    let u = op_sub_vy(t, x, y);
    let a = reg(s, x);
    let b = reg(s, y);
    let a2 = ((a + b) % 256) as u8;
    assert(reg(t, x) == a2);
    assert(reg(t, y) == b);
    assert(((a2 - b + 256) % 256) as u8 == a) by (bit_vector)
        requires
            a2 == ((a + b) % 256) as u8,
    ;
    assert(a2 >= b <==> a + b <= 255) by (bit_vector)
        requires
            a2 == ((a + b) % 256) as u8,
    ;
}

/// Exclusive-or with Vy (8xy3) done twice gives Vx back.
pub proof fn lemma_xor_twice(s: CpuState, ins: Instruction, r1: u8, r2: u8)
    requires
        state_wf(s),
        instruction_wf(ins),
        ins.group == 8,
        ins.N == 3,
        ins.x != ins.y,
    ensures
        exec_spec(s, ins, r1) is Ok,
        exec_spec(exec_spec(s, ins, r1)->Ok_0, ins, r2) == Ok::<CpuState, Fault>(s),
{
    reveal(exec_spec);
    let a = reg(s, ins.x);
    let b = reg(s, ins.y);
    assert((a ^ b) ^ b == a) by (bit_vector);
    let t = exec_spec(exec_spec(s, ins, r1)->Ok_0, ins, r2)->Ok_0;
    assert(t.registers =~= s.registers);
}

/// After a key check, the recorded keys are exactly the keys that are down.
pub proof fn lemma_check_keys_records(s: CpuState)
    requires
        state_wf(s),
    ensures
        check_keys_spec(s).prev_keys == s.keypad,
        state_wf(check_keys_spec(s)),
{
    assert(check_keys_spec(s).prev_keys =~= s.keypad);
}

/// Waiting for a key (Fx0A) while no key went down since the last key
/// check leaves the whole machine as it was: the same instruction runs next.
pub proof fn lemma_wait_for_key_repeats(s: CpuState, r: u8)
    requires
        state_wf(s),
        s.pc + 1 < 4096,
        decode_spec(opcode_at(s.memory, s.pc as int)).group == 0xF,
        decode_spec(opcode_at(s.memory, s.pc as int)).y == 0,
        decode_spec(opcode_at(s.memory, s.pc as int)).N == 0xA,
        first_new_key_from(s.keypad, s.prev_keys, 0) is None,
    ensures
        step_spec(s, r) == Ok::<CpuState, Fault>(s),
{
    reveal(exec_spec);
    reveal(step_spec);
}

/// Dxyn XORs the sprite onto the screen pixel by pixel, clipped at the
/// right and bottom edges, at column Vx and row Vy (each wrapped onto the
/// screen); VF ends as 1 exactly when some lit pixel was turned off, and
/// nothing else changes.
pub proof fn lemma_draw_xors_sprite(s: CpuState, ins: Instruction, r: u8)
    requires
        state_wf(s),
        instruction_wf(ins),
        ins.group == 0xD,
        exec_spec(s, ins, r) is Ok,
    ensures
        ({
            let t = exec_spec(s, ins, r)->Ok_0;
            let x0 = (reg(s, ins.x) % 64) as int;
            let y0 = (reg(s, ins.y) % 32) as int;
            let n = ins.N as int;
            &&& forall|p: int|
                0 <= p < num_pixels() ==> #[trigger] pixel_bit(t.frame, p) == pixel_bit(s.frame, p)
                    ^ sprite_pixel(s.memory, s.index as int, x0, y0, n, p % 64, p / 64)
            &&& reg(t, 15) == if exists|p: int|
                0 <= p < num_pixels() && sprite_pixel(s.memory, s.index as int, x0, y0, n, p % 64, p / 64) == 1
                    && #[trigger] pixel_bit(s.frame, p) == 1 {
                1u8
            } else {
                0u8
            }
            &&& t == (CpuState { frame: t.frame, registers: s.registers.update(15, reg(t, 15)), ..s })
        }),
{
    assert(exec_spec(s, ins, r) == op_drw(s, ins.x, ins.y, ins.N)) by {
        reveal(exec_spec);
    }
    let x0 = (reg(s, ins.x) % 64) as int;
    let y0 = (reg(s, ins.y) % 32) as int;
    let n = ins.N as int;
    let index = s.index as int;
    let t = exec_spec(s, ins, r)->Ok_0;
    assert forall|p: int| 0 <= p < num_pixels() implies #[trigger] pixel_bit(t.frame, p) == pixel_bit(
        s.frame,
        p,
    ) ^ sprite_pixel(s.memory, index, x0, y0, n, p % 64, p / 64) by {
        lemma_drawn_frame_pixel(s.frame, s.memory, index, x0, y0, n, p);
    }
    assert(t.registers =~= s.registers.update(15, reg(t, 15)));
}

/// Drawing the same sprite at the same place twice gives the screen back
/// (when neither coordinate comes from VF, which the first draw changes).
pub proof fn lemma_draw_twice_restores(s: CpuState, ins: Instruction, r1: u8, r2: u8)
    requires
        state_wf(s),
        instruction_wf(ins),
        ins.group == 0xD,
        ins.x != 15,
        ins.y != 15,
        exec_spec(s, ins, r1) is Ok,
    ensures
        exec_spec(exec_spec(s, ins, r1)->Ok_0, ins, r2) is Ok,
        exec_spec(exec_spec(s, ins, r1)->Ok_0, ins, r2)->Ok_0.frame == s.frame,
{
    reveal(exec_spec);
    let t = exec_spec(s, ins, r1)->Ok_0;
    let u = exec_spec(t, ins, r2)->Ok_0;
    let x0 = (reg(s, ins.x) % 64) as int;
    let y0 = (reg(s, ins.y) % 32) as int;
    let index = s.index as int;
    let n = ins.N as int;
    assert(reg(t, ins.x) == reg(s, ins.x));
    assert(reg(t, ins.y) == reg(s, ins.y));
    assert forall|i: int| 0 <= i < 256 implies #[trigger] u.frame[i] == s.frame[i] by {
        let b = s.frame[i];
        let m = sprite_byte(s.memory, index, x0, y0, n, i);
        assert((b ^ m) ^ m == b) by (bit_vector);
    }
    assert(u.frame =~= s.frame);
}

/// Every instruction that does not fault keeps the machine well-formed.
pub proof fn lemma_exec_preserves_wf(s: CpuState, ins: Instruction, r: u8)
    requires
        state_wf(s),
        instruction_wf(ins),
        exec_spec(s, ins, r) is Ok,
    ensures
        state_wf(exec_spec(s, ins, r)->Ok_0),
{
    reveal(exec_spec);
}

/// Every step that does not fault keeps the machine well-formed.
pub proof fn lemma_step_preserves_wf(s: CpuState, r: u8)
    requires
        state_wf(s),
        step_spec(s, r) is Ok,
    ensures
        state_wf(step_spec(s, r)->Ok_0),
{
    reveal(step_spec);
    let t = CpuState { pc: (s.pc + 2) as u16, ..s };
    let ins = decode_spec(opcode_at(s.memory, s.pc as int));
    lemma_decode_fields(opcode_at(s.memory, s.pc as int));
    lemma_exec_preserves_wf(t, ins, r);
}

/// Every run of steps, faulting or not, leaves the machine well-formed.
pub proof fn lemma_run_preserves_wf(s: CpuState, randoms: Seq<u8>)
    requires
        state_wf(s),
    ensures
        state_wf(run_spec(s, randoms).1),
    decreases randoms.len(),
{
    if randoms.len() > 0 {
        lemma_run_preserves_wf(s, randoms.drop_last());
        let before = run_spec(s, randoms.drop_last());
        if before.0 is None && step_spec(before.1, randoms.last()) is Ok {
            lemma_step_preserves_wf(before.1, randoms.last());
        }
    }
}

/// Every cycle, faulting or not, leaves the machine well-formed.
pub proof fn lemma_cycle_preserves_wf(s: CpuState, randoms: Seq<u8>)
    requires
        state_wf(s),
    ensures
        state_wf(cycle_spec(s, randoms).1),
{
    lemma_run_preserves_wf(tick_timers(s), randoms);
    lemma_check_keys_records(run_spec(tick_timers(s), randoms).1);
}

/// Fx29 points I at the five-row font sprite of the low nibble of Vx, as
/// long as the font area of memory holds the font (as it does at power-on).
pub proof fn lemma_font_sprite(s: CpuState, ins: Instruction, r: u8)
    requires
        state_wf(s),
        instruction_wf(ins),
        ins.group == 0xF,
        ins.y == 2,
        ins.N == 9,
        forall|k: int| 0 <= k < 80 ==> #[trigger] s.memory[FONT_OFFSET + k] == font()[k],
    ensures
        exec_spec(s, ins, r) is Ok,
        ({
            let t = exec_spec(s, ins, r)->Ok_0;
            forall|k: int|
                0 <= k < 5 ==> #[trigger] t.memory[t.index + k] == font()[5 * (reg(s, ins.x) % 16) + k]
        }),
{
    reveal(exec_spec);
    let t = exec_spec(s, ins, r)->Ok_0;
    assert forall|k: int| 0 <= k < 5 implies #[trigger] t.memory[t.index + k] == font()[5 * (reg(
        s,
        ins.x,
    ) % 16) + k] by {
        assert(t.index + k == FONT_OFFSET + (5 * (reg(s, ins.x) % 16) + k));
    }
}

/// The machine at power-on is well-formed and holds the font.
pub proof fn lemma_initial_state()
    ensures
        state_wf(initial_state()),
        forall|k: int| 0 <= k < 80 ==> #[trigger] initial_state().memory[FONT_OFFSET + k] == font()[k],
{
    let s = initial_state();
    assert(s.memory.len() == 4096);
    crate::framebuffer::lemma_blank_len();
}

} // verus!
