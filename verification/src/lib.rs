//! A CHIP-8 interpreter core: memory, registers, timers, keypad, a
//! monochrome 64x32 frame buffer and the instruction set, with contracts
//! that state the effect of every instruction on the machine state.

use vstd::prelude::*;

pub mod display;
pub mod drawing;
pub mod framebuffer;
pub mod instruction_laws;
pub mod laws;
mod instructions;
pub mod model;
pub mod pacing;
mod rng;

pub use framebuffer::FrameBuffer;
pub use model::{CpuState, Fault, Instruction};

use model::{
    check_keys_spec, cycle_spec, decode_spec, exec_spec, font, initial_memory, initial_state,
    instruction_wf, opcode_at, outcome, run_spec, state_wf, step_spec, tick_timers, with_program,
    FONT_OFFSET, MEMORY_SIZE, PROGRAM_START, STEPS_PER_CYCLE,
};
use rand::rngs::ThreadRng;
use rng::{random_byte, thread_rng};

verus! {

/// Width of the screen, in pixels.
pub const WIDTH: usize = 64;

/// Height of the screen, in pixels.
pub const HEIGHT: usize = 32;

/// Width of a sprite row, in pixels.
pub const SPRITE_WIDTH: usize = 8;

/// Index of the register used as the flag register (VF).
pub const FLAG_REGISTER: usize = 15;

/// The sprites of the hexadecimal digits, as stored in memory at power-on.
fn font_data() -> (f: [u8; 80])
    ensures
        f@ == font(),
{
    let f: [u8; 80] = [
        0xF0, 0x90, 0x90, 0x90, 0xF0,  // 0
        0x20, 0x60, 0x20, 0x20, 0x70,  // 1
        0xF0, 0x10, 0xF0, 0x80, 0xF0,  // 2
        0xF0, 0x10, 0xF0, 0x10, 0xF0,  // 3
        0x90, 0x90, 0xF0, 0x10, 0x10,  // 4
        0xF0, 0x80, 0xF0, 0x10, 0xF0,  // 5
        0xF0, 0x80, 0xF0, 0x90, 0xF0,  // 6
        0xF0, 0x10, 0x20, 0x40, 0x40,  // 7
        0xF0, 0x90, 0xF0, 0x90, 0xF0,  // 8
        0xF0, 0x90, 0xF0, 0x10, 0xF0,  // 9
        0xF0, 0x90, 0xF0, 0x90, 0x90,  // A
        0xE0, 0x90, 0xE0, 0x90, 0xE0,  // B
        0xF0, 0x80, 0x80, 0x80, 0xF0,  // C
        0xE0, 0x90, 0x90, 0x90, 0xE0,  // D
        0xF0, 0x80, 0xF0, 0x80, 0xF0,  // E
        0xF0, 0x80, 0xF0, 0x80, 0x80,  // F
    ];
    assert(f@ =~= font());
    f
}

/// The interpreter: the whole machine state and the generator that Cxkk
/// draws from.
pub struct Chip8 {
    pc: u16,
    index: u16,
    memory: [u8; 4096],
    stack: [u16; 16],
    stack_ptr: u8,
    prev_keys: [u8; 16],
    keypad: [u8; 16],
    frame_buffer: FrameBuffer,
    registers: [u8; 16],
    delay_timer: u8,
    sound_timer: u8,
    rng: ThreadRng,
}

impl View for Chip8 {
    type V = CpuState;

    closed spec fn view(&self) -> CpuState {
        CpuState {
            pc: self.pc,
            index: self.index,
            memory: self.memory@,
            stack: self.stack@,
            stack_ptr: self.stack_ptr,
            prev_keys: self.prev_keys@,
            keypad: self.keypad@,
            frame: self.frame_buffer@,
            registers: self.registers@,
            delay_timer: self.delay_timer,
            sound_timer: self.sound_timer,
        }
    }
}

impl Default for Chip8 {
    /// The machine at power-on: font loaded, program counter at the program
    /// start, everything else zero.
    fn default() -> (c: Self)
        ensures
            c@ == initial_state(),
            state_wf(c@),
    {
        let mut memory = [0u8; 4096];
        let glyphs = font_data();
        let mut i: usize = 0;
        while i < 80
            invariant
                i <= 80,
                glyphs@ == font(),
                forall|a: int|
                    0 <= a < 4096 ==> #[trigger] memory@[a] == if FONT_OFFSET <= a < FONT_OFFSET
                        + i {
                        font()[a - FONT_OFFSET]
                    } else {
                        0u8
                    },
            decreases 80 - i,
        {
            memory[FONT_OFFSET + i] = glyphs[i];
            i += 1;
        }
        let rng = thread_rng();
        let c = Chip8 {
            pc: 0x200,
            index: 0,
            memory,
            stack: [0u16; 16],
            stack_ptr: 0,
            prev_keys: [0u8; 16],
            keypad: [0u8; 16],
            frame_buffer: FrameBuffer::default(),
            registers: [0u8; 16],
            delay_timer: 0,
            sound_timer: 0,
            rng,
        };
        assert(c@.memory =~= initial_memory());
        assert(c@.stack =~= initial_state().stack);
        assert(c@.prev_keys =~= initial_state().prev_keys);
        assert(c@.keypad =~= initial_state().keypad);
        assert(c@.registers =~= initial_state().registers);
        proof {
            c.frame_buffer.lemma_len();
        }
        c
    }
}

/// `s` just after an opcode was fetched from it.
spec fn before_exec(s: CpuState) -> CpuState {
    CpuState { pc: (s.pc + 2) as u16, ..s }
}

/// Once a run of steps has faulted, further steps change nothing.
proof fn lemma_run_fault_sticks(s: CpuState, randoms: Seq<u8>, extra: Seq<u8>)
    requires
        run_spec(s, randoms).0 is Some,
    ensures
        run_spec(s, randoms + extra) == run_spec(s, randoms),
    decreases extra.len(),
{
    if extra.len() > 0 {
        lemma_run_fault_sticks(s, randoms, extra.drop_last());
        assert((randoms + extra).drop_last() =~= randoms + extra.drop_last());
    } else {
        assert(randoms + extra =~= randoms);
    }
}

impl Chip8 {
    /// One cycle of the interpreter, run once per displayed frame: counts
    /// the delay and sound timers down, executes `STEPS_PER_CYCLE`
    /// instructions, then records which keys are down. The first fault ends
    /// the cycle and is returned, the machine left as it was before the
    /// faulting instruction was fetched. Cxkk draws its random byte from the
    /// generator: the contract holds for some sequence of drawn bytes.
    pub fn cycle(&mut self) -> (r: Result<(), Fault>)
        requires
            state_wf(old(self)@),
        ensures
            state_wf(final(self)@),
            exists|randoms: Seq<u8>|
                randoms.len() == STEPS_PER_CYCLE && cycle_spec(old(self)@, randoms) == (
                r,
                final(self)@,
                ),
    {
        if self.delay_timer > 0 {
            self.delay_timer -= 1;
        }
        if self.sound_timer > 0 {
            self.sound_timer -= 1;
        }
        let ghost ticked = self@;
        assert(ticked == tick_timers(old(self)@));
        let ghost mut randoms: Seq<u8> = Seq::empty();
        let mut i: usize = 0;
        while i < STEPS_PER_CYCLE
            invariant
                i <= STEPS_PER_CYCLE,
                randoms.len() == i,
                state_wf(self@),
                ticked == tick_timers(old(self)@),
                run_spec(ticked, randoms) == (None::<Fault>, self@),
            decreases STEPS_PER_CYCLE - i,
        {
            let ghost before = self@;
            let res = self.step();
            let ghost random = choose|random: u8| outcome(before, step_spec(before, random), res, self@);
            proof {
                let rs = randoms.push(random);
                assert(rs.drop_last() =~= randoms);
                randoms = rs;
            }
            if let Err(f) = res {
                proof {
                    assert(run_spec(ticked, randoms) == (Some(f), self@));
                    let pad = Seq::new((STEPS_PER_CYCLE - i - 1) as nat, |k: int| 0u8);
                    lemma_run_fault_sticks(ticked, randoms, pad);
                    let all = randoms + pad;
                    assert(all.len() == STEPS_PER_CYCLE);
                    assert(cycle_spec(old(self)@, all) == (Err::<(), Fault>(f), self@));
                }
                return Err(f);
            }
            i += 1;
        }
        self.check_keys();
        assert(cycle_spec(old(self)@, randoms) == (Ok::<(), Fault>(()), self@));
        Ok(())
    }

    /// Fetches, decodes and executes the instruction at the program counter.
    /// On a fault the machine is left as it was.
    fn step(&mut self) -> (r: Result<(), Fault>)
        requires
            state_wf(old(self)@),
        ensures
            state_wf(final(self)@),
            exists|random: u8| outcome(old(self)@, step_spec(old(self)@, random), r, final(self)@),
    {
        proof {
            reveal(step_spec);
        }
        let pc = self.pc;
        let opcode = match self.fetch() {
            Ok(op) => op,
            Err(f) => {
                assert(outcome(old(self)@, step_spec(old(self)@, 0u8), Err(f), self@));
                return Err(f);
            },
        };
        let ghost fetched = self@;
        let instruction = self.decode(opcode);
        let res = self.execute(instruction);
        let ghost random = choose|random: u8|
            outcome(fetched, exec_spec(fetched, instruction, random), res, self@);
        if let Err(f) = res {
            self.pc = pc;
            assert(self@ =~= old(self)@);
        }
        assert(outcome(old(self)@, step_spec(old(self)@, random), res, self@));
        res
    }

    /// Fetches the big-endian opcode at the program counter and advances the
    /// program counter past it.
    fn fetch(&mut self) -> (r: Result<u16, Fault>)
        ensures
            old(self)@.pc as int + 1 >= MEMORY_SIZE ==> r == Err::<u16, Fault>(
                Fault::ProgramCounterOutOfBounds,
            ) && final(self)@ == old(self)@,
            old(self)@.pc as int + 1 < MEMORY_SIZE ==> r == Ok::<u16, Fault>(
                opcode_at(old(self)@.memory, old(self)@.pc as int),
            ) && final(self)@ == before_exec(old(self)@),
    {
        if self.pc as usize + 1 >= MEMORY_SIZE {
            return Err(Fault::ProgramCounterOutOfBounds);
        }
        let pc = self.pc;
        self.pc += 2;
        let hi = self.memory[pc as usize] as u16;
        let lo = self.memory[pc as usize + 1] as u16;
        assert(hi << 8 | lo == hi * 256 + lo) by (bit_vector)
            requires
                hi < 256,
                lo < 256,
        ;
        Ok(hi << 8 | lo)
    }

    /// Splits `opcode` into its fields.
    pub fn decode(&self, opcode: u16) -> (ins: Instruction)
        ensures
            ins == decode_spec(opcode),
            instruction_wf(ins),
    {
        assert(((opcode >> 12) as u8) & 0x000f == (opcode / 4096) as u8) by (bit_vector);
        assert(((opcode >> 8) as u8) & 0x000f == ((opcode / 256) % 16) as u8) by (bit_vector);
        assert(((opcode >> 4) as u8) & 0x000f == ((opcode / 16) % 16) as u8) by (bit_vector);
        assert((opcode as u8) & 0x000f == (opcode % 16) as u8) by (bit_vector);
        assert(opcode as u8 == (opcode % 256) as u8) by (bit_vector);
        assert(opcode & 0x0fff == (opcode % 4096) as u16) by (bit_vector);
        Instruction {
            group: (opcode >> 12) as u8 & 0x000f,
            x: (opcode >> 8) as u8 & 0x000f,
            y: (opcode >> 4) as u8 & 0x000f,
            N: opcode as u8 & 0x000f,
            kk: opcode as u8,
            nnn: opcode & 0x0fff,
        }
    }

    /// Copies the program `rom` into memory from `PROGRAM_START` on; the
    /// rest of the machine is left as it was.
    pub fn load_rom(&mut self, rom: &[u8])
        requires
            state_wf(old(self)@),
            rom@.len() <= MEMORY_SIZE - PROGRAM_START,
        ensures
            final(self)@ == (CpuState {
                memory: with_program(old(self)@.memory, rom@),
                ..old(self)@
            }),
            state_wf(final(self)@),
    {
        let ghost s = self@;
        let mut index: usize = 0;
        while index < rom.len()
            invariant
                index <= rom@.len(),
                rom@.len() <= MEMORY_SIZE - PROGRAM_START,
                state_wf(s),
                self@ == (CpuState { memory: self@.memory, ..s }),
                self@.memory.len() == MEMORY_SIZE,
                forall|a: int|
                    0 <= a < MEMORY_SIZE ==> #[trigger] self@.memory[a] == if PROGRAM_START <= a
                        < PROGRAM_START + index {
                        rom@[a - PROGRAM_START]
                    } else {
                        s.memory[a]
                    },
            decreases rom@.len() - index,
        {
            self.memory[index + 0x200] = rom[index];
            index += 1;
        }
        assert(self@.memory =~= with_program(s.memory, rom@));
    }

    /// The screen.
    pub fn get_buffer(&self) -> (fb: &FrameBuffer)
        ensures
            fb@ == self@.frame,
    {
        &self.frame_buffer
    }

    /// Records which keys are down, so that a later Fx0A tells new presses
    /// from held keys.
    pub fn check_keys(&mut self)
        requires
            state_wf(old(self)@),
        ensures
            final(self)@ == check_keys_spec(old(self)@),
            state_wf(final(self)@),
    {
        let ghost s = self@;
        let mut index: usize = 0;
        while index < 16
            invariant
                index <= 16,
                state_wf(s),
                self@.keypad == s.keypad,
                forall|j: int|
                    0 <= j < 16 ==> #[trigger] self.prev_keys@[j] == if j < index {
                        check_keys_spec(s).prev_keys[j]
                    } else {
                        s.prev_keys[j]
                    },
                self@ == (CpuState { prev_keys: self@.prev_keys, ..s }),
            decreases 16 - index,
        {
            let key = self.keypad[index];
            if key == 1 && self.prev_keys[index] == 0 {
                self.prev_keys[index] = 1;
            }
            if key == 0 && self.prev_keys[index] == 1 {
                self.prev_keys[index] = 0;
            }
            index += 1;
        }
        assert(self@.prev_keys =~= check_keys_spec(s).prev_keys);

    }

    /// Presses (`pressed`) or releases key `key`.
    pub fn input(&mut self, key: u8, pressed: bool)
        requires
            state_wf(old(self)@),
            key < 16,
        ensures
            final(self)@ == (CpuState {
                keypad: old(self)@.keypad.update(key as int, if pressed { 1u8 } else { 0u8 }),
                ..old(self)@
            }),
            state_wf(final(self)@),
    {
        if pressed {
            self.keypad[key as usize] = 1;
        } else {
            self.keypad[key as usize] = 0;
        }

    }
}

} // verus!
