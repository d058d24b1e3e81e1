//! Execution of single instructions.

use vstd::prelude::*;

use crate::model::{
    exec_spec, first_new_key_from, instruction_wf, key_down, op_add_i,
    op_add_vy, op_call, op_cls, op_drw, op_jp, op_jp_v0, op_ld_bcd, op_ld_i_sprite,
    op_ld_registers, op_ldf_key, op_ldf_registers, op_ret, op_rnd, op_shl, op_shr, op_sub_vy,
    op_subn, outcome, reg, rows_read, skip_if, state_wf, with_reg, CpuState, Fault, Instruction,
    FONT_OFFSET, MEMORY_SIZE,
};
use crate::drawing::{draw_cols, draw_rows, lemma_draw_rows_matches};
use crate::rng::random_byte;
use crate::{Chip8, FLAG_REGISTER, HEIGHT, SPRITE_WIDTH, WIDTH};

verus! {

impl Chip8 {
    /// Executes `ins`, drawing a random byte for Cxkk.
    pub(crate) fn execute(&mut self, ins: Instruction) -> (r: Result<(), Fault>)
        requires
            state_wf(old(self)@),
            instruction_wf(ins),
            2 <= old(self)@.pc <= MEMORY_SIZE,
        ensures
            exists|random: u8| outcome(old(self)@, exec_spec(old(self)@, ins, random), r, final(self)@),
            state_wf(final(self)@),
    {
        let random = if ins.group == 0xC {
            random_byte(&mut self.rng)
        } else {
            0
        };
        self.execute_with(ins, random)
    }

    /// Executes `ins`, with `random` as the byte that Cxkk draws.
    pub(crate) fn execute_with(&mut self, ins: Instruction, random: u8) -> (r: Result<(), Fault>)
        requires
            state_wf(old(self)@),
            instruction_wf(ins),
            2 <= old(self)@.pc <= MEMORY_SIZE,
        ensures
            outcome(old(self)@, exec_spec(old(self)@, ins, random), r, final(self)@),
            state_wf(final(self)@),
    {
        proof {
            reveal(exec_spec);
        }
        let Instruction { group, x, y, N, kk, nnn } = ins;
        let r = match (group, x, y, N) {
            (0x0, 0x0, 0xE, 0x0) => {
                self.cls();
                Ok(())
            },
            (0x0, 0x0, 0xE, 0xE) => self.ret(),
            (0x1, _, _, _) => {
                self.jp(nnn);
                Ok(())
            },
            (0x2, _, _, _) => self.call(nnn),
            (0x3, _, _, _) => {
                self.se(x, kk);
                Ok(())
            },
            (0x4, _, _, _) => {
                self.sne(x, kk);
                Ok(())
            },
            (0x5, _, _, 0x0) => {
                self.se_vy(x, y);
                Ok(())
            },
            (0x6, _, _, _) => {
                self.ld_kk(x, kk);
                Ok(())
            },
            (0x7, _, _, _) => {
                self.add(x, kk);
                Ok(())
            },
            (0x8, _, _, 0x0) => {
                self.ld_vy(x, y);
                Ok(())
            },
            (0x8, _, _, 0x1) => {
                self.or(x, y);
                Ok(())
            },
            (0x8, _, _, 0x2) => {
                self.and(x, y);
                Ok(())
            },
            (0x8, _, _, 0x3) => {
                self.xor(x, y);
                Ok(())
            },
            (0x8, _, _, 0x4) => {
                self.add_vy(x, y);
                Ok(())
            },
            (0x8, _, _, 0x5) => {
                self.sub_vy(x, y);
                Ok(())
            },
            (0x8, _, _, 0x6) => {
                self.shr(x);
                Ok(())
            },
            (0x8, _, _, 0x7) => {
                self.subn(x, y);
                Ok(())
            },
            (0x8, _, _, 0xE) => {
                self.shl(x);
                Ok(())
            },
            (0x9, _, _, 0x0) => {
                self.sne_vy(x, y);
                Ok(())
            },
            (0xA, _, _, _) => {
                self.ld_i(nnn);
                Ok(())
            },
            (0xB, _, _, _) => {
                self.jp_v0(nnn);
                Ok(())
            },
            (0xC, _, _, _) => {
                self.rnd(x, kk, random);
                Ok(())
            },
            (0xD, _, _, _) => self.drw(x, y, N),
            (0xE, _, 0x9, 0xE) => {
                self.skp(x);
                Ok(())
            },
            (0xE, _, 0xA, 0x1) => {
                self.sknp(x);
                Ok(())
            },
            (0xF, _, 0x0, 0x7) => {
                self.ldf_delay(x);
                Ok(())
            },
            (0xF, _, 0x0, 0xA) => {
                self.ldf_key(x);
                Ok(())
            },
            (0xF, _, 0x1, 0x5) => {
                self.ld_delay(x);
                Ok(())
            },
            (0xF, _, 0x1, 0x8) => {
                self.ld_sound(x);
                Ok(())
            },
            (0xF, _, 0x1, 0xE) => self.add_i(x),
            (0xF, _, 0x2, 0x9) => {
                self.ld_i_sprite(x);
                Ok(())
            },
            (0xF, _, 0x3, 0x3) => self.ld_bcd(x),
            (0xF, _, 0x5, 0x5) => self.ldf_registers(x),
            (0xF, _, 0x6, 0x5) => self.ld_registers(x),
            _ => Err(Fault::UnknownOpcode),
        };
        proof {
            self.frame_buffer.lemma_len();
        }
        r
    }

    /// 00E0: clears the screen.
    fn cls(&mut self)
        ensures
            final(self)@ == op_cls(old(self)@),
    {
        self.frame_buffer.clear();
    }

    /// 00EE: returns from a subroutine.
    fn ret(&mut self) -> (r: Result<(), Fault>)
        requires
            old(self)@.stack_ptr <= 16,
        ensures
            outcome(old(self)@, op_ret(old(self)@), r, final(self)@),
    {
        if self.stack_ptr < 1 {
            return Err(Fault::StackUnderflow);
        }
        self.stack_ptr -= 1;
        self.pc = self.stack[self.stack_ptr as usize];
        Ok(())
    }

    /// 1nnn: jumps to `nnn`.
    fn jp(&mut self, nnn: u16)
        ensures
            final(self)@ == op_jp(old(self)@, nnn),
    {
        self.pc = nnn;
    }

    /// 2nnn: calls the subroutine at `nnn`.
    fn call(&mut self, nnn: u16) -> (r: Result<(), Fault>)
        ensures
            outcome(old(self)@, op_call(old(self)@, nnn), r, final(self)@),
    {
        if self.stack_ptr > 15 {
            return Err(Fault::StackOverflow);
        }
        self.stack[self.stack_ptr as usize] = self.pc;
        self.stack_ptr += 1;
        self.pc = nnn;
        Ok(())
    }

    /// 3xkk: skips the next instruction when Vx == `kk`.
    fn se(&mut self, x: u8, kk: u8)
        requires
            x < 16,
            old(self)@.pc <= MEMORY_SIZE,
        ensures
            final(self)@ == skip_if(old(self)@, reg(old(self)@, x) == kk),
    {
        if self.registers[x as usize] == kk {
            self.pc += 2;
        }
    }

    /// 4xkk: skips the next instruction when Vx != `kk`.
    fn sne(&mut self, x: u8, kk: u8)
        requires
            x < 16,
            old(self)@.pc <= MEMORY_SIZE,
        ensures
            final(self)@ == skip_if(old(self)@, reg(old(self)@, x) != kk),
    {
        if self.registers[x as usize] != kk {
            self.pc += 2;
        }
    }

    /// 5xy0: skips the next instruction when Vx == Vy.
    fn se_vy(&mut self, x: u8, y: u8)
        requires
            x < 16,
            y < 16,
            old(self)@.pc <= MEMORY_SIZE,
        ensures
            final(self)@ == skip_if(old(self)@, reg(old(self)@, x) == reg(old(self)@, y)),
    {
        if self.registers[x as usize] == self.registers[y as usize] {
            self.pc += 2;
        }
    }

    /// 6xkk: Vx = `kk`.
    fn ld_kk(&mut self, x: u8, kk: u8)
        requires
            x < 16,
        ensures
            final(self)@ == with_reg(old(self)@, x, kk),
    {
        self.registers[x as usize] = kk;
    }

    /// 7xkk: Vx += `kk`, wrapping; VF is left alone.
    fn add(&mut self, x: u8, kk: u8)
        requires
            x < 16,
        ensures
            final(self)@ == with_reg(old(self)@, x, ((reg(old(self)@, x) + kk) % 256) as u8),
    {
        let x = x as usize;
        self.registers[x] = self.registers[x].wrapping_add(kk);
    }

    /// 8xy0: Vx = Vy.
    fn ld_vy(&mut self, x: u8, y: u8)
        requires
            x < 16,
            y < 16,
        ensures
            final(self)@ == with_reg(old(self)@, x, reg(old(self)@, y)),
    {
        self.registers[x as usize] = self.registers[y as usize];
    }

    /// 8xy1: Vx |= Vy.
    fn or(&mut self, x: u8, y: u8)
        requires
            x < 16,
            y < 16,
        ensures
            final(self)@ == with_reg(old(self)@, x, reg(old(self)@, x) | reg(old(self)@, y)),
    {
        self.registers[x as usize] = self.registers[x as usize] | self.registers[y as usize];
    }

    /// 8xy2: Vx &= Vy.
    fn and(&mut self, x: u8, y: u8)
        requires
            x < 16,
            y < 16,
        ensures
            final(self)@ == with_reg(old(self)@, x, reg(old(self)@, x) & reg(old(self)@, y)),
    {
        self.registers[x as usize] = self.registers[x as usize] & self.registers[y as usize];
    }

    /// 8xy3: Vx ^= Vy.
    fn xor(&mut self, x: u8, y: u8)
        requires
            x < 16,
            y < 16,
        ensures
            final(self)@ == with_reg(old(self)@, x, reg(old(self)@, x) ^ reg(old(self)@, y)),
    {
        self.registers[x as usize] = self.registers[x as usize] ^ self.registers[y as usize];
    }

    /// 8xy4: Vx += Vy, then VF = 1 on a carry, else 0.
    fn add_vy(&mut self, x: u8, y: u8)
        requires
            x < 16,
            y < 16,
        ensures
            final(self)@ == op_add_vy(old(self)@, x, y),
    {
        let x = x as usize;
        let a = self.registers[x];
        let b = self.registers[y as usize];
        let carry = a as u16 + b as u16 > 255;
        self.registers[x] = a.wrapping_add(b);
        self.registers[FLAG_REGISTER] = if carry { 1 } else { 0 };
    }

    /// 8xy5: Vx -= Vy, then VF = 0 on a borrow, else 1.
    fn sub_vy(&mut self, x: u8, y: u8)
        requires
            x < 16,
            y < 16,
        ensures
            final(self)@ == op_sub_vy(old(self)@, x, y),
    {
        let x = x as usize;
        let a = self.registers[x];
        let b = self.registers[y as usize];
        let borrow = a < b;
        self.registers[x] = a.wrapping_sub(b);
        self.registers[FLAG_REGISTER] = if borrow { 0 } else { 1 };
    }

    /// 8xy6: Vx >>= 1, then VF = the bit shifted out.
    fn shr(&mut self, x: u8)
        requires
            x < 16,
        ensures
            final(self)@ == op_shr(old(self)@, x),
    {
        let x = x as usize;
        let v = self.registers[x];
        assert(v & 0x01 == v % 2) by (bit_vector);
        assert(v >> 1 == v / 2) by (bit_vector);
        self.registers[x] = v >> 1;
        self.registers[FLAG_REGISTER] = v & 0x01;
    }

    /// 8xy7: Vx = Vy - Vx, then VF = 0 on a borrow, else 1.
    fn subn(&mut self, x: u8, y: u8)
        requires
            x < 16,
            y < 16,
        ensures
            final(self)@ == op_subn(old(self)@, x, y),
    {
        let x = x as usize;
        let a = self.registers[x];
        let b = self.registers[y as usize];
        let borrow = b < a;
        self.registers[x] = b.wrapping_sub(a);
        self.registers[FLAG_REGISTER] = if borrow { 0 } else { 1 };
    }

    /// 8xyE: Vx <<= 1, then VF = the bit shifted out.
    fn shl(&mut self, x: u8)
        requires
            x < 16,
        ensures
            final(self)@ == op_shl(old(self)@, x),
    {
        let x = x as usize;
        let v = self.registers[x];
        assert(v >> 7 == v / 128) by (bit_vector);
        assert(v << 1 == ((v * 2) % 256) as u8) by (bit_vector);
        self.registers[x] = v << 1;
        self.registers[FLAG_REGISTER] = v >> 7;
    }

    /// 9xy0: skips the next instruction when Vx != Vy.
    fn sne_vy(&mut self, x: u8, y: u8)
        requires
            x < 16,
            y < 16,
            old(self)@.pc <= MEMORY_SIZE,
        ensures
            final(self)@ == skip_if(old(self)@, reg(old(self)@, x) != reg(old(self)@, y)),
    {
        if self.registers[x as usize] != self.registers[y as usize] {
            self.pc += 2;
        }
    }

    /// Annn: I = `nnn`.
    fn ld_i(&mut self, nnn: u16)
        ensures
            final(self)@ == (CpuState { index: nnn, ..old(self)@ }),
    {
        self.index = nnn;
    }

    /// Bnnn: jumps to `nnn` + V0.
    fn jp_v0(&mut self, nnn: u16)
        requires
            nnn < 4096,
        ensures
            final(self)@ == op_jp_v0(old(self)@, nnn),
    {
        self.pc = nnn + self.registers[0] as u16;
    }

    /// Cxkk: Vx = `kk` & `random`.
    fn rnd(&mut self, x: u8, kk: u8, random: u8)
        requires
            x < 16,
        ensures
            final(self)@ == op_rnd(old(self)@, x, kk, random),
    {
        self.registers[x as usize] = kk & random;
    }

    /// Ex9E: skips the next instruction when the key numbered by the low
    /// nibble of Vx is down.
    fn skp(&mut self, x: u8)
        requires
            x < 16,
            old(self)@.pc <= MEMORY_SIZE,
        ensures
            final(self)@ == skip_if(old(self)@, key_down(old(self)@, x)),
    {
        let v = self.registers[x as usize];
        assert(v & 0x0f == v % 16) by (bit_vector);
        if self.keypad[(v & 0x0f) as usize] > 0 {
            self.pc += 2;
        }
    }

    /// ExA1: skips the next instruction when the key numbered by the low
    /// nibble of Vx is up.
    fn sknp(&mut self, x: u8)
        requires
            x < 16,
            old(self)@.pc <= MEMORY_SIZE,
        ensures
            final(self)@ == skip_if(old(self)@, !key_down(old(self)@, x)),
    {
        let v = self.registers[x as usize];
        assert(v & 0x0f == v % 16) by (bit_vector);
        if self.keypad[(v & 0x0f) as usize] == 0 {
            self.pc += 2;
        }
    }

    /// Fx07: Vx = the delay timer.
    fn ldf_delay(&mut self, x: u8)
        requires
            x < 16,
        ensures
            final(self)@ == with_reg(old(self)@, x, old(self)@.delay_timer),
    {
        self.registers[x as usize] = self.delay_timer;
    }

    /// Fx15: the delay timer = Vx.
    fn ld_delay(&mut self, x: u8)
        requires
            x < 16,
        ensures
            final(self)@ == (CpuState { delay_timer: reg(old(self)@, x), ..old(self)@ }),
    {
        self.delay_timer = self.registers[x as usize];
    }

    /// Fx18: the sound timer = Vx.
    fn ld_sound(&mut self, x: u8)
        requires
            x < 16,
        ensures
            final(self)@ == (CpuState { sound_timer: reg(old(self)@, x), ..old(self)@ }),
    {
        self.sound_timer = self.registers[x as usize];
    }

    /// Fx1E: I += Vx; VF is left alone.
    fn add_i(&mut self, x: u8) -> (r: Result<(), Fault>)
        requires
            x < 16,
        ensures
            outcome(old(self)@, op_add_i(old(self)@, x), r, final(self)@),
    {
        let v = self.registers[x as usize] as u16;
        if self.index > 0xFFFF - v {
            return Err(Fault::IndexOverflow);
        }
        self.index += v;
        Ok(())
    }

    /// Fx29: I = the address of the font sprite of the low nibble of Vx.
    fn ld_i_sprite(&mut self, x: u8)
        requires
            x < 16,
        ensures
            final(self)@ == op_ld_i_sprite(old(self)@, x),
    {
        let v = self.registers[x as usize];
        assert(v & 0x0f == v % 16) by (bit_vector);
        let nibble = v & 0x0f;
        self.index = FONT_OFFSET as u16 + (nibble * 5) as u16;
    }

    /// Fx33: stores the hundreds, tens and ones digits of Vx at I, I + 1
    /// and I + 2.
    fn ld_bcd(&mut self, x: u8) -> (r: Result<(), Fault>)
        requires
            x < 16,
        ensures
            outcome(old(self)@, op_ld_bcd(old(self)@, x), r, final(self)@),
    {
        let base = self.index as usize;
        if base + 2 >= MEMORY_SIZE {
            return Err(Fault::MemoryOutOfBounds);
        }
        let ghost s = self@;
        let v = self.registers[x as usize];
        let mut temp = v;
        let mut i: usize = 3;
        while i > 0
            invariant
                0 <= i <= 3,
                base == s.index,
                base + 2 < MEMORY_SIZE,
                v == reg(s, x),
                i == 3 ==> temp == v,
                i == 2 ==> temp == v / 10,
                i == 1 ==> temp == v / 100,
                self@ == (CpuState { memory: self@.memory, ..s }),
                self@.memory.len() == MEMORY_SIZE,
                forall|a: int|
                    0 <= a < MEMORY_SIZE && !(base + i <= a < base + 3) ==> #[trigger] self@.memory[a] == s.memory[a],
                i <= 2 ==> self@.memory[base + 2] == v % 10,
                i <= 1 ==> self@.memory[base + 1] == (v / 10) % 10,
                i == 0 ==> self@.memory[base as int] == v / 100,
            decreases i,
        {
            i -= 1;
            self.memory[base + i] = temp % 10;
            temp /= 10;
        }
        assert(self@.memory =~= op_ld_bcd(s, x)->Ok_0.memory);
        Ok(())
    }

    /// Fx55: stores V0..=Vx in memory from I on; I is left alone.
    fn ldf_registers(&mut self, x: u8) -> (r: Result<(), Fault>)
        requires
            x < 16,
        ensures
            outcome(old(self)@, op_ldf_registers(old(self)@, x), r, final(self)@),
    {
        let base = self.index as usize;
        if base + x as usize >= MEMORY_SIZE {
            return Err(Fault::MemoryOutOfBounds);
        }
        let ghost s = self@;
        let mut i: u8 = 0;
        while i <= x
            invariant
                x < 16,
                i <= x + 1,
                base == s.index,
                base + x < MEMORY_SIZE,
                self@ == (CpuState { memory: self@.memory, ..s }),
                self@.memory.len() == MEMORY_SIZE,
                forall|a: int|
                    0 <= a < MEMORY_SIZE ==> #[trigger] self@.memory[a] == if base <= a < base + i {
                        s.registers[a - base]
                    } else {
                        s.memory[a]
                    },
            decreases x + 1 - i,
        {
            self.memory[base + i as usize] = self.registers[i as usize];
            i += 1;
        }
        assert(self@.memory =~= op_ldf_registers(s, x)->Ok_0.memory);
        Ok(())
    }

    /// Fx65: loads V0..=Vx from memory from I on; I is left alone.
    fn ld_registers(&mut self, x: u8) -> (r: Result<(), Fault>)
        requires
            x < 16,
        ensures
            outcome(old(self)@, op_ld_registers(old(self)@, x), r, final(self)@),
    {
        if self.index as usize + x as usize >= MEMORY_SIZE {
            return Err(Fault::MemoryOutOfBounds);
        }
        let ghost s = self@;
        let mut i: u8 = 0;
        while i <= x
            invariant
                x < 16,
                i <= x + 1,
                s.index + x < MEMORY_SIZE,
                self@ == (CpuState { registers: self@.registers, ..s }),
                self@.registers.len() == 16,
                forall|r: int|
                    0 <= r < 16 ==> #[trigger] self@.registers[r] == if r < i {
                        s.memory[s.index + r]
                    } else {
                        s.registers[r]
                    },
            decreases x + 1 - i,
        {
            self.registers[i as usize] = self.memory[(self.index + i as u16) as usize];
            i += 1;
        }
        assert(self@.registers =~= op_ld_registers(s, x)->Ok_0.registers);
        Ok(())
    }

    /// Fx0A: waits for a key press: stores in Vx the lowest key that is down
    /// and was up at the last key check; with none, the program counter
    /// steps back so that this instruction runs again.
    fn ldf_key(&mut self, x: u8)
        requires
            x < 16,
            2 <= old(self)@.pc,
        ensures
            final(self)@ == op_ldf_key(old(self)@, x),
    {
        let mut index: usize = 0;
        while index < 16
            invariant
                index <= 16,
                x < 16,
                self@ == old(self)@,
                first_new_key_from(self@.keypad, self@.prev_keys, 0) == first_new_key_from(
                    self@.keypad,
                    self@.prev_keys,
                    index as int,
                ),
            decreases 16 - index,
        {
            if self.keypad[index] != 0 && self.prev_keys[index] == 0 {
                self.registers[x as usize] = index as u8;
                return;
            }
            index += 1;
        }
        self.pc -= 2;
    }

    /// Dxyn: draws the `N`-row sprite stored at I at column Vx, row Vy
    /// (both wrapped onto the screen), XOR-ing it onto the screen and
    /// clipping it at the right and bottom edges; VF = 1 when a lit pixel
    /// was turned off, else 0.
    #[allow(non_snake_case)]
    fn drw(&mut self, x: u8, y: u8, N: u8) -> (r: Result<(), Fault>)
        requires
            x < 16,
            y < 16,
            N < 16,
            state_wf(old(self)@),
        ensures
            outcome(old(self)@, op_drw(old(self)@, x, y, N), r, final(self)@),
    {
        let ghost s = self@;
        let index = self.index as usize;
        let x0 = self.registers[x as usize] % WIDTH as u8;
        let y0 = self.registers[y as usize] % HEIGHT as u8;
        // Sprite rows are read until N rows were read or a row past the
        // bottom edge was read: check that they all lie in memory.
        let count = if (N as usize) <= 33 - y0 as usize {
            N as usize
        } else {
            33 - y0 as usize
        };
        if count > 0 && index + count > MEMORY_SIZE {
            return Err(Fault::MemoryOutOfBounds);
        }
        self.registers[FLAG_REGISTER] = 0;
        let ghost fb0 = s.frame;
        let mut i: u8 = 0;
        while i < N && (y0 as usize) + (i as usize) < HEIGHT
            invariant
                N < 16,
                x0 < 64,
                y0 < 32,
                i <= N,
                index == s.index,
                count == rows_read(y0 as int, N as int),
                count > 0 ==> index + count <= MEMORY_SIZE,
                state_wf(s),
                self@.frame.len() == 256,
                self@.registers == s.registers.update(15, self@.registers[15]),
                self@ == (CpuState { frame: self@.frame, registers: self@.registers, ..s }),
                draw_rows(fb0, 0, s.memory, index as int, x0 as int, y0 as int, N as int, 0)
                    == draw_rows(
                    self@.frame,
                    self@.registers[15],
                    s.memory,
                    index as int,
                    x0 as int,
                    y0 as int,
                    N as int,
                    i as int,
                ),
            decreases N - i,
        {
            let row = y0 as usize + i as usize;
            let pixel_data = self.memory[index + i as usize];
            let ghost fb_row = self@.frame;
            let ghost vf_row = self@.registers[15];
            let mut j: usize = 0;
            while j < SPRITE_WIDTH && (x0 as usize) + j < WIDTH
                invariant
                    x0 < 64,
                    row < 32,
                    j <= 8,
                    state_wf(s),
                    self@.frame.len() == 256,
                    self@.registers == s.registers.update(15, self@.registers[15]),
                    self@ == (CpuState { frame: self@.frame, registers: self@.registers, ..s }),
                    draw_cols(fb_row, vf_row, pixel_data, x0 as int, row as int, 0) == draw_cols(
                        self@.frame,
                        self@.registers[15],
                        pixel_data,
                        x0 as int,
                        row as int,
                        j as int,
                    ),
                decreases 8 - j,
            {
                let col = x0 as usize + j;
                let sprite_pixel = (pixel_data >> (7 - j)) & 0x01;
                let buffer_pixel = self.frame_buffer.get_pixel(col, row);
                if self.registers[FLAG_REGISTER] == 0 && sprite_pixel == 1 && buffer_pixel == 1 {
                    self.registers[FLAG_REGISTER] = 1;
                }
                self.frame_buffer.set_pixel(col, row, sprite_pixel ^ buffer_pixel == 1);
                assert(self@.registers =~= s.registers.update(15, self@.registers[15]));
                j += 1;
            }
            i += 1;
        }
        proof {
            lemma_draw_rows_matches(fb0, s.memory, index as int, x0 as int, y0 as int, N as int);
        }
        assert(self@.registers =~= s.registers.update(15, self@.registers[15]));
        Ok(())
    }
}

} // verus!
