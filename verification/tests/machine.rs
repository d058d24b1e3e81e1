use chip8_core::{Chip8, Fault, FrameBuffer, HEIGHT, WIDTH};

/// A machine with `rom` loaded at the program start.
fn machine_with(rom: &[u8]) -> Chip8 {
    let mut cpu = Chip8::default();
    cpu.load_rom(rom);
    cpu
}

/// The screen as rows of 0/1 pixels.
fn pixels(fb: &FrameBuffer) -> Vec<Vec<u8>> {
    (0..HEIGHT)
        .map(|y| (0..WIDTH).map(|x| fb.get_pixel(x, y)).collect())
        .collect()
}

/// The pixels of the 8-wide sprite row `byte`.
fn row_bits(byte: u8) -> Vec<u8> {
    (0..8).map(|j| (byte >> (7 - j)) & 1).collect()
}

/// Asserts that the 5-row glyph `glyph` is drawn at column `x`, row `y`,
/// and that the pixel right of each row is off.
fn assert_glyph_at(fb: &FrameBuffer, x: usize, y: usize, glyph: [u8; 5]) {
    let px = pixels(fb);
    for (r, byte) in glyph.iter().enumerate() {
        assert_eq!(px[y + r][x..x + 8].to_vec(), row_bits(*byte), "row {}", r);
    }
}

const GLYPH_0: [u8; 5] = [0xF0, 0x90, 0x90, 0x90, 0xF0];
const GLYPH_1: [u8; 5] = [0x20, 0x60, 0x20, 0x20, 0x70];
const GLYPH_5: [u8; 5] = [0xF0, 0x80, 0xF0, 0x10, 0xF0];

#[test]
fn power_on_screen_is_blank() {
    let cpu = Chip8::default();
    assert!(cpu.get_buffer().get().iter().all(|b| *b == 0));
    assert_eq!(FrameBuffer::default().get(), &[0u8; 256]);
}

#[test]
fn draws_font_glyph() {
    // V0 = 5, V1 = 2, I = glyph of V0, draw 5 rows at (V0, V1), loop.
    let rom = [0x60, 0x05, 0x61, 0x02, 0xF0, 0x29, 0xD0, 0x15, 0x12, 0x08];
    let mut cpu = machine_with(&rom);
    assert_eq!(cpu.cycle(), Ok(()));
    assert_glyph_at(cpu.get_buffer(), 5, 2, GLYPH_5);
    // Nothing else is lit.
    let lit: usize = pixels(cpu.get_buffer()).iter().map(|r| r.iter().filter(|p| **p == 1).count()).sum();
    assert_eq!(lit, 4 + 1 + 4 + 1 + 4);
}

#[test]
fn drawing_twice_erases_and_sets_flag() {
    // Draw the glyph of 0 twice at (0, 0); then draw the glyph of VF at (10, 0).
    let rom = [
        0x60, 0x00, // V0 = 0
        0xF0, 0x29, // I = glyph 0
        0xD0, 0x05, // draw at (V0, V0)
        0xD0, 0x05, // draw again: erases, VF = 1
        0x6A, 0x0A, // VA = 10
        0xFF, 0x29, // I = glyph of VF
        0xDA, 0x05, // draw at (VA, V0)
        0x12, 0x0E, // loop
    ];
    let mut cpu = machine_with(&rom);
    assert_eq!(cpu.cycle(), Ok(()));
    let px = pixels(cpu.get_buffer());
    for y in 0..5 {
        assert!(px[y][0..8].iter().all(|p| *p == 0));
    }
    assert_glyph_at(cpu.get_buffer(), 10, 0, GLYPH_1);
}

#[test]
fn first_draw_leaves_flag_clear() {
    let rom = [
        0x60, 0x00, 0xF0, 0x29, 0xD0, 0x05, // draw glyph 0 at (0, 0)
        0x6A, 0x0A, 0xFF, 0x29, 0xDA, 0x05, // draw glyph of VF at (10, 0)
        0x12, 0x0C,
    ];
    let mut cpu = machine_with(&rom);
    assert_eq!(cpu.cycle(), Ok(()));
    assert_glyph_at(cpu.get_buffer(), 0, 0, GLYPH_0);
    assert_glyph_at(cpu.get_buffer(), 10, 0, GLYPH_0);
}

#[test]
fn sprite_is_clipped_at_right_edge() {
    // Draw glyph 0 at column 62: only its two leftmost columns show.
    let rom = [0x60, 0x3E, 0x61, 0x00, 0x62, 0x00, 0xF2, 0x29, 0xD0, 0x15, 0x12, 0x0A];
    let mut cpu = machine_with(&rom);
    assert_eq!(cpu.cycle(), Ok(()));
    let px = pixels(cpu.get_buffer());
    assert_eq!(px[0][62..64].to_vec(), vec![1, 1]);
    assert_eq!(px[1][62..64].to_vec(), vec![1, 0]);
    // Nothing wraps to the left edge.
    assert!(px.iter().all(|r| r[0] == 0));
}

#[test]
fn coordinates_wrap_onto_screen() {
    // Column 64 + 3 = 67 wraps to 3, row 32 + 1 wraps to 1.
    let rom = [0x60, 0x43, 0x61, 0x21, 0x62, 0x00, 0xF2, 0x29, 0xD0, 0x15, 0x12, 0x0A];
    let mut cpu = machine_with(&rom);
    assert_eq!(cpu.cycle(), Ok(()));
    assert_glyph_at(cpu.get_buffer(), 3, 1, GLYPH_0);
}

#[test]
fn clear_screen_instruction() {
    let rom = [0x60, 0x00, 0xF0, 0x29, 0xD0, 0x05, 0x00, 0xE0, 0x12, 0x08];
    let mut cpu = machine_with(&rom);
    assert_eq!(cpu.cycle(), Ok(()));
    assert!(cpu.get_buffer().get().iter().all(|b| *b == 0));
}

#[test]
fn return_with_empty_stack_faults() {
    let mut cpu = machine_with(&[0x00, 0xEE]);
    assert_eq!(cpu.cycle(), Err(Fault::StackUnderflow));
}

#[test]
fn unknown_opcode_faults() {
    let mut cpu = machine_with(&[0x01, 0x23]);
    assert_eq!(cpu.cycle(), Err(Fault::UnknownOpcode));
    let mut cpu = machine_with(&[0x80, 0x08]);
    assert_eq!(cpu.cycle(), Err(Fault::UnknownOpcode));
}

#[test]
fn deep_recursion_overflows_stack() {
    // 0x200: call 0x200, forever.
    let mut cpu = machine_with(&[0x22, 0x00]);
    assert_eq!(cpu.cycle(), Ok(()));
    assert_eq!(cpu.cycle(), Err(Fault::StackOverflow));
}

#[test]
fn call_and_return() {
    // Call a subroutine at 0x20A that sets V0 = 1 and returns; then draw the glyph of V0.
    let rom = [
        0x22, 0x0A, // call 0x20A
        0xF0, 0x29, // I = glyph of V0
        0xD1, 0x15, // draw at (V1, V1) = (0, 0)
        0x12, 0x06, // loop
        0x00, 0x00, // (unused)
        0x60, 0x01, // 0x20A: V0 = 1
        0x00, 0xEE, // return
    ];
    let mut cpu = machine_with(&rom);
    assert_eq!(cpu.cycle(), Ok(()));
    assert_glyph_at(cpu.get_buffer(), 0, 0, GLYPH_1);
}

#[test]
fn jump_past_memory_faults() {
    let mut cpu = machine_with(&[0x1F, 0xFF]);
    assert_eq!(cpu.cycle(), Err(Fault::ProgramCounterOutOfBounds));
}

#[test]
fn bcd_past_memory_faults() {
    let mut cpu = machine_with(&[0xAF, 0xFE, 0xF0, 0x33]);
    assert_eq!(cpu.cycle(), Err(Fault::MemoryOutOfBounds));
}

#[test]
fn index_overflow_faults() {
    let rom = [0x60, 0xFF, 0xAF, 0xFF, 0xF0, 0x1E, 0x12, 0x04];
    let mut cpu = machine_with(&rom);
    let mut result = Ok(());
    for _ in 0..100 {
        result = cpu.cycle();
        if result.is_err() {
            break;
        }
    }
    assert_eq!(result, Err(Fault::IndexOverflow));
}

#[test]
fn wait_for_key_then_store_it() {
    // V0 = key; then draw the glyph of V0.
    let rom = [0xF0, 0x0A, 0xF0, 0x29, 0xD1, 0x15, 0x12, 0x06];
    let mut cpu = machine_with(&rom);
    assert_eq!(cpu.cycle(), Ok(()));
    assert!(cpu.get_buffer().get().iter().all(|b| *b == 0));
    cpu.input(5, true);
    assert_eq!(cpu.cycle(), Ok(()));
    assert_glyph_at(cpu.get_buffer(), 0, 0, GLYPH_5);
}

#[test]
fn held_key_is_not_a_new_press() {
    let rom = [0xF0, 0x0A, 0xF0, 0x29, 0xD1, 0x15, 0x12, 0x06];
    let mut cpu = machine_with(&rom);
    cpu.input(5, true);
    cpu.check_keys();
    assert_eq!(cpu.cycle(), Ok(()));
    assert!(cpu.get_buffer().get().iter().all(|b| *b == 0));
}

#[test]
fn random_masked_with_zero_is_zero() {
    let rom = [0x60, 0x07, 0xC0, 0x00, 0xF0, 0x29, 0xD1, 0x15, 0x12, 0x08];
    let mut cpu = machine_with(&rom);
    assert_eq!(cpu.cycle(), Ok(()));
    assert_glyph_at(cpu.get_buffer(), 0, 0, GLYPH_0);
}

#[test]
fn store_and_load_registers_through_memory() {
    // V0..V2 = F0 90 F0, stored at 0x300; V0..V2 cleared; loaded back;
    // the loaded bytes are then stored at 0x310 and drawn from there.
    let rom = [
        0x60, 0xF0, 0x61, 0x90, 0x62, 0xF0, // V0..V2
        0xA3, 0x00, 0xF2, 0x55, // store at 0x300
        0x60, 0x00, 0x61, 0x00, 0x62, 0x00, // clear
        0xF2, 0x65, // load back
        0xA3, 0x10, 0xF2, 0x55, // store at 0x310
        0x63, 0x00, 0xD3, 0x33, // draw 3 rows from 0x310 at (0, 0)
        0x12, 0x1A,
    ];
    let mut cpu = machine_with(&rom);
    assert_eq!(cpu.cycle(), Ok(()));
    assert_eq!(cpu.cycle(), Ok(()));
    let px = pixels(cpu.get_buffer());
    assert_eq!(px[0][0..8].to_vec(), row_bits(0xF0));
    assert_eq!(px[1][0..8].to_vec(), row_bits(0x90));
    assert_eq!(px[2][0..8].to_vec(), row_bits(0xF0));
}

#[test]
fn bcd_digits() {
    // V0 = 159; BCD at 0x300; load V0..V2 back; draw glyphs of V0, V1, V2.
    let rom = [
        0x60, 0x9F, 0xA3, 0x00, 0xF0, 0x33, 0xF2, 0x65, // V0 = 1, V1 = 5, V2 = 9
        0x63, 0x00, 0x64, 0x00, // V3 = 0 (x), V4 = 0 (y)
        0xF0, 0x29, 0xD3, 0x45, // glyph of V0 at (0, 0)
        0x63, 0x08, 0xF1, 0x29, 0xD3, 0x45, // glyph of V1 at (8, 0)
        0x12, 0x16,
    ];
    let mut cpu = machine_with(&rom);
    assert_eq!(cpu.cycle(), Ok(()));
    assert_glyph_at(cpu.get_buffer(), 0, 0, GLYPH_1);
    assert_glyph_at(cpu.get_buffer(), 8, 0, GLYPH_5);
}

#[test]
fn add_with_carry_sets_flag() {
    // V0 = 0xFF, V1 = 0x01, V0 += V1 -> V0 = 0, VF = 1; V2 = VF; draw glyphs of V0 and V2.
    let rom = [
        0x60, 0xFF, 0x61, 0x01, 0x80, 0x14, 0x82, 0xF0, 0x6A, 0x00, 0x6B, 0x08,
        0xF0, 0x29, 0xDA, 0xA5, // glyph of V0 at (0, 0)
        0xF2, 0x29, 0xDB, 0xA5, // glyph of V2 at (8, 0)
        0x12, 0x14,
    ];
    let mut cpu = machine_with(&rom);
    assert_eq!(cpu.cycle(), Ok(()));
    assert_glyph_at(cpu.get_buffer(), 0, 0, GLYPH_0);
    assert_glyph_at(cpu.get_buffer(), 8, 0, GLYPH_1);
}

#[test]
fn set_and_get_pixel() {
    let mut fb = FrameBuffer::default();
    fb.set_pixel(3, 1, true);
    assert_eq!(fb.get_pixel(3, 1), 1);
    assert_eq!(fb.get_pixel(2, 1), 0);
    assert_eq!(fb.get()[(64 + 3) / 8], 0b0001_0000);
    fb.set_pixel(3, 1, false);
    assert_eq!(fb.get_pixel(3, 1), 0);
    fb.set_pixel(63, 31, true);
    assert_eq!(fb.get()[255], 1);
    fb.clear();
    assert_eq!(fb.get(), &[0u8; 256]);
}

#[test]
fn subtract_then_add_restores_register() {
    // V0 = 5, V1 = 7; V0 -= V1 (borrow: VF = 0); V0 += V1; draw glyph of V0 at (2*8, 0)
    // and the glyph of the flag left by the subtraction (kept in V2) at (0, 0).
    let rom = [
        0x60, 0x05, 0x61, 0x07, 0x80, 0x15, 0x82, 0xF0, 0x80, 0x14, 0x63, 0x00, 0x64, 0x08,
        0xF2, 0x29, 0xD3, 0x35, // glyph of V2 at (0, 0)
        0xF0, 0x29, 0xD4, 0x35, // glyph of V0 at (8, 0)
        0x12, 0x16,
    ];
    let mut cpu = machine_with(&rom);
    assert_eq!(cpu.cycle(), Ok(()));
    assert_glyph_at(cpu.get_buffer(), 0, 0, GLYPH_0);
    assert_glyph_at(cpu.get_buffer(), 8, 0, GLYPH_5);
}

#[test]
fn xor_twice_restores_register() {
    let rom = [
        0x60, 0x05, 0x61, 0x3C, 0x80, 0x13, 0x80, 0x13, // V0 ^= V1 twice
        0xF0, 0x29, 0xD2, 0x25, 0x12, 0x0C,
    ];
    let mut cpu = machine_with(&rom);
    assert_eq!(cpu.cycle(), Ok(()));
    assert_glyph_at(cpu.get_buffer(), 0, 0, GLYPH_5);
}

#[test]
fn shifts_set_flag_from_lost_bit() {
    // V0 = 0x81; V0 <<= 1 -> V0 = 0x02, VF = 1; keep VF in V3; V0 >>= 1 -> V0 = 1, VF = 0.
    let rom = [
        0x60, 0x81, 0x80, 0x0E, 0x83, 0xF0, 0x80, 0x06, 0x64, 0x00, 0x65, 0x08,
        0xF3, 0x29, 0xD4, 0x45, // glyph of V3 (1) at (0, 0)
        0xF0, 0x29, 0xD5, 0x45, // glyph of V0 (1) at (8, 0)
        0x12, 0x14,
    ];
    let mut cpu = machine_with(&rom);
    assert_eq!(cpu.cycle(), Ok(()));
    assert_glyph_at(cpu.get_buffer(), 0, 0, GLYPH_1);
    assert_glyph_at(cpu.get_buffer(), 8, 0, GLYPH_1);
}

#[test]
fn skip_on_register_compare() {
    // 5xy0 skips when Vx == Vy; 9xy0 skips when Vx != Vy.
    let rom = [
        0x60, 0x01, 0x61, 0x01, // V0 = 1, V1 = 1
        0x50, 0x10, // V0 == V1: skip
        0x60, 0x05, // (skipped)
        0x90, 0x00, // V0 == V0: no skip
        0x62, 0x00, // V2 = 0
        0xF0, 0x29, 0xD2, 0x25, 0x12, 0x10,
    ];
    let mut cpu = machine_with(&rom);
    assert_eq!(cpu.cycle(), Ok(()));
    assert_glyph_at(cpu.get_buffer(), 0, 0, GLYPH_1);

    let rom = [
        0x60, 0x01, 0x61, 0x02, // V0 = 1, V1 = 2
        0x50, 0x10, // V0 != V1: no skip
        0x60, 0x05, // V0 = 5
        0x90, 0x10, // V0 != V1: skip
        0x60, 0x01, // (skipped)
        0xF0, 0x29, 0xD2, 0x25, 0x12, 0x10,
    ];
    let mut cpu = machine_with(&rom);
    assert_eq!(cpu.cycle(), Ok(()));
    assert_glyph_at(cpu.get_buffer(), 0, 0, GLYPH_5);
}

#[test]
fn add_into_flag_register_keeps_carry() {
    // VF = 200, V1 = 100; VF += V1: the sum is written first, then the carry (1).
    let rom = [0x6F, 0xC8, 0x61, 0x64, 0x8F, 0x14, 0xFF, 0x29, 0xD0, 0x05, 0x12, 0x0A];
    let mut cpu = machine_with(&rom);
    assert_eq!(cpu.cycle(), Ok(()));
    assert_glyph_at(cpu.get_buffer(), 0, 0, GLYPH_1);
}

#[test]
fn shift_of_flag_register_keeps_lost_bit() {
    // VF = 3; VF >>= 1: the shifted value is written first, then the lost bit (1).
    let rom = [0x6F, 0x03, 0x8F, 0x06, 0xFF, 0x29, 0xD0, 0x05, 0x12, 0x08];
    let mut cpu = machine_with(&rom);
    assert_eq!(cpu.cycle(), Ok(()));
    assert_glyph_at(cpu.get_buffer(), 0, 0, GLYPH_1);
    // VF = 0x80; VF <<= 1: the lost bit (1) ends in VF.
    let rom = [0x6F, 0x80, 0x8F, 0x0E, 0xFF, 0x29, 0xD0, 0x05, 0x12, 0x08];
    let mut cpu = machine_with(&rom);
    assert_eq!(cpu.cycle(), Ok(()));
    assert_glyph_at(cpu.get_buffer(), 0, 0, GLYPH_1);
}

#[test]
fn draw_at_column_held_in_flag_register() {
    // VF = 8; I = glyph 0; draw one row at (VF, V0): the row lands at column 8.
    let rom = [0x6F, 0x08, 0xA0, 0x50, 0xDF, 0x01, 0x12, 0x06];
    let mut cpu = machine_with(&rom);
    assert_eq!(cpu.cycle(), Ok(()));
    let bytes = cpu.get_buffer().get();
    assert_eq!(bytes[0], 0x00);
    assert_eq!(bytes[1], 0xF0);
}

#[test]
fn delay_timer_counts_down_once_per_cycle() {
    let rom = [
        0x60, 0x05, // V0 = 5
        0xF0, 0x15, // delay = 5
        0xF1, 0x07, // V1 = delay
        0x31, 0x00, // skip the jump once the delay is 0
        0x12, 0x04, // back to reading the delay
        0xF1, 0x29, // I = glyph of V1
        0xD2, 0x25, // draw at (V2, V2)
        0x12, 0x0E,
    ];
    let mut cpu = machine_with(&rom);
    for _ in 0..5 {
        assert_eq!(cpu.cycle(), Ok(()));
        assert!(cpu.get_buffer().get().iter().all(|b| *b == 0));
    }
    assert_eq!(cpu.cycle(), Ok(()));
    assert_glyph_at(cpu.get_buffer(), 0, 0, GLYPH_0);
}

#[test]
fn fault_keeps_screen() {
    let rom = [0x60, 0x00, 0xF0, 0x29, 0xD0, 0x05, 0x00, 0xEE];
    let mut cpu = machine_with(&rom);
    assert_eq!(cpu.cycle(), Err(Fault::StackUnderflow));
    assert_glyph_at(cpu.get_buffer(), 0, 0, GLYPH_0);
    // The machine stays at the faulting instruction.
    assert_eq!(cpu.cycle(), Err(Fault::StackUnderflow));
}

#[test]
fn decode_splits_opcode() {
    let cpu = Chip8::default();
    let ins = cpu.decode(0xD12F);
    assert_eq!((ins.group, ins.x, ins.y, ins.N, ins.kk, ins.nnn), (0xD, 0x1, 0x2, 0xF, 0x2F, 0x12F));
}

#[test]
fn sprite_is_clipped_at_bottom_edge() {
    let rom = [0x60, 0x00, 0x61, 0x1E, 0xF0, 0x29, 0xD0, 0x15, 0x12, 0x08];
    let mut cpu = machine_with(&rom);
    assert_eq!(cpu.cycle(), Ok(()));
    let px = pixels(cpu.get_buffer());
    assert_eq!(px[30][0..8].to_vec(), row_bits(0xF0));
    assert_eq!(px[31][0..8].to_vec(), row_bits(0x90));
    // Nothing wraps to the top.
    assert!(px[0].iter().all(|p| *p == 0));
}

#[test]
fn sprite_rows_read_stop_one_past_bottom_edge() {
    // At row 31 a 5-row sprite reads two rows (0xFFE, 0xFFF): in memory.
    let rom = [0x60, 0x00, 0x61, 0x1F, 0xAF, 0xFE, 0xD0, 0x15, 0x12, 0x08];
    let mut cpu = machine_with(&rom);
    assert_eq!(cpu.cycle(), Ok(()));
    // At row 30 it reads three rows, the last one past the end of memory.
    let rom = [0x60, 0x00, 0x61, 0x1E, 0xAF, 0xFE, 0xD0, 0x15, 0x12, 0x08];
    let mut cpu = machine_with(&rom);
    assert_eq!(cpu.cycle(), Err(Fault::MemoryOutOfBounds));
}

#[test]
fn store_registers_at_end_of_memory() {
    let mut cpu = machine_with(&[0xAF, 0xFF, 0xF0, 0x55, 0x12, 0x04]);
    assert_eq!(cpu.cycle(), Ok(()));
    let mut cpu = machine_with(&[0xAF, 0xFF, 0xF1, 0x55, 0x12, 0x04]);
    assert_eq!(cpu.cycle(), Err(Fault::MemoryOutOfBounds));
    let mut cpu = machine_with(&[0xAF, 0xFF, 0xF1, 0x65, 0x12, 0x04]);
    assert_eq!(cpu.cycle(), Err(Fault::MemoryOutOfBounds));
}
