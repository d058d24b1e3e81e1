# chip8_core

A CHIP-8 interpreter core written in Verus, with a small windowed front end.

- `src/model.rs` — the machine state as plain values (`CpuState`), opcode
  decoding, and the effect of every instruction, of a fetch-decode-execute
  step and of a whole cycle.
- `src/lib.rs` — `Chip8`: power-on state, `cycle`, key input, ROM loading.
- `src/instructions.rs` — the instruction implementations, each proved
  against its specification in `model.rs`.
- `src/framebuffer.rs` — the packed 64x32 screen and its pixel operations.
- `src/drawing.rs` — the proof that the pixel-by-pixel drawing loops give the
  sprite XOR-ed onto the screen, as the model states Dxyn.
- `src/laws.rs` — properties proved over the model: sprite drawing is an XOR
  onto the screen, call/return, BCD, register store/load,
  preservation of well-formedness, and more.
- `src/display.rs` — scaling the screen into a window buffer; keypad layout.
- `src/pacing.rs` — frame pacing: when the next frame is due.
- `src/rng.rs` — the random-byte source for the Cxkk instruction (`rand`).
- `app/` — the window, event loop, frame timing and file reading
  (`winit`, `softbuffer`).

A program that executes an instruction the machine cannot carry out (an
unknown opcode, a return with an empty stack, a call with a full stack,
memory access past 4 KiB, an index overflow) makes `cycle` return a `Fault`
with the machine left as it was before that instruction; the front end then
stops with a message.
