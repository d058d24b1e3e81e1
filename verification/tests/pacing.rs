use chip8_core::pacing::{frame_after_redraw, frame_tick, FRAME_NS};

#[test]
fn frame_tick_moves_deadline_by_one_frame() {
    assert_eq!(FRAME_NS, 16_666_666);
    assert_eq!(frame_tick(100, 150, 16), (116, true));
    assert_eq!(frame_tick(100, 100, 16), (116, true));
    assert_eq!(frame_tick(100, 99, 16), (100, false));
}

#[test]
fn late_redraw_schedules_from_now() {
    assert_eq!(frame_after_redraw(100, 150, 16), (166, true));
    assert_eq!(frame_after_redraw(100, 99, 16), (100, false));
}
