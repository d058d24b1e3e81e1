//! Frame pacing: when the next frame is due and whether to redraw now.
//! Times are nanoseconds from a fixed starting instant.

use vstd::prelude::*;

verus! {

/// Nanoseconds per displayed frame (60 frames per second).
pub const FRAME_NS: u64 = 1_000_000_000 / 60;

/// On waking the event loop at `now_ns` with the next frame due at
/// `due_ns`: once the frame is due, the deadline moves on by one frame of
/// `frame_ns` and a redraw is requested; before that nothing changes.
pub fn frame_tick(due_ns: u64, now_ns: u64, frame_ns: u64) -> (r: (u64, bool))
    requires
        due_ns <= now_ns ==> due_ns + frame_ns <= u64::MAX,
    ensures
        r == if due_ns <= now_ns {
            ((due_ns + frame_ns) as u64, true)
        } else {
            (due_ns, false)
        },
{
    if due_ns <= now_ns {
        (due_ns + frame_ns, true)
    } else {
        (due_ns, false)
    }
}

/// After drawing a frame at `now_ns` with the next frame due at `due_ns`:
/// when drawing ran past the deadline, the next frame is due one frame of
/// `frame_ns` from now and another redraw is requested; otherwise nothing
/// changes.
pub fn frame_after_redraw(due_ns: u64, now_ns: u64, frame_ns: u64) -> (r: (u64, bool))
    requires
        due_ns <= now_ns ==> now_ns + frame_ns <= u64::MAX,
    ensures
        r == if due_ns <= now_ns {
            ((now_ns + frame_ns) as u64, true)
        } else {
            (due_ns, false)
        },
{
    if due_ns <= now_ns {
        (now_ns + frame_ns, true)
    } else {
        (due_ns, false)
    }
}

} // verus!
