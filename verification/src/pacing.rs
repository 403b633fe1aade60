//! Frame pacing and frame-rate counting of the render loop. Times are
//! nanoseconds since the moment the render state was created.
use vstd::prelude::*;

verus! {

/// Frames drawn per second at most.
pub const MAX_FPS: u64 = 1;

/// Nanoseconds in a second.
pub const NANOS_PER_SEC: u64 = 1_000_000_000;

/// Frames the clock may fall behind before the schedule is restarted.
pub const MAX_FRAMES_BEHIND: u64 = 5;

/// The length of one frame, in nanoseconds.
pub open spec fn frame_nanos() -> int {
    (NANOS_PER_SEC / MAX_FPS) as int
}

/// Frame scheduling and frame-rate counting.
pub struct RenderState {
    /// When the frame rate was last reported.
    pub last_fps_check: u128,
    /// Redraws since the frame rate was last reported.
    pub redraw_count: u32,
    /// When frame 0 was (or would have been) due.
    pub start_time: u128,
    /// Frames scheduled so far.
    pub total_frames: u64,
}

/// What the render loop does before waiting for the next event.
pub struct FramePlan {
    /// Whether a redraw is requested now.
    pub redraw: bool,
    /// When the loop wakes up next.
    pub wake_at: u128,
}

/// The time elapsed from `from` to `to`, zero when `to` is earlier.
pub open spec fn elapsed(from: int, to: int) -> int {
    if to >= from {
        to - from
    } else {
        0
    }
}

/// The frame due at time `now` for a schedule starting at `start` (truncated to 64 bits).
pub open spec fn expected_frame(start: int, now: int) -> int {
    (elapsed(start, now) / frame_nanos()) as u64 as int
}

/// The start of the schedule after time `now`: restarted so that the frames
/// scheduled so far end at `now` when the clock has fallen more than
/// `MAX_FRAMES_BEHIND` frames behind them.
pub open spec fn next_start(start: int, total: int, now: int) -> int {
    if expected_frame(start, now) > total + MAX_FRAMES_BEHIND {
        now - total * frame_nanos()
    } else {
        start
    }
}

/// The frame due at time `now` on the schedule as it stands after time `now`.
pub open spec fn due_frame(start: int, total: int, now: int) -> int {
    expected_frame(next_start(start, total, now), now)
}

/// Whether a redraw is requested at time `now`: the due frame, counted on the
/// schedule after any restart, has caught up with the frames scheduled.
pub open spec fn redraw_due(start: int, total: int, now: int) -> bool {
    due_frame(start, total, now) >= total
}

/// The frames scheduled after time `now`: one past the due frame when a
/// redraw is requested.
pub open spec fn next_total(start: int, total: int, now: int) -> int {
    if redraw_due(start, total, now) {
        due_frame(start, total, now) + 1
    } else {
        total
    }
}

/// Whether planning at time `now` stays within the integer ranges.
pub open spec fn plan_in_range(start: int, total: int, now: int) -> bool {
    &&& total + MAX_FRAMES_BEHIND <= u64::MAX
    &&& expected_frame(start, now) > total + MAX_FRAMES_BEHIND ==> total * frame_nanos() <= u64::MAX
    &&& redraw_due(start, total, now) ==> due_frame(start, total, now) + 1 <= u64::MAX
    &&& next_total(start, total, now) * frame_nanos() <= u64::MAX
    &&& next_start(start, total, now) + next_total(start, total, now) * frame_nanos() <= u128::MAX
}

/// Facts about the frame due at `now` on a schedule that starts at `start`.
proof fn lemma_frame_bounds(start: int, now: int)
    requires
        0 <= start <= now,
        elapsed(start, now) / frame_nanos() <= u64::MAX,
    ensures
        expected_frame(start, now) == (now - start) / frame_nanos(),
        expected_frame(start, now) * frame_nanos() <= now - start < (expected_frame(start, now) + 1) * frame_nanos(),
{
    let e = (now - start) / frame_nanos();
    assert(e * frame_nanos() <= now - start < (e + 1) * frame_nanos()) by (nonlinear_arith)
        requires
            e == (now - start) / 1_000_000_000,
            now - start >= 0,
            frame_nanos() == 1_000_000_000,
    ;
}

/// The render loop never schedules its wake-up in the past: after planning
/// at time `now`, the next frame is due strictly later. When a redraw is
/// requested, the next frame is due within one frame; in particular, after
/// the schedule is restarted because the clock fell too far behind, it goes
/// on at the normal pace: the next frame is due exactly one frame after `now`.
pub proof fn lemma_wakes_after_now(start: int, total: int, now: int)
    requires
        0 <= start <= now,
        0 <= total,
        elapsed(start, now) / frame_nanos() <= u64::MAX,
    ensures
        next_start(start, total, now) + next_total(start, total, now) * frame_nanos() > now,
        redraw_due(start, total, now) ==> next_start(start, total, now) + next_total(start, total, now)
            * frame_nanos() <= now + frame_nanos(),
        expected_frame(start, now) > total + MAX_FRAMES_BEHIND ==> {
            &&& redraw_due(start, total, now)
            &&& next_start(start, total, now) + next_total(start, total, now) * frame_nanos() == now + frame_nanos()
        },
{
    lemma_frame_bounds(start, now);
    let e = expected_frame(start, now);
    let s2 = next_start(start, total, now);
    if e > total + MAX_FRAMES_BEHIND {
        assert(total * frame_nanos() <= e * frame_nanos()) by (nonlinear_arith)
            requires
                e > total,
                total >= 0,
                frame_nanos() == 1_000_000_000,
        ;
        assert(s2 == now - total * frame_nanos());
        assert(start <= s2);
        assert(elapsed(s2, now) == total * frame_nanos());
        assert((total * frame_nanos()) / frame_nanos() == total) by (nonlinear_arith)
            requires
                frame_nanos() == 1_000_000_000,
        ;
        assert(total <= u64::MAX);
        assert(due_frame(start, total, now) == total);
        assert((total + 1) * frame_nanos() == total * frame_nanos() + frame_nanos()) by (nonlinear_arith);
    } else {
        assert(s2 == start);
        let d = e;
        if d >= total {
            assert((d + 1) * frame_nanos() == d * frame_nanos() + frame_nanos()) by (nonlinear_arith);
        } else {
            assert(total * frame_nanos() >= (d + 1) * frame_nanos()) by (nonlinear_arith)
                requires
                    d < total,
                    frame_nanos() == 1_000_000_000,
            ;
        }
    }
}

impl RenderState {
    /// A fresh state at time 0: nothing drawn, nothing scheduled.
    pub fn new() -> (s: Self)
        ensures
            s.last_fps_check == 0,
            s.redraw_count == 0,
            s.start_time == 0,
            s.total_frames == 0,
    {
        RenderState { last_fps_check: 0, redraw_count: 0, start_time: 0, total_frames: 0 }
    }

    /// Counts a redraw at time `now`. Once a second has passed since the last
    /// report, returns the number of redraws to report and starts counting anew.
    pub fn count_redraw(&mut self, now: u128) -> (report: Option<u32>)
        requires
            old(self).redraw_count < u32::MAX,
        ensures
            final(self).start_time == old(self).start_time,
            final(self).total_frames == old(self).total_frames,
            elapsed(old(self).last_fps_check as int, now as int) >= NANOS_PER_SEC ==> {
                &&& report == Some((old(self).redraw_count + 1) as u32)
                &&& final(self).redraw_count == 0
                &&& final(self).last_fps_check == now
            },
            elapsed(old(self).last_fps_check as int, now as int) < NANOS_PER_SEC ==> {
                &&& report is None
                &&& final(self).redraw_count == old(self).redraw_count + 1
                &&& final(self).last_fps_check == old(self).last_fps_check
            },
    {
        self.redraw_count = self.redraw_count + 1;
        let since = if now >= self.last_fps_check {
            now - self.last_fps_check
        } else {
            0
        };
        if since >= NANOS_PER_SEC as u128 {
            let count = self.redraw_count;
            self.redraw_count = 0;
            self.last_fps_check = now;
            Some(count)
        } else {
            None
        }
    }

    /// Plans the next frame at time `now`: restarts the schedule when the
    /// clock has fallen too far behind (so that it does not fast-forward),
    /// requests a redraw once the frame due on the schedule has caught up with
    /// the frames scheduled, and wakes up when the next frame is due.
    ///
    /// `None`, with the state unchanged, when the schedule leaves the integer
    /// ranges.
    pub fn plan_frame(&mut self, now: u128) -> (plan: Option<FramePlan>)
        ensures
            final(self).last_fps_check == old(self).last_fps_check,
            final(self).redraw_count == old(self).redraw_count,
            plan_in_range(old(self).start_time as int, old(self).total_frames as int, now as int) ==> {
                let start = next_start(old(self).start_time as int, old(self).total_frames as int, now as int);
                let total = next_total(old(self).start_time as int, old(self).total_frames as int, now as int);
                &&& plan matches Some(p)
                &&& p.redraw == redraw_due(old(self).start_time as int, old(self).total_frames as int, now as int)
                &&& final(self).start_time == start
                &&& final(self).total_frames == total
                &&& p.wake_at == start + total * frame_nanos()
            },
            !plan_in_range(old(self).start_time as int, old(self).total_frames as int, now as int) ==> {
                &&& plan is None
                &&& final(self).start_time == old(self).start_time
                &&& final(self).total_frames == old(self).total_frames
            },
    {
        let frame_duration_nanos: u64 = NANOS_PER_SEC / MAX_FPS;
        let elapsed_nanos: u128 = if now >= self.start_time {
            now - self.start_time
        } else {
            0
        };
        let expected = (elapsed_nanos / frame_duration_nanos as u128) as u64;
        assert(expected == expected_frame(self.start_time as int, now as int));
        let total = self.total_frames;
        if total > u64::MAX - MAX_FRAMES_BEHIND {
            return None;
        }
        let mut start = self.start_time;
        if expected > total + MAX_FRAMES_BEHIND {
            if total > u64::MAX / frame_duration_nanos {
                return None;
            }
            let back = (total * frame_duration_nanos) as u128;
            assert(elapsed_nanos >= back) by (nonlinear_arith)
                requires
                    elapsed_nanos / 1_000_000_000 >= expected,
                    expected > total,
                    back == total * 1_000_000_000,
            ;
            start = now - back;
        }
        assert(start == next_start(self.start_time as int, total as int, now as int));
        let since_start: u128 = if now >= start {
            now - start
        } else {
            0
        };
        let due = (since_start / frame_duration_nanos as u128) as u64;
        assert(due == due_frame(self.start_time as int, total as int, now as int));
        let mut new_total = total;
        let redraw = due >= total;
        if redraw {
            if due == u64::MAX {
                return None;
            }
            new_total = due + 1;
        }
        if new_total > u64::MAX / frame_duration_nanos {
            return None;
        }
        let ahead = (new_total * frame_duration_nanos) as u128;
        if start > u128::MAX - ahead {
            return None;
        }
        self.start_time = start;
        self.total_frames = new_total;
        Some(FramePlan { redraw, wake_at: start + ahead })
    }
}

} // verus!
