use contribution_wallpaper::clock::today_row;
use contribution_wallpaper::pacing::RenderState;

const SEC: u128 = 1_000_000_000;

#[test]
fn new_state_starts_at_zero() {
    let s = RenderState::new();
    assert_eq!(s.redraw_count, 0);
    assert_eq!(s.total_frames, 0);
    assert_eq!(s.start_time, 0);
    assert_eq!(s.last_fps_check, 0);
}

#[test]
fn frame_rate_is_reported_once_a_second() {
    let mut s = RenderState::new();
    assert_eq!(s.count_redraw(SEC / 2), None);
    assert_eq!(s.count_redraw(SEC / 2 + 1), None);
    assert_eq!(s.count_redraw(SEC), Some(3));
    assert_eq!(s.redraw_count, 0);
    assert_eq!(s.last_fps_check, SEC);
    assert_eq!(s.count_redraw(SEC + 10), None);
    assert_eq!(s.redraw_count, 1);
}

#[test]
fn first_frame_is_drawn_at_once() {
    let mut s = RenderState::new();
    let plan = s.plan_frame(10).unwrap();
    assert!(plan.redraw);
    assert_eq!(s.total_frames, 1);
    assert_eq!(plan.wake_at, SEC);
    // Waking early: nothing to draw, same wake-up time.
    let plan = s.plan_frame(SEC / 2).unwrap();
    assert!(!plan.redraw);
    assert_eq!(plan.wake_at, SEC);
    let plan = s.plan_frame(SEC).unwrap();
    assert!(plan.redraw);
    assert_eq!(plan.wake_at, 2 * SEC);
}

#[test]
fn schedule_restarts_when_far_behind() {
    let mut s = RenderState::new();
    s.plan_frame(0).unwrap();
    let now = 10 * SEC + 5;
    let plan = s.plan_frame(now).unwrap();
    assert!(plan.redraw);
    assert_eq!(s.start_time, now - SEC);
    assert_eq!(s.total_frames, 2);
    assert_eq!(plan.wake_at, now + SEC);
    // The restarted schedule goes on at the normal pace.
    let plan = s.plan_frame(now + SEC / 2).unwrap();
    assert!(!plan.redraw);
    assert_eq!(plan.wake_at, now + SEC);
    let plan = s.plan_frame(now + SEC).unwrap();
    assert!(plan.redraw);
    assert_eq!(plan.wake_at, now + 2 * SEC);
}

#[test]
fn wake_up_is_always_in_the_future() {
    let mut s = RenderState::new();
    for now in [0u128, 3, SEC - 1, SEC, 3 * SEC + 7, 4 * SEC, 40 * SEC, 40 * SEC + 1] {
        let plan = s.plan_frame(now).unwrap();
        assert!(plan.wake_at > now);
    }
}

#[test]
fn schedule_out_of_range_is_refused() {
    let mut s = RenderState::new();
    s.total_frames = u64::MAX - 2;
    assert!(s.plan_frame(0).is_none());
    assert_eq!(s.total_frames, u64::MAX - 2);
}

#[test]
fn today_is_a_weekday_row() {
    assert!(today_row() < 7);
}
