use cites_ui::order::{sorted_copy, stable_order};
use cites_ui::playback::{
    active_segment, advance_online_clock, playback_step, press_play, restart_time, sat_sub, PlayPress, PlaybackStep,
};

#[test]
fn sat_sub_saturates() {
    assert_eq!(sat_sub(5, 7), -2);
    assert_eq!(sat_sub(i64::MIN, 1), i64::MIN);
    assert_eq!(sat_sub(i64::MAX, -1), i64::MAX);
}

#[test]
fn active_segment_is_last_sample_not_after_time() {
    let ts = vec![100_i64, 200, 200, 300];
    assert_eq!(active_segment(&ts, 50), Some(0));
    assert_eq!(active_segment(&ts, 100), Some(0));
    assert_eq!(active_segment(&ts, 250), Some(2));
    assert_eq!(active_segment(&ts, 300), Some(3));
    assert_eq!(active_segment(&ts, 1_000), Some(3));
    assert_eq!(active_segment(&Vec::new(), 5), None);
}

#[test]
fn playback_step_advances_and_finishes() {
    assert_eq!(playback_step(true, 3, 3, Some(1_000), 0, 2), PlaybackStep::Advance(100));
    assert_eq!(playback_step(true, 3, 3, Some(1_000), 950, 1), PlaybackStep::Finish(1_000));
    assert_eq!(playback_step(true, 3, 3, Some(1_000), 900, 100), PlaybackStep::Finish(1_000));
}

#[test]
fn playback_step_exits_when_stale_or_paused() {
    assert_eq!(playback_step(false, 3, 3, Some(1_000), 0, 1), PlaybackStep::Exit);
    assert_eq!(playback_step(true, 4, 3, Some(1_000), 0, 1), PlaybackStep::Exit);
    assert_eq!(playback_step(true, 3, 3, None, 0, 1), PlaybackStep::Exit);
}

#[test]
fn press_play_pauses_and_restarts() {
    assert_eq!(
        press_play(true, 500, 7, Some(100), Some(900)),
        PlayPress { playing: false, time_ms: 500, generation: 7, spawn_loop: false }
    );
    assert_eq!(
        press_play(false, 500, 7, Some(100), Some(900)),
        PlayPress { playing: true, time_ms: 500, generation: 8, spawn_loop: true }
    );
    assert_eq!(
        press_play(false, 900, u32::MAX, Some(100), Some(900)),
        PlayPress { playing: true, time_ms: 100, generation: 0, spawn_loop: true }
    );
}

#[test]
fn restart_time_is_first_sample() {
    assert_eq!(restart_time(Some(42)), 42);
    assert_eq!(restart_time(None), 0);
}

#[test]
fn online_clock_snaps_and_ticks() {
    assert_eq!(advance_online_clock(0, 10_000), 9_900);
    assert_eq!(advance_online_clock(9_000, 10_000), 9_900);
    assert_eq!(advance_online_clock(9_600, 10_000), 9_650);
    assert_eq!(advance_online_clock(9_980, 10_000), 10_000);
}

#[test]
fn stable_order_sorts_keys_keeping_ties() {
    let keys = vec![3_u64, 1, 3, 0, 1];
    assert_eq!(stable_order(&keys), vec![3, 1, 4, 0, 2]);
}

#[test]
fn sorted_copy_sorts() {
    let v = vec![5_i64, -3, 5, 0, i64::MIN];
    let mut expected = v.clone();
    expected.sort();
    assert_eq!(sorted_copy(&v), expected);
}
