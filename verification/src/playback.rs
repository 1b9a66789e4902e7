use vstd::prelude::*;

verus! {

/// Interval between playback ticks in milliseconds.
pub const PLAYBACK_TICK_MS: i64 = 50;

/// Initial render-clock lag behind the latest packet (approx. one CAM interval).
pub const ONLINE_LAG_INIT_MS: i64 = 100;

/// Snap forward if the render clock lags more than this behind the latest packet.
pub const ONLINE_LAG_MAX_MS: i64 = 500;

/// Interval between online render ticks in milliseconds.
pub const ONLINE_TICK_MS: i64 = 50;

/// `a - b` clamped to the range of `i64` (`saturating_sub`).
pub open spec fn sat_sub_spec(a: int, b: int) -> int {
    if a - b < i64::MIN { i64::MIN as int } else if a - b > i64::MAX { i64::MAX as int } else { a - b }
}

/// `a - b`, saturating at the bounds of `i64`.
pub fn sat_sub(a: i64, b: i64) -> (res: i64)
    ensures
        res == sat_sub_spec(a as int, b as int),
{
    if b >= 0 {
        if a < i64::MIN + b { i64::MIN } else { a - b }
    } else {
        if a > i64::MAX + b { i64::MAX } else { a - b }
    }
}

/// The timestamps are in non-decreasing order.
pub open spec fn sorted(ts: Seq<i64>) -> bool {
    forall|i: int, j: int| 0 <= i <= j < ts.len() ==> ts[i] <= ts[j]
}

/// `idx` is the timeline segment active at `t`: the last sample not later than `t`
/// (the first sample when `t` precedes the whole timeline).
pub open spec fn is_active_segment(ts: Seq<i64>, t: int, idx: int) -> bool {
    &&& 0 <= idx < ts.len()
    &&& idx > 0 ==> ts[idx] <= t
    &&& idx + 1 < ts.len() ==> ts[idx + 1] > t
}

/// Index of the timeline segment active at `t` (the sample whose state is shown and from
/// which the position is interpolated towards the next one); `None` for an empty timeline.
pub fn active_segment(ts: &Vec<i64>, t: i64) -> (res: Option<usize>)
    requires
        sorted(ts@),
    ensures
        res is None <==> ts@.len() == 0,
        res matches Some(idx) ==> is_active_segment(ts@, t as int, idx as int),
{
    if ts.len() == 0 {
        return None;
    }
    // partition point: number of samples not later than `t`
    let mut lo: usize = 0;
    let mut hi: usize = ts.len();
    while lo < hi
        invariant
            0 <= lo <= hi <= ts@.len(),
            sorted(ts@),
            forall|i: int| 0 <= i < lo ==> ts@[i] <= t,
            forall|i: int| hi <= i < ts@.len() ==> ts@[i] > t,
        decreases hi - lo,
    {
        let mid: usize = lo + (hi - lo) / 2;
        if ts[mid] <= t {
            lo = mid + 1;
        } else {
            hi = mid;
        }
    }
    let idx: usize = if lo == 0 { 0 } else { lo - 1 };
    Some(idx)
}

/// The active segment is determined by the timeline and the time.
pub proof fn lemma_active_segment_unique(ts: Seq<i64>, t: int, a: int, b: int)
    requires
        sorted(ts),
        is_active_segment(ts, t, a),
        is_active_segment(ts, t, b),
    ensures
        a == b,
{
    if a < b {
        assert(ts[a + 1] > t);
        assert(ts[a + 1] <= ts[b]);
    } else if b < a {
        assert(ts[b + 1] > t);
        assert(ts[b + 1] <= ts[a]);
    }
}

/// Outcome of one playback tick.
#[derive(Clone, Copy, PartialEq, Eq, Debug, Structural)]
pub enum PlaybackStep {
    /// The loop ends without touching the clock (paused, superseded or no timeline).
    Exit,
    /// The clock moves to the given time and playback continues.
    Advance(i64),
    /// The clock reaches the end of the timeline and playback stops.
    Finish(i64),
}

/// One tick of the playback loop: a loop that is paused, superseded by a newer loop
/// (`generation != my_generation`) or without a timeline exits; otherwise the clock advances
/// by `speed` ticks' worth of time, clamped to the timeline's end, where playback stops.
pub fn playback_step(
    playing: bool,
    generation: u32,
    my_generation: u32,
    end_ts: Option<i64>,
    time_ms: i64,
    speed: u32,
) -> (res: PlaybackStep)
    requires
        time_ms + speed * PLAYBACK_TICK_MS <= i64::MAX,
    ensures
        !playing || generation != my_generation || end_ts is None ==> res == PlaybackStep::Exit,
        playing && generation == my_generation && end_ts is Some ==> ({
            let end: int = end_ts->0 as int;
            let target: int = time_ms + speed * PLAYBACK_TICK_MS;
            if target >= end {
                res == PlaybackStep::Finish(end as i64)
            } else {
                res == PlaybackStep::Advance(target as i64)
            }
        }),
{
    if !playing || generation != my_generation {
        return PlaybackStep::Exit;
    }
    match end_ts {
        None => PlaybackStep::Exit,
        Some(end) => {
            let advance: i64 = speed as i64 * PLAYBACK_TICK_MS;
            let target: i64 = time_ms + advance;
            let new_time: i64 = if target < end { target } else { end };
            if new_time >= end {
                PlaybackStep::Finish(new_time)
            } else {
                PlaybackStep::Advance(new_time)
            }
        },
    }
}

/// Advances the online render clock by one tick, clamped to the latest packet timestamp.
/// Snaps to just behind the latest packet when the clock is unset (0) or fell more than
/// `ONLINE_LAG_MAX_MS` behind (e.g. vehicle switch or throttled tab).
pub fn advance_online_clock(cur: i64, latest_ts: i64) -> (res: i64)
    requires
        cur <= i64::MAX - ONLINE_TICK_MS,
    ensures
        res == if cur == 0 || cur < sat_sub_spec(latest_ts as int, ONLINE_LAG_MAX_MS as int) {
            sat_sub_spec(latest_ts as int, ONLINE_LAG_INIT_MS as int)
        } else if cur + ONLINE_TICK_MS < latest_ts {
            cur + ONLINE_TICK_MS
        } else {
            latest_ts as int
        },
        res <= latest_ts,
{
    let lower: i64 = sat_sub(latest_ts, ONLINE_LAG_MAX_MS);
    if cur == 0 || cur < lower {
        return sat_sub(latest_ts, ONLINE_LAG_INIT_MS);
    }
    let next: i64 = cur + ONLINE_TICK_MS;
    if next < latest_ts { next } else { latest_ts }
}

/// State of the Play/Pause control after a press.
#[derive(Clone, Copy, PartialEq, Eq, Debug, Structural)]
pub struct PlayPress {
    pub playing: bool,
    pub time_ms: i64,
    pub generation: u32,
    /// A new playback loop must be started with `generation`.
    pub spawn_loop: bool,
}

/// The Play/Pause button: pressing while playing pauses; otherwise playback restarts from the
/// first sample when the clock already sits at the end, the loop generation advances
/// (wrapping) so that older loops stop, and a new loop is started.
pub fn press_play(
    playing: bool,
    time_ms: i64,
    generation: u32,
    first_ts: Option<i64>,
    last_ts: Option<i64>,
) -> (res: PlayPress)
    ensures
        playing ==> res == (PlayPress { playing: false, time_ms, generation, spawn_loop: false }),
        !playing ==> ({
            let at_end: bool = last_ts matches Some(l) && time_ms >= l;
            let start: i64 = match first_ts { Some(f) => f, None => 0 };
            res == (PlayPress {
                playing: true,
                time_ms: if at_end { start } else { time_ms },
                generation: if generation == u32::MAX { 0 } else { (generation + 1) as u32 },
                spawn_loop: true,
            })
        }),
{
    if playing {
        return PlayPress { playing: false, time_ms, generation, spawn_loop: false };
    }
    let at_end: bool = match last_ts {
        Some(l) => time_ms >= l,
        None => false,
    };
    let time: i64 = if at_end { restart_time(first_ts) } else { time_ms };
    let next_gen: u32 = generation.wrapping_add(1);
    proof {
        assert(next_gen == if generation == u32::MAX { 0 } else { (generation + 1) as u32 });
    }
    PlayPress { playing: true, time_ms: time, generation: next_gen, spawn_loop: true }
}

/// Playback restarts at the first sample of the timeline (0 without one).
pub fn restart_time(first_ts: Option<i64>) -> (res: i64)
    ensures
        res == match first_ts { Some(f) => f, None => 0 },
{
    match first_ts {
        Some(f) => f,
        None => 0,
    }
}

} // verus!
