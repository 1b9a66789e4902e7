use vstd::prelude::*;
use crate::analysis::VehicleRow;
use crate::order::{is_stable_order, stable_order};
use crate::text::{contains_string, dec, prefixed_number, push_str};

verus! {

/// Number of colours in the chart palette.
pub const CHART_COLOR_COUNT: usize = 20;

/// The `i`-th colour of the chart palette (tab20).
pub open spec fn chart_palette(i: int) -> Seq<char> {
    if i == 0 { "#1f77b4"@ } else if i == 1 { "#ff7f0e"@ } else if i == 2 { "#2ca02c"@ }
    else if i == 3 { "#d62728"@ } else if i == 4 { "#9467bd"@ } else if i == 5 { "#8c564b"@ }
    else if i == 6 { "#e377c2"@ } else if i == 7 { "#7f7f7f"@ } else if i == 8 { "#bcbd22"@ }
    else if i == 9 { "#17becf"@ } else if i == 10 { "#aec7e8"@ } else if i == 11 { "#ffbb78"@ }
    else if i == 12 { "#98df8a"@ } else if i == 13 { "#ff9896"@ } else if i == 14 { "#c5b0d5"@ }
    else if i == 15 { "#c49c94"@ } else if i == 16 { "#f7b6d2"@ } else if i == 17 { "#c7c7c7"@ }
    else if i == 18 { "#dbdb8d"@ } else { "#9edae5"@ }
}

/// Colour of the `i`-th series of a chart: the palette repeats.
pub fn chart_color(i: usize) -> (res: &'static str)
    ensures
        res@ == chart_palette((i % CHART_COLOR_COUNT) as int),
{
    let k: usize = i % CHART_COLOR_COUNT;
    if k == 0 { "#1f77b4" } else if k == 1 { "#ff7f0e" } else if k == 2 { "#2ca02c" }
    else if k == 3 { "#d62728" } else if k == 4 { "#9467bd" } else if k == 5 { "#8c564b" }
    else if k == 6 { "#e377c2" } else if k == 7 { "#7f7f7f" } else if k == 8 { "#bcbd22" }
    else if k == 9 { "#17becf" } else if k == 10 { "#aec7e8" } else if k == 11 { "#ffbb78" }
    else if k == 12 { "#98df8a" } else if k == 13 { "#ff9896" } else if k == 14 { "#c5b0d5" }
    else if k == 15 { "#c49c94" } else if k == 16 { "#f7b6d2" } else if k == 17 { "#c7c7c7" }
    else if k == 18 { "#dbdb8d" } else { "#9edae5" }
}

/// `x / 4` rounded toward zero (Rust's integer division).
pub open spec fn quarter(x: int) -> int {
    if x >= 0 { x / 4 } else { -((-x) / 4) }
}

proof fn lemma_quarter_bounds(i: int, span: int)
    requires
        0 <= i <= 4,
    ensures
        span >= 0 ==> 0 <= quarter(i * span) <= span,
        span < 0 ==> span <= quarter(i * span) <= 0,
{
    if span >= 0 {
        assert(0 <= i * span <= 4 * span) by (nonlinear_arith)
            requires 0 <= i <= 4, span >= 0;
    } else {
        assert(4 * span <= i * span <= 0) by (nonlinear_arith)
            requires 0 <= i <= 4, span < 0;
    }
}

/// The five time-axis ticks of a chart: `min + i * (max - min) / 4` for `i` in `0..=4`.
pub fn time_ticks(min_ms: i64, max_ms: i64) -> (res: Vec<i64>)
    requires
        -(i64::MAX / 4) <= max_ms - min_ms <= i64::MAX / 4,
    ensures
        res@.len() == 5,
        forall|i: int| 0 <= i < 5 ==> #[trigger] res@[i] == min_ms + quarter(i * (max_ms - min_ms)),
{
    let span: i64 = max_ms - min_ms;
    let mut res: Vec<i64> = Vec::new();
    let mut i: i64 = 0;
    while i <= 4
        invariant
            0 <= i <= 5,
            span == max_ms - min_ms,
            -(i64::MAX / 4) <= span <= i64::MAX / 4,
            res@.len() == i,
            forall|k: int| 0 <= k < i ==> #[trigger] res@[k] == min_ms + quarter(k * (max_ms - min_ms)),
        decreases 5 - i,
    {
        assert(-i64::MAX <= i * span <= i64::MAX) by (nonlinear_arith)
            requires
                0 <= i <= 4,
                -(i64::MAX / 4) <= span <= i64::MAX / 4,
        ;
        let prod: i64 = i * span;
        let q: i64 = prod / 4;
        assert(q == quarter(prod as int));
        proof { lemma_quarter_bounds(i as int, span as int); }
        res.push(min_ms + q);
        i = i + 1;
    }
    res
}

/// Step by which a long series is thinned to about `cap` drawn samples: `len / cap`, at
/// least 1.
pub fn sample_stride(len: usize, cap: usize) -> (res: usize)
    requires
        cap > 0,
    ensures
        res == if len / cap > 1 { len / cap } else { 1 },
{
    let s: usize = len / cap;
    if s > 1 { s } else { 1 }
}

/// The first `limit` MACs of `mac_order` that occur in `event_macs`.
pub open spec fn macs_with_data_spec(mac_order: Seq<Seq<char>>, event_macs: Seq<Seq<char>>, limit: nat) -> Seq<Seq<char>>
    decreases mac_order.len(),
{
    if mac_order.len() == 0 {
        Seq::empty()
    } else {
        let r: Seq<Seq<char>> = macs_with_data_spec(mac_order.drop_last(), event_macs, limit);
        if r.len() < limit && event_macs.contains(mac_order.last()) { r.push(mac_order.last()) } else { r }
    }
}

proof fn lemma_macs_with_data_len(mac_order: Seq<Seq<char>>, event_macs: Seq<Seq<char>>, limit: nat)
    ensures
        macs_with_data_spec(mac_order, event_macs, limit).len() <= limit,
    decreases mac_order.len(),
{
    if mac_order.len() > 0 {
        lemma_macs_with_data_len(mac_order.drop_last(), event_macs, limit);
    }
}

/// The series a chart draws: the first `limit` MACs, in MAC order, that have events.
pub fn macs_with_data(mac_order: &Vec<String>, event_macs: &Vec<String>, limit: usize) -> (res: Vec<String>)
    ensures
        res.deep_view() == macs_with_data_spec(mac_order.deep_view(), event_macs.deep_view(), limit as nat),
{
    let mut res: Vec<String> = Vec::new();
    let mut i: usize = 0;
    while i < mac_order.len()
        invariant
            i <= mac_order@.len(),
            res.deep_view() == macs_with_data_spec(mac_order.deep_view().take(i as int), event_macs.deep_view(), limit as nat),
        decreases mac_order@.len() - i,
    {
        assert(mac_order.deep_view().take(i + 1).drop_last() =~= mac_order.deep_view().take(i as int));
        assert(mac_order.deep_view().take(i + 1).last() == mac_order@[i as int]@);
        if res.len() < limit && contains_string(event_macs, &mac_order[i]) {
            res.push(mac_order[i].clone());
            assert(res.deep_view() =~= macs_with_data_spec(mac_order.deep_view().take(i as int), event_macs.deep_view(), limit as nat).push(mac_order@[i as int]@));
        }
        i = i + 1;
    }
    assert(mac_order.deep_view().take(mac_order@.len() as int) =~= mac_order.deep_view());
    res
}

/// Positions of the events of `mac`, keeping every `stride`-th of them (`filter` + `step_by`).
pub open spec fn strided_spec(event_macs: Seq<Seq<char>>, mac: Seq<char>, stride: nat) -> Seq<usize>
    decreases event_macs.len(),
{
    if event_macs.len() == 0 {
        Seq::empty()
    } else {
        let r: Seq<usize> = strided_spec(event_macs.drop_last(), mac, stride);
        let seen: nat = count_of(event_macs.drop_last(), mac);
        if event_macs.last() == mac && seen % stride == 0 { r.push((event_macs.len() - 1) as usize) } else { r }
    }
}

/// Number of occurrences of `mac`.
pub open spec fn count_of(v: Seq<Seq<char>>, mac: Seq<char>) -> nat
    decreases v.len(),
{
    if v.len() == 0 {
        0
    } else {
        count_of(v.drop_last(), mac) + if v.last() == mac { 1nat } else { 0nat }
    }
}

proof fn lemma_count_of_bound(v: Seq<Seq<char>>, mac: Seq<char>)
    ensures
        count_of(v, mac) <= v.len(),
    decreases v.len(),
{
    if v.len() > 0 {
        lemma_count_of_bound(v.drop_last(), mac);
    }
}

/// The events of one MAC a chart draws: every `stride`-th event of that MAC, by position.
pub fn strided_positions(event_macs: &Vec<String>, mac: &String, stride: usize) -> (res: Vec<usize>)
    requires
        stride > 0,
    ensures
        res@ == strided_spec(event_macs.deep_view(), mac@, stride as nat),
{
    let mut res: Vec<usize> = Vec::new();
    let mut seen: usize = 0;
    let mut i: usize = 0;
    while i < event_macs.len()
        invariant
            i <= event_macs@.len(),
            stride > 0,
            seen == count_of(event_macs.deep_view().take(i as int), mac@),
            res@ == strided_spec(event_macs.deep_view().take(i as int), mac@, stride as nat),
        decreases event_macs@.len() - i,
    {
        assert(event_macs.deep_view().take(i + 1).drop_last() =~= event_macs.deep_view().take(i as int));
        assert(event_macs.deep_view().take(i + 1).last() == event_macs@[i as int]@);
        proof { lemma_count_of_bound(event_macs.deep_view().take(i as int), mac@); }
        if event_macs[i] == *mac {
            if seen % stride == 0 {
                res.push(i);
            }
            seen = seen + 1;
        }
        i = i + 1;
    }
    assert(event_macs.deep_view().take(event_macs@.len() as int) =~= event_macs.deep_view());
    res
}

/// Points kept at each end of a long map trajectory.
pub const TRAJ_ANCHOR: usize = 20;
/// About how many points of the middle part of a map trajectory are kept.
pub const TRAJ_MID_CAP: usize = 3000;

/// The points of a map trajectory of `n` points that are drawn: all of them up to twice the
/// anchor; otherwise the first and last `TRAJ_ANCHOR` and every `stride`-th point in between.
pub open spec fn kept_point(n: int, i: int) -> bool {
    let stride: int = if (n - 2 * TRAJ_ANCHOR) / (TRAJ_MID_CAP as int) > 1 { (n - 2 * TRAJ_ANCHOR) / (TRAJ_MID_CAP as int) } else { 1 };
    0 <= i < n && (n <= 2 * TRAJ_ANCHOR || i < TRAJ_ANCHOR || i >= n - TRAJ_ANCHOR || (i - TRAJ_ANCHOR) % stride == 0)
}

/// Indices of the drawn points of a map trajectory of `n` points, ascending.
pub fn sample_point_indices(n: usize) -> (res: Vec<usize>)
    ensures
        forall|k: int| 0 <= k < res@.len() ==> kept_point(n as int, #[trigger] res@[k] as int),
        forall|a: int, b: int| 0 <= a < b < res@.len() ==> res@[a] < res@[b],
        forall|i: int| kept_point(n as int, i) ==> exists|k: int| 0 <= k < res@.len() && #[trigger] res@[k] == i,
{
    let mut res: Vec<usize> = Vec::new();
    if n <= 2 * TRAJ_ANCHOR {
        let mut i: usize = 0;
        while i < n
            invariant
                i <= n,
                n <= 2 * TRAJ_ANCHOR,
                res@.len() == i,
                forall|k: int| 0 <= k < i ==> #[trigger] res@[k] == k,
            decreases n - i,
        {
            res.push(i);
            i = i + 1;
        }
        assert forall|i: int| kept_point(n as int, i) implies exists|k: int| 0 <= k < res@.len() && #[trigger] res@[k] == i by {
            assert(res@[i] == i);
        }
        return res;
    }
    let stride: usize = sample_stride(n - 2 * TRAJ_ANCHOR, TRAJ_MID_CAP);
    let mut i: usize = 0;
    while i < n
        invariant
            n > 2 * TRAJ_ANCHOR,
            stride == (if (n - 2 * TRAJ_ANCHOR) / (TRAJ_MID_CAP as int) > 1 { (n - 2 * TRAJ_ANCHOR) / (TRAJ_MID_CAP as int) } else { 1 }),
            i <= n,
            forall|k: int| 0 <= k < res@.len() ==> kept_point(n as int, #[trigger] res@[k] as int) && res@[k] < i,
            forall|a: int, b: int| 0 <= a < b < res@.len() ==> res@[a] < res@[b],
            forall|j: int| 0 <= j < i && kept_point(n as int, j) ==> exists|k: int| 0 <= k < res@.len() && #[trigger] res@[k] == j,
        decreases n - i,
    {
        let keep: bool = i < TRAJ_ANCHOR || i >= n - TRAJ_ANCHOR || (i - TRAJ_ANCHOR) % stride == 0;
        let ghost prev = res@;
        if keep {
            res.push(i);
        }
        proof {
            assert forall|j: int| 0 <= j < i + 1 && kept_point(n as int, j) implies
                exists|k: int| 0 <= k < res@.len() && #[trigger] res@[k] == j by {
                if j == i {
                    assert(res@[res@.len() - 1] == j);
                } else {
                    let k = choose|k: int| 0 <= k < prev.len() && #[trigger] prev[k] == j;
                    assert(res@[k] == j);
                }
            }
        }
        i = i + 1;
    }
    res
}

/// Label of a vehicle on the analysis map: `Ego` for 0, `Vehicle <id>` for a tracked one,
/// `Unknown` for trajectories of no vehicle.
pub fn vehicle_label(vid: i64) -> (res: String)
    ensures
        vid == 0 ==> res@ == "Ego"@,
        vid > 0 ==> res@ == "Vehicle "@ + dec(vid as nat),
        vid < 0 ==> res@ == "Unknown"@,
{
    if vid == 0 {
        "Ego".to_owned()
    } else if vid > 0 {
        prefixed_number("Vehicle ", vid as u64)
    } else {
        "Unknown".to_owned()
    }
}

/// Vehicle of a MAC on the analysis map: the ID of the last row listing it, `-1` for none.
pub open spec fn mac_vehicle(rows: Seq<VehicleRow>, mac: Seq<char>) -> int
    decreases rows.len(),
{
    if rows.len() == 0 {
        -1
    } else if rows.last().macs.deep_view().contains(mac) {
        rows.last().virtual_id as int
    } else {
        mac_vehicle(rows.drop_last(), mac)
    }
}

/// Vehicle ID of a MAC, `-1` when no row lists it.
pub fn mac_vehicle_id(rows: &Vec<VehicleRow>, mac: &String) -> (res: i64)
    ensures
        res == mac_vehicle(rows@, mac@),
{
    let mut i: usize = rows.len();
    assert(rows@.take(i as int) =~= rows@);
    while i > 0
        invariant
            i <= rows@.len(),
            mac_vehicle(rows@.take(i as int), mac@) == mac_vehicle(rows@, mac@),
        decreases i,
    {
        assert(rows@.take(i as int).drop_last() =~= rows@.take(i - 1));
        assert(rows@.take(i as int).last() == rows@[i - 1]);
        if contains_string(&rows[i - 1].macs, mac) {
            return rows[i - 1].virtual_id as i64;
        }
        i = i - 1;
    }
    -1
}

/// Sort key of a vehicle ID (order-preserving).
pub open spec fn vid_key(v: int) -> u64 {
    (v + 9223372036854775808) as u64
}

/// Sort keys of the trajectories of the analysis map: their vehicle IDs.
pub open spec fn map_keys(rows: Seq<VehicleRow>, traj_macs: Seq<Seq<char>>) -> Seq<u64> {
    Seq::new(traj_macs.len(), |i: int| vid_key(mac_vehicle(rows, traj_macs[i])))
}

/// One trajectory on the analysis map: which trajectory, its vehicle and the colour index
/// shared by all trajectories of that vehicle.
#[derive(Clone, Copy, Debug)]
pub struct MapEntry {
    pub trajectory: usize,
    pub vehicle: i64,
    pub color: usize,
}

/// The trajectories of the analysis map grouped by vehicle: vehicles by ascending ID (no
/// vehicle, `-1`, first), each vehicle's trajectories in their given order; the `n`-th vehicle
/// gets colour `n`.
pub fn map_entries(traj_macs: &Vec<String>, rows: &Vec<VehicleRow>) -> (res: Vec<MapEntry>)
    ensures
        exists|order: Seq<usize>| {
            &&& #[trigger] is_stable_order(map_keys(rows@, traj_macs.deep_view()), order)
            &&& res@.len() == order.len()
            &&& forall|k: int| 0 <= k < res@.len() ==> (#[trigger] res@[k]).trajectory == order[k]
        },
        forall|k: int| 0 <= k < res@.len() ==> (#[trigger] res@[k]).vehicle == mac_vehicle(rows@, traj_macs@[res@[k].trajectory as int]@),
        res@.len() > 0 ==> res@[0].color == 0,
        forall|k: int| 0 < k < res@.len() ==> (#[trigger] res@[k]).color
            == if res@[k].vehicle == res@[k - 1].vehicle { res@[k - 1].color } else { (res@[k - 1].color + 1) as usize },
{
    let ghost keys_spec = map_keys(rows@, traj_macs.deep_view());
    let mut vids: Vec<i64> = Vec::new();
    let mut keys: Vec<u64> = Vec::new();
    let mut i: usize = 0;
    while i < traj_macs.len()
        invariant
            i <= traj_macs@.len(),
            vids@.len() == i,
            keys@.len() == i,
            forall|k: int| 0 <= k < i ==> vids@[k] == mac_vehicle(rows@, traj_macs@[k]@),
            forall|k: int| 0 <= k < i ==> keys@[k] == vid_key(vids@[k] as int),
        decreases traj_macs@.len() - i,
    {
        let v: i64 = mac_vehicle_id(rows, &traj_macs[i]);
        proof { lemma_mac_vehicle_range(rows@, traj_macs@[i as int]@); }
        vids.push(v);
        keys.push(if v >= 0 { (v as u64) + 9223372036854775808u64 } else { (v + i64::MAX + 1) as u64 });
        i = i + 1;
    }
    assert(keys@ =~= keys_spec);
    let order: Vec<usize> = stable_order(&keys);
    let mut res: Vec<MapEntry> = Vec::new();
    let mut k: usize = 0;
    let mut color: usize = 0;
    while k < order.len()
        invariant
            is_stable_order(keys@, order@),
            keys@.len() == vids@.len(),
            vids@.len() == traj_macs@.len(),
            forall|j: int| 0 <= j < vids@.len() ==> vids@[j] == mac_vehicle(rows@, traj_macs@[j]@),
            k <= order@.len(),
            res@.len() == k,
            color <= k,
            k > 0 ==> color == res@[k - 1].color,
            forall|j: int| 0 <= j < k ==> (#[trigger] res@[j]).trajectory == order@[j],
            forall|j: int| 0 <= j < k ==> (#[trigger] res@[j]).vehicle == vids@[order@[j] as int],
            k > 0 ==> res@[0].color == 0,
            forall|j: int| 0 < j < k ==> (#[trigger] res@[j]).color
                == if res@[j].vehicle == res@[j - 1].vehicle { res@[j - 1].color } else { (res@[j - 1].color + 1) as usize },
        decreases order@.len() - k,
    {
        let t: usize = order[k];
        let v: i64 = vids[t];
        if k > 0 && v != res[k - 1].vehicle {
            color = color + 1;
        }
        res.push(MapEntry { trajectory: t, vehicle: v, color });
        k = k + 1;
    }
    res
}

proof fn lemma_mac_vehicle_range(rows: Seq<VehicleRow>, mac: Seq<char>)
    ensures
        -1 <= mac_vehicle(rows, mac) <= u32::MAX,
    decreases rows.len(),
{
    if rows.len() > 0 {
        lemma_mac_vehicle_range(rows.drop_last(), mac);
    }
}

/// Row order of the vehicle table: by virtual ID, rows with equal IDs in their given order.
pub fn vehicle_table_order(rows: &Vec<VehicleRow>) -> (res: Vec<usize>)
    ensures
        is_stable_order(Seq::new(rows@.len(), |i: int| rows@[i].virtual_id as u64), res@),
{
    let mut keys: Vec<u64> = Vec::new();
    let mut i: usize = 0;
    while i < rows.len()
        invariant
            i <= rows@.len(),
            keys@.len() == i,
            forall|k: int| 0 <= k < i ==> keys@[k] == rows@[k].virtual_id as u64,
        decreases rows@.len() - i,
    {
        keys.push(rows[i].virtual_id as u64);
        i = i + 1;
    }
    assert(keys@ =~= Seq::new(rows@.len(), |i: int| rows@[i].virtual_id as u64));
    stable_order(&keys)
}

/// The MAC chain of a vehicle as the table shows it: the MACs joined by ` → `.
pub open spec fn mac_chain_text(macs: Seq<Seq<char>>) -> Seq<char>
    decreases macs.len(),
{
    if macs.len() == 0 {
        Seq::empty()
    } else if macs.len() == 1 {
        macs[0]
    } else {
        mac_chain_text(macs.drop_last()) + " → "@ + macs.last()
    }
}

/// The MAC chain of a vehicle as the table shows it.
pub fn mac_chain(macs: &Vec<String>) -> (res: String)
    ensures
        res@ == mac_chain_text(macs.deep_view()),
{
    let mut s: String = String::new();
    if macs.len() == 0 {
        return s;
    }
    push_str(&mut s, macs[0].as_str());
    assert(s@ =~= macs.deep_view()[0]);
    let mut i: usize = 1;
    while i < macs.len()
        invariant
            1 <= i <= macs@.len(),
            s@ == mac_chain_text(macs.deep_view().take(i as int)),
        decreases macs@.len() - i,
    {
        assert(macs.deep_view().take(i + 1).drop_last() =~= macs.deep_view().take(i as int));
        assert(macs.deep_view().take(i + 1).last() == macs@[i as int]@);
        push_str(&mut s, " → ");
        push_str(&mut s, macs[i].as_str());
        i = i + 1;
    }
    assert(macs.deep_view().take(macs@.len() as int) =~= macs.deep_view());
    s
}

} // verus!

verus! {

/// The time axis starts at the first and ends at the last timestamp.
pub proof fn lemma_time_ticks_span(min_ms: int, max_ms: int)
    ensures
        min_ms + quarter(0 * (max_ms - min_ms)) == min_ms,
        min_ms + quarter(4 * (max_ms - min_ms)) == max_ms,
{
}

} // verus!
