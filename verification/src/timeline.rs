use vstd::prelude::*;
use crate::analysis::{kept_positions, mac_in};
use crate::order::{is_stable_order, stable_order};
use crate::packet::{cam_of, ItsPayload, PacketRecord};
use crate::lexical::{lex_lt, sorted_distinct, strictly_ascending};
use crate::text::contains_string;
use crate::trajectory::{
    indicators_consistent, initial_lights, lemma_lights_keep_indicators_consistent, lights_from_cam, next_lights,
    DriveDirection, PlaybackLightState,
};

verus! {

/// Sort key of a timestamp: its distance from the smallest `i64` (order-preserving).
pub open spec fn ts_key_spec(t: i64) -> u64 {
    (t - i64::MIN) as u64
}

/// Sort key of a timestamp (order-preserving map to `u64`).
pub fn ts_key(t: i64) -> (res: u64)
    ensures
        res == t - i64::MIN,
        res == ts_key_spec(t),
{
    if t >= 0 {
        (t as u64) + 9223372036854775808u64
    } else {
        (t + i64::MAX + 1) as u64
    }
}

/// Positions of the packets sent from one of `macs`, in capture order.
pub open spec fn positions_from(pkts: Seq<PacketRecord>, macs: Seq<Seq<char>>) -> Seq<usize> {
    kept_positions(pkts, |p: PacketRecord| mac_in(macs, p.mac@))
}

/// Positions of the packets sent from one of `macs`, in capture order.
pub fn positions_of_macs(pkts: &Vec<PacketRecord>, macs: &Vec<String>) -> (res: Vec<usize>)
    ensures
        res@ == positions_from(pkts@, macs.deep_view()),
{
    let ghost mv = macs.deep_view();
    let ghost keep = |p: PacketRecord| mac_in(mv, p.mac@);
    let mut pos: Vec<usize> = Vec::new();
    let mut i: usize = 0;
    while i < pkts.len()
        invariant
            i <= pkts@.len(),
            mv == macs.deep_view(),
            keep == (|p: PacketRecord| mac_in(mv, p.mac@)),
            pos@ == kept_positions(pkts@.take(i as int), keep),
        decreases pkts@.len() - i,
    {
        assert(pkts@.take(i + 1).drop_last() =~= pkts@.take(i as int));
        assert(pkts@.take(i + 1).last() == pkts@[i as int]);
        if contains_string(macs, &pkts[i].mac) {
            pos.push(i);
        }
        i = i + 1;
    }
    assert(pkts@.take(pkts@.len() as int) =~= pkts@);
    pos
}

/// Sort keys (timestamps) of the packets at the given positions.
pub open spec fn position_keys(pkts: Seq<PacketRecord>, pos: Seq<usize>) -> Seq<u64> {
    Seq::new(pos.len(), |k: int| ts_key_spec(pkts[pos[k] as int].timestamp_ms))
}

/// The packets of a vehicle (all its MACs merged) in playback order: ascending timestamp, equal
/// timestamps in capture order. Returns their positions in `pkts`.
pub fn timeline_order(pkts: &Vec<PacketRecord>, macs: &Vec<String>) -> (res: Vec<usize>)
    ensures
        exists|order: Seq<usize>| {
            &&& #[trigger] is_stable_order(position_keys(pkts@, positions_from(pkts@, macs.deep_view())), order)
            &&& res@.len() == order.len()
            &&& forall|k: int| 0 <= k < res@.len() ==>
                #[trigger] res@[k] == positions_from(pkts@, macs.deep_view())[order[k] as int]
        },
{
    let sel: Vec<usize> = positions_of_macs(pkts, macs);
    proof { lemma_positions_in_range(pkts@, |p: PacketRecord| mac_in(macs.deep_view(), p.mac@)); }
    let mut keys: Vec<u64> = Vec::new();
    let mut k: usize = 0;
    while k < sel.len()
        invariant
            k <= sel@.len(),
            sel@ == positions_from(pkts@, macs.deep_view()),
            forall|j: int| 0 <= j < sel@.len() ==> #[trigger] sel@[j] < pkts@.len(),
            keys@.len() == k,
            forall|j: int| 0 <= j < k ==> keys@[j] == position_keys(pkts@, sel@)[j],
        decreases sel@.len() - k,
    {
        keys.push(ts_key(pkts[sel[k]].timestamp_ms));
        k = k + 1;
    }
    assert(keys@ =~= position_keys(pkts@, sel@));
    let order: Vec<usize> = stable_order(&keys);
    let mut res: Vec<usize> = Vec::new();
    let mut j: usize = 0;
    while j < order.len()
        invariant
            is_stable_order(keys@, order@),
            keys@.len() == sel@.len(),
            j <= order@.len(),
            res@.len() == j,
            forall|x: int| 0 <= x < j ==> #[trigger] res@[x] == sel@[order@[x] as int],
        decreases order@.len() - j,
    {
        res.push(sel[order[j]]);
        j = j + 1;
    }
    res
}

/// Every kept position is a position of the sequence.
pub proof fn lemma_positions_in_range(pkts: Seq<PacketRecord>, keep: spec_fn(PacketRecord) -> bool)
    ensures
        forall|j: int| 0 <= j < kept_positions(pkts, keep).len() ==> #[trigger] kept_positions(pkts, keep)[j] < pkts.len(),
        kept_positions(pkts, keep).len() <= pkts.len(),
    decreases pkts.len(),
{
    if pkts.len() > 0 {
        lemma_positions_in_range(pkts.drop_last(), keep);
    }
}

/// What the playback shows of a vehicle at one sample: its light state and its direction.
#[derive(Clone, Copy, PartialEq, Eq, Debug, Structural)]
pub struct TimelineState {
    pub lights: PlaybackLightState,
    pub drive_direction: Option<DriveDirection>,
}

/// The direction a raw CAM `DriveDirection` value stands for.
pub open spec fn direction_of_raw(v: u8) -> Option<DriveDirection> {
    if v == 0 {
        Some(DriveDirection::Forward)
    } else if v == 1 {
        Some(DriveDirection::Backward)
    } else if v == 2 {
        Some(DriveDirection::Unavailable)
    } else {
        None
    }
}

/// The state before any packet: initial lights, no direction.
pub open spec fn initial_state() -> TimelineState {
    TimelineState { lights: initial_lights(), drive_direction: None }
}

/// The state after a packet: a CAM updates the lights and, when it carries a direction, the
/// direction; other packets leave the state as it is.
pub open spec fn after_packet(s: TimelineState, p: PacketRecord) -> TimelineState {
    match cam_of(p) {
        Some(c) => TimelineState {
            lights: next_lights(c.exterior_lights, c.accel_control, s.lights),
            drive_direction: match c.drive_direction {
                Some(d) => direction_of_raw(d),
                None => s.drive_direction,
            },
        },
        None => s,
    }
}

/// The state after the first `n` packets of `order`.
pub open spec fn state_after(pkts: Seq<PacketRecord>, order: Seq<usize>, n: int) -> TimelineState
    decreases n,
{
    if n <= 0 {
        initial_state()
    } else {
        after_packet(state_after(pkts, order, n - 1), pkts[order[n - 1] as int])
    }
}

/// How one packet moves the playback state: a CAM that reports a drive direction sets the
/// direction to what the raw value stands for (0 forward, 1 backward, 2 unavailable, anything
/// else none), whatever the direction was before; a CAM without one, or any other packet,
/// keeps the direction; a packet that is no CAM leaves the whole state as it is; and a CAM's
/// acceleration-control flags set the pedal flags.
pub proof fn lemma_packet_sets_direction(pkts: Seq<PacketRecord>, order: Seq<usize>, k: int)
    requires
        0 <= k < order.len(),
    ensures
        ({
            let before: TimelineState = state_after(pkts, order, k);
            let after: TimelineState = state_after(pkts, order, k + 1);
            let p: PacketRecord = pkts[order[k] as int];
            &&& (cam_of(p) is Some && cam_of(p)->0.drive_direction is Some ==> {
                let d: u8 = cam_of(p)->0.drive_direction->0;
                &&& d == 0 ==> after.drive_direction == Some(DriveDirection::Forward)
                &&& d == 1 ==> after.drive_direction == Some(DriveDirection::Backward)
                &&& d == 2 ==> after.drive_direction == Some(DriveDirection::Unavailable)
                &&& d > 2 ==> after.drive_direction is None
            })
            &&& (cam_of(p) is Some && cam_of(p)->0.drive_direction is None ==> after.drive_direction == before.drive_direction)
            &&& (cam_of(p) is None ==> after == before)
            &&& (cam_of(p) is Some && cam_of(p)->0.accel_control is Some ==> {
                &&& after.lights.brake == cam_of(p)->0.accel_control->0.brake_pedal_active
                &&& after.lights.accelerating == cam_of(p)->0.accel_control->0.gas_pedal_active
            })
        }),
{
    let p: PacketRecord = pkts[order[k] as int];
    let before: TimelineState = state_after(pkts, order, k);
    assert(state_after(pkts, order, k + 1) == after_packet(before, p));
    if let Some(c) = cam_of(p) {
        if let Some(d) = c.drive_direction {
            assert(after_packet(before, p).drive_direction == direction_of_raw(d));
        }
    }
}

/// The state of a vehicle at each packet of its playback order: entry `k` is the state right
/// after packet `order[k]`.
pub fn timeline_states(pkts: &Vec<PacketRecord>, order: &Vec<usize>) -> (res: Vec<TimelineState>)
    requires
        forall|k: int| 0 <= k < order@.len() ==> #[trigger] order@[k] < pkts@.len(),
    ensures
        res@.len() == order@.len(),
        forall|k: int| 0 <= k < res@.len() ==> #[trigger] res@[k] == state_after(pkts@, order@, k + 1),
        forall|k: int| 0 <= k < res@.len() ==> indicators_consistent(#[trigger] res@[k].lights),
{
    let mut res: Vec<TimelineState> = Vec::new();
    let mut cur: TimelineState = TimelineState { lights: PlaybackLightState::default(), drive_direction: None };
    proof { lemma_lights_keep_indicators_consistent(None, None, initial_lights()); }
    let mut k: usize = 0;
    while k < order.len()
        invariant
            k <= order@.len(),
            forall|j: int| 0 <= j < order@.len() ==> #[trigger] order@[j] < pkts@.len(),
            cur == state_after(pkts@, order@, k as int),
            indicators_consistent(cur.lights),
            res@.len() == k,
            forall|j: int| 0 <= j < k ==> #[trigger] res@[j] == state_after(pkts@, order@, j + 1),
            forall|j: int| 0 <= j < k ==> indicators_consistent(#[trigger] res@[j].lights),
        decreases order@.len() - k,
    {
        let p: &PacketRecord = &pkts[order[k]];
        match &p.payload {
            Some(ItsPayload::Cam(cam)) => {
                proof { lemma_lights_keep_indicators_consistent(cam.exterior_lights, cam.accel_control, cur.lights); }
                let lights: PlaybackLightState = lights_from_cam(cam.exterior_lights, cam.accel_control, &cur.lights);
                let dir: Option<DriveDirection> = match cam.drive_direction {
                    Some(d) => DriveDirection::from_raw(d),
                    None => cur.drive_direction,
                };
                cur = TimelineState { lights, drive_direction: dir };
            },
            _ => {},
        }
        res.push(cur);
        k = k + 1;
    }
    res
}

} // verus!

verus! {

/// `out` lists the positions `sub` in playback order: ascending timestamp, equal timestamps in
/// their order in `sub`.
pub open spec fn in_time_order(pkts: Seq<PacketRecord>, sub: Seq<usize>, out: Seq<usize>) -> bool {
    exists|order: Seq<usize>| {
        &&& #[trigger] is_stable_order(position_keys(pkts, sub), order)
        &&& out.len() == order.len()
        &&& forall|k: int| 0 <= k < out.len() ==> #[trigger] out[k] == sub[order[k] as int]
    }
}

/// The MAC filter of a trajectory build as plain strings.
pub open spec fn filter_view(filter: Option<Vec<String>>) -> Option<Seq<Seq<char>>> {
    match filter {
        Some(f) => Some(f.deep_view()),
        None => None,
    }
}

/// Positions, among the first `n` packets, of those that go into a trajectory: with a usable
/// position (`valid`) and from a MAC the filter admits.
pub open spec fn traj_candidates(pkts: Seq<PacketRecord>, valid: Seq<bool>, filter: Option<Seq<Seq<char>>>, n: int) -> Seq<usize>
    decreases n,
{
    if n <= 0 {
        Seq::empty()
    } else {
        let rest: Seq<usize> = traj_candidates(pkts, valid, filter, n - 1);
        let admitted: bool = match filter {
            Some(f) => f.contains(pkts[n - 1].mac@),
            None => true,
        };
        if valid[n - 1] && admitted { rest.push((n - 1) as usize) } else { rest }
    }
}

/// Whether the packet at a position was sent from `mac`.
pub open spec fn sent_from(pkts: Seq<PacketRecord>, mac: Seq<char>) -> spec_fn(usize) -> bool {
    |i: usize| pkts[i as int].mac@ == mac
}

/// Positions in `cand` of packets sent from `mac`, in the order of `cand`.
pub open spec fn positions_with_mac(pkts: Seq<PacketRecord>, cand: Seq<usize>, mac: Seq<char>) -> Seq<usize> {
    cand.filter(sent_from(pkts, mac))
}

proof fn lemma_mac_filter_step(pkts: Seq<PacketRecord>, cand: Seq<usize>, x: usize, m: Seq<char>)
    ensures
        positions_with_mac(pkts, cand.push(x), m) == if pkts[x as int].mac@ == m {
            positions_with_mac(pkts, cand, m).push(x)
        } else {
            positions_with_mac(pkts, cand, m)
        },
{
    reveal_with_fuel(Seq::filter, 1);
    assert(cand.push(x).drop_last() =~= cand);
}

/// A MAC filter restricts trajectories without changing them: the packets a filtered build
/// groups under a MAC are those the unfiltered build groups under it when the filter admits the
/// MAC, and none otherwise.
pub proof fn lemma_filtered_groups_restrict(pkts: Seq<PacketRecord>, valid: Seq<bool>, f: Seq<Seq<char>>, m: Seq<char>, n: int)
    requires
        0 <= n <= pkts.len(),
        pkts.len() <= usize::MAX,
    ensures
        positions_with_mac(pkts, traj_candidates(pkts, valid, Some(f), n), m) == if f.contains(m) {
            positions_with_mac(pkts, traj_candidates(pkts, valid, None, n), m)
        } else {
            Seq::<usize>::empty()
        },
    decreases n,
{
    if n <= 0 {
        reveal_with_fuel(Seq::filter, 1);
        assert(positions_with_mac(pkts, Seq::<usize>::empty(), m) =~= Seq::<usize>::empty());
    } else {
        lemma_filtered_groups_restrict(pkts, valid, f, m, n - 1);
        let x: usize = (n - 1) as usize;
        let rf: Seq<usize> = traj_candidates(pkts, valid, Some(f), n - 1);
        let ra: Seq<usize> = traj_candidates(pkts, valid, None, n - 1);
        lemma_mac_filter_step(pkts, rf, x, m);
        lemma_mac_filter_step(pkts, ra, x, m);
        let pm: Seq<char> = pkts[n - 1].mac@;
        assert(traj_candidates(pkts, valid, Some(f), n) == if valid[n - 1] && f.contains(pm) { rf.push(x) } else { rf });
        assert(traj_candidates(pkts, valid, None, n) == if valid[n - 1] { ra.push(x) } else { ra });
        assert(pkts[x as int].mac@ == pm);
    }
}

/// A MAC has a group exactly when some candidate packet comes from it.
pub proof fn lemma_group_present(pkts: Seq<PacketRecord>, cand: Seq<usize>, m: Seq<char>)
    requires
        forall|j: int| 0 <= j < cand.len() ==> #[trigger] cand[j] < pkts.len(),
    ensures
        macs_at(pkts, cand).contains(m) <==> positions_with_mac(pkts, cand, m).len() > 0,
{
    let pred = sent_from(pkts, m);
    if macs_at(pkts, cand).contains(m) {
        let j: int = choose|j: int| 0 <= j < macs_at(pkts, cand).len() && macs_at(pkts, cand)[j] == m;
        cand.lemma_filter_contains(pred, j);
    }
    if cand.filter(pred).len() > 0 {
        #[allow(deprecated)]
        cand.filter_lemma(pred);
        let e: usize = cand.filter(pred)[0];
        assert(cand.filter(pred)[0] == e);
        assert(cand.filter(pred).contains(e));
        cand.lemma_filter_contains_rev(pred, e);
        let j: int = choose|j: int| 0 <= j < cand.len() && cand[j] == e;
        assert(pred(e));
        assert(macs_at(pkts, cand)[j] == m);
    }
}

/// The packets of one MAC that make up its trajectory, in playback order.
#[derive(Clone, Debug)]
pub struct MacGroup {
    pub mac: String,
    pub positions: Vec<usize>,
}

proof fn lemma_candidates_in_range(pkts: Seq<PacketRecord>, valid: Seq<bool>, filter: Option<Seq<Seq<char>>>, n: int)
    requires
        0 <= n <= pkts.len(),
    ensures
        forall|j: int| 0 <= j < traj_candidates(pkts, valid, filter, n).len() ==>
            #[trigger] traj_candidates(pkts, valid, filter, n)[j] < n,
    decreases n,
{
    if n > 0 {
        lemma_candidates_in_range(pkts, valid, filter, n - 1);
        let rest: Seq<usize> = traj_candidates(pkts, valid, filter, n - 1);
        let all: Seq<usize> = traj_candidates(pkts, valid, filter, n);
        assert forall|j: int| 0 <= j < all.len() implies #[trigger] all[j] < n by {
            if j < rest.len() {
                assert(all[j] == rest[j]);
            }
        }
    }
}

/// Positions of the packets that go into trajectories, in capture order.
fn trajectory_candidates(pkts: &Vec<PacketRecord>, valid: &Vec<bool>, filter: &Option<Vec<String>>) -> (res: Vec<usize>)
    requires
        valid@.len() == pkts@.len(),
    ensures
        res@ == traj_candidates(pkts@, valid@, filter_view(*filter), pkts@.len() as int),
        forall|j: int| 0 <= j < res@.len() ==> #[trigger] res@[j] < pkts@.len(),
{
    let ghost fv = filter_view(*filter);
    let mut cand: Vec<usize> = Vec::new();
    let mut i: usize = 0;
    while i < pkts.len()
        invariant
            i <= pkts@.len(),
            valid@.len() == pkts@.len(),
            fv == filter_view(*filter),
            cand@ == traj_candidates(pkts@, valid@, fv, i as int),
        decreases pkts@.len() - i,
    {
        let admitted: bool = match filter {
            Some(f) => contains_string(f, &pkts[i].mac),
            None => true,
        };
        if valid[i] && admitted {
            cand.push(i);
        }
        i = i + 1;
    }
    proof { lemma_candidates_in_range(pkts@, valid@, fv, pkts@.len() as int); }
    cand
}

/// Positions in `cand` of the packets from `mac`, in playback order.
fn group_for_mac(pkts: &Vec<PacketRecord>, cand: &Vec<usize>, mac: &String) -> (res: Vec<usize>)
    requires
        forall|j: int| 0 <= j < cand@.len() ==> #[trigger] cand@[j] < pkts@.len(),
    ensures
        in_time_order(pkts@, positions_with_mac(pkts@, cand@, mac@), res@),
{
    let ghost keep = |x: usize| pkts@[x as int].mac@ == mac@;
    let mut sub: Vec<usize> = Vec::new();
    let mut j: usize = 0;
    while j < cand.len()
        invariant
            j <= cand@.len(),
            forall|x: int| 0 <= x < cand@.len() ==> #[trigger] cand@[x] < pkts@.len(),
            keep == (|x: usize| pkts@[x as int].mac@ == mac@),
            sub@ == cand@.take(j as int).filter(keep),
        decreases cand@.len() - j,
    {
        assert(cand@.take(j + 1).drop_last() =~= cand@.take(j as int));
        reveal_with_fuel(Seq::filter, 1);
        if pkts[cand[j]].mac == *mac {
            sub.push(cand[j]);
        }
        j = j + 1;
    }
    assert(cand@.take(cand@.len() as int) =~= cand@);
    proof {
        assert forall|x: int| 0 <= x < sub@.len() implies #[trigger] sub@[x] < pkts@.len() by {
            assert(cand@.filter(keep).contains(sub@[x]));
            cand@.lemma_filter_contains_rev(keep, sub@[x]);
        }
    }
    let mut keys: Vec<u64> = Vec::new();
    let mut x: usize = 0;
    while x < sub.len()
        invariant
            x <= sub@.len(),
            forall|y: int| 0 <= y < sub@.len() ==> #[trigger] sub@[y] < pkts@.len(),
            keys@.len() == x,
            forall|y: int| 0 <= y < x ==> keys@[y] == position_keys(pkts@, sub@)[y],
        decreases sub@.len() - x,
    {
        keys.push(ts_key(pkts[sub[x]].timestamp_ms));
        x = x + 1;
    }
    assert(keys@ =~= position_keys(pkts@, sub@));
    let order: Vec<usize> = stable_order(&keys);
    let mut out: Vec<usize> = Vec::new();
    let mut y: usize = 0;
    while y < order.len()
        invariant
            is_stable_order(keys@, order@),
            keys@.len() == sub@.len(),
            y <= order@.len(),
            out@.len() == y,
            forall|z: int| 0 <= z < y ==> #[trigger] out@[z] == sub@[order@[z] as int],
        decreases order@.len() - y,
    {
        out.push(sub[order[y]]);
        y = y + 1;
    }
    assert(in_time_order(pkts@, sub@, out@));
    out
}

/// The source MACs of the packets at the given positions.
pub open spec fn macs_at(pkts: Seq<PacketRecord>, pos: Seq<usize>) -> Seq<Seq<char>> {
    pos.map_values(|i: usize| pkts[i as int].mac@)
}

/// Groups the packets that go into trajectories by MAC: one group per MAC with a usable
/// position, MACs in ascending order, each group's packets in playback order. `valid` tells
/// which packets carry a usable position; with a filter only its MACs are taken.
pub fn trajectory_groups(pkts: &Vec<PacketRecord>, valid: &Vec<bool>, filter: &Option<Vec<String>>) -> (res: Vec<MacGroup>)
    requires
        valid@.len() == pkts@.len(),
    ensures
        ({
            let cand: Seq<usize> = traj_candidates(pkts@, valid@, filter_view(*filter), pkts@.len() as int);
            &&& forall|a: int, b: int| 0 <= a < b < res@.len() ==> lex_lt(res@[a].mac@, res@[b].mac@)
            &&& forall|g: int| 0 <= g < res@.len() ==> macs_at(pkts@, cand).contains(#[trigger] res@[g].mac@)
            &&& forall|m: Seq<char>| macs_at(pkts@, cand).contains(m) ==>
                exists|g: int| 0 <= g < res@.len() && (#[trigger] res@[g]).mac@ == m
            &&& forall|g: int| 0 <= g < res@.len() ==>
                in_time_order(pkts@, positions_with_mac(pkts@, cand, (#[trigger] res@[g]).mac@), res@[g].positions@)
        }),
{
    let cand: Vec<usize> = trajectory_candidates(pkts, valid, filter);
    let mut cand_macs: Vec<String> = Vec::new();
    let mut k: usize = 0;
    while k < cand.len()
        invariant
            k <= cand@.len(),
            forall|j: int| 0 <= j < cand@.len() ==> #[trigger] cand@[j] < pkts@.len(),
            cand@ == traj_candidates(pkts@, valid@, filter_view(*filter), pkts@.len() as int),
            cand_macs@.len() == k,
            forall|j: int| 0 <= j < k ==> (#[trigger] cand_macs@[j])@ == pkts@[cand@[j] as int].mac@,
        decreases cand@.len() - k,
    {
        cand_macs.push(pkts[cand[k]].mac.clone());
        k = k + 1;
    }
    let macs: Vec<String> = sorted_distinct(&cand_macs);
    let mut res: Vec<MacGroup> = Vec::new();
    let mut g: usize = 0;
    while g < macs.len()
        invariant
            g <= macs@.len(),
            forall|j: int| 0 <= j < cand@.len() ==> #[trigger] cand@[j] < pkts@.len(),
            cand@ == traj_candidates(pkts@, valid@, filter_view(*filter), pkts@.len() as int),
            strictly_ascending(macs.deep_view()),
            forall|x: Seq<char>| macs.deep_view().contains(x) <==> cand_macs.deep_view().contains(x),
            cand_macs@.len() == cand@.len(),
            forall|j: int| 0 <= j < cand@.len() ==> (#[trigger] cand_macs@[j])@ == pkts@[cand@[j] as int].mac@,
            res@.len() == g,
            forall|j: int| 0 <= j < g ==> (#[trigger] res@[j]).mac@ == macs@[j]@,
            forall|j: int| 0 <= j < g ==>
                in_time_order(pkts@, positions_with_mac(pkts@, cand@, (#[trigger] res@[j]).mac@), res@[j].positions@),
        decreases macs@.len() - g,
    {
        let positions: Vec<usize> = group_for_mac(pkts, &cand, &macs[g]);
        res.push(MacGroup { mac: macs[g].clone(), positions });
        g = g + 1;
    }
    proof {
        assert(cand_macs.deep_view() =~= macs_at(pkts@, cand@));
        assert forall|a: int, b: int| 0 <= a < b < res@.len() implies lex_lt(res@[a].mac@, res@[b].mac@) by {
            assert(macs.deep_view()[a] == macs@[a]@ && macs.deep_view()[b] == macs@[b]@);
        }
        assert forall|gg: int| 0 <= gg < res@.len() implies macs_at(pkts@, cand@).contains(#[trigger] res@[gg].mac@) by {
            assert(macs.deep_view()[gg] == res@[gg].mac@);
            assert(macs.deep_view().contains(res@[gg].mac@));
        }
        assert forall|m: Seq<char>| macs_at(pkts@, cand@).contains(m) implies
            exists|gg: int| 0 <= gg < res@.len() && (#[trigger] res@[gg]).mac@ == m by {
            assert(macs.deep_view().contains(m));
            let gg = choose|gg: int| 0 <= gg < macs.deep_view().len() && macs.deep_view()[gg] == m;
            assert(res@[gg].mac@ == macs.deep_view()[gg]);
        }
    }
    res
}

} // verus!
