use vstd::prelude::*;
use crate::lexical::{lemma_lex_transitive, lemma_lex_trichotomy, lex_less, lex_lt};
use crate::live::OfflineVehicle;
use crate::packet::PacketRecord;
use crate::text::{clone_strings, contains_string, dec, parse_unsigned, parse_unsigned_str, prefixed_number};

verus! {

/// Half-width (ms) of the time window in which a MAC counts as visible.
pub const VISIBLE_MAC_WINDOW_MS: i64 = 1000;

/// Distance in time between a packet and the playback time.
pub open spec fn time_dist(ts: i64, t: i64) -> int {
    if ts >= t { ts - t } else { t - ts }
}

/// The packet lies within the visibility window around `t`.
pub open spec fn in_window(p: PacketRecord, t: i64) -> bool {
    time_dist(p.timestamp_ms, t) <= VISIBLE_MAC_WINDOW_MS
}

/// Every packet's distance from `t` fits in an `i64`.
pub open spec fn timestamps_near(pkts: Seq<PacketRecord>, t: i64) -> bool {
    forall|i: int| 0 <= i < pkts.len() ==> -i64::MAX <= #[trigger] pkts[i].timestamp_ms - t <= i64::MAX
}

fn distance(ts: i64, t: i64) -> (res: i64)
    requires
        -i64::MAX <= ts - t <= i64::MAX,
    ensures
        res == time_dist(ts, t),
{
    let d: i64 = ts - t;
    if d >= 0 { d } else { -d }
}

/// The vehicle ID a dropdown value selects: the value as a number, `u32::MAX` when it is
/// not one.
pub open spec fn selected_id(sel: Seq<char>) -> u32 {
    match parse_unsigned(sel, u32::MAX as nat) {
        Some(v) => v as u32,
        None => u32::MAX,
    }
}

/// The vehicle ID a dropdown value selects.
pub fn selected_vehicle_id(sel: &str) -> (res: u32)
    ensures
        res == selected_id(sel@),
{
    match parse_unsigned_str(sel, u32::MAX as u64) {
        Some(v) => v as u32,
        None => u32::MAX,
    }
}

/// Position of the first vehicle with ID `id`, `-1` when there is none.
pub open spec fn first_with_id(vs: Seq<OfflineVehicle>, id: u32) -> int {
    if exists|i: int| 0 <= i < vs.len() && (#[trigger] vs[i]).id == id {
        choose|i: int| 0 <= i < vs.len() && (#[trigger] vs[i]).id == id
            && forall|j: int| 0 <= j < i ==> (#[trigger] vs[j]).id != id
    } else {
        -1
    }
}

/// MAC chain of the first vehicle with ID `id` (empty when there is none).
pub open spec fn vehicle_macs(vs: Seq<OfflineVehicle>, id: u32) -> Seq<Seq<char>> {
    let i: int = first_with_id(vs, id);
    if i >= 0 { vs[i].macs.deep_view() } else { Seq::empty() }
}

/// MAC chain of the first vehicle with ID `id` (empty when there is none).
pub fn vehicle_macs_of(vs: &Vec<OfflineVehicle>, id: u32) -> (res: Vec<String>)
    ensures
        res.deep_view() == vehicle_macs(vs@, id),
{
    let mut i: usize = 0;
    while i < vs.len() && vs[i].id != id
        invariant
            i <= vs@.len(),
            forall|j: int| 0 <= j < i ==> (#[trigger] vs@[j]).id != id,
        decreases vs@.len() - i,
    {
        i = i + 1;
    }
    if i == vs.len() {
        return Vec::new();
    }
    proof {
        let w = choose|x: int| 0 <= x < vs@.len() && (#[trigger] vs@[x]).id == id
            && forall|j: int| 0 <= j < x ==> (#[trigger] vs@[j]).id != id;
        assert(0 <= i < vs@.len() && vs@[i as int].id == id
            && forall|j: int| 0 <= j < i ==> (#[trigger] vs@[j]).id != id);
        if w < i {
            assert(vs@[w].id != id);
        } else if w > i {
            assert(vs@[i as int].id != id);
        }
    }
    clone_strings(&vs[i].macs)
}

/// Label of a vehicle ID in the visible-MAC list: `Ego` for 0, else the number.
pub open spec fn id_label(id: u32) -> Seq<char> {
    if id == 0 { "Ego"@ } else { dec(id as nat) }
}

/// Position of the last vehicle whose MAC chain holds `mac`, `-1` when there is none.
pub open spec fn owner_of(vs: Seq<OfflineVehicle>, mac: Seq<char>) -> int {
    if exists|i: int| 0 <= i < vs.len() && (#[trigger] vs[i]).macs.deep_view().contains(mac) {
        choose|i: int| 0 <= i < vs.len() && (#[trigger] vs[i]).macs.deep_view().contains(mac)
            && forall|j: int| i < j < vs.len() ==> !(#[trigger] vs[j]).macs.deep_view().contains(mac)
    } else {
        -1
    }
}

/// Label of a MAC in the visible-MAC list: that of the last vehicle holding it, `?` when none
/// does.
pub open spec fn mac_label(vs: Seq<OfflineVehicle>, mac: Seq<char>) -> Seq<char> {
    let i: int = owner_of(vs, mac);
    if i >= 0 { id_label(vs[i].id) } else { "?"@ }
}

/// Label of a MAC in the visible-MAC list.
pub fn label_for_mac(vs: &Vec<OfflineVehicle>, mac: &String) -> (res: String)
    ensures
        res@ == mac_label(vs@, mac@),
{
    let mut i: usize = vs.len();
    while i > 0 && !contains_string(&vs[i - 1].macs, mac)
        invariant
            i <= vs@.len(),
            forall|j: int| i <= j < vs@.len() ==> !(#[trigger] vs@[j]).macs.deep_view().contains(mac@),
        decreases i,
    {
        i = i - 1;
    }
    if i == 0 {
        return "?".to_owned();
    }
    let k: usize = i - 1;
    proof {
        assert(vs@[k as int].macs.deep_view().contains(mac@));
        let w = choose|x: int| 0 <= x < vs@.len() && (#[trigger] vs@[x]).macs.deep_view().contains(mac@)
            && forall|j: int| x < j < vs@.len() ==> !(#[trigger] vs@[j]).macs.deep_view().contains(mac@);
        assert(0 <= k < vs@.len() && vs@[k as int].macs.deep_view().contains(mac@)
            && forall|j: int| k < j < vs@.len() ==> !(#[trigger] vs@[j]).macs.deep_view().contains(mac@));
        if w < k {
            assert(!vs@[k as int].macs.deep_view().contains(mac@));
        } else if w > k {
            assert(!vs@[w].macs.deep_view().contains(mac@));
        }
    }
    let id: u32 = vs[k].id;
    if id == 0 {
        "Ego".to_owned()
    } else {
        let s: String = prefixed_number("", id as u64);
        proof {
            reveal_strlit("");
            assert(""@ + dec(id as nat) =~= dec(id as nat));
        }
        s
    }
}

/// Some packet from `mac` lies in the visibility window around `t`.
pub open spec fn seen_near(pkts: Seq<PacketRecord>, t: i64, mac: Seq<char>) -> bool {
    exists|i: int| 0 <= i < pkts.len() && in_window(#[trigger] pkts[i], t) && pkts[i].mac@ == mac
}

/// `mac` is listed as visible: seen near `t`, not a MAC of the selected vehicle, and not an
/// ego MAC unless ego MACs are shown.
pub open spec fn shown_mac(pkts: Seq<PacketRecord>, t: i64, vs: Seq<OfflineVehicle>, sel: u32, show_ego: bool, mac: Seq<char>) -> bool {
    &&& seen_near(pkts, t, mac)
    &&& !vehicle_macs(vs, sel).contains(mac)
    &&& (show_ego || !vehicle_macs(vs, 0).contains(mac))
}

/// Packet `i` is the one of its MAC closest in time to `t` within the window (the earliest
/// one among equally close packets).
pub open spec fn closest_packet(pkts: Seq<PacketRecord>, t: i64, i: int) -> bool {
    &&& 0 <= i < pkts.len()
    &&& in_window(pkts[i], t)
    &&& forall|j: int| 0 <= j < pkts.len() && (#[trigger] pkts[j]).mac@ == pkts[i].mac@ && in_window(pkts[j], t) ==>
        time_dist(pkts[i].timestamp_ms, t) < time_dist(pkts[j].timestamp_ms, t)
            || (time_dist(pkts[i].timestamp_ms, t) == time_dist(pkts[j].timestamp_ms, t) && i <= j)
}

/// One line of the visible-MAC list: the MAC, its vehicle label and the packet of it closest
/// in time (whose signal strength and position the line shows).
#[derive(Clone, Debug)]
pub struct VisibleMac {
    pub mac: String,
    pub label: String,
    pub packet: usize,
}

/// Order of the visible-MAC list: by label, then by MAC.
pub open spec fn sorts_before(a_label: Seq<char>, a_mac: Seq<char>, b_label: Seq<char>, b_mac: Seq<char>) -> bool {
    lex_lt(a_label, b_label) || (a_label == b_label && lex_lt(a_mac, b_mac))
}

proof fn lemma_sorts_before_total(al: Seq<char>, am: Seq<char>, bl: Seq<char>, bm: Seq<char>)
    requires
        am != bm,
    ensures
        sorts_before(al, am, bl, bm) || sorts_before(bl, bm, al, am),
        !(sorts_before(al, am, bl, bm) && sorts_before(bl, bm, al, am)),
{
    lemma_lex_trichotomy(al, bl);
    lemma_lex_trichotomy(am, bm);
}

proof fn lemma_sorts_before_transitive(al: Seq<char>, am: Seq<char>, bl: Seq<char>, bm: Seq<char>, cl: Seq<char>, cm: Seq<char>)
    requires
        sorts_before(al, am, bl, bm),
        sorts_before(bl, bm, cl, cm),
    ensures
        sorts_before(al, am, cl, cm),
{
    if lex_lt(al, bl) && lex_lt(bl, cl) {
        lemma_lex_transitive(al, bl, cl);
    } else if lex_lt(am, bm) && lex_lt(bm, cm) {
        lemma_lex_transitive(am, bm, cm);
    }
}

/// Position of `x` in `v`.
fn position_of(v: &Vec<String>, x: &String) -> (res: Option<usize>)
    ensures
        res matches Some(i) ==> i < v@.len() && v@[i as int]@ == x@,
        res is None ==> forall|j: int| 0 <= j < v@.len() ==> (#[trigger] v@[j])@ != x@,
{
    let mut i: usize = 0;
    while i < v.len()
        invariant
            i <= v@.len(),
            forall|j: int| 0 <= j < i ==> (#[trigger] v@[j])@ != x@,
        decreases v@.len() - i,
    {
        if v[i] == *x {
            return Some(i);
        }
        i = i + 1;
    }
    None
}

/// Inserts a line into a sorted visible-MAC list whose MACs all differ from the new one.
#[verifier::spinoff_prover]
fn insert_sorted(res: &mut Vec<VisibleMac>, item: VisibleMac)
    requires
        forall|a: int, b: int| 0 <= a < b < old(res)@.len() ==>
            sorts_before(old(res)@[a].label@, old(res)@[a].mac@, old(res)@[b].label@, old(res)@[b].mac@),
        forall|k: int| 0 <= k < old(res)@.len() ==> (#[trigger] old(res)@[k]).mac@ != item.mac@,
    ensures
        forall|a: int, b: int| 0 <= a < b < final(res)@.len() ==>
            sorts_before(final(res)@[a].label@, final(res)@[a].mac@, final(res)@[b].label@, final(res)@[b].mac@),
        forall|r: VisibleMac| final(res)@.contains(r) <==> (old(res)@.contains(r) || r == item),
{
    let mut pos: usize = 0;
    while pos < res.len() && !(lex_less(item.label.as_str(), res[pos].label.as_str())
        || (item.label == res[pos].label && lex_less(item.mac.as_str(), res[pos].mac.as_str())))
        invariant
            pos <= res@.len(),
            forall|k: int| 0 <= k < pos ==>
                !sorts_before(item.label@, item.mac@, (#[trigger] res@[k]).label@, res@[k].mac@),
        decreases res@.len() - pos,
    {
        pos = pos + 1;
    }
    let ghost before = res@;
    let ghost it = item;
    let ghost il = item.label@;
    let ghost im = item.mac@;
    res.insert(pos, item);
    proof {
        assert(res@ == before.insert(pos as int, it));
        assert(res@[pos as int] == it);
        assert forall|k: int| 0 <= k < pos implies
            sorts_before((#[trigger] before[k]).label@, before[k].mac@, il, im) by {
            lemma_sorts_before_total(before[k].label@, before[k].mac@, il, im);
        }
        if pos < before.len() {
            assert(sorts_before(il, im, before[pos as int].label@, before[pos as int].mac@));
        }
        assert forall|a: int, b: int| 0 <= a < b < res@.len() implies
            sorts_before(res@[a].label@, res@[a].mac@, res@[b].label@, res@[b].mac@) by {
            if b < pos {
                assert(res@[a] == before[a] && res@[b] == before[b]);
            } else if b == pos {
                assert(res@[a] == before[a]);
            } else if a == pos {
                assert(res@[b] == before[b - 1]);
                if b - 1 > pos {
                    lemma_sorts_before_transitive(il, im, before[pos as int].label@,
                        before[pos as int].mac@, before[b - 1].label@, before[b - 1].mac@);
                }
            } else if a < pos {
                assert(res@[a] == before[a] && res@[b] == before[b - 1]);
                lemma_sorts_before_transitive(before[a].label@, before[a].mac@, il, im,
                    before[pos as int].label@, before[pos as int].mac@);
                if b - 1 > pos {
                    lemma_sorts_before_transitive(before[a].label@, before[a].mac@,
                        before[pos as int].label@, before[pos as int].mac@, before[b - 1].label@, before[b - 1].mac@);
                }
            } else {
                assert(res@[a] == before[a - 1] && res@[b] == before[b - 1]);
            }
        }
        assert forall|r: VisibleMac| res@.contains(r) <==> (before.contains(r) || r == it) by {
            if res@.contains(r) {
                let k = choose|k: int| 0 <= k < res@.len() && res@[k] == r;
                if k < pos { assert(before[k] == r); } else if k > pos { assert(before[k - 1] == r); }
            }
            if before.contains(r) {
                let k = choose|k: int| 0 <= k < before.len() && before[k] == r;
                if k < pos { assert(res@[k] == r); } else { assert(res@[k + 1] == r); }
            }
            if r == res@[pos as int] {
                assert(res@.contains(r));
            }
        }
    }
}

/// The visible-MAC list of the live view at playback time `t`: every MAC seen within the
/// window around `t` that is neither a MAC of the selected vehicle nor (unless `show_ego`) an
/// ego MAC, with its vehicle label and its packet closest to `t`, ordered by label, then MAC.
pub fn visible_macs(
    pkts: &Vec<PacketRecord>,
    t: i64,
    vehicles: &Vec<OfflineVehicle>,
    selected: &str,
    show_ego: bool,
) -> (res: Vec<VisibleMac>)
    requires
        timestamps_near(pkts@, t),
    ensures
        forall|k: int| 0 <= k < res@.len() ==> {
            let e: VisibleMac = #[trigger] res@[k];
            &&& shown_mac(pkts@, t, vehicles@, selected_id(selected@), show_ego, e.mac@)
            &&& e.label@ == mac_label(vehicles@, e.mac@)
            &&& closest_packet(pkts@, t, e.packet as int)
            &&& pkts@[e.packet as int].mac@ == e.mac@
        },
        forall|mac: Seq<char>| shown_mac(pkts@, t, vehicles@, selected_id(selected@), show_ego, mac) ==>
            exists|k: int| 0 <= k < res@.len() && (#[trigger] res@[k]).mac@ == mac,
        forall|a: int, b: int| 0 <= a < b < res@.len() ==>
            sorts_before(res@[a].label@, res@[a].mac@, res@[b].label@, res@[b].mac@),
{
    // closest packet per MAC
    let mut macs: Vec<String> = Vec::new();
    let mut best: Vec<usize> = Vec::new();
    let mut i: usize = 0;
    while i < pkts.len()
        invariant
            i <= pkts@.len(),
            timestamps_near(pkts@, t),
            macs@.len() == best@.len(),
            forall|e: int| 0 <= e < best@.len() ==> {
                &&& (#[trigger] best@[e]) < i
                &&& pkts@[best@[e] as int].mac@ == macs@[e]@
                &&& in_window(pkts@[best@[e] as int], t)
            },
            forall|e: int, j: int| 0 <= e < best@.len() && 0 <= j < i && (#[trigger] pkts@[j]).mac@ == (#[trigger] macs@[e])@
                && in_window(pkts@[j], t) ==>
                time_dist(pkts@[best@[e] as int].timestamp_ms, t) < time_dist(pkts@[j].timestamp_ms, t)
                    || (time_dist(pkts@[best@[e] as int].timestamp_ms, t) == time_dist(pkts@[j].timestamp_ms, t) && best@[e] <= j),
            forall|j: int| 0 <= j < i && in_window(#[trigger] pkts@[j], t) ==>
                exists|e: int| 0 <= e < macs@.len() && (#[trigger] macs@[e])@ == pkts@[j].mac@,
            forall|e1: int, e2: int| 0 <= e1 < e2 < macs@.len() ==> (#[trigger] macs@[e1])@ != (#[trigger] macs@[e2])@,
        decreases pkts@.len() - i,
    {
        assert(-i64::MAX <= pkts@[i as int].timestamp_ms - t <= i64::MAX);
        let d: i64 = distance(pkts[i].timestamp_ms, t);
        if d <= VISIBLE_MAC_WINDOW_MS {
            match position_of(&macs, &pkts[i].mac) {
                None => {
                    let ghost old_macs = macs@;
                    macs.push(pkts[i].mac.clone());
                    best.push(i);
                    proof {
                        let n: int = old_macs.len() as int;
                        assert(macs@[n]@ == pkts@[i as int].mac@);
                        assert forall|j: int| 0 <= j < i + 1 && in_window(#[trigger] pkts@[j], t) implies
                            exists|e: int| 0 <= e < macs@.len() && (#[trigger] macs@[e])@ == pkts@[j].mac@ by {
                            if j == i {
                                assert(macs@[n]@ == pkts@[j].mac@);
                            } else {
                                let e = choose|e: int| 0 <= e < old_macs.len() && (#[trigger] old_macs[e])@ == pkts@[j].mac@;
                                assert(macs@[e] == old_macs[e]);
                            }
                        }
                    }
                },
                Some(e) => {
                    let b: usize = best[e];
                    assert(-i64::MAX <= pkts@[b as int].timestamp_ms - t <= i64::MAX);
                    let db: i64 = distance(pkts[b].timestamp_ms, t);
                    if d < db {
                        best.set(e, i);
                    }
                },
            }
        }
        i = i + 1;
    }
    // the listed MACs of the selected vehicle and of the ego vehicle
    let sel_id: u32 = selected_vehicle_id(selected);
    let sel_macs: Vec<String> = vehicle_macs_of(vehicles, sel_id);
    let ego_macs: Vec<String> = vehicle_macs_of(vehicles, 0);
    let mut res: Vec<VisibleMac> = Vec::new();
    let mut e: usize = 0;
    while e < macs.len()
        invariant
            e <= macs@.len(),
            macs@.len() == best@.len(),
            sel_macs.deep_view() == vehicle_macs(vehicles@, sel_id),
            ego_macs.deep_view() == vehicle_macs(vehicles@, 0),
            sel_id == selected_id(selected@),
            forall|e1: int, e2: int| 0 <= e1 < e2 < macs@.len() ==> (#[trigger] macs@[e1])@ != (#[trigger] macs@[e2])@,
            forall|r: VisibleMac| #[trigger] res@.contains(r) ==> {
                &&& exists|x: int| 0 <= x < e && (#[trigger] macs@[x])@ == r.mac@ && r.packet == best@[x]
                &&& !vehicle_macs(vehicles@, sel_id).contains(r.mac@)
                &&& (show_ego || !vehicle_macs(vehicles@, 0).contains(r.mac@))
                &&& r.label@ == mac_label(vehicles@, r.mac@)
            },
            forall|x: int| 0 <= x < e && !vehicle_macs(vehicles@, sel_id).contains((#[trigger] macs@[x])@)
                && (show_ego || !vehicle_macs(vehicles@, 0).contains(macs@[x]@)) ==>
                exists|r: VisibleMac| #[trigger] res@.contains(r) && r.mac@ == macs@[x]@,
            forall|a: int, b: int| 0 <= a < b < res@.len() ==>
                sorts_before(res@[a].label@, res@[a].mac@, res@[b].label@, res@[b].mac@),
        decreases macs@.len() - e,
    {
        let m: &String = &macs[e];
        let in_sel: bool = contains_string(&sel_macs, m);
        let in_ego: bool = contains_string(&ego_macs, m);
        if !in_sel && (show_ego || !in_ego) {
            let label: String = label_for_mac(vehicles, m);
            let item: VisibleMac = VisibleMac { mac: m.clone(), label, packet: best[e] };
            proof {
                assert forall|k: int| 0 <= k < res@.len() implies (#[trigger] res@[k]).mac@ != item.mac@ by {
                    assert(res@.contains(res@[k]));
                    let x = choose|x: int| 0 <= x < e && (#[trigger] macs@[x])@ == res@[k].mac@ && res@[k].packet == best@[x];
                    assert(macs@[x]@ != macs@[e as int]@);
                }
            }
            let ghost before = res@;
            insert_sorted(&mut res, item);
            proof {
                assert forall|x: int| 0 <= x < e + 1 && !vehicle_macs(vehicles@, sel_id).contains((#[trigger] macs@[x])@)
                    && (show_ego || !vehicle_macs(vehicles@, 0).contains(macs@[x]@)) implies
                    exists|r: VisibleMac| #[trigger] res@.contains(r) && r.mac@ == macs@[x]@ by {
                    if x == e {
                        assert(res@.contains(item));
                    } else {
                        let r = choose|r: VisibleMac| #[trigger] before.contains(r) && r.mac@ == macs@[x]@;
                        assert(res@.contains(r));
                    }
                }
                assert forall|r: VisibleMac| #[trigger] res@.contains(r) implies {
                    &&& exists|x: int| 0 <= x < e + 1 && (#[trigger] macs@[x])@ == r.mac@ && r.packet == best@[x]
                    &&& !vehicle_macs(vehicles@, sel_id).contains(r.mac@)
                    &&& (show_ego || !vehicle_macs(vehicles@, 0).contains(r.mac@))
                    &&& r.label@ == mac_label(vehicles@, r.mac@)
                } by {
                    if r == item {
                        assert(macs@[e as int]@ == r.mac@);
                    } else {
                        assert(before.contains(r));
                    }
                }
            }
        }
        e = e + 1;
    }
    proof {
        assert forall|k: int| 0 <= k < res@.len() implies {
            let r: VisibleMac = #[trigger] res@[k];
            &&& shown_mac(pkts@, t, vehicles@, selected_id(selected@), show_ego, r.mac@)
            &&& r.label@ == mac_label(vehicles@, r.mac@)
            &&& closest_packet(pkts@, t, r.packet as int)
            &&& pkts@[r.packet as int].mac@ == r.mac@
        } by {
            assert(res@.contains(res@[k]));
            let x = choose|x: int| 0 <= x < macs@.len() && (#[trigger] macs@[x])@ == res@[k].mac@ && res@[k].packet == best@[x];
            assert(best@[x] < pkts@.len());
            let b: int = best@[x] as int;
            assert(pkts@[b].mac@ == macs@[x]@);
            assert(in_window(pkts@[b], t));
            assert forall|j: int| 0 <= j < pkts@.len() && (#[trigger] pkts@[j]).mac@ == pkts@[b].mac@ && in_window(pkts@[j], t) implies
                time_dist(pkts@[b].timestamp_ms, t) < time_dist(pkts@[j].timestamp_ms, t)
                    || (time_dist(pkts@[b].timestamp_ms, t) == time_dist(pkts@[j].timestamp_ms, t) && b <= j) by {
                assert(pkts@[j].mac@ == macs@[x]@);
            }
            assert(seen_near(pkts@, t, res@[k].mac@));
        }
        assert forall|mac: Seq<char>| shown_mac(pkts@, t, vehicles@, selected_id(selected@), show_ego, mac) implies
            exists|k: int| 0 <= k < res@.len() && (#[trigger] res@[k]).mac@ == mac by {
            let j = choose|j: int| 0 <= j < pkts@.len() && in_window(#[trigger] pkts@[j], t) && pkts@[j].mac@ == mac;
            let x = choose|x: int| 0 <= x < macs@.len() && (#[trigger] macs@[x])@ == pkts@[j].mac@;
            assert(macs@[x]@ == mac);
            let r = choose|r: VisibleMac| #[trigger] res@.contains(r) && r.mac@ == macs@[x]@;
            let k = choose|k: int| 0 <= k < res@.len() && res@[k] == r;
            assert(res@[k].mac@ == mac);
        }
    }
    res
}

} // verus!

verus! {

/// A packet that can locate the selected vehicle: sent from one of its MACs, with a decoded
/// GeoNetworking header, within the window around `t`.
pub open spec fn anchor_candidate(p: PacketRecord, t: i64, sel_macs: Seq<Seq<char>>) -> bool {
    sel_macs.contains(p.mac@) && p.has_gnw && in_window(p, t)
}

/// Position of the packet that locates the selected vehicle at `t` (the distance column of the
/// visible-MAC list is measured from it): the candidate closest in time, the first of equally
/// close ones; `None` without a candidate.
pub fn selected_anchor(pkts: &Vec<PacketRecord>, t: i64, vehicles: &Vec<OfflineVehicle>, selected: &str) -> (res: Option<usize>)
    requires
        timestamps_near(pkts@, t),
    ensures
        ({
            let sel: Seq<Seq<char>> = vehicle_macs(vehicles@, selected_id(selected@));
            &&& res is None <==> forall|j: int| 0 <= j < pkts@.len() ==> !anchor_candidate(#[trigger] pkts@[j], t, sel)
            &&& res matches Some(i) ==> {
                &&& i < pkts@.len()
                &&& anchor_candidate(pkts@[i as int], t, sel)
                &&& forall|j: int| 0 <= j < pkts@.len() && anchor_candidate(#[trigger] pkts@[j], t, sel) ==>
                    time_dist(pkts@[i as int].timestamp_ms, t) < time_dist(pkts@[j].timestamp_ms, t)
                        || (time_dist(pkts@[i as int].timestamp_ms, t) == time_dist(pkts@[j].timestamp_ms, t) && i <= j)
            }
        }),
{
    let sel_macs: Vec<String> = vehicle_macs_of(vehicles, selected_vehicle_id(selected));
    let ghost sel = sel_macs.deep_view();
    let mut found: Option<usize> = None;
    let mut best: i64 = i64::MAX;
    let mut i: usize = 0;
    while i < pkts.len()
        invariant
            i <= pkts@.len(),
            timestamps_near(pkts@, t),
            sel == sel_macs.deep_view(),
            found is None ==> forall|j: int| 0 <= j < i ==> !anchor_candidate(#[trigger] pkts@[j], t, sel),
            found matches Some(b) ==> {
                &&& b < i
                &&& anchor_candidate(pkts@[b as int], t, sel)
                &&& best == time_dist(pkts@[b as int].timestamp_ms, t)
                &&& forall|j: int| 0 <= j < i && anchor_candidate(#[trigger] pkts@[j], t, sel) ==>
                    best < time_dist(pkts@[j].timestamp_ms, t) || (best == time_dist(pkts@[j].timestamp_ms, t) && b <= j)
            },
            found is None ==> best == i64::MAX,
        decreases pkts@.len() - i,
    {
        assert(-i64::MAX <= pkts@[i as int].timestamp_ms - t <= i64::MAX);
        if contains_string(&sel_macs, &pkts[i].mac) {
            let d: i64 = distance(pkts[i].timestamp_ms, t);
            if d <= VISIBLE_MAC_WINDOW_MS && d < best && pkts[i].has_gnw {
                found = Some(i);
                best = d;
            }
        }
        i = i + 1;
    }
    found
}

} // verus!
