use vstd::prelude::*;
use crate::order::{ascending_order, is_stable_order, sorted_copy, stable_order};
use crate::playback::sorted;
use vstd::seq_lib::to_multiset_len;
use crate::packet::{cam_of, count_matching, lemma_count_step, ItsPayload, PacketRecord};
use crate::calendar::span_secs;
use crate::text::{clone_strings, contains_string, contains_substring, dec, dedup_first, has_substring, lowercase, occurs_at, prefixed_number, push_dec, push_str, to_lowercase, trim, trimmed, unique_in_order};
use crate::live::TrackerVehicle;
use crate::trajectory::AccelControl;

verus! {

/// How far the decode pipeline got for the packets of a capture.
#[derive(Clone, Copy, PartialEq, Eq, Debug, Structural)]
pub struct DecodeStats {
    pub total: u64,
    pub with_gnw: u64,
    pub with_btp: u64,
    pub with_payload: u64,
    pub as_cam: u64,
    pub as_denm: u64,
    pub as_unsupported: u64,
}

/// The decode statistics of a packet sequence.
pub open spec fn decode_stats_of(pkts: Seq<PacketRecord>) -> DecodeStats {
    DecodeStats {
        total: pkts.len() as u64,
        with_gnw: count_matching(pkts, |p: PacketRecord| p.has_gnw) as u64,
        with_btp: count_matching(pkts, |p: PacketRecord| p.btp_destination_port is Some) as u64,
        with_payload: count_matching(pkts, |p: PacketRecord| p.payload is Some) as u64,
        as_cam: count_matching(pkts, |p: PacketRecord| p.payload matches Some(ItsPayload::Cam(_))) as u64,
        as_denm: count_matching(pkts, |p: PacketRecord| p.payload == Some(ItsPayload::Denm)) as u64,
        as_unsupported: count_matching(pkts, |p: PacketRecord| p.payload == Some(ItsPayload::Unsupported)) as u64,
    }
}

/// Counts, over all packets, how many carry a GeoNetworking header, a BTP-B header, a decoded
/// payload, and which kind of payload.
pub fn decode_stats(pkts: &Vec<PacketRecord>) -> (res: DecodeStats)
    requires
        pkts@.len() <= u64::MAX,
    ensures
        res == decode_stats_of(pkts@),
{
    let mut s: DecodeStats = DecodeStats {
        total: pkts.len() as u64,
        with_gnw: 0,
        with_btp: 0,
        with_payload: 0,
        as_cam: 0,
        as_denm: 0,
        as_unsupported: 0,
    };
    let mut i: usize = 0;
    while i < pkts.len()
        invariant
            i <= pkts@.len(),
            pkts@.len() <= u64::MAX,
            s.total == pkts@.len(),
            s.with_gnw == count_matching(pkts@.take(i as int), |p: PacketRecord| p.has_gnw),
            s.with_btp == count_matching(pkts@.take(i as int), |p: PacketRecord| p.btp_destination_port is Some),
            s.with_payload == count_matching(pkts@.take(i as int), |p: PacketRecord| p.payload is Some),
            s.as_cam == count_matching(pkts@.take(i as int), |p: PacketRecord| p.payload matches Some(ItsPayload::Cam(_))),
            s.as_denm == count_matching(pkts@.take(i as int), |p: PacketRecord| p.payload == Some(ItsPayload::Denm)),
            s.as_unsupported == count_matching(pkts@.take(i as int), |p: PacketRecord| p.payload == Some(ItsPayload::Unsupported)),
        decreases pkts@.len() - i,
    {
        proof {
            lemma_count_step(pkts@, |p: PacketRecord| p.has_gnw, i as int);
            lemma_count_step(pkts@, |p: PacketRecord| p.btp_destination_port is Some, i as int);
            lemma_count_step(pkts@, |p: PacketRecord| p.payload is Some, i as int);
            lemma_count_step(pkts@, |p: PacketRecord| p.payload matches Some(ItsPayload::Cam(_)), i as int);
            lemma_count_step(pkts@, |p: PacketRecord| p.payload == Some(ItsPayload::Denm), i as int);
            lemma_count_step(pkts@, |p: PacketRecord| p.payload == Some(ItsPayload::Unsupported), i as int);
        }
        let p: &PacketRecord = &pkts[i];
        if p.has_gnw { s.with_gnw = s.with_gnw + 1; }
        if p.btp_destination_port.is_some() { s.with_btp = s.with_btp + 1; }
        match &p.payload {
            Some(ItsPayload::Cam(_)) => { s.with_payload = s.with_payload + 1; s.as_cam = s.as_cam + 1; },
            Some(ItsPayload::Denm) => { s.with_payload = s.with_payload + 1; s.as_denm = s.as_denm + 1; },
            Some(ItsPayload::Unsupported) => { s.with_payload = s.with_payload + 1; s.as_unsupported = s.as_unsupported + 1; },
            None => {},
        }
        i = i + 1;
    }
    assert(pkts@.take(pkts@.len() as int) =~= pkts@);
    s
}

/// Every decoded payload is exactly one of CAM, DENM or unsupported, and no count exceeds the
/// number of packets.
pub proof fn lemma_decode_stats_consistent(pkts: Seq<PacketRecord>)
    ensures
        count_matching(pkts, |p: PacketRecord| p.payload is Some)
            == count_matching(pkts, |p: PacketRecord| p.payload matches Some(ItsPayload::Cam(_)))
            + count_matching(pkts, |p: PacketRecord| p.payload == Some(ItsPayload::Denm))
            + count_matching(pkts, |p: PacketRecord| p.payload == Some(ItsPayload::Unsupported)),
        count_matching(pkts, |p: PacketRecord| p.payload is Some) <= pkts.len(),
        count_matching(pkts, |p: PacketRecord| p.has_gnw) <= pkts.len(),
        count_matching(pkts, |p: PacketRecord| p.btp_destination_port is Some) <= pkts.len(),
    decreases pkts.len(),
{
    if pkts.len() > 0 {
        lemma_decode_stats_consistent(pkts.drop_last());
    }
}

proof fn lemma_count_bounded(s: Seq<PacketRecord>, f: spec_fn(PacketRecord) -> bool)
    ensures
        count_matching(s, f) <= s.len(),
    decreases s.len(),
{
    if s.len() > 0 {
        lemma_count_bounded(s.drop_last(), f);
    }
}

/// The statistics of no packets are all zero.
pub proof fn lemma_decode_stats_empty()
    ensures
        decode_stats_of(Seq::<PacketRecord>::empty()) == (DecodeStats {
            total: 0, with_gnw: 0, with_btp: 0, with_payload: 0, as_cam: 0, as_denm: 0, as_unsupported: 0,
        }),
{
}

/// One more packet adds one to the total and one to each count whose header or payload it
/// carries, each judged on its own: a BTP-B header counts whether or not the payload was
/// decoded, a GeoNetworking header whether or not anything else was, and a decoded payload
/// counts once as a payload and once under its kind.
pub proof fn lemma_decode_stats_push(s: Seq<PacketRecord>, p: PacketRecord)
    requires
        s.len() + 1 <= u64::MAX,
    ensures
        ({
            let a: DecodeStats = decode_stats_of(s);
            let b: DecodeStats = decode_stats_of(s.push(p));
            &&& b.total == a.total + 1
            &&& b.with_gnw == a.with_gnw + if p.has_gnw { 1int } else { 0int }
            &&& b.with_btp == a.with_btp + if p.btp_destination_port is Some { 1int } else { 0int }
            &&& b.with_payload == a.with_payload + if p.payload is Some { 1int } else { 0int }
            &&& b.as_cam == a.as_cam + if p.payload matches Some(ItsPayload::Cam(_)) { 1int } else { 0int }
            &&& b.as_denm == a.as_denm + if p.payload == Some(ItsPayload::Denm) { 1int } else { 0int }
            &&& b.as_unsupported == a.as_unsupported + if p.payload == Some(ItsPayload::Unsupported) { 1int } else { 0int }
        }),
{
    let t: Seq<PacketRecord> = s.push(p);
    assert(t.drop_last() =~= s);
    assert(t.last() == p);
    lemma_count_bounded(t, |q: PacketRecord| q.has_gnw);
    lemma_count_bounded(t, |q: PacketRecord| q.btp_destination_port is Some);
    lemma_count_bounded(t, |q: PacketRecord| q.payload is Some);
    lemma_count_bounded(t, |q: PacketRecord| q.payload matches Some(ItsPayload::Cam(_)));
    lemma_count_bounded(t, |q: PacketRecord| q.payload == Some(ItsPayload::Denm));
    lemma_count_bounded(t, |q: PacketRecord| q.payload == Some(ItsPayload::Unsupported));
}

/// Earliest capture timestamp (0 for no packets).
pub open spec fn min_timestamp(pkts: Seq<PacketRecord>) -> int
    decreases pkts.len(),
{
    if pkts.len() == 0 {
        0
    } else if pkts.len() == 1 {
        pkts[0].timestamp_ms as int
    } else {
        let m: int = min_timestamp(pkts.drop_last());
        if pkts.last().timestamp_ms < m { pkts.last().timestamp_ms as int } else { m }
    }
}

/// Latest capture timestamp (0 for no packets).
pub open spec fn max_timestamp(pkts: Seq<PacketRecord>) -> int
    decreases pkts.len(),
{
    if pkts.len() == 0 {
        0
    } else if pkts.len() == 1 {
        pkts[0].timestamp_ms as int
    } else {
        let m: int = max_timestamp(pkts.drop_last());
        if pkts.last().timestamp_ms > m { pkts.last().timestamp_ms as int } else { m }
    }
}

/// First and last capture timestamp of the packets (both 0 when there are none).
pub fn timestamp_range(pkts: &Vec<PacketRecord>) -> (res: (i64, i64))
    ensures
        res.0 == min_timestamp(pkts@),
        res.1 == max_timestamp(pkts@),
        pkts@.len() > 0 ==> forall|i: int| 0 <= i < pkts@.len() ==>
            res.0 <= #[trigger] pkts@[i].timestamp_ms <= res.1,
{
    if pkts.len() == 0 {
        return (0, 0);
    }
    let mut lo: i64 = pkts[0].timestamp_ms;
    let mut hi: i64 = pkts[0].timestamp_ms;
    let mut i: usize = 1;
    assert(pkts@.take(1).drop_last().len() == 0);
    while i < pkts.len()
        invariant
            1 <= i <= pkts@.len(),
            lo == min_timestamp(pkts@.take(i as int)),
            hi == max_timestamp(pkts@.take(i as int)),
            forall|k: int| 0 <= k < i ==> lo <= #[trigger] pkts@[k].timestamp_ms <= hi,
        decreases pkts@.len() - i,
    {
        assert(pkts@.take(i + 1).drop_last() =~= pkts@.take(i as int));
        let t: i64 = pkts[i].timestamp_ms;
        if t < lo { lo = t; }
        if t > hi { hi = t; }
        i = i + 1;
    }
    assert(pkts@.take(pkts@.len() as int) =~= pkts@);
    (lo, hi)
}

/// The source MACs of the packets, in capture order.
pub open spec fn macs_of(pkts: Seq<PacketRecord>) -> Seq<Seq<char>> {
    pkts.map_values(|p: PacketRecord| p.mac@)
}

/// Number of packets sent from `mac`.
pub open spec fn mac_count(pkts: Seq<PacketRecord>, mac: Seq<char>) -> nat {
    count_matching(pkts, |p: PacketRecord| p.mac@ == mac)
}

/// The source MACs of the packets, in capture order.
pub fn packet_macs(pkts: &Vec<PacketRecord>) -> (res: Vec<String>)
    ensures
        res.deep_view() == macs_of(pkts@),
{
    let mut res: Vec<String> = Vec::new();
    let mut i: usize = 0;
    while i < pkts.len()
        invariant
            i <= pkts@.len(),
            res@.len() == i,
            forall|k: int| 0 <= k < i ==> #[trigger] res@[k]@ == pkts@[k].mac@,
        decreases pkts@.len() - i,
    {
        res.push(pkts[i].mac.clone());
        i = i + 1;
    }
    assert(res.deep_view() =~= macs_of(pkts@));
    res
}

/// Number of packets sent from `mac`.
pub fn count_packets_from(pkts: &Vec<PacketRecord>, mac: &String) -> (res: u64)
    requires
        pkts@.len() <= u64::MAX,
    ensures
        res == mac_count(pkts@, mac@),
{
    let mut n: u64 = 0;
    let mut i: usize = 0;
    while i < pkts.len()
        invariant
            i <= pkts@.len(),
            pkts@.len() <= u64::MAX,
            n == count_matching(pkts@.take(i as int), |p: PacketRecord| p.mac@ == mac@),
        decreases pkts@.len() - i,
    {
        proof { lemma_count_step(pkts@, |p: PacketRecord| p.mac@ == mac@, i as int); }
        if pkts[i].mac == *mac {
            n = n + 1;
        }
        i = i + 1;
    }
    assert(pkts@.take(pkts@.len() as int) =~= pkts@);
    n
}

/// Sort keys that order MACs by descending packet count.
pub open spec fn mac_order_keys(pkts: Seq<PacketRecord>) -> Seq<u64> {
    let macs: Seq<Seq<char>> = dedup_first(macs_of(pkts));
    Seq::new(macs.len(), |i: int| (u64::MAX - mac_count(pkts, macs[i])) as u64)
}

/// The distinct source MACs, most active first; MACs with equal packet counts keep the order
/// in which they first appear in the capture.
pub fn mac_order(pkts: &Vec<PacketRecord>) -> (res: Vec<String>)
    requires
        pkts@.len() <= u64::MAX,
    ensures
        exists|order: Seq<usize>| {
            &&& #[trigger] is_stable_order(mac_order_keys(pkts@), order)
            &&& res@.len() == order.len()
            &&& forall|k: int| 0 <= k < res@.len() ==>
                #[trigger] res@[k]@ == dedup_first(macs_of(pkts@))[order[k] as int]
        },
{
    let all: Vec<String> = packet_macs(pkts);
    let macs: Vec<String> = unique_in_order(&all);
    let mut keys: Vec<u64> = Vec::new();
    let mut i: usize = 0;
    while i < macs.len()
        invariant
            i <= macs@.len(),
            pkts@.len() <= u64::MAX,
            macs.deep_view() == dedup_first(macs_of(pkts@)),
            keys@.len() == i,
            forall|k: int| 0 <= k < i ==> keys@[k] == mac_order_keys(pkts@)[k],
        decreases macs@.len() - i,
    {
        let c: u64 = count_packets_from(pkts, &macs[i]);
        assert(macs.deep_view()[i as int] == macs@[i as int]@);
        keys.push(u64::MAX - c);
        i = i + 1;
    }
    assert(keys@ =~= mac_order_keys(pkts@));
    let order: Vec<usize> = stable_order(&keys);
    let mut res: Vec<String> = Vec::new();
    let mut k: usize = 0;
    while k < order.len()
        invariant
            is_stable_order(keys@, order@),
            keys@.len() == macs@.len(),
            macs.deep_view() == dedup_first(macs_of(pkts@)),
            k <= order@.len(),
            res@.len() == k,
            forall|j: int| 0 <= j < k ==> #[trigger] res@[j]@ == dedup_first(macs_of(pkts@))[order@[j] as int],
        decreases order@.len() - k,
    {
        res.push(macs[order[k]].clone());
        assert(macs.deep_view()[order@[k as int] as int] == macs@[order@[k as int] as int]@);
        k = k + 1;
    }
    assert(is_stable_order(mac_order_keys(pkts@), order@));
    res
}

/// One row of the virtual-vehicle table.
#[derive(Clone, Debug)]
pub struct VehicleRow {
    pub virtual_id: u32,
    pub macs: Vec<String>,
    pub start_ms: i64,
    pub end_ms: i64,
    pub packet_count: u64,
}

/// Earliest timestamp of the packets sent from `mac`, if any.
pub open spec fn first_seen(pkts: Seq<PacketRecord>, mac: Seq<char>) -> Option<int>
    decreases pkts.len(),
{
    if pkts.len() == 0 {
        None
    } else {
        let rest: Option<int> = first_seen(pkts.drop_last(), mac);
        if pkts.last().mac@ == mac {
            let t: int = pkts.last().timestamp_ms as int;
            match rest { Some(r) => Some(if t < r { t } else { r }), None => Some(t) }
        } else {
            rest
        }
    }
}

/// Latest timestamp of the packets sent from `mac`, if any.
pub open spec fn last_seen(pkts: Seq<PacketRecord>, mac: Seq<char>) -> Option<int>
    decreases pkts.len(),
{
    if pkts.len() == 0 {
        None
    } else {
        let rest: Option<int> = last_seen(pkts.drop_last(), mac);
        if pkts.last().mac@ == mac {
            let t: int = pkts.last().timestamp_ms as int;
            match rest { Some(r) => Some(if t > r { t } else { r }), None => Some(t) }
        } else {
            rest
        }
    }
}

/// The smaller of two optional values (`None` is neutral).
pub open spec fn opt_min(a: Option<int>, b: Option<int>) -> Option<int> {
    match (a, b) {
        (Some(x), Some(y)) => Some(if x < y { x } else { y }),
        (Some(x), None) => Some(x),
        (None, _) => b,
    }
}

/// The larger of two optional values (`None` is neutral).
pub open spec fn opt_max(a: Option<int>, b: Option<int>) -> Option<int> {
    match (a, b) {
        (Some(x), Some(y)) => Some(if x > y { x } else { y }),
        (Some(x), None) => Some(x),
        (None, _) => b,
    }
}

/// Over the MAC chain `macs`: earliest and latest packet and the packet count summed per MAC.
pub open spec fn chain_span(pkts: Seq<PacketRecord>, macs: Seq<Seq<char>>) -> (Option<int>, Option<int>, nat)
    decreases macs.len(),
{
    if macs.len() == 0 {
        (None, None, 0)
    } else {
        let r: (Option<int>, Option<int>, nat) = chain_span(pkts, macs.drop_last());
        (opt_min(r.0, first_seen(pkts, macs.last())), opt_max(r.1, last_seen(pkts, macs.last())),
            r.2 + mac_count(pkts, macs.last()))
    }
}

/// The table row of a vehicle: its MAC chain, the time of its first and last packet (0 when
/// none of its MACs was captured) and the number of packets of its MACs.
pub open spec fn row_matches(row: VehicleRow, pkts: Seq<PacketRecord>, virtual_id: u32, macs: Seq<Seq<char>>) -> bool {
    let span: (Option<int>, Option<int>, nat) = chain_span(pkts, macs);
    &&& row.virtual_id == virtual_id
    &&& row.macs.deep_view() == macs
    &&& row.start_ms == match span.0 { Some(t) => t, None => 0 }
    &&& row.end_ms == match span.1 { Some(t) => t, None => 0 }
    &&& row.packet_count == span.2
}

/// Earliest timestamp, latest timestamp and count of the packets sent from `mac`.
fn mac_span(pkts: &Vec<PacketRecord>, mac: &String) -> (res: (Option<i64>, Option<i64>, u64))
    requires
        pkts@.len() <= u64::MAX,
    ensures
        res.0 matches Some(t) ==> first_seen(pkts@, mac@) == Some(t as int),
        res.0 is None ==> first_seen(pkts@, mac@) is None,
        res.1 matches Some(t) ==> last_seen(pkts@, mac@) == Some(t as int),
        res.1 is None ==> last_seen(pkts@, mac@) is None,
        res.2 == mac_count(pkts@, mac@),
{
    let mut lo: Option<i64> = None;
    let mut hi: Option<i64> = None;
    let mut n: u64 = 0;
    let mut i: usize = 0;
    while i < pkts.len()
        invariant
            i <= pkts@.len(),
            pkts@.len() <= u64::MAX,
            lo matches Some(t) ==> first_seen(pkts@.take(i as int), mac@) == Some(t as int),
            lo is None ==> first_seen(pkts@.take(i as int), mac@) is None,
            hi matches Some(t) ==> last_seen(pkts@.take(i as int), mac@) == Some(t as int),
            hi is None ==> last_seen(pkts@.take(i as int), mac@) is None,
            n == count_matching(pkts@.take(i as int), |p: PacketRecord| p.mac@ == mac@),
        decreases pkts@.len() - i,
    {
        proof { lemma_count_step(pkts@, |p: PacketRecord| p.mac@ == mac@, i as int); }
        assert(pkts@.take(i + 1).drop_last() =~= pkts@.take(i as int));
        if pkts[i].mac == *mac {
            let t: i64 = pkts[i].timestamp_ms;
            lo = match lo { Some(l) => Some(if t < l { t } else { l }), None => Some(t) };
            hi = match hi { Some(h) => Some(if t > h { t } else { h }), None => Some(t) };
            n = n + 1;
        }
        i = i + 1;
    }
    assert(pkts@.take(pkts@.len() as int) =~= pkts@);
    (lo, hi, n)
}

/// The table row of the vehicle `virtual_id` with MAC chain `macs`.
pub fn vehicle_row(pkts: &Vec<PacketRecord>, virtual_id: u32, macs: &Vec<String>) -> (res: VehicleRow)
    requires
        (macs@.len() + 1) * (pkts@.len() + 1) <= u64::MAX,
    ensures
        row_matches(res, pkts@, virtual_id, macs.deep_view()),
{
    let mut lo: Option<i64> = None;
    let mut hi: Option<i64> = None;
    let mut n: u64 = 0;
    let mut j: usize = 0;
    while j < macs.len()
        invariant
            j <= macs@.len(),
            (macs@.len() + 1) * (pkts@.len() + 1) <= u64::MAX,
            ({
                let span = chain_span(pkts@, macs.deep_view().take(j as int));
                &&& (lo matches Some(t) ==> span.0 == Some(t as int))
                &&& (lo is None ==> span.0 is None)
                &&& (hi matches Some(t) ==> span.1 == Some(t as int))
                &&& (hi is None ==> span.1 is None)
                &&& n == span.2
            }),
            n <= j * pkts@.len(),
        decreases macs@.len() - j,
    {
        proof {
            assert(pkts@.len() <= u64::MAX) by (nonlinear_arith)
                requires
                    (macs@.len() + 1) * (pkts@.len() + 1) <= u64::MAX,
            ;
        }
        let sp: (Option<i64>, Option<i64>, u64) = mac_span(pkts, &macs[j]);
        proof {
            assert(macs.deep_view().take(j + 1).drop_last() =~= macs.deep_view().take(j as int));
            assert(macs.deep_view().take(j + 1).last() == macs@[j as int]@);
            lemma_mac_count_bound(pkts@, macs@[j as int]@);
            assert(n + sp.2 <= (j + 1) * pkts@.len()) by (nonlinear_arith)
                requires
                    n <= j * pkts@.len(),
                    sp.2 <= pkts@.len(),
            ;
            assert((j + 1) * pkts@.len() <= u64::MAX) by (nonlinear_arith)
                requires
                    (macs@.len() + 1) * (pkts@.len() + 1) <= u64::MAX,
                    j < macs@.len(),
            ;
        }
        lo = match (lo, sp.0) {
            (Some(a), Some(b)) => Some(if a < b { a } else { b }),
            (Some(a), None) => Some(a),
            (None, b) => b,
        };
        hi = match (hi, sp.1) {
            (Some(a), Some(b)) => Some(if a > b { a } else { b }),
            (Some(a), None) => Some(a),
            (None, b) => b,
        };
        n = n + sp.2;
        j = j + 1;
    }
    assert(macs.deep_view().take(macs@.len() as int) =~= macs.deep_view());
    VehicleRow {
        virtual_id,
        macs: clone_strings(macs),
        start_ms: match lo { Some(t) => t, None => 0 },
        end_ms: match hi { Some(t) => t, None => 0 },
        packet_count: n,
    }
}

/// No MAC sends more packets than were captured.
proof fn lemma_mac_count_bound(pkts: Seq<PacketRecord>, mac: Seq<char>)
    ensures
        mac_count(pkts, mac) <= pkts.len(),
    decreases pkts.len(),
{
    if pkts.len() > 0 {
        lemma_mac_count_bound(pkts.drop_last(), mac);
    }
}

/// Table rows of the vehicles: one per tracker vehicle, in the tracker's order, then the ego
/// vehicle as virtual ID 0 when ego MACs were detected.
pub fn vehicle_rows(pkts: &Vec<PacketRecord>, found: &Vec<TrackerVehicle>, ego_macs: &Vec<String>) -> (res: Vec<VehicleRow>)
    requires
        forall|i: int| 0 <= i < found@.len() ==>
            (#[trigger] found@[i].macs@.len() + 1) * (pkts@.len() + 1) <= u64::MAX,
        (ego_macs@.len() + 1) * (pkts@.len() + 1) <= u64::MAX,
    ensures
        res@.len() == found@.len() + if ego_macs@.len() > 0 { 1int } else { 0int },
        forall|i: int| 0 <= i < found@.len() ==>
            row_matches(#[trigger] res@[i], pkts@, found@[i].id, found@[i].macs.deep_view()),
        ego_macs@.len() > 0 ==> row_matches(res@[found@.len() as int], pkts@, 0, ego_macs.deep_view()),
{
    let mut res: Vec<VehicleRow> = Vec::new();
    let mut i: usize = 0;
    while i < found.len()
        invariant
            i <= found@.len(),
            forall|k: int| 0 <= k < found@.len() ==>
                (#[trigger] found@[k].macs@.len() + 1) * (pkts@.len() + 1) <= u64::MAX,
            res@.len() == i,
            forall|k: int| 0 <= k < i ==>
                row_matches(#[trigger] res@[k], pkts@, found@[k].id, found@[k].macs.deep_view()),
        decreases found@.len() - i,
    {
        res.push(vehicle_row(pkts, found[i].id, &found[i].macs));
        i = i + 1;
    }
    if ego_macs.len() > 0 {
        res.push(vehicle_row(pkts, 0, ego_macs));
    }
    res
}

/// CAM generation-delta sample for the clock-drift charts.
#[derive(Clone, Debug)]
pub struct ClockDriftSample {
    pub mac: String,
    pub capture_ms: i64,
    pub gen_delta_ms: u32,
}

/// `(mac, capture time, generation delta)` of every CAM, in capture order.
pub open spec fn clock_drift_of(pkts: Seq<PacketRecord>) -> Seq<(Seq<char>, i64, u32)>
    decreases pkts.len(),
{
    if pkts.len() == 0 {
        Seq::empty()
    } else {
        let rest = clock_drift_of(pkts.drop_last());
        match cam_of(pkts.last()) {
            Some(c) => rest.push((pkts.last().mac@, pkts.last().timestamp_ms, c.gen_delta_time_ms)),
            None => rest,
        }
    }
}

/// Whether `s` is the clock-drift sample `e`.
pub open spec fn drift_sample_is(s: ClockDriftSample, e: (Seq<char>, i64, u32)) -> bool {
    &&& s.mac@ == e.0
    &&& s.capture_ms == e.1
    &&& s.gen_delta_ms == e.2
}

/// One clock-drift sample per CAM, in capture order.
pub fn clock_drift_samples(pkts: &Vec<PacketRecord>) -> (res: Vec<ClockDriftSample>)
    ensures
        res@.len() == clock_drift_of(pkts@).len(),
        forall|k: int| 0 <= k < res@.len() ==> drift_sample_is(#[trigger] res@[k], clock_drift_of(pkts@)[k]),
{
    let mut res: Vec<ClockDriftSample> = Vec::new();
    let mut i: usize = 0;
    while i < pkts.len()
        invariant
            i <= pkts@.len(),
            res@.len() == clock_drift_of(pkts@.take(i as int)).len(),
            forall|k: int| 0 <= k < res@.len() ==>
                drift_sample_is(#[trigger] res@[k], clock_drift_of(pkts@.take(i as int))[k]),
        decreases pkts@.len() - i,
    {
        assert(pkts@.take(i + 1).drop_last() =~= pkts@.take(i as int));
        let ghost prev = res@;
        let ghost before = clock_drift_of(pkts@.take(i as int));
        let p: &PacketRecord = &pkts[i];
        match &p.payload {
            Some(ItsPayload::Cam(cam)) => {
                assert(cam_of(pkts@[i as int]) == Some(*cam));
                res.push(ClockDriftSample { mac: p.mac.clone(), capture_ms: p.timestamp_ms, gen_delta_ms: cam.gen_delta_time_ms });
            },
            _ => {
                assert(cam_of(pkts@[i as int]) is None);
            },
        }
        proof {
            let after = clock_drift_of(pkts@.take(i + 1));
            assert forall|k: int| 0 <= k < res@.len() implies drift_sample_is(#[trigger] res@[k], after[k]) by {
                if k < prev.len() {
                    assert(res@[k] == prev[k]);
                    assert(after[k] == before[k]);
                }
            }
        }
        i = i + 1;
    }
    assert(pkts@.take(pkts@.len() as int) =~= pkts@);
    res
}

/// The acceleration-control flags as one byte: bit 7 brakes, bit 6 accelerator, bit 5
/// emergency braking, bit 4 collision warning, bit 3 ACC, bit 2 cruise control, bit 1 speed
/// limiter.
pub open spec fn accel_flags_spec(a: AccelControl) -> u8 {
    ((if a.brake_pedal_active { 128u8 } else { 0u8 })
        | (if a.gas_pedal_active { 64u8 } else { 0u8 })
        | (if a.emergency_brake_active { 32u8 } else { 0u8 })
        | (if a.collision_warning_active { 16u8 } else { 0u8 })
        | (if a.acc_engaged { 8u8 } else { 0u8 })
        | (if a.cruise_control_active { 4u8 } else { 0u8 })
        | (if a.speed_limiter_active { 2u8 } else { 0u8 })) as u8
}

/// Packs the acceleration-control flags into the byte the flag timeline reads.
pub fn accel_flags(a: &AccelControl) -> (res: u8)
    ensures
        res == accel_flags_spec(*a),
{
    (if a.brake_pedal_active { 128u8 } else { 0u8 })
        | (if a.gas_pedal_active { 64u8 } else { 0u8 })
        | (if a.emergency_brake_active { 32u8 } else { 0u8 })
        | (if a.collision_warning_active { 16u8 } else { 0u8 })
        | (if a.acc_engaged { 8u8 } else { 0u8 })
        | (if a.cruise_control_active { 4u8 } else { 0u8 })
        | (if a.speed_limiter_active { 2u8 } else { 0u8 })
}

/// Bit mask of the flag timeline row `row` (0 = Brakes, ..., 6 = Speed Limiter).
pub open spec fn flag_mask(row: int) -> u8 {
    if row == 0 { 128 } else if row == 1 { 64 } else if row == 2 { 32 } else if row == 3 { 16 }
    else if row == 4 { 8 } else if row == 5 { 4 } else { 2 }
}

/// Number of rows of the acceleration-control flag timeline.
pub const FLAG_ROWS: usize = 7;

/// Whether the timeline row `row` shows a tick for the flag byte `flags`.
pub fn flag_row_active(flags: u8, row: usize) -> (res: bool)
    requires
        row < FLAG_ROWS,
    ensures
        res == (flags & flag_mask(row as int) != 0),
{
    let mask: u8 = if row == 0 { 128 } else if row == 1 { 64 } else if row == 2 { 32 } else if row == 3 { 16 }
        else if row == 4 { 8 } else if row == 5 { 4 } else { 2 };
    flags & mask != 0
}

/// Label of the flag timeline row `row`.
pub fn flag_row_label(row: usize) -> (res: &'static str)
    requires
        row < FLAG_ROWS,
    ensures
        row == 0 ==> res@ == "Brakes"@,
        row == 1 ==> res@ == "Accelerator"@,
        row == 2 ==> res@ == "Emergency Braking"@,
        row == 3 ==> res@ == "Collision Warning"@,
        row == 4 ==> res@ == "ACC"@,
        row == 5 ==> res@ == "Cruise Control"@,
        row == 6 ==> res@ == "Speed Limiter"@,
{
    if row == 0 { "Brakes" } else if row == 1 { "Accelerator" } else if row == 2 { "Emergency Braking" }
    else if row == 3 { "Collision Warning" } else if row == 4 { "ACC" } else if row == 5 { "Cruise Control" }
    else { "Speed Limiter" }
}

/// The flag timeline shows exactly the active acceleration-control flags: each row of the
/// packed byte is set iff its flag is.
pub proof fn lemma_flag_rows_decode(a: AccelControl)
    ensures
        (accel_flags_spec(a) & flag_mask(0) != 0) == a.brake_pedal_active,
        (accel_flags_spec(a) & flag_mask(1) != 0) == a.gas_pedal_active,
        (accel_flags_spec(a) & flag_mask(2) != 0) == a.emergency_brake_active,
        (accel_flags_spec(a) & flag_mask(3) != 0) == a.collision_warning_active,
        (accel_flags_spec(a) & flag_mask(4) != 0) == a.acc_engaged,
        (accel_flags_spec(a) & flag_mask(5) != 0) == a.cruise_control_active,
        (accel_flags_spec(a) & flag_mask(6) != 0) == a.speed_limiter_active,
        accel_flags_spec(a) & 1 == 0,
{
    let b7: u8 = if a.brake_pedal_active { 128u8 } else { 0u8 };
    let b6: u8 = if a.gas_pedal_active { 64u8 } else { 0u8 };
    let b5: u8 = if a.emergency_brake_active { 32u8 } else { 0u8 };
    let b4: u8 = if a.collision_warning_active { 16u8 } else { 0u8 };
    let b3: u8 = if a.acc_engaged { 8u8 } else { 0u8 };
    let b2: u8 = if a.cruise_control_active { 4u8 } else { 0u8 };
    let b1: u8 = if a.speed_limiter_active { 2u8 } else { 0u8 };
    let f: u8 = accel_flags_spec(a);
    assert(f == b7 | b6 | b5 | b4 | b3 | b2 | b1);
    assert(
        ((f & 128u8 != 0) == (b7 != 0)) && ((f & 64u8 != 0) == (b6 != 0)) && ((f & 32u8 != 0) == (b5 != 0))
        && ((f & 16u8 != 0) == (b4 != 0)) && ((f & 8u8 != 0) == (b3 != 0)) && ((f & 4u8 != 0) == (b2 != 0))
        && ((f & 2u8 != 0) == (b1 != 0)) && (f & 1u8 == 0)
    ) by (bit_vector)
        requires
            f == b7 | b6 | b5 | b4 | b3 | b2 | b1,
            b7 == 0 || b7 == 128,
            b6 == 0 || b6 == 64,
            b5 == 0 || b5 == 32,
            b4 == 0 || b4 == 16,
            b3 == 0 || b3 == 8,
            b2 == 0 || b2 == 4,
            b1 == 0 || b1 == 2,
    ;
}

/// Acceleration-control flag event for the timeline chart.
#[derive(Clone, Debug)]
pub struct AccelControlEvent {
    pub mac: String,
    pub timestamp_ms: i64,
    /// Packed flags, see `accel_flags`.
    pub flags: u8,
}

/// `(mac, capture time, packed flags)` of every CAM with an acceleration-control container.
pub open spec fn accel_events_of(pkts: Seq<PacketRecord>) -> Seq<(Seq<char>, i64, u8)>
    decreases pkts.len(),
{
    if pkts.len() == 0 {
        Seq::empty()
    } else {
        let rest = accel_events_of(pkts.drop_last());
        match cam_of(pkts.last()) {
            Some(c) => match c.accel_control {
                Some(a) => rest.push((pkts.last().mac@, pkts.last().timestamp_ms, accel_flags_spec(a))),
                None => rest,
            },
            None => rest,
        }
    }
}

/// Whether `ev` is the flag event `e`.
pub open spec fn accel_event_is(ev: AccelControlEvent, e: (Seq<char>, i64, u8)) -> bool {
    &&& ev.mac@ == e.0
    &&& ev.timestamp_ms == e.1
    &&& ev.flags == e.2
}

/// One flag event per CAM that carries acceleration-control flags, in capture order.
pub fn accel_control_events(pkts: &Vec<PacketRecord>) -> (res: Vec<AccelControlEvent>)
    ensures
        res@.len() == accel_events_of(pkts@).len(),
        forall|k: int| 0 <= k < res@.len() ==> accel_event_is(#[trigger] res@[k], accel_events_of(pkts@)[k]),
{
    let mut res: Vec<AccelControlEvent> = Vec::new();
    let mut i: usize = 0;
    while i < pkts.len()
        invariant
            i <= pkts@.len(),
            res@.len() == accel_events_of(pkts@.take(i as int)).len(),
            forall|k: int| 0 <= k < res@.len() ==>
                accel_event_is(#[trigger] res@[k], accel_events_of(pkts@.take(i as int))[k]),
        decreases pkts@.len() - i,
    {
        assert(pkts@.take(i + 1).drop_last() =~= pkts@.take(i as int));
        let ghost prev = res@;
        let ghost before = accel_events_of(pkts@.take(i as int));
        let p: &PacketRecord = &pkts[i];
        match &p.payload {
            Some(ItsPayload::Cam(cam)) => {
                assert(cam_of(pkts@[i as int]) == Some(*cam));
                match &cam.accel_control {
                    Some(a) => {
                        res.push(AccelControlEvent { mac: p.mac.clone(), timestamp_ms: p.timestamp_ms, flags: accel_flags(a) });
                    },
                    None => {},
                }
            },
            _ => {
                assert(cam_of(pkts@[i as int]) is None);
            },
        }
        proof {
            let after = accel_events_of(pkts@.take(i + 1));
            assert forall|k: int| 0 <= k < res@.len() implies accel_event_is(#[trigger] res@[k], after[k]) by {
                if k < prev.len() {
                    assert(res@[k] == prev[k]);
                    assert(after[k] == before[k]);
                }
            }
        }
        i = i + 1;
    }
    assert(pkts@.take(pkts@.len() as int) =~= pkts@);
    res
}

} // verus!

verus! {

/// The MAC filter of the analysis view's text field: the trimmed, lower-cased text, and the
/// empty filter (every MAC matches) when the field holds nothing but whitespace.
pub open spec fn mac_filter_spec(input: Seq<char>) -> Seq<char> {
    if trimmed(input).len() == 0 { Seq::empty() } else { lowercase(trimmed(input)) }
}

/// The MAC filter typed into the analysis view (see `mac_filter_spec`).
pub fn mac_filter_of(input: &str) -> (res: String)
    ensures
        res@ == mac_filter_spec(input@),
{
    let t: String = trim(input);
    if t.as_str().is_empty() {
        return t;
    }
    to_lowercase(t.as_str())
}

/// Whether a packet passes the time window and the MAC filter of the analysis view (the
/// filter matches the lower-cased MAC anywhere; an empty filter matches every MAC).
pub open spec fn base_filter_accepts(p: PacketRecord, t_start: Option<i64>, t_end: Option<i64>, mac_filter: Seq<char>) -> bool {
    &&& (t_start matches Some(t) ==> p.timestamp_ms >= t)
    &&& (t_end matches Some(t) ==> p.timestamp_ms <= t)
    &&& (mac_filter.len() > 0 ==> has_substring(lowercase(p.mac@), mac_filter))
}

/// Positions, in increasing order, of the packets for which `keep` holds.
pub open spec fn kept_positions(pkts: Seq<PacketRecord>, keep: spec_fn(PacketRecord) -> bool) -> Seq<usize>
    decreases pkts.len(),
{
    if pkts.len() == 0 {
        Seq::empty()
    } else {
        let rest: Seq<usize> = kept_positions(pkts.drop_last(), keep);
        if keep(pkts.last()) { rest.push((pkts.len() - 1) as usize) } else { rest }
    }
}

/// The MAC filter matches anywhere in the MAC: a packet inside the time window whose lower-cased
/// MAC holds the filter at some position passes, and a packet that passes a non-empty filter
/// holds it at some position of its lower-cased MAC.
pub proof fn lemma_mac_filter_matches_anywhere(
    p: PacketRecord,
    t_start: Option<i64>,
    t_end: Option<i64>,
    mac_filter: Seq<char>,
    i: int,
)
    ensures
        (t_start matches Some(t) ==> p.timestamp_ms >= t) && (t_end matches Some(t) ==> p.timestamp_ms <= t)
            && occurs_at(lowercase(p.mac@), mac_filter, i) ==> base_filter_accepts(p, t_start, t_end, mac_filter),
        mac_filter.len() > 0 && base_filter_accepts(p, t_start, t_end, mac_filter) ==>
            exists|j: int| 0 <= j <= lowercase(p.mac@).len() - mac_filter.len()
                && #[trigger] lowercase(p.mac@).subrange(j, j + mac_filter.len()) == mac_filter,
{
    if mac_filter.len() > 0 && base_filter_accepts(p, t_start, t_end, mac_filter) {
        let j: int = choose|j: int| #[trigger] occurs_at(lowercase(p.mac@), mac_filter, j);
        assert(occurs_at(lowercase(p.mac@), mac_filter, j));
    }
}

/// A position is kept exactly when its packet passes.
pub proof fn lemma_kept_positions_members(pkts: Seq<PacketRecord>, keep: spec_fn(PacketRecord) -> bool, i: int)
    requires
        0 <= i < pkts.len(),
        pkts.len() <= usize::MAX,
    ensures
        kept_positions(pkts, keep).contains(i as usize) <==> keep(pkts[i]),
    decreases pkts.len(),
{
    let rest: Seq<usize> = kept_positions(pkts.drop_last(), keep);
    lemma_positions_bounded(pkts.drop_last(), keep);
    if i < pkts.len() - 1 {
        lemma_kept_positions_members(pkts.drop_last(), keep, i);
        assert(pkts.drop_last()[i] == pkts[i]);
        if keep(pkts.last()) {
            assert(kept_positions(pkts, keep) == rest.push((pkts.len() - 1) as usize));
            if kept_positions(pkts, keep).contains(i as usize) {
                let k: int = choose|k: int| 0 <= k < kept_positions(pkts, keep).len() && kept_positions(pkts, keep)[k] == i as usize;
                if k < rest.len() {
                    assert(rest[k] == i as usize);
                }
            }
            if rest.contains(i as usize) {
                let k: int = choose|k: int| 0 <= k < rest.len() && rest[k] == i as usize;
                assert(kept_positions(pkts, keep)[k] == i as usize);
            }
        }
    } else {
        if keep(pkts.last()) {
            assert(kept_positions(pkts, keep).last() == i as usize);
            assert(kept_positions(pkts, keep)[kept_positions(pkts, keep).len() - 1] == i as usize);
        } else {
            if rest.contains(i as usize) {
                let k: int = choose|k: int| 0 <= k < rest.len() && rest[k] == i as usize;
                assert(rest[k] < pkts.len() - 1);
            }
        }
    }
}

proof fn lemma_positions_bounded(pkts: Seq<PacketRecord>, keep: spec_fn(PacketRecord) -> bool)
    requires
        pkts.len() <= usize::MAX + 1,
    ensures
        forall|k: int| 0 <= k < kept_positions(pkts, keep).len() ==> #[trigger] kept_positions(pkts, keep)[k] < pkts.len(),
    decreases pkts.len(),
{
    if pkts.len() > 0 {
        lemma_positions_bounded(pkts.drop_last(), keep);
        let rest: Seq<usize> = kept_positions(pkts.drop_last(), keep);
        assert forall|k: int| 0 <= k < kept_positions(pkts, keep).len() implies #[trigger] kept_positions(pkts, keep)[k] < pkts.len() by {
            if k < rest.len() {
                assert(kept_positions(pkts, keep)[k] == rest[k]);
            }
        }
    }
}

/// Positions of the packets inside the time window `[t_start, t_end]` (either end open when
/// `None`) whose lower-cased MAC contains `mac_filter`.
pub fn base_filter_indices(pkts: &Vec<PacketRecord>, t_start: Option<i64>, t_end: Option<i64>, mac_filter: &str) -> (res: Vec<usize>)
    ensures
        res@ == kept_positions(pkts@, |p: PacketRecord| base_filter_accepts(p, t_start, t_end, mac_filter@)),
{
    let ghost keep = |p: PacketRecord| base_filter_accepts(p, t_start, t_end, mac_filter@);
    let check_mac: bool = !mac_filter.is_empty();
    let mut res: Vec<usize> = Vec::new();
    let mut i: usize = 0;
    while i < pkts.len()
        invariant
            i <= pkts@.len(),
            check_mac == (mac_filter@.len() > 0),
            keep == (|p: PacketRecord| base_filter_accepts(p, t_start, t_end, mac_filter@)),
            res@ == kept_positions(pkts@.take(i as int), keep),
        decreases pkts@.len() - i,
    {
        assert(pkts@.take(i + 1).drop_last() =~= pkts@.take(i as int));
        assert(pkts@.take(i + 1).last() == pkts@[i as int]);
        let p: &PacketRecord = &pkts[i];
        let mut ok: bool = true;
        if let Some(t) = t_start {
            if p.timestamp_ms < t { ok = false; }
        }
        if let Some(t) = t_end {
            if p.timestamp_ms > t { ok = false; }
        }
        if ok && check_mac {
            let lower: String = to_lowercase(p.mac.as_str());
            if !contains_substring(lower.as_str(), mac_filter) { ok = false; }
        }
        assert(ok == keep(pkts@[i as int]));
        if ok {
            res.push(i);
        }
        i = i + 1;
    }
    assert(pkts@.take(pkts@.len() as int) =~= pkts@);
    res
}

/// Positions, in increasing order, of the first `n` packets that pass the time window and the
/// MAC filter and whose vehicle-length check (`length_ok`, one verdict per packet) passed.
pub open spec fn base_filter_positions(
    pkts: Seq<PacketRecord>,
    length_ok: Seq<bool>,
    t_start: Option<i64>,
    t_end: Option<i64>,
    mac_filter: Seq<char>,
    n: nat,
) -> Seq<usize>
    decreases n,
{
    if n == 0 {
        Seq::empty()
    } else {
        let rest: Seq<usize> = base_filter_positions(pkts, length_ok, t_start, t_end, mac_filter, (n - 1) as nat);
        if base_filter_accepts(pkts[n - 1], t_start, t_end, mac_filter) && length_ok[n - 1] {
            rest.push((n - 1) as usize)
        } else {
            rest
        }
    }
}

/// The analysis view's base filters (all but the vehicle): positions of the packets inside the
/// time window `[t_start, t_end]` whose lower-cased MAC contains the MAC field's filter and
/// whose vehicle-length check passed.
pub fn apply_base_filters(
    pkts: &Vec<PacketRecord>,
    t_start: Option<i64>,
    t_end: Option<i64>,
    mac_field: &str,
    length_ok: &Vec<bool>,
) -> (res: Vec<usize>)
    requires
        length_ok@.len() == pkts@.len(),
    ensures
        res@ == base_filter_positions(pkts@, length_ok@, t_start, t_end, mac_filter_spec(mac_field@), pkts@.len()),
{
    let mac_filter: String = mac_filter_of(mac_field);
    let check_mac: bool = !mac_filter.as_str().is_empty();
    let ghost m = mac_filter_spec(mac_field@);
    let mut res: Vec<usize> = Vec::new();
    let mut i: usize = 0;
    while i < pkts.len()
        invariant
            i <= pkts@.len(),
            length_ok@.len() == pkts@.len(),
            mac_filter@ == m,
            check_mac == (m.len() > 0),
            res@ == base_filter_positions(pkts@, length_ok@, t_start, t_end, m, i as nat),
        decreases pkts@.len() - i,
    {
        let p: &PacketRecord = &pkts[i];
        let mut ok: bool = length_ok[i];
        if let Some(t) = t_start {
            if p.timestamp_ms < t { ok = false; }
        }
        if let Some(t) = t_end {
            if p.timestamp_ms > t { ok = false; }
        }
        if ok && check_mac {
            let lower: String = to_lowercase(p.mac.as_str());
            if !contains_substring(lower.as_str(), mac_filter.as_str()) { ok = false; }
        }
        assert(ok == (base_filter_accepts(pkts@[i as int], t_start, t_end, m) && length_ok@[i as int]));
        if ok {
            res.push(i);
        }
        i = i + 1;
    }
    res
}

/// The base filters keep packets in capture order: the positions rise strictly and lie
/// inside the capture.
pub proof fn lemma_base_filter_in_order(
    pkts: Seq<PacketRecord>,
    length_ok: Seq<bool>,
    t_start: Option<i64>,
    t_end: Option<i64>,
    mac_filter: Seq<char>,
    n: nat,
)
    requires
        n <= usize::MAX + 1,
    ensures
        ({
            let r: Seq<usize> = base_filter_positions(pkts, length_ok, t_start, t_end, mac_filter, n);
            &&& forall|k: int| 0 <= k < r.len() ==> #[trigger] r[k] < n
            &&& forall|a: int, b: int| 0 <= a < b < r.len() ==> r[a] < r[b]
        }),
    decreases n,
{
    if n > 0 {
        lemma_base_filter_in_order(pkts, length_ok, t_start, t_end, mac_filter, (n - 1) as nat);
        let rest: Seq<usize> = base_filter_positions(pkts, length_ok, t_start, t_end, mac_filter, (n - 1) as nat);
        let r: Seq<usize> = base_filter_positions(pkts, length_ok, t_start, t_end, mac_filter, n);
        assert forall|k: int| 0 <= k < r.len() implies #[trigger] r[k] < n by {
            if k < rest.len() { assert(r[k] == rest[k]); }
        }
        assert forall|a: int, b: int| 0 <= a < b < r.len() implies r[a] < r[b] by {
            if b < rest.len() {
                assert(r[a] == rest[a] && r[b] == rest[b]);
            } else {
                assert(r[a] == rest[a]);
                assert(rest[a] < n - 1);
            }
        }
    }
}

/// A packet is kept by the base filters exactly when it passes the time window and the MAC
/// filter and its length check passed.
pub proof fn lemma_base_filter_members(
    pkts: Seq<PacketRecord>,
    length_ok: Seq<bool>,
    t_start: Option<i64>,
    t_end: Option<i64>,
    mac_filter: Seq<char>,
    n: nat,
    i: int,
)
    requires
        0 <= i < n,
        n <= pkts.len(),
        n <= length_ok.len(),
        n <= usize::MAX + 1,
    ensures
        base_filter_positions(pkts, length_ok, t_start, t_end, mac_filter, n).contains(i as usize)
            <==> base_filter_accepts(pkts[i], t_start, t_end, mac_filter) && length_ok[i],
    decreases n,
{
    let m: nat = (n - 1) as nat;
    let rest: Seq<usize> = base_filter_positions(pkts, length_ok, t_start, t_end, mac_filter, m);
    let all: Seq<usize> = base_filter_positions(pkts, length_ok, t_start, t_end, mac_filter, n);
    lemma_base_filter_in_order(pkts, length_ok, t_start, t_end, mac_filter, m);
    let last_kept: bool = base_filter_accepts(pkts[m as int], t_start, t_end, mac_filter) && length_ok[m as int];
    if i < m {
        lemma_base_filter_members(pkts, length_ok, t_start, t_end, mac_filter, m, i);
        if last_kept {
            assert(all == rest.push(m as usize));
            if all.contains(i as usize) {
                let k: int = choose|k: int| 0 <= k < all.len() && all[k] == i as usize;
                if k < rest.len() {
                    assert(rest[k] == i as usize);
                }
            }
            if rest.contains(i as usize) {
                let k: int = choose|k: int| 0 <= k < rest.len() && rest[k] == i as usize;
                assert(all[k] == i as usize);
            }
        }
    } else {
        if last_kept {
            assert(all[all.len() - 1] == i as usize);
        } else {
            if rest.contains(i as usize) {
                let k: int = choose|k: int| 0 <= k < rest.len() && rest[k] == i as usize;
                assert(rest[k] < m);
            }
        }
    }
}

/// With no time bounds, a blank MAC field and every length check passed, the base filters
/// keep every packet.
pub proof fn lemma_default_base_filter_keeps_all(pkts: Seq<PacketRecord>, length_ok: Seq<bool>, mac_field: Seq<char>, n: nat)
    requires
        n <= pkts.len(),
        n <= length_ok.len(),
        n <= usize::MAX + 1,
        trimmed(mac_field).len() == 0,
        forall|i: int| 0 <= i < n ==> #[trigger] length_ok[i],
    ensures
        base_filter_positions(pkts, length_ok, None, None, mac_filter_spec(mac_field), n)
            == Seq::new(n, |i: int| i as usize),
    decreases n,
{
    if n > 0 {
        lemma_default_base_filter_keeps_all(pkts, length_ok, mac_field, (n - 1) as nat);
        assert(length_ok[n - 1]);
        assert(Seq::new((n - 1) as nat, |i: int| i as usize).push((n - 1) as usize)
            =~= Seq::new(n, |i: int| i as usize));
    }
}

/// Whether `x` is one of the MACs of `macs`.
pub open spec fn mac_in(macs: Seq<Seq<char>>, x: Seq<char>) -> bool {
    macs.contains(x)
}

/// The packets of the vehicle `vid` for the second analysis pass: `None` when no row has that
/// virtual ID, its row has no MACs, or none of its MACs sent a packet; otherwise the positions
/// of the packets sent from its MACs (the first row with that ID counts).
pub open spec fn vehicle_positions_spec(pkts: Seq<PacketRecord>, rows: Seq<VehicleRow>, vid: u32) -> Option<Seq<usize>> {
    if exists|r: int| 0 <= r < rows.len() && (#[trigger] rows[r]).virtual_id == vid {
        let r: int = choose|r: int| 0 <= r < rows.len() && (#[trigger] rows[r]).virtual_id == vid
            && forall|q: int| 0 <= q < r ==> (#[trigger] rows[q]).virtual_id != vid;
        let macs: Seq<Seq<char>> = rows[r].macs.deep_view();
        let pos: Seq<usize> = kept_positions(pkts, |p: PacketRecord| mac_in(macs, p.mac@));
        if macs.len() > 0 && pos.len() > 0 { Some(pos) } else { None }
    } else {
        None
    }
}

/// Positions of the packets of the vehicle `vid` (see `vehicle_positions_spec`).
pub fn vehicle_packet_positions(pkts: &Vec<PacketRecord>, rows: &Vec<VehicleRow>, vid: u32) -> (res: Option<Vec<usize>>)
    ensures
        match vehicle_positions_spec(pkts@, rows@, vid) {
            Some(pos) => res matches Some(v) && v@ == pos,
            None => res is None,
        },
{
    let mut r: usize = 0;
    while r < rows.len() && rows[r].virtual_id != vid
        invariant
            r <= rows@.len(),
            forall|q: int| 0 <= q < r ==> (#[trigger] rows@[q]).virtual_id != vid,
        decreases rows@.len() - r,
    {
        r = r + 1;
    }
    if r == rows.len() {
        return None;
    }
    proof {
        let w = choose|x: int| 0 <= x < rows@.len() && (#[trigger] rows@[x]).virtual_id == vid
            && forall|q: int| 0 <= q < x ==> (#[trigger] rows@[q]).virtual_id != vid;
        assert(0 <= r < rows@.len() && rows@[r as int].virtual_id == vid
            && forall|q: int| 0 <= q < r ==> (#[trigger] rows@[q]).virtual_id != vid);
        if w < r {
            assert(rows@[w].virtual_id != vid);
        } else if w > r {
            assert(rows@[r as int].virtual_id != vid);
        }
    }
    let macs: &Vec<String> = &rows[r].macs;
    if macs.len() == 0 {
        return None;
    }
    let ghost mv = macs.deep_view();
    let ghost keep = |p: PacketRecord| mac_in(mv, p.mac@);
    let mut pos: Vec<usize> = Vec::new();
    let mut i: usize = 0;
    while i < pkts.len()
        invariant
            i <= pkts@.len(),
            mv == macs.deep_view(),
            keep == (|p: PacketRecord| mac_in(mv, p.mac@)),
            pos@ == kept_positions(pkts@.take(i as int), keep),
        decreases pkts@.len() - i,
    {
        assert(pkts@.take(i + 1).drop_last() =~= pkts@.take(i as int));
        assert(pkts@.take(i + 1).last() == pkts@[i as int]);
        let found: bool = contains_string(macs, &pkts[i].mac);
        if found {
            pos.push(i);
        }
        i = i + 1;
    }
    assert(pkts@.take(pkts@.len() as int) =~= pkts@);
    if pos.len() == 0 { None } else { Some(pos) }
}

/// Whole seconds the capture spans, `None` for an empty capture.
pub fn capture_duration_s(pkts: &Vec<PacketRecord>) -> (res: Option<u64>)
    requires
        max_timestamp(pkts@) - min_timestamp(pkts@) <= i64::MAX,
    ensures
        pkts@.len() == 0 ==> res is None,
        pkts@.len() > 0 ==> res == Some(span_secs(min_timestamp(pkts@), max_timestamp(pkts@)) as u64),
{
    if pkts.len() == 0 {
        return None;
    }
    let range: (i64, i64) = timestamp_range(pkts);
    let q: i64 = (range.1 - range.0) / 1000;
    Some(if q > 0 { q as u64 } else { 0 })
}

/// Hint under the time-range inputs: `0 - <seconds>` once a capture is loaded.
pub fn duration_hint(duration_s: Option<u64>) -> (res: String)
    ensures
        duration_s is None ==> res@.len() == 0,
        duration_s matches Some(s) ==> res@ == "0 - "@ + dec(s as nat),
{
    match duration_s {
        None => String::new(),
        Some(s) => prefixed_number("0 - ", s),
    }
}

/// Option label of a vehicle in the analysis filter.
pub open spec fn vehicle_option_label(row: VehicleRow) -> Seq<char> {
    if row.virtual_id == 0 {
        "ID 0 - Ego ("@ + dec(row.macs@.len()) + " MACs, "@ + dec(row.packet_count as nat) + " pkts)"@
    } else {
        "ID "@ + dec(row.virtual_id as nat) + " - "@ + dec(row.macs@.len()) + " MACs, "@
            + dec(row.packet_count as nat) + " pkts"@
    }
}

fn option_label(row: &VehicleRow) -> (res: String)
    ensures
        res@ == vehicle_option_label(*row),
{
    let mut s: String = String::new();
    if row.virtual_id == 0 {
        push_str(&mut s, "ID 0 - Ego (");
        push_dec(&mut s, row.macs.len() as u64);
        push_str(&mut s, " MACs, ");
        push_dec(&mut s, row.packet_count);
        push_str(&mut s, " pkts)");
    } else {
        push_str(&mut s, "ID ");
        push_dec(&mut s, row.virtual_id as u64);
        push_str(&mut s, " - ");
        push_dec(&mut s, row.macs.len() as u64);
        push_str(&mut s, " MACs, ");
        push_dec(&mut s, row.packet_count);
        push_str(&mut s, " pkts");
    }
    s
}

/// Sort keys of the vehicle options: the virtual IDs.
pub open spec fn option_keys(rows: Seq<VehicleRow>) -> Seq<u64> {
    Seq::new(rows.len(), |i: int| rows[i].virtual_id as u64)
}

/// The options of the vehicle filter: `(virtual ID, label)` for every row, by ascending ID;
/// rows with the same ID keep their order.
pub fn vehicle_filter_options(rows: &Vec<VehicleRow>) -> (res: Vec<(u32, String)>)
    ensures
        exists|order: Seq<usize>| {
            &&& #[trigger] is_stable_order(option_keys(rows@), order)
            &&& res@.len() == order.len()
            &&& forall|k: int| 0 <= k < res@.len() ==> {
                &&& (#[trigger] res@[k]).0 == rows@[order[k] as int].virtual_id
                &&& res@[k].1@ == vehicle_option_label(rows@[order[k] as int])
            }
        },
{
    let mut keys: Vec<u64> = Vec::new();
    let mut i: usize = 0;
    while i < rows.len()
        invariant
            i <= rows@.len(),
            keys@.len() == i,
            forall|k: int| 0 <= k < i ==> keys@[k] == option_keys(rows@)[k],
        decreases rows@.len() - i,
    {
        keys.push(rows[i].virtual_id as u64);
        i = i + 1;
    }
    assert(keys@ =~= option_keys(rows@));
    let order: Vec<usize> = stable_order(&keys);
    let mut res: Vec<(u32, String)> = Vec::new();
    let mut k: usize = 0;
    while k < order.len()
        invariant
            is_stable_order(keys@, order@),
            keys@.len() == rows@.len(),
            k <= order@.len(),
            res@.len() == k,
            forall|j: int| 0 <= j < k ==> {
                &&& (#[trigger] res@[j]).0 == rows@[order@[j] as int].virtual_id
                &&& res@[j].1@ == vehicle_option_label(rows@[order@[j] as int])
            },
        decreases order@.len() - k,
    {
        let row: &VehicleRow = &rows[order[k]];
        res.push((row.virtual_id, option_label(row)));
        k = k + 1;
    }
    res
}

/// The integer part of the analysis of a capture: decode statistics, time range, packet
/// total, MAC order, vehicle rows, clock-drift samples and acceleration-control events.
#[derive(Clone, Debug)]
pub struct AnalysisSummary {
    pub decode_stats: DecodeStats,
    pub min_ms: i64,
    pub max_ms: i64,
    pub total_packets: u64,
    pub mac_order: Vec<String>,
    pub vehicles: Vec<VehicleRow>,
    pub clock_drift: Vec<ClockDriftSample>,
    pub accel_control_events: Vec<AccelControlEvent>,
}

/// Analysis of a capture, given the vehicles the tracker found and the ego MACs that were
/// detected. Everything is empty (and zero) for an empty capture.
pub fn analysis_summary(pkts: &Vec<PacketRecord>, found: &Vec<TrackerVehicle>, ego_macs: &Vec<String>) -> (res: AnalysisSummary)
    requires
        pkts@.len() <= u64::MAX,
        forall|i: int| 0 <= i < found@.len() ==>
            (#[trigger] found@[i].macs@.len() + 1) * (pkts@.len() + 1) <= u64::MAX,
        (ego_macs@.len() + 1) * (pkts@.len() + 1) <= u64::MAX,
    ensures
        res.decode_stats == decode_stats_of(pkts@),
        res.min_ms == min_timestamp(pkts@),
        res.max_ms == max_timestamp(pkts@),
        res.total_packets == pkts@.len(),
        exists|order: Seq<usize>| {
            &&& #[trigger] is_stable_order(mac_order_keys(pkts@), order)
            &&& res.mac_order@.len() == order.len()
            &&& forall|k: int| 0 <= k < res.mac_order@.len() ==>
                #[trigger] res.mac_order@[k]@ == dedup_first(macs_of(pkts@))[order[k] as int]
        },
        pkts@.len() == 0 ==> res.vehicles@.len() == 0,
        pkts@.len() > 0 ==> {
            &&& res.vehicles@.len() == found@.len() + if ego_macs@.len() > 0 { 1int } else { 0int }
            &&& forall|i: int| 0 <= i < found@.len() ==>
                row_matches(#[trigger] res.vehicles@[i], pkts@, found@[i].id, found@[i].macs.deep_view())
            &&& ego_macs@.len() > 0 ==> row_matches(res.vehicles@[found@.len() as int], pkts@, 0, ego_macs.deep_view())
        },
        res.clock_drift@.len() == clock_drift_of(pkts@).len(),
        forall|k: int| 0 <= k < res.clock_drift@.len() ==>
            drift_sample_is(#[trigger] res.clock_drift@[k], clock_drift_of(pkts@)[k]),
        res.accel_control_events@.len() == accel_events_of(pkts@).len(),
        forall|k: int| 0 <= k < res.accel_control_events@.len() ==>
            accel_event_is(#[trigger] res.accel_control_events@[k], accel_events_of(pkts@)[k]),
{
    let range: (i64, i64) = timestamp_range(pkts);
    let vehicles: Vec<VehicleRow> = if pkts.len() == 0 { Vec::new() } else { vehicle_rows(pkts, found, ego_macs) };
    AnalysisSummary {
        decode_stats: decode_stats(pkts),
        min_ms: range.0,
        max_ms: range.1,
        total_packets: pkts.len() as u64,
        mac_order: mac_order(pkts),
        vehicles,
        clock_drift: clock_drift_samples(pkts),
        accel_control_events: accel_control_events(pkts),
    }
}

} // verus!

verus! {

/// Capture timestamps of the packets sent from `mac`, in capture order.
pub open spec fn timestamps_from(pkts: Seq<PacketRecord>, mac: Seq<char>) -> Seq<i64>
    decreases pkts.len(),
{
    if pkts.len() == 0 {
        Seq::empty()
    } else {
        let rest: Seq<i64> = timestamps_from(pkts.drop_last(), mac);
        if pkts.last().mac@ == mac { rest.push(pkts.last().timestamp_ms) } else { rest }
    }
}

/// Capture timestamps of the packets sent from `mac`, in capture order.
pub fn mac_timestamps(pkts: &Vec<PacketRecord>, mac: &String) -> (res: Vec<i64>)
    ensures
        res@ == timestamps_from(pkts@, mac@),
{
    let mut res: Vec<i64> = Vec::new();
    let mut i: usize = 0;
    while i < pkts.len()
        invariant
            i <= pkts@.len(),
            res@ == timestamps_from(pkts@.take(i as int), mac@),
        decreases pkts@.len() - i,
    {
        assert(pkts@.take(i + 1).drop_last() =~= pkts@.take(i as int));
        if pkts[i].mac == *mac {
            res.push(pkts[i].timestamp_ms);
        }
        i = i + 1;
    }
    assert(pkts@.take(pkts@.len() as int) =~= pkts@);
    res
}

/// Longest gap (exclusive, ms) that still counts as an inter-packet gap.
pub const IPG_MAX_GAP_MS: i64 = 2000;

/// The inter-packet gaps of a sorted timestamp list: the differences of neighbours that are
/// positive and shorter than `IPG_MAX_GAP_MS`, in list order.
pub open spec fn gaps_of(s: Seq<i64>) -> Seq<i64>
    decreases s.len(),
{
    if s.len() < 2 {
        Seq::empty()
    } else {
        let rest: Seq<i64> = gaps_of(s.drop_last());
        let d: int = s.last() - s[s.len() - 2];
        if 0 < d < IPG_MAX_GAP_MS { rest.push(d as i64) } else { rest }
    }
}

/// The box-plot gaps of one MAC's timestamps: none with fewer than 4 packets or fewer than 3
/// gaps; otherwise the gaps of the timestamps in ascending order, themselves in ascending order.
pub open spec fn ipg_gap_list(ts: Seq<i64>) -> Option<Seq<i64>> {
    if ts.len() < 4 {
        None
    } else {
        let g: Seq<i64> = gaps_of(ascending_order(ts));
        if g.len() < 3 { None } else { Some(ascending_order(g)) }
    }
}

/// The sorted inter-packet gaps of one MAC for its box plot.
pub fn ipg_gaps(ts: &Vec<i64>) -> (res: Option<Vec<i64>>)
    ensures
        match res {
            Some(v) => ipg_gap_list(ts@) == Some(v@),
            None => ipg_gap_list(ts@) is None,
        },
{
    if ts.len() < 4 {
        return None;
    }
    let s: Vec<i64> = sorted_copy(ts);
    proof {
        to_multiset_len(s@);
        to_multiset_len(ts@);
    }
    let mut gaps: Vec<i64> = Vec::new();
    let mut k: usize = 1;
    while k < s.len()
        invariant
            1 <= k <= s@.len(),
            s@.len() == ts@.len(),
            gaps@ == gaps_of(s@.take(k as int)),
        decreases s@.len() - k,
    {
        assert(s@.take(k + 1).drop_last() =~= s@.take(k as int));
        let a: i64 = s[k - 1];
        let b: i64 = s[k];
        let d: i128 = (b as i128) - (a as i128);
        if 0 < d && d < IPG_MAX_GAP_MS as i128 {
            gaps.push(d as i64);
        }
        k = k + 1;
    }
    assert(s@.take(s@.len() as int) =~= s@);
    if gaps.len() < 3 {
        return None;
    }
    let sorted_gaps: Vec<i64> = sorted_copy(&gaps);
    Some(sorted_gaps)
}

/// How many MACs of the MAC order the gap chart considers.
pub const IPG_MAC_LIMIT: usize = 10;

/// One MAC of the gap chart: its packet count and its box-plot gaps.
#[derive(Clone, Debug)]
pub struct IpgCandidate {
    pub mac: String,
    pub packet_count: u64,
    pub gaps: Vec<i64>,
}

/// The MACs of `macs` (in order) that have box-plot gaps, each with its packet count and gaps.
pub open spec fn ipg_candidates_of(pkts: Seq<PacketRecord>, macs: Seq<Seq<char>>) -> Seq<(Seq<char>, nat, Seq<i64>)>
    decreases macs.len(),
{
    if macs.len() == 0 {
        Seq::empty()
    } else {
        let rest: Seq<(Seq<char>, nat, Seq<i64>)> = ipg_candidates_of(pkts, macs.drop_last());
        let ts: Seq<i64> = timestamps_from(pkts, macs.last());
        match ipg_gap_list(ts) {
            Some(g) => rest.push((macs.last(), ts.len(), g)),
            None => rest,
        }
    }
}

proof fn lemma_timestamps_from_len(pkts: Seq<PacketRecord>, mac: Seq<char>)
    ensures
        timestamps_from(pkts, mac).len() <= pkts.len(),
    decreases pkts.len(),
{
    if pkts.len() > 0 {
        lemma_timestamps_from_len(pkts.drop_last(), mac);
    }
}

/// The gap chart's MACs: of the first `IPG_MAC_LIMIT` MACs of `mac_order`, those with enough
/// packets and gaps, in that order, each with its packet count and sorted gaps.
pub fn ipg_candidates(pkts: &Vec<PacketRecord>, mac_order: &Vec<String>) -> (res: Vec<IpgCandidate>)
    ensures
        ({
            let n: int = if mac_order@.len() < IPG_MAC_LIMIT { mac_order@.len() as int } else { IPG_MAC_LIMIT as int };
            let c: Seq<(Seq<char>, nat, Seq<i64>)> = ipg_candidates_of(pkts@, mac_order.deep_view().take(n));
            &&& res@.len() == c.len()
            &&& forall|k: int| 0 <= k < res@.len() ==> {
                &&& (#[trigger] res@[k]).mac@ == c[k].0
                &&& res@[k].packet_count == c[k].1
                &&& res@[k].gaps@ == c[k].2
            }
        }),
{
    let n: usize = if mac_order.len() < IPG_MAC_LIMIT { mac_order.len() } else { IPG_MAC_LIMIT };
    let ghost macs: Seq<Seq<char>> = mac_order.deep_view().take(n as int);
    let mut res: Vec<IpgCandidate> = Vec::new();
    let mut i: usize = 0;
    while i < n
        invariant
            n <= mac_order@.len(),
            i <= n,
            macs == mac_order.deep_view().take(n as int),
            ({
                let c: Seq<(Seq<char>, nat, Seq<i64>)> = ipg_candidates_of(pkts@, macs.take(i as int));
                &&& res@.len() == c.len()
                &&& forall|k: int| 0 <= k < res@.len() ==> {
                    &&& (#[trigger] res@[k]).mac@ == c[k].0
                    &&& res@[k].packet_count == c[k].1
                    &&& res@[k].gaps@ == c[k].2
                }
            }),
        decreases n - i,
    {
        assert(macs.take(i + 1).drop_last() =~= macs.take(i as int));
        assert(macs.take(i + 1).last() == mac_order@[i as int]@);
        let ts: Vec<i64> = mac_timestamps(pkts, &mac_order[i]);
        proof { lemma_timestamps_from_len(pkts@, mac_order@[i as int]@); }
        match ipg_gaps(&ts) {
            Some(gaps) => {
                res.push(IpgCandidate { mac: mac_order[i].clone(), packet_count: ts.len() as u64, gaps });
            },
            None => {},
        }
        i = i + 1;
    }
    assert(macs.take(n as int) =~= macs);
    res
}

} // verus!
