use vstd::prelude::*;
use crate::analysis::{min_timestamp, timestamp_range};
use crate::packet::PacketRecord;
use crate::playback::{sat_sub, sat_sub_spec};
use crate::settings::str_eq;
use crate::text::{dec, parse_trimmed_or, parse_unsigned, parse_unsigned_trimmed, parsed_or, push_dec, push_str, trimmed};

verus! {

/// ITS message types that can be selected for replay (by BTP-B destination port).
#[derive(Clone, Copy, PartialEq, Eq, Debug, Structural)]
pub enum ReplayProtocol {
    Cam,
    Denm,
    Mapem,
    Spatem,
    Ivim,
    Srem,
    Ssem,
    Cpm,
}

/// The message type of a well-known BTP-B destination port.
pub open spec fn protocol_of_port(port: u16) -> Option<ReplayProtocol> {
    if port == 2001 { Some(ReplayProtocol::Cam) }
    else if port == 2002 { Some(ReplayProtocol::Denm) }
    else if port == 2003 { Some(ReplayProtocol::Mapem) }
    else if port == 2004 { Some(ReplayProtocol::Spatem) }
    else if port == 2006 { Some(ReplayProtocol::Ivim) }
    else if port == 2007 { Some(ReplayProtocol::Srem) }
    else if port == 2008 { Some(ReplayProtocol::Ssem) }
    else if port == 2009 { Some(ReplayProtocol::Cpm) }
    else { None }
}

/// The message type of a BTP-B destination port (`None` for ports without one).
pub fn port_to_protocol(port: u16) -> (res: Option<ReplayProtocol>)
    ensures
        res == protocol_of_port(port),
{
    match port {
        2001 => Some(ReplayProtocol::Cam),
        2002 => Some(ReplayProtocol::Denm),
        2003 => Some(ReplayProtocol::Mapem),
        2004 => Some(ReplayProtocol::Spatem),
        2006 => Some(ReplayProtocol::Ivim),
        2007 => Some(ReplayProtocol::Srem),
        2008 => Some(ReplayProtocol::Ssem),
        2009 => Some(ReplayProtocol::Cpm),
        _ => None,
    }
}

/// Display name of a message type.
pub open spec fn protocol_name(p: ReplayProtocol) -> Seq<char> {
    match p {
        ReplayProtocol::Cam => "CAM"@,
        ReplayProtocol::Denm => "DENM"@,
        ReplayProtocol::Mapem => "MAPEM"@,
        ReplayProtocol::Spatem => "SPATEM"@,
        ReplayProtocol::Ivim => "IVIM"@,
        ReplayProtocol::Srem => "SREM"@,
        ReplayProtocol::Ssem => "SSEM"@,
        ReplayProtocol::Cpm => "CPM"@,
    }
}

impl ReplayProtocol {
    /// Display name of the message type.
    pub fn label(&self) -> (res: &'static str)
        ensures
            res@ == protocol_name(*self),
    {
        match self {
            ReplayProtocol::Cam => "CAM",
            ReplayProtocol::Denm => "DENM",
            ReplayProtocol::Mapem => "MAPEM",
            ReplayProtocol::Spatem => "SPATEM",
            ReplayProtocol::Ivim => "IVIM",
            ReplayProtocol::Srem => "SREM",
            ReplayProtocol::Ssem => "SSEM",
            ReplayProtocol::Cpm => "CPM",
        }
    }
}

/// Protocol column of the packet preview: the message type of the BTP-B destination port,
/// `-` when there is none.
pub open spec fn port_label(port: Option<u16>) -> Seq<char> {
    match port {
        Some(p) => match protocol_of_port(p) {
            Some(pr) => protocol_name(pr),
            None => "-"@,
        },
        None => "-"@,
    }
}

/// Protocol column of the packet preview for a BTP-B destination port.
pub fn btp_port_label(port: Option<u16>) -> (res: &'static str)
    ensures
        res@ == port_label(port),
{
    match port {
        Some(p) => match port_to_protocol(p) {
            Some(pr) => pr.label(),
            None => "-",
        },
        None => "-",
    }
}

/// Which packets of an archive are injected. Every field that is set must match.
#[derive(Clone, Debug)]
pub struct InjectionFilter {
    /// Station ID the packet's source MAC must map to.
    pub vehicle_id: Option<u32>,
    /// Earliest offset (ms after the first packet) to inject.
    pub time_range_start_ms: Option<u64>,
    /// Latest offset (ms after the first packet) to inject.
    pub time_range_end_ms: Option<u64>,
    /// Message types to inject; empty means all.
    pub protocols: Vec<ReplayProtocol>,
}

impl Default for InjectionFilter {
    fn default() -> (res: Self)
        ensures
            res.vehicle_id is None,
            res.time_range_start_ms is None,
            res.time_range_end_ms is None,
            res.protocols@.len() == 0,
    {
        InjectionFilter { vehicle_id: None, time_range_start_ms: None, time_range_end_ms: None, protocols: Vec::new() }
    }
}

/// Offset of a packet after the first one, as the unsigned value the filter compares.
pub open spec fn offset_ms(timestamp_ms: i64, base_ts: i64) -> u64 {
    sat_sub_spec(timestamp_ms as int, base_ts as int) as u64
}

/// Whether the injection filter lets the packet through.
pub open spec fn filter_accepts(p: PacketRecord, f: InjectionFilter, base_ts: i64) -> bool {
    let off: u64 = offset_ms(p.timestamp_ms, base_ts);
    &&& (f.vehicle_id matches Some(v) ==> p.station_id == v)
    &&& (f.time_range_start_ms matches Some(s) ==> off >= s)
    &&& (f.time_range_end_ms matches Some(e) ==> off <= e)
    &&& (f.protocols@.len() > 0 ==> (match p.btp_destination_port {
        Some(port) => match protocol_of_port(port) {
            Some(pr) => f.protocols@.contains(pr),
            None => false,
        },
        None => false,
    }))
}

/// Whether `v` holds the message type `p`.
pub fn contains_protocol(v: &Vec<ReplayProtocol>, p: ReplayProtocol) -> (res: bool)
    ensures
        res == v@.contains(p),
{
    let mut i: usize = 0;
    while i < v.len()
        invariant
            i <= v@.len(),
            forall|k: int| 0 <= k < i ==> v@[k] != p,
        decreases v@.len() - i,
    {
        if v[i] == p {
            return true;
        }
        i = i + 1;
    }
    false
}

/// Whether `pkt` satisfies every field that is set in `filter`; offsets count from `base_ts`.
pub fn matches_filter(pkt: &PacketRecord, filter: &InjectionFilter, base_ts: i64) -> (res: bool)
    ensures
        res == filter_accepts(*pkt, *filter, base_ts),
{
    if let Some(vid) = filter.vehicle_id {
        if pkt.station_id != vid {
            return false;
        }
    }
    let offset: u64 = sat_sub(pkt.timestamp_ms, base_ts) as u64;
    if let Some(start) = filter.time_range_start_ms {
        if offset < start {
            return false;
        }
    }
    if let Some(end) = filter.time_range_end_ms {
        if offset > end {
            return false;
        }
    }
    if filter.protocols.len() > 0 {
        match pkt.btp_destination_port {
            Some(port) => match port_to_protocol(port) {
                Some(p) => {
                    if !contains_protocol(&filter.protocols, p) {
                        return false;
                    }
                },
                None => {
                    return false;
                },
            },
            None => {
                return false;
            },
        }
    }
    true
}

/// One row of the packet preview.
#[derive(Clone, Debug)]
pub struct PacketSummary {
    pub offset_ms: u64,
    pub mac: String,
    pub protocol: &'static str,
    pub data_len: usize,
}

/// `s` is the preview row of `p` with offsets from `base_ts`.
pub open spec fn summary_of(s: PacketSummary, p: PacketRecord, base_ts: i64) -> bool {
    &&& s.offset_ms == offset_ms(p.timestamp_ms, base_ts)
    &&& s.mac@ == p.mac@
    &&& s.protocol@ == port_label(p.btp_destination_port)
    &&& s.data_len == p.data_len
}

impl PacketSummary {
    /// The preview row of a packet, its offset counted from `base_ts`.
    pub fn from_packet(pkt: &PacketRecord, base_ts: i64) -> (res: Self)
        ensures
            summary_of(res, *pkt, base_ts),
    {
        PacketSummary {
            offset_ms: sat_sub(pkt.timestamp_ms, base_ts) as u64,
            mac: pkt.mac.clone(),
            protocol: btp_port_label(pkt.btp_destination_port),
            data_len: pkt.data_len,
        }
    }
}

/// Largest number of rows the packet preview shows.
pub const PREVIEW_ROWS: usize = 200;

/// The packets the filter lets through, in capture order.
pub open spec fn matching_packets(pkts: Seq<PacketRecord>, f: InjectionFilter, base_ts: i64) -> Seq<PacketRecord>
    decreases pkts.len(),
{
    if pkts.len() == 0 {
        Seq::empty()
    } else {
        let rest: Seq<PacketRecord> = matching_packets(pkts.drop_last(), f, base_ts);
        if filter_accepts(pkts.last(), f, base_ts) { rest.push(pkts.last()) } else { rest }
    }
}

proof fn lemma_matching_len(pkts: Seq<PacketRecord>, f: InjectionFilter, base_ts: i64)
    ensures
        matching_packets(pkts, f, base_ts).len() <= pkts.len(),
    decreases pkts.len(),
{
    if pkts.len() > 0 {
        lemma_matching_len(pkts.drop_last(), f, base_ts);
    }
}

/// The packet preview of an archive under a filter, offsets counted from the first packet:
/// the rows of the first `PREVIEW_ROWS` matching packets and the number of all matching
/// packets.
pub fn injection_preview(pkts: &Vec<PacketRecord>, filter: &InjectionFilter) -> (res: (Vec<PacketSummary>, usize))
    ensures
        ({
            let m: Seq<PacketRecord> = matching_packets(pkts@, *filter, min_timestamp(pkts@) as i64);
            &&& res.1 == m.len()
            &&& res.0@.len() == if m.len() < PREVIEW_ROWS { m.len() } else { PREVIEW_ROWS as nat }
            &&& forall|k: int| 0 <= k < res.0@.len() ==>
                summary_of(#[trigger] res.0@[k], m[k], min_timestamp(pkts@) as i64)
        }),
{
    let range: (i64, i64) = timestamp_range(pkts);
    let base_ts: i64 = range.0;
    let ghost f = *filter;
    let mut rows: Vec<PacketSummary> = Vec::new();
    let mut total: usize = 0;
    let mut i: usize = 0;
    while i < pkts.len()
        invariant
            i <= pkts@.len(),
            base_ts == min_timestamp(pkts@),
            f == *filter,
            ({
                let m: Seq<PacketRecord> = matching_packets(pkts@.take(i as int), f, base_ts);
                &&& total == m.len()
                &&& rows@.len() == if m.len() < PREVIEW_ROWS { m.len() } else { PREVIEW_ROWS as nat }
                &&& forall|k: int| 0 <= k < rows@.len() ==> summary_of(#[trigger] rows@[k], m[k], base_ts)
            }),
        decreases pkts@.len() - i,
    {
        assert(pkts@.take(i + 1).drop_last() =~= pkts@.take(i as int));
        proof { lemma_matching_len(pkts@.take(i as int), f, base_ts); }
        let ghost before = matching_packets(pkts@.take(i as int), f, base_ts);
        let ghost prev = rows@;
        if matches_filter(&pkts[i], filter, base_ts) {
            if rows.len() < PREVIEW_ROWS {
                rows.push(PacketSummary::from_packet(&pkts[i], base_ts));
            }
            total = total + 1;
        }
        proof {
            let after = matching_packets(pkts@.take(i + 1), f, base_ts);
            assert forall|k: int| 0 <= k < rows@.len() implies summary_of(#[trigger] rows@[k], after[k], base_ts) by {
                if k < prev.len() {
                    assert(rows@[k] == prev[k]);
                    assert(after[k] == before[k]);
                }
            }
        }
        i = i + 1;
    }
    assert(pkts@.take(pkts@.len() as int) =~= pkts@);
    (rows, total)
}

/// Text of the preview's count badge: the number of matching packets, and how many rows are
/// shown when that is fewer.
pub fn match_badge_text(total: usize, shown: usize) -> (res: String)
    ensures
        res@ == dec(total as nat) + " matched"@ + (if total > shown {
            " (showing "@ + dec(shown as nat) + ")"@
        } else {
            Seq::<char>::empty()
        }),
{
    let mut s: String = String::new();
    push_dec(&mut s, total as u64);
    push_str(&mut s, " matched");
    if total > shown {
        push_str(&mut s, " (showing ");
        push_dec(&mut s, shown as u64);
        push_str(&mut s, ")");
    }
    assert(s@ =~= dec(total as nat) + " matched"@ + (if total > shown {
        " (showing "@ + dec(shown as nat) + ")"@
    } else {
        Seq::<char>::empty()
    }));
    s
}

/// What a numeric filter field holds: its trimmed text parsed as an unsigned number no larger
/// than `max`, none when it is empty or does not parse.
pub open spec fn optional_field(s: Seq<char>, max: nat) -> Option<nat> {
    parse_unsigned(trimmed(s), max)
}

/// A time-range field of the injection filter (milliseconds, `u64`).
pub fn optional_number(s: &str) -> (res: Option<u64>)
    ensures
        match res {
            Some(v) => optional_field(s@, u64::MAX as nat) == Some(v as nat),
            None => optional_field(s@, u64::MAX as nat) is None,
        },
{
    parse_unsigned_trimmed(s, u64::MAX)
}

/// The vehicle-ID field of the injection filter (`u32`).
pub fn optional_vehicle_id(s: &str) -> (res: Option<u32>)
    ensures
        match res {
            Some(v) => optional_field(s@, u32::MAX as nat) == Some(v as nat),
            None => optional_field(s@, u32::MAX as nat) is None,
        },
{
    match parse_unsigned_trimmed(s, u32::MAX as u64) {
        Some(v) => Some(v as u32),
        None => None,
    }
}

/// Ticks or unticks a message type in the filter's protocol list: a ticked type is appended
/// once, an unticked one is removed wherever it occurs.
pub fn set_protocol(protocols: &mut Vec<ReplayProtocol>, proto: ReplayProtocol, checked: bool)
    ensures
        checked && old(protocols)@.contains(proto) ==> final(protocols)@ == old(protocols)@,
        checked && !old(protocols)@.contains(proto) ==> final(protocols)@ == old(protocols)@.push(proto),
        !checked ==> final(protocols)@ == old(protocols)@.filter(|p: ReplayProtocol| p != proto),
        old(protocols)@.no_duplicates() ==> final(protocols)@.no_duplicates(),
{
    if checked {
        if !contains_protocol(protocols, proto) {
            let ghost before = protocols@;
            protocols.push(proto);
            assert forall|a: int, b: int| 0 <= a < b < protocols@.len() && before.no_duplicates()
                implies protocols@[a] != protocols@[b] by {
                if b == before.len() {
                    assert(before[a] == protocols@[a]);
                }
            }
        }
    } else {
        let ghost orig = protocols@;
        let mut kept: Vec<ReplayProtocol> = Vec::new();
        let mut i: usize = 0;
        while i < protocols.len()
            invariant
                i <= protocols@.len(),
                protocols@ == orig,
                kept@ == orig.take(i as int).filter(|p: ReplayProtocol| p != proto),
                orig.no_duplicates() ==> kept@.no_duplicates(),
                forall|x: ReplayProtocol| kept@.contains(x) ==> orig.take(i as int).contains(x),
            decreases protocols@.len() - i,
        {
            assert(orig.take(i + 1).drop_last() =~= orig.take(i as int));
            reveal_with_fuel(Seq::filter, 1);
            let ghost before = kept@;
            if protocols[i] != proto {
                kept.push(protocols[i]);
                proof {
                    if orig.no_duplicates() {
                        assert(!before.contains(orig[i as int])) by {
                            if before.contains(orig[i as int]) {
                                assert(orig.take(i as int).contains(orig[i as int]));
                                let j: int = choose|j: int| 0 <= j < i && orig.take(i as int)[j] == orig[i as int];
                                assert(orig[j] == orig[i as int]);
                            }
                        }
                        assert forall|a: int, b: int| 0 <= a < b < kept@.len() implies kept@[a] != kept@[b] by {
                            if b == before.len() {
                                assert(before.contains(before[a]));
                            }
                        }
                    }
                }
            }
            proof {
                assert forall|x: ReplayProtocol| kept@.contains(x) implies orig.take(i + 1).contains(x) by {
                    let j: int = choose|j: int| 0 <= j < kept@.len() && kept@[j] == x;
                    if j < before.len() {
                        assert(before.contains(x));
                        let m: int = choose|m: int| 0 <= m < i && orig.take(i as int)[m] == x;
                        assert(orig.take(i + 1)[m] == x);
                    } else {
                        assert(orig.take(i + 1)[i as int] == x);
                    }
                }
            }
            i = i + 1;
        }
        assert(orig.take(orig.len() as int) =~= orig);
        *protocols = kept;
    }
}

/// How often an archive is injected.
#[derive(Clone, Copy, PartialEq, Eq, Debug, Structural)]
pub enum RepeatMode {
    Once,
    Count(u32),
    Infinite,
}

/// Timing of an injection run.
#[derive(Clone, Copy, PartialEq, Eq, Debug, Structural)]
pub struct InjectionSchedule {
    pub repeat: RepeatMode,
    /// Pause after each packet (ignored while the recorded timing is kept).
    pub packet_delay_ms: u64,
    /// Pause between repetitions.
    pub loop_delay_ms: u64,
    /// Replay the recorded inter-packet gaps.
    pub preserve_timing: bool,
    /// Up to this many ms of per-packet variation.
    pub jitter_ms: u64,
}

/// Value of the repeat-mode select box.
pub fn repeat_key(mode: RepeatMode) -> (res: &'static str)
    ensures
        res@ == match mode {
            RepeatMode::Once => "once"@,
            RepeatMode::Count(_) => "count"@,
            RepeatMode::Infinite => "infinite"@,
        },
{
    match mode {
        RepeatMode::Once => "once",
        RepeatMode::Count(_) => "count",
        RepeatMode::Infinite => "infinite",
    }
}

/// Repeat count a switch to `N Times` starts from when no count was set before.
pub const DEFAULT_REPEAT_COUNT: u32 = 3;

/// The repeat mode chosen in the select box; a switch to `count` keeps the previous count.
pub fn repeat_from_key(key: &str, prev: RepeatMode) -> (res: RepeatMode)
    ensures
        key@ == "count"@ ==> res == RepeatMode::Count(match prev {
            RepeatMode::Count(n) => n,
            _ => DEFAULT_REPEAT_COUNT,
        }),
        key@ != "count"@ && key@ == "infinite"@ ==> res == RepeatMode::Infinite,
        key@ != "count"@ && key@ != "infinite"@ ==> res == RepeatMode::Once,
{
    let prev_n: u32 = match prev {
        RepeatMode::Count(n) => n,
        _ => DEFAULT_REPEAT_COUNT,
    };
    if str_eq(key, "count") {
        RepeatMode::Count(prev_n)
    } else if str_eq(key, "infinite") {
        RepeatMode::Infinite
    } else {
        RepeatMode::Once
    }
}

/// Repeat-count field: 1 when unparsable, at least 1.
pub fn repeat_count_input(s: &str) -> (res: RepeatMode)
    ensures
        res == RepeatMode::Count(
            if parsed_or(s@, u32::MAX as nat, 1) < 1 { 1 } else { parsed_or(s@, u32::MAX as nat, 1) as u32 }),
{
    let v: u64 = parse_trimmed_or(s, u32::MAX as u64, 1);
    RepeatMode::Count(if v < 1 { 1 } else { v as u32 })
}

/// Which optional schedule fields the panel shows: the repeat count (for `N Times`) and the
/// loop delay (for every repeated mode).
pub fn schedule_fields(schedule: &InjectionSchedule) -> (res: (bool, bool))
    ensures
        res.0 == (schedule.repeat is Count),
        res.1 == !(schedule.repeat is Once),
{
    (matches!(schedule.repeat, RepeatMode::Count(_)), !matches!(schedule.repeat, RepeatMode::Once))
}

/// Everything the node needs to start an injection run.
#[derive(Clone, Debug)]
pub struct InjectionConfig {
    pub archive_filename: String,
    pub filter: InjectionFilter,
    pub schedule: InjectionSchedule,
    pub dry_run: bool,
    pub tx_power_dbm: Option<u8>,
    pub filter_inj: bool,
}

/// The run that the Start button requests: none without a selected archive; otherwise the
/// panel's settings, the schedule taking its preserve-timing switch from `pres_timing`.
pub fn start_config(
    archive: &String,
    filter: &InjectionFilter,
    schedule: &InjectionSchedule,
    dry_run: bool,
    tx_power: Option<u8>,
    filter_inj: bool,
    pres_timing: bool,
) -> (res: Option<InjectionConfig>)
    ensures
        archive@.len() == 0 ==> res is None,
        archive@.len() > 0 ==> (res matches Some(c) && {
            &&& c.archive_filename@ == archive@
            &&& c.filter.vehicle_id == filter.vehicle_id
            &&& c.filter.time_range_start_ms == filter.time_range_start_ms
            &&& c.filter.time_range_end_ms == filter.time_range_end_ms
            &&& c.filter.protocols@ == filter.protocols@
            &&& c.schedule == (InjectionSchedule { preserve_timing: pres_timing, ..*schedule })
            &&& c.dry_run == dry_run
            &&& c.tx_power_dbm == tx_power
            &&& c.filter_inj == filter_inj
        }),
{
    if archive.as_str().is_empty() {
        return None;
    }
    let mut sched: InjectionSchedule = *schedule;
    sched.preserve_timing = pres_timing;
    let mut protocols: Vec<ReplayProtocol> = Vec::new();
    let mut i: usize = 0;
    while i < filter.protocols.len()
        invariant
            i <= filter.protocols@.len(),
            protocols@ == filter.protocols@.take(i as int),
        decreases filter.protocols@.len() - i,
    {
        protocols.push(filter.protocols[i]);
        assert(filter.protocols@.take(i + 1) =~= filter.protocols@.take(i as int).push(filter.protocols@[i as int]));
        i = i + 1;
    }
    assert(filter.protocols@.take(filter.protocols@.len() as int) =~= filter.protocols@);
    Some(InjectionConfig {
        archive_filename: archive.clone(),
        filter: InjectionFilter {
            vehicle_id: filter.vehicle_id,
            time_range_start_ms: filter.time_range_start_ms,
            time_range_end_ms: filter.time_range_end_ms,
            protocols,
        },
        schedule: sched,
        dry_run,
        tx_power_dbm: tx_power,
        filter_inj,
    })
}

/// State of the node's injection engine.
#[derive(Clone, Debug)]
pub enum InjectionEngineState {
    Idle,
    Running,
    Paused,
    Completed,
    Error(String),
}

/// Progress of the injection engine as the node reports it.
#[derive(Clone, Debug)]
pub struct InjectionStatus {
    pub state: InjectionEngineState,
    pub packets_sent: u64,
    pub packets_total: u64,
    pub current_iteration: u32,
    pub elapsed_ms: u64,
    /// Whether the node drops the loopback copies of injected frames.
    pub filter_inj: bool,
}

/// A run is under way (running or paused).
pub open spec fn run_active(s: InjectionEngineState) -> bool {
    s is Running || s is Paused
}

/// What the status bar shows for an engine status.
#[derive(Clone, Copy, PartialEq, Eq, Debug, Structural)]
pub struct StatusBarView {
    /// Show Pause/Resume and Stop instead of Start.
    pub is_active: bool,
    /// The pause button reads `Resume`.
    pub is_paused: bool,
    /// Show the packet counters and the elapsed time.
    pub show_stats: bool,
    /// Show the iteration counter.
    pub show_iteration: bool,
    /// Show the progress bar (finite runs only).
    pub show_progress: bool,
    /// The Start button is enabled.
    pub start_enabled: bool,
}

/// The status bar for `status`; `can_start` tells whether an archive is selected.
pub fn status_bar_view(status: &InjectionStatus, can_start: bool) -> (res: StatusBarView)
    ensures
        res.is_active == run_active(status.state),
        res.is_paused == (status.state is Paused),
        res.show_stats == (run_active(status.state) || status.state is Completed || status.state is Error),
        res.show_iteration == (res.show_stats && status.current_iteration > 0),
        res.show_progress == (run_active(status.state) && status.packets_total > 0),
        res.start_enabled == (!run_active(status.state) && can_start),
{
    let is_running: bool = matches!(status.state, InjectionEngineState::Running);
    let is_paused: bool = matches!(status.state, InjectionEngineState::Paused);
    let is_active: bool = is_running || is_paused;
    let show_stats: bool = is_active || matches!(status.state, InjectionEngineState::Completed | InjectionEngineState::Error(_));
    StatusBarView {
        is_active,
        is_paused,
        show_stats,
        show_iteration: show_stats && status.current_iteration > 0,
        show_progress: is_active && status.packets_total > 0,
        start_enabled: !is_active && can_start,
    }
}

/// CSS class of the status dot.
pub fn state_class(state: &InjectionEngineState) -> (res: &'static str)
    ensures
        res@ == match *state {
            InjectionEngineState::Running => "status-dot running"@,
            InjectionEngineState::Paused => "status-dot paused"@,
            InjectionEngineState::Completed => "status-dot completed"@,
            InjectionEngineState::Error(_) => "status-dot error"@,
            InjectionEngineState::Idle => "status-dot idle"@,
        },
{
    match state {
        InjectionEngineState::Running => "status-dot running",
        InjectionEngineState::Paused => "status-dot paused",
        InjectionEngineState::Completed => "status-dot completed",
        InjectionEngineState::Error(_) => "status-dot error",
        InjectionEngineState::Idle => "status-dot idle",
    }
}

/// Whether a click on the filter-injected switch must be pushed to the node: only while a run
/// is under way and the node reports another value.
pub fn should_push_filter_inj(status: &InjectionStatus, on: bool) -> (res: bool)
    ensures
        res == (run_active(status.state) && status.filter_inj != on),
{
    let active: bool = matches!(status.state, InjectionEngineState::Running | InjectionEngineState::Paused);
    active && status.filter_inj != on
}

/// Placeholder of the empty archive list.
pub fn archive_placeholder(connected: bool) -> (res: &'static str)
    ensures
        res@ == if connected { "No archives found on connected node"@ } else { "No archives - connect to a node"@ },
{
    if connected { "No archives found on connected node" } else { "No archives - connect to a node" }
}

} // verus!

verus! {

/// The injection switches the navigation bar keeps across pages: whether the engine status is
/// polled, and the filter-injected and preserve-timing switches.
#[derive(Clone, Copy, PartialEq, Eq, Debug, Structural)]
pub struct InjectionToggles {
    pub polling: bool,
    pub filter_inj: bool,
    pub pres_timing: bool,
}

/// The switches with which a run starts: no polling, both switches on.
pub open spec fn default_toggles() -> InjectionToggles {
    InjectionToggles { polling: false, filter_inj: true, pres_timing: true }
}

/// The switches after a poll that found the engine in `state` with the node's filter-injected
/// switch at `reported_filter`.
pub open spec fn poll_update(toggles: InjectionToggles, state: InjectionEngineState, reported_filter: bool) -> InjectionToggles {
    if run_active(state) { InjectionToggles { filter_inj: reported_filter, ..toggles } } else { default_toggles() }
}

/// The switches after a poll of the engine status: while a run is under way the
/// filter-injected switch follows the node and polling goes on; once it ended, polling stops
/// and both switches return to their defaults (on).
pub fn after_status_poll(toggles: InjectionToggles, reported: &InjectionStatus) -> (res: InjectionToggles)
    ensures
        res == poll_update(toggles, reported.state, reported.filter_inj),
{
    let active: bool = matches!(reported.state, InjectionEngineState::Running | InjectionEngineState::Paused);
    if active {
        InjectionToggles { filter_inj: reported.filter_inj, ..toggles }
    } else {
        InjectionToggles { polling: false, filter_inj: true, pres_timing: true }
    }
}

/// The switches after the user stopped a run: polling stops and both switches return to their
/// defaults.
pub fn after_user_stop() -> (res: InjectionToggles)
    ensures
        res == default_toggles(),
{
    InjectionToggles { polling: false, filter_inj: true, pres_timing: true }
}

/// The switches once a run was started: the status is polled.
pub fn after_start(toggles: InjectionToggles) -> (res: InjectionToggles)
    ensures
        res == (InjectionToggles { polling: true, ..toggles }),
{
    InjectionToggles { polling: true, ..toggles }
}

/// However a run ends, by a poll that finds it over or by the user's stop, the next run starts
/// from the same default switches; while it runs, a poll keeps polling and never touches the
/// preserve-timing switch.
pub proof fn lemma_run_end_resets_toggles(toggles: InjectionToggles, state: InjectionEngineState, reported_filter: bool)
    ensures
        !run_active(state) ==> poll_update(toggles, state, reported_filter) == default_toggles(),
        run_active(state) ==> poll_update(toggles, state, reported_filter).pres_timing == toggles.pres_timing
            && poll_update(toggles, state, reported_filter).polling == toggles.polling,
{
}

} // verus!

verus! {

/// A filter with no field set lets every packet through ("leave blank for all").
pub proof fn lemma_empty_filter_accepts_all(p: PacketRecord, f: InjectionFilter, base_ts: i64)
    requires
        f.vehicle_id is None,
        f.time_range_start_ms is None,
        f.time_range_end_ms is None,
        f.protocols@.len() == 0,
    ensures
        filter_accepts(p, f, base_ts),
{
}

/// A non-empty message-type selection lets a packet through only when its BTP-B port names a
/// message type and that type is selected: a packet of any other type is rejected.
pub proof fn lemma_selection_admits_only_selected_types(p: PacketRecord, f: InjectionFilter, base_ts: i64)
    requires
        f.protocols@.len() > 0,
        filter_accepts(p, f, base_ts),
    ensures
        p.btp_destination_port is Some,
        protocol_of_port(p.btp_destination_port->0) is Some,
        f.protocols@.contains(protocol_of_port(p.btp_destination_port->0)->0),
{
}

/// The message-type selection only narrows the other fields: a packet passes a filter iff it
/// passes the same filter with no types selected and, when types are selected, its type is
/// among them.
pub proof fn lemma_selection_narrows(p: PacketRecord, f: InjectionFilter, g: InjectionFilter, base_ts: i64)
    requires
        g.vehicle_id == f.vehicle_id,
        g.time_range_start_ms == f.time_range_start_ms,
        g.time_range_end_ms == f.time_range_end_ms,
        g.protocols@.len() == 0,
    ensures
        filter_accepts(p, f, base_ts) <==> filter_accepts(p, g, base_ts) && (f.protocols@.len() == 0 || exists|pr: ReplayProtocol| {
            &&& p.btp_destination_port matches Some(port) && protocol_of_port(port) == Some(pr)
            &&& #[trigger] f.protocols@.contains(pr)
        }),
{
    if f.protocols@.len() > 0 && filter_accepts(p, f, base_ts) {
        let pr: ReplayProtocol = protocol_of_port(p.btp_destination_port->0)->0;
        assert(f.protocols@.contains(pr));
    }
}

/// Selecting every message type filters like selecting none, for packets whose BTP port
/// names a message type (packets without such a port pass only the empty selection).
pub proof fn lemma_all_protocols_like_none(p: PacketRecord, none: InjectionFilter, all: InjectionFilter, base_ts: i64)
    requires
        none.vehicle_id == all.vehicle_id,
        none.time_range_start_ms == all.time_range_start_ms,
        none.time_range_end_ms == all.time_range_end_ms,
        none.protocols@.len() == 0,
        forall|pr: ReplayProtocol| all.protocols@.contains(pr),
        p.btp_destination_port matches Some(port) && protocol_of_port(port) is Some,
    ensures
        filter_accepts(p, none, base_ts) == filter_accepts(p, all, base_ts),
{
    let pr: ReplayProtocol = protocol_of_port(p.btp_destination_port->0)->0;
    assert(all.protocols@.contains(pr));
}

} // verus!
