use cites_ui::injection::{
    after_start, after_status_poll, after_user_stop, archive_placeholder, btp_port_label, contains_protocol,
    injection_preview, match_badge_text, matches_filter, optional_number, optional_vehicle_id, port_to_protocol, repeat_count_input, repeat_from_key, repeat_key,
    schedule_fields, set_protocol, should_push_filter_inj, start_config, state_class, status_bar_view,
    InjectionEngineState, InjectionFilter, InjectionSchedule, InjectionStatus, InjectionToggles, PacketSummary,
    RepeatMode, ReplayProtocol, PREVIEW_ROWS,
};
use cites_ui::packet::PacketRecord;

fn pkt(mac: &str, ts: i64, port: Option<u16>, station: u32) -> PacketRecord {
    PacketRecord {
        mac: mac.to_string(),
        timestamp_ms: ts,
        has_gnw: true,
        btp_destination_port: port,
        payload: None,
        data_len: 100,
        station_id: station,
        gnw_timestamp_ms: None,
    }
}

fn status(state: InjectionEngineState, filter_inj: bool) -> InjectionStatus {
    InjectionStatus { state, packets_sent: 5, packets_total: 10, current_iteration: 2, elapsed_ms: 61_000, filter_inj }
}

#[test]
fn ports_map_to_message_types() {
    assert_eq!(port_to_protocol(2001), Some(ReplayProtocol::Cam));
    assert_eq!(port_to_protocol(2004), Some(ReplayProtocol::Spatem));
    assert_eq!(port_to_protocol(2009), Some(ReplayProtocol::Cpm));
    assert_eq!(port_to_protocol(2005), None);
    assert_eq!(port_to_protocol(80), None);
}

#[test]
fn port_labels() {
    assert_eq!(btp_port_label(Some(2001)), "CAM");
    assert_eq!(btp_port_label(Some(2006)), "IVIM");
    assert_eq!(btp_port_label(Some(2005)), "-");
    assert_eq!(btp_port_label(None), "-");
    assert_eq!(ReplayProtocol::Denm.label(), "DENM");
}

#[test]
fn empty_filter_accepts_everything() {
    let f = InjectionFilter::default();
    assert!(matches_filter(&pkt("m", 5_000, None, 1), &f, 0));
}

#[test]
fn filter_by_station_time_and_protocol() {
    let f = InjectionFilter {
        vehicle_id: Some(7),
        time_range_start_ms: Some(1_000),
        time_range_end_ms: Some(2_000),
        protocols: vec![ReplayProtocol::Cam],
    };
    let base = 10_000;
    assert!(matches_filter(&pkt("m", 11_500, Some(2001), 7), &f, base));
    assert!(matches_filter(&pkt("m", 11_000, Some(2001), 7), &f, base));
    assert!(matches_filter(&pkt("m", 12_000, Some(2001), 7), &f, base));
    assert!(!matches_filter(&pkt("m", 11_500, Some(2001), 8), &f, base));
    assert!(!matches_filter(&pkt("m", 10_999, Some(2001), 7), &f, base));
    assert!(!matches_filter(&pkt("m", 12_001, Some(2001), 7), &f, base));
    assert!(!matches_filter(&pkt("m", 11_500, Some(2002), 7), &f, base));
    assert!(!matches_filter(&pkt("m", 11_500, None, 7), &f, base));
    assert!(!matches_filter(&pkt("m", 11_500, Some(9999), 7), &f, base));
}

#[test]
fn offset_before_base_wraps_like_cast() {
    // a packet before the base timestamp yields a huge unsigned offset
    let f = InjectionFilter { vehicle_id: None, time_range_start_ms: None, time_range_end_ms: Some(1_000), protocols: vec![] };
    assert!(!matches_filter(&pkt("m", 9_000, None, 0), &f, 10_000));
}

#[test]
fn packet_summary_of_packet() {
    let s = PacketSummary::from_packet(&pkt("aa:bb", 10_250, Some(2002), 1), 10_000);
    assert_eq!(s.offset_ms, 250);
    assert_eq!(s.mac, "aa:bb");
    assert_eq!(s.protocol, "DENM");
    assert_eq!(s.data_len, 100);
}

#[test]
fn preview_is_capped_but_counts_all() {
    let pkts: Vec<PacketRecord> = (0..250).map(|i| pkt("m", 1_000 + i, Some(2001), 1)).collect();
    let (rows, total) = injection_preview(&pkts, &InjectionFilter::default());
    assert_eq!(total, 250);
    assert_eq!(rows.len(), PREVIEW_ROWS);
    assert_eq!(rows[0].offset_ms, 0);
    assert_eq!(rows[199].offset_ms, 199);
}

#[test]
fn preview_uses_first_packet_as_base() {
    let pkts = vec![pkt("a", 5_000, Some(2001), 1), pkt("b", 4_000, Some(2002), 1), pkt("c", 4_500, Some(2001), 1)];
    let f = InjectionFilter { vehicle_id: None, time_range_start_ms: None, time_range_end_ms: None, protocols: vec![ReplayProtocol::Cam] };
    let (rows, total) = injection_preview(&pkts, &f);
    assert_eq!(total, 2);
    assert_eq!(rows.len(), 2);
    assert_eq!((rows[0].mac.as_str(), rows[0].offset_ms), ("a", 1_000));
    assert_eq!((rows[1].mac.as_str(), rows[1].offset_ms), ("c", 500));
}

#[test]
fn protocol_checkboxes() {
    let mut p = vec![ReplayProtocol::Cam];
    set_protocol(&mut p, ReplayProtocol::Denm, true);
    assert_eq!(p, vec![ReplayProtocol::Cam, ReplayProtocol::Denm]);
    set_protocol(&mut p, ReplayProtocol::Denm, true);
    assert_eq!(p, vec![ReplayProtocol::Cam, ReplayProtocol::Denm]);
    set_protocol(&mut p, ReplayProtocol::Cam, false);
    assert_eq!(p, vec![ReplayProtocol::Denm]);
    assert!(contains_protocol(&p, ReplayProtocol::Denm));
    assert!(!contains_protocol(&p, ReplayProtocol::Cam));
}

#[test]
fn repeat_mode_select() {
    assert_eq!(repeat_key(RepeatMode::Once), "once");
    assert_eq!(repeat_key(RepeatMode::Count(4)), "count");
    assert_eq!(repeat_key(RepeatMode::Infinite), "infinite");
    assert_eq!(repeat_from_key("count", RepeatMode::Count(7)), RepeatMode::Count(7));
    assert_eq!(repeat_from_key("count", RepeatMode::Once), RepeatMode::Count(3));
    assert_eq!(repeat_from_key("infinite", RepeatMode::Once), RepeatMode::Infinite);
    assert_eq!(repeat_from_key("bogus", RepeatMode::Infinite), RepeatMode::Once);
}

#[test]
fn repeat_count_field() {
    assert_eq!(repeat_count_input("5"), RepeatMode::Count(5));
    assert_eq!(repeat_count_input(" 0 "), RepeatMode::Count(1));
    assert_eq!(repeat_count_input("many"), RepeatMode::Count(1));
    assert_eq!(repeat_count_input("4294967296"), RepeatMode::Count(1));
}

fn schedule(repeat: RepeatMode) -> InjectionSchedule {
    InjectionSchedule { repeat, packet_delay_ms: 5, loop_delay_ms: 1000, preserve_timing: false, jitter_ms: 0 }
}

#[test]
fn schedule_optional_fields() {
    assert_eq!(schedule_fields(&schedule(RepeatMode::Once)), (false, false));
    assert_eq!(schedule_fields(&schedule(RepeatMode::Count(2))), (true, true));
    assert_eq!(schedule_fields(&schedule(RepeatMode::Infinite)), (false, true));
}

#[test]
fn start_needs_an_archive() {
    let f = InjectionFilter::default();
    assert!(start_config(&String::new(), &f, &schedule(RepeatMode::Once), false, None, true, true).is_none());
}

#[test]
fn start_overlays_preserve_timing() {
    let f = InjectionFilter { vehicle_id: Some(3), time_range_start_ms: None, time_range_end_ms: Some(9), protocols: vec![ReplayProtocol::Ivim] };
    let c = start_config(&"archive_1.pcapng".to_string(), &f, &schedule(RepeatMode::Count(2)), true, Some(20), false, true).unwrap();
    assert_eq!(c.archive_filename, "archive_1.pcapng");
    assert_eq!(c.filter.vehicle_id, Some(3));
    assert_eq!(c.filter.time_range_end_ms, Some(9));
    assert_eq!(c.filter.protocols, vec![ReplayProtocol::Ivim]);
    assert!(c.schedule.preserve_timing);
    assert_eq!(c.schedule.repeat, RepeatMode::Count(2));
    assert!(c.dry_run);
    assert_eq!(c.tx_power_dbm, Some(20));
    assert!(!c.filter_inj);
}

#[test]
fn status_bar_states() {
    let running = status_bar_view(&status(InjectionEngineState::Running, true), true);
    assert!(running.is_active && !running.is_paused && running.show_stats && running.show_iteration && running.show_progress);
    assert!(!running.start_enabled);
    let idle = status_bar_view(&status(InjectionEngineState::Idle, true), true);
    assert!(!idle.is_active && !idle.show_stats && idle.start_enabled);
    let idle_no_archive = status_bar_view(&status(InjectionEngineState::Idle, true), false);
    assert!(!idle_no_archive.start_enabled);
    let failed = status_bar_view(&status(InjectionEngineState::Error("boom".to_string()), true), true);
    assert!(failed.show_stats && !failed.show_progress);
    let paused = status_bar_view(&status(InjectionEngineState::Paused, true), true);
    assert!(paused.is_paused && paused.is_active);
}

#[test]
fn status_dot_classes() {
    assert_eq!(state_class(&InjectionEngineState::Running), "status-dot running");
    assert_eq!(state_class(&InjectionEngineState::Completed), "status-dot completed");
    assert_eq!(state_class(&InjectionEngineState::Error(String::new())), "status-dot error");
    assert_eq!(state_class(&InjectionEngineState::Idle), "status-dot idle");
}

#[test]
fn filter_switch_pushed_only_during_run() {
    assert!(should_push_filter_inj(&status(InjectionEngineState::Running, true), false));
    assert!(!should_push_filter_inj(&status(InjectionEngineState::Running, true), true));
    assert!(!should_push_filter_inj(&status(InjectionEngineState::Idle, true), false));
}

#[test]
fn run_end_resets_switches() {
    let t = InjectionToggles { polling: true, filter_inj: false, pres_timing: false };
    let running = after_status_poll(t, &status(InjectionEngineState::Running, true));
    assert_eq!(running, InjectionToggles { polling: true, filter_inj: true, pres_timing: false });
    let done = after_status_poll(t, &status(InjectionEngineState::Completed, false));
    assert_eq!(done, InjectionToggles { polling: false, filter_inj: true, pres_timing: true });
    assert_eq!(done, after_user_stop());
    assert_eq!(after_start(after_user_stop()).polling, true);
}

#[test]
fn archive_list_placeholder() {
    assert_eq!(archive_placeholder(true), "No archives found on connected node");
    assert_eq!(archive_placeholder(false), "No archives - connect to a node");
}

#[test]
fn match_badge_counts_and_truncation() {
    assert_eq!(match_badge_text(12, 12), "12 matched");
    assert_eq!(match_badge_text(0, 0), "0 matched");
    assert_eq!(match_badge_text(350, 200), "350 matched (showing 200)");
}

#[test]
fn filter_fields_parse_trimmed_numbers_or_nothing() {
    assert_eq!(optional_number(" 1500 "), Some(1500));
    assert_eq!(optional_number(""), None);
    assert_eq!(optional_number("  "), None);
    assert_eq!(optional_number("12ms"), None);
    assert_eq!(optional_number("-5"), None);
    assert_eq!(optional_number("+7"), Some(7));
    assert_eq!(optional_number("18446744073709551615"), Some(u64::MAX));
    assert_eq!(optional_number("18446744073709551616"), None);
    assert_eq!(optional_vehicle_id("4294967295"), Some(u32::MAX));
    assert_eq!(optional_vehicle_id("4294967296"), None);
    assert_eq!(optional_vehicle_id(" 42\n"), Some(42));
}

#[test]
fn ticking_keeps_protocols_free_of_duplicates() {
    let mut v = vec![ReplayProtocol::Cam];
    set_protocol(&mut v, ReplayProtocol::Cam, true);
    set_protocol(&mut v, ReplayProtocol::Denm, true);
    set_protocol(&mut v, ReplayProtocol::Denm, true);
    assert_eq!(v, vec![ReplayProtocol::Cam, ReplayProtocol::Denm]);
    set_protocol(&mut v, ReplayProtocol::Cam, false);
    assert_eq!(v, vec![ReplayProtocol::Denm]);
}
