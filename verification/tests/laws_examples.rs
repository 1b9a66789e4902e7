use cites_ui::calendar::{days_to_ymd, fmt_hms};
use cites_ui::charts::time_ticks;
use cites_ui::injection::{matches_filter, InjectionFilter, ReplayProtocol};
use cites_ui::packet::PacketRecord;
use cites_ui::settings::{save_bool_setting, stored_flag};

fn pkt(port: Option<u16>) -> PacketRecord {
    PacketRecord {
        mac: "m".to_string(),
        timestamp_ms: 1_000,
        has_gnw: true,
        btp_destination_port: port,
        payload: None,
        data_len: 0,
        station_id: 4,
        gnw_timestamp_ms: None,
    }
}

fn all_protocols() -> Vec<ReplayProtocol> {
    vec![
        ReplayProtocol::Cam,
        ReplayProtocol::Denm,
        ReplayProtocol::Mapem,
        ReplayProtocol::Spatem,
        ReplayProtocol::Ivim,
        ReplayProtocol::Srem,
        ReplayProtocol::Ssem,
        ReplayProtocol::Cpm,
    ]
}

#[test]
fn all_protocols_filter_like_none_for_known_ports() {
    let none = InjectionFilter { vehicle_id: Some(4), time_range_start_ms: None, time_range_end_ms: None, protocols: vec![] };
    let all = InjectionFilter { protocols: all_protocols(), ..none.clone() };
    for port in [2001_u16, 2002, 2003, 2004, 2006, 2007, 2008, 2009] {
        assert_eq!(matches_filter(&pkt(Some(port)), &none, 0), matches_filter(&pkt(Some(port)), &all, 0));
    }
    // a packet without a known port passes only the empty selection
    assert!(matches_filter(&pkt(Some(2005)), &none, 0));
    assert!(!matches_filter(&pkt(Some(2005)), &all, 0));
}

#[test]
fn saved_flag_reads_back() {
    for v in [true, false] {
        let stmt = save_bool_setting("cites.ts_use_gnw", v);
        let value = stmt.trim_start_matches("localStorage.setItem('cites.ts_use_gnw', '").trim_end_matches("');");
        assert_eq!(stored_flag(value, false), v);
    }
}

#[test]
fn axis_ticks_span_the_range() {
    let t = time_ticks(-1_234, 98_765);
    assert_eq!(t[0], -1_234);
    assert_eq!(t[4], 98_765);
}

#[test]
fn chrono_range_bounds_render() {
    assert_eq!(fmt_hms(8_210_266_876_799_999), "23:59:59");
    assert_eq!(fmt_hms(-8_334_601_228_800_000), "00:00:00");
}

#[test]
fn day_numbers_round_trip_through_dates() {
    for days in [-719_468_i64, -1, 0, 59, 365, 10_957, 2_932_896] {
        let (y, m, d) = days_to_ymd(days);
        assert!((1..=12).contains(&m) && (1..=31).contains(&d));
        let next = days_to_ymd(days + 1);
        assert!(next > (y, m, d));
    }
}
