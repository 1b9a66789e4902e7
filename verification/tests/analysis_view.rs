use cites_ui::analysis::{
    accel_control_events, accel_flags, analysis_summary, apply_base_filters, base_filter_indices, capture_duration_s, clock_drift_samples,
    count_packets_from, decode_stats, duration_hint, flag_row_active, flag_row_label, ipg_candidates, ipg_gaps, mac_filter_of, mac_order,
    mac_timestamps, packet_macs, timestamp_range, vehicle_filter_options, vehicle_packet_positions, vehicle_row,
    vehicle_rows, DecodeStats, VehicleRow, FLAG_ROWS,
};
use cites_ui::live::TrackerVehicle;
use cites_ui::packet::{CamData, ItsPayload, PacketRecord};
use cites_ui::trajectory::AccelControl;

fn pkt(mac: &str, ts: i64) -> PacketRecord {
    PacketRecord {
        mac: mac.to_string(),
        timestamp_ms: ts,
        has_gnw: false,
        btp_destination_port: None,
        payload: None,
        data_len: 60,
        station_id: 0,
        gnw_timestamp_ms: None,
    }
}

fn accel(brake: bool, gas: bool, acc: bool) -> AccelControl {
    AccelControl {
        brake_pedal_active: brake,
        gas_pedal_active: gas,
        emergency_brake_active: false,
        collision_warning_active: false,
        acc_engaged: acc,
        cruise_control_active: false,
        speed_limiter_active: false,
    }
}

fn cam(mac: &str, ts: i64, gen_delta: u32, ac: Option<AccelControl>) -> PacketRecord {
    let mut p = pkt(mac, ts);
    p.has_gnw = true;
    p.btp_destination_port = Some(2001);
    p.payload = Some(ItsPayload::Cam(CamData {
        exterior_lights: None,
        accel_control: ac,
        drive_direction: None,
        gen_delta_time_ms: gen_delta,
    }));
    p
}

fn strings(v: &[&str]) -> Vec<String> {
    v.iter().map(|s| s.to_string()).collect()
}

fn sample() -> Vec<PacketRecord> {
    let mut denm = pkt("bb", 1_500);
    denm.has_gnw = true;
    denm.btp_destination_port = Some(2002);
    denm.payload = Some(ItsPayload::Denm);
    let mut other = pkt("cc", 900);
    other.has_gnw = true;
    other.payload = Some(ItsPayload::Unsupported);
    vec![
        cam("aa", 1_000, 100, Some(accel(true, false, true))),
        denm,
        cam("aa", 1_100, 200, None),
        other,
        pkt("bb", 3_000),
        cam("cc", 2_000, 300, Some(accel(false, true, false))),
    ]
}

#[test]
fn decode_pipeline_counts() {
    let s = decode_stats(&sample());
    assert_eq!(
        s,
        DecodeStats { total: 6, with_gnw: 5, with_btp: 4, with_payload: 5, as_cam: 3, as_denm: 1, as_unsupported: 1 }
    );
    assert_eq!(s.with_payload, s.as_cam + s.as_denm + s.as_unsupported);
}

#[test]
fn time_range_of_capture() {
    assert_eq!(timestamp_range(&sample()), (900, 3_000));
    assert_eq!(timestamp_range(&vec![]), (0, 0));
    assert_eq!(capture_duration_s(&sample()), Some(2));
    assert_eq!(capture_duration_s(&vec![]), None);
    assert_eq!(duration_hint(Some(42)), "0 - 42");
    assert_eq!(duration_hint(None), "");
}

#[test]
fn macs_and_counts() {
    let p = sample();
    assert_eq!(packet_macs(&p), strings(&["aa", "bb", "aa", "cc", "bb", "cc"]));
    assert_eq!(count_packets_from(&p, &"bb".to_string()), 2);
    assert_eq!(count_packets_from(&p, &"zz".to_string()), 0);
    assert_eq!(mac_timestamps(&p, &"cc".to_string()), vec![900, 2_000]);
}

#[test]
fn mac_order_most_active_first_ties_in_first_seen_order() {
    let p = vec![pkt("x", 1), pkt("y", 2), pkt("y", 3), pkt("z", 4), pkt("x", 5), pkt("w", 6)];
    assert_eq!(mac_order(&p), strings(&["x", "y", "z", "w"]));
    let q = vec![pkt("a", 1), pkt("b", 2), pkt("b", 3), pkt("b", 4), pkt("a", 5)];
    assert_eq!(mac_order(&q), strings(&["b", "a"]));
}

#[test]
fn vehicle_row_spans_its_macs() {
    let p = sample();
    let row = vehicle_row(&p, 4, &strings(&["aa", "cc", "zz"]));
    assert_eq!(row.virtual_id, 4);
    assert_eq!(row.macs, strings(&["aa", "cc", "zz"]));
    assert_eq!((row.start_ms, row.end_ms, row.packet_count), (900, 2_000, 4));
    let none = vehicle_row(&p, 9, &strings(&["zz"]));
    assert_eq!((none.start_ms, none.end_ms, none.packet_count), (0, 0, 0));
}

#[test]
fn vehicle_rows_append_ego_vehicle() {
    let p = sample();
    let found = vec![TrackerVehicle { id: 3, macs: strings(&["bb"]) }];
    let rows = vehicle_rows(&p, &found, &strings(&["aa"]));
    assert_eq!(rows.len(), 2);
    assert_eq!((rows[0].virtual_id, rows[0].start_ms, rows[0].end_ms, rows[0].packet_count), (3, 1_500, 3_000, 2));
    assert_eq!((rows[1].virtual_id, rows[1].start_ms, rows[1].end_ms, rows[1].packet_count), (0, 1_000, 1_100, 2));
    assert_eq!(vehicle_rows(&p, &found, &vec![]).len(), 1);
}

#[test]
fn drift_samples_one_per_cam() {
    let d = clock_drift_samples(&sample());
    let got: Vec<(String, i64, u32)> = d.iter().map(|s| (s.mac.clone(), s.capture_ms, s.gen_delta_ms)).collect();
    assert_eq!(got, vec![("aa".to_string(), 1_000, 100), ("aa".to_string(), 1_100, 200), ("cc".to_string(), 2_000, 300)]);
}

#[test]
fn accel_events_carry_packed_flags() {
    let e = accel_control_events(&sample());
    let got: Vec<(String, i64, u8)> = e.iter().map(|s| (s.mac.clone(), s.timestamp_ms, s.flags)).collect();
    assert_eq!(got, vec![("aa".to_string(), 1_000, 0b1000_1000), ("cc".to_string(), 2_000, 0b0100_0000)]);
}

#[test]
fn flag_byte_bits() {
    let all = AccelControl {
        brake_pedal_active: true,
        gas_pedal_active: true,
        emergency_brake_active: true,
        collision_warning_active: true,
        acc_engaged: true,
        cruise_control_active: true,
        speed_limiter_active: true,
    };
    assert_eq!(accel_flags(&all), 0b1111_1110);
    assert_eq!(accel_flags(&accel(false, false, false)), 0);
    let b = accel_flags(&accel(true, false, true));
    let rows: Vec<bool> = (0..FLAG_ROWS).map(|r| flag_row_active(b, r)).collect();
    assert_eq!(rows, vec![true, false, false, false, true, false, false]);
    assert_eq!(flag_row_label(0), "Brakes");
    assert_eq!(flag_row_label(6), "Speed Limiter");
}

#[test]
fn base_filter_time_window_and_mac() {
    let p = vec![pkt("AA:BB:01", 100), pkt("aa:bb:02", 200), pkt("cc:dd:03", 300), pkt("Aa:Bb:04", 400)];
    assert_eq!(base_filter_indices(&p, None, None, ""), vec![0, 1, 2, 3]);
    assert_eq!(base_filter_indices(&p, Some(200), Some(300), ""), vec![1, 2]);
    let f = mac_filter_of("  AA:bB ");
    assert_eq!(f, "aa:bb");
    assert_eq!(base_filter_indices(&p, None, None, &f), vec![0, 1, 3]);
    assert_eq!(base_filter_indices(&p, Some(150), None, &f), vec![1, 3]);
}

#[test]
fn mac_filter_lowercases_unicode() {
    assert_eq!(mac_filter_of(" ÄB "), "äb");
}

#[test]
fn vehicle_restriction_second_pass() {
    let p = sample();
    let rows = vec![
        VehicleRow { virtual_id: 2, macs: strings(&["cc"]), start_ms: 0, end_ms: 0, packet_count: 0 },
        VehicleRow { virtual_id: 5, macs: vec![], start_ms: 0, end_ms: 0, packet_count: 0 },
        VehicleRow { virtual_id: 6, macs: strings(&["zz"]), start_ms: 0, end_ms: 0, packet_count: 0 },
    ];
    assert_eq!(vehicle_packet_positions(&p, &rows, 2), Some(vec![3, 5]));
    assert_eq!(vehicle_packet_positions(&p, &rows, 5), None);
    assert_eq!(vehicle_packet_positions(&p, &rows, 6), None);
    assert_eq!(vehicle_packet_positions(&p, &rows, 7), None);
}

#[test]
fn vehicle_filter_option_labels_sorted_by_id() {
    let rows = vec![
        VehicleRow { virtual_id: 5, macs: strings(&["a", "b"]), start_ms: 0, end_ms: 0, packet_count: 10 },
        VehicleRow { virtual_id: 0, macs: strings(&["c"]), start_ms: 0, end_ms: 0, packet_count: 3 },
        VehicleRow { virtual_id: 2, macs: vec![], start_ms: 0, end_ms: 0, packet_count: 0 },
    ];
    let opts = vehicle_filter_options(&rows);
    assert_eq!(
        opts,
        vec![
            (0, "ID 0 - Ego (1 MACs, 3 pkts)".to_string()),
            (2, "ID 2 - 0 MACs, 0 pkts".to_string()),
            (5, "ID 5 - 2 MACs, 10 pkts".to_string()),
        ]
    );
}

#[test]
fn ipg_gaps_need_enough_packets() {
    assert_eq!(ipg_gaps(&vec![1, 2, 3]), None);
    // gaps 100, 0 (dropped), 2500 (dropped): too few
    assert_eq!(ipg_gaps(&vec![0, 100, 100, 2_600]), None);
}

#[test]
fn ipg_gaps_sorted_and_filtered() {
    let ts = vec![1_000, 0, 300, 100, 100, 3_500, 1_050];
    // sorted: 0 100 100 300 1000 1050 3500 -> gaps 100 0 200 700 50 2450 -> kept 100 200 700 50
    assert_eq!(ipg_gaps(&ts), Some(vec![50, 100, 200, 700]));
}

#[test]
fn summary_of_empty_capture_is_empty() {
    let s = analysis_summary(&vec![], &vec![TrackerVehicle { id: 1, macs: strings(&["a"]) }], &strings(&["e"]));
    assert_eq!(s.total_packets, 0);
    assert_eq!((s.min_ms, s.max_ms), (0, 0));
    assert!(s.vehicles.is_empty() && s.mac_order.is_empty() && s.clock_drift.is_empty() && s.accel_control_events.is_empty());
}

#[test]
fn summary_of_sample_capture() {
    let p = sample();
    let s = analysis_summary(&p, &vec![TrackerVehicle { id: 1, macs: strings(&["cc"]) }], &strings(&["aa"]));
    assert_eq!(s.total_packets, 6);
    assert_eq!((s.min_ms, s.max_ms), (900, 3_000));
    assert_eq!(s.mac_order, strings(&["aa", "bb", "cc"]));
    assert_eq!(s.vehicles.len(), 2);
    assert_eq!(s.vehicles[1].virtual_id, 0);
    assert_eq!(s.clock_drift.len(), 3);
    assert_eq!(s.accel_control_events.len(), 2);
    assert_eq!(s.decode_stats.as_cam, 3);
}

#[test]
fn ipg_candidates_take_first_ten_macs_with_enough_gaps() {
    let mut p: Vec<PacketRecord> = Vec::new();
    // m0 has too few packets, m1..m11 have four packets 100 ms apart
    p.push(pkt("m0", 0));
    for i in 1..12 {
        let mac = format!("m{i}");
        for k in 0..4 {
            p.push(pkt(&mac, 1_000 * i as i64 + 100 * (3 - k)));
        }
    }
    let order: Vec<String> = (0..12).map(|i| format!("m{i}")).collect();
    let c = ipg_candidates(&p, &order);
    // of the first ten MACs (m0..m9), m0 drops out
    assert_eq!(c.len(), 9);
    assert_eq!(c[0].mac, "m1");
    assert_eq!(c[8].mac, "m9");
    assert_eq!(c[0].packet_count, 4);
    assert_eq!(c[0].gaps, vec![100, 100, 100]);
    assert!(ipg_candidates(&p, &vec![]).is_empty());
}

#[test]
fn blank_mac_field_is_the_empty_filter() {
    assert_eq!(mac_filter_of(""), "");
    assert_eq!(mac_filter_of(" \t "), "");
}

#[test]
fn base_filters_combine_time_mac_and_length() {
    let p = vec![pkt("AA:BB:01", 100), pkt("aa:bb:02", 200), pkt("cc:dd:03", 300), pkt("Aa:Bb:04", 400)];
    let all = vec![true; 4];
    assert_eq!(apply_base_filters(&p, None, None, "   ", &all), vec![0, 1, 2, 3]);
    assert_eq!(apply_base_filters(&p, None, None, " AA:bb ", &all), vec![0, 1, 3]);
    assert_eq!(apply_base_filters(&p, Some(150), Some(400), "aa", &vec![true, true, true, false]), vec![1]);
    assert_eq!(apply_base_filters(&p, None, None, "", &vec![false, true, false, true]), vec![1, 3]);
    assert!(apply_base_filters(&vec![], None, None, "x", &vec![]).is_empty());
}
