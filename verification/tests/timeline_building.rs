use cites_ui::packet::{CamData, ItsPayload, PacketRecord};
use cites_ui::timeline::{positions_of_macs, timeline_order, timeline_states, trajectory_groups, ts_key};
use cites_ui::trajectory::{DriveDirection, ExteriorLights, PlaybackLightState};

fn pkt(mac: &str, ts: i64) -> PacketRecord {
    PacketRecord {
        mac: mac.to_string(),
        timestamp_ms: ts,
        has_gnw: true,
        btp_destination_port: None,
        payload: None,
        data_len: 0,
        station_id: 0,
        gnw_timestamp_ms: None,
    }
}

fn cam(mac: &str, ts: i64, lights: Option<ExteriorLights>, dir: Option<u8>) -> PacketRecord {
    let mut p = pkt(mac, ts);
    p.payload = Some(ItsPayload::Cam(CamData { exterior_lights: lights, accel_control: None, drive_direction: dir, gen_delta_time_ms: 0 }));
    p
}

fn strings(v: &[&str]) -> Vec<String> {
    v.iter().map(|s| s.to_string()).collect()
}

#[test]
fn timestamp_keys_preserve_order() {
    assert_eq!(ts_key(i64::MIN), 0);
    assert_eq!(ts_key(0), 1 << 63);
    assert_eq!(ts_key(i64::MAX), u64::MAX);
    assert!(ts_key(-5) < ts_key(-4));
}

#[test]
fn vehicle_packets_in_playback_order() {
    let p = vec![pkt("a", 300), pkt("x", 100), pkt("b", 100), pkt("a", 200), pkt("b", 300)];
    assert_eq!(positions_of_macs(&p, &strings(&["a", "b"])), vec![0, 2, 3, 4]);
    assert_eq!(timeline_order(&p, &strings(&["a", "b"])), vec![2, 3, 0, 4]);
    assert!(timeline_order(&p, &strings(&["q"])).is_empty());
}

#[test]
fn states_carry_lights_and_direction() {
    let left = ExteriorLights { low_beam: true, high_beam: false, left_turn: true, right_turn: false, daytime_running: false, reverse_light: false };
    let p = vec![pkt("a", 0), cam("a", 1, Some(left), Some(0)), cam("a", 2, None, None), cam("a", 3, None, Some(7))];
    let order = vec![0, 1, 2, 3];
    let s = timeline_states(&p, &order);
    assert_eq!(s.len(), 4);
    assert_eq!(s[0].lights, PlaybackLightState::default());
    assert_eq!(s[0].drive_direction, None);
    assert!(s[1].lights.left_blinker && s[1].lights.low_beam && !s[1].lights.daytime_running);
    assert_eq!(s[1].drive_direction, Some(DriveDirection::Forward));
    assert_eq!(s[2], s[1]);
    assert_eq!(s[3].lights, s[1].lights);
    assert_eq!(s[3].drive_direction, None);
}

#[test]
fn hazard_never_with_single_indicator() {
    let both = ExteriorLights { low_beam: false, high_beam: false, left_turn: true, right_turn: true, daytime_running: true, reverse_light: false };
    let p = vec![cam("a", 0, Some(both), None)];
    let s = timeline_states(&p, &vec![0]);
    assert!(s[0].lights.hazard && !s[0].lights.left_blinker && !s[0].lights.right_blinker);
}

#[test]
fn trajectory_groups_by_sorted_mac() {
    let p = vec![pkt("b", 30), pkt("a", 20), pkt("b", 10), pkt("c", 5), pkt("a", 10), pkt("b", 10)];
    let valid = vec![true, true, true, false, true, true];
    let g = trajectory_groups(&p, &valid, &None);
    let got: Vec<(String, Vec<usize>)> = g.iter().map(|x| (x.mac.clone(), x.positions.clone())).collect();
    assert_eq!(got, vec![("a".to_string(), vec![4, 1]), ("b".to_string(), vec![2, 5, 0])]);
}

#[test]
fn trajectory_groups_respect_filter() {
    let p = vec![pkt("b", 30), pkt("a", 20), pkt("c", 5)];
    let valid = vec![true, true, true];
    let g = trajectory_groups(&p, &valid, &Some(strings(&["c", "b"])));
    let macs: Vec<String> = g.iter().map(|x| x.mac.clone()).collect();
    assert_eq!(macs, strings(&["b", "c"]));
}

#[test]
fn filtered_groups_are_unfiltered_groups_restricted() {
    let p = vec![pkt("b", 30), pkt("a", 20), pkt("b", 10), pkt("c", 5), pkt("a", 10), pkt("b", 10)];
    let valid = vec![true, true, true, true, true, false];
    let all: Vec<(String, Vec<usize>)> =
        trajectory_groups(&p, &valid, &None).iter().map(|x| (x.mac.clone(), x.positions.clone())).collect();
    let filtered: Vec<(String, Vec<usize>)> = trajectory_groups(&p, &valid, &Some(strings(&["c", "a", "z"])))
        .iter()
        .map(|x| (x.mac.clone(), x.positions.clone()))
        .collect();
    let restricted: Vec<(String, Vec<usize>)> = all.into_iter().filter(|(m, _)| m == "a" || m == "c").collect();
    assert_eq!(filtered, restricted);
}
