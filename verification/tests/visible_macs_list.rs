use cites_ui::live::OfflineVehicle;
use cites_ui::packet::PacketRecord;
use cites_ui::visible::{label_for_mac, selected_anchor, selected_vehicle_id, vehicle_macs_of, visible_macs};

fn pkt(mac: &str, ts: i64, gnw: bool) -> PacketRecord {
    PacketRecord {
        mac: mac.to_string(),
        timestamp_ms: ts,
        has_gnw: gnw,
        btp_destination_port: None,
        payload: None,
        data_len: 0,
        station_id: 0,
        gnw_timestamp_ms: None,
    }
}

fn vehicle(id: u32, macs: &[&str]) -> OfflineVehicle {
    OfflineVehicle { id, label: String::new(), macs: macs.iter().map(|s| s.to_string()).collect() }
}

fn fleet() -> Vec<OfflineVehicle> {
    vec![vehicle(0, &["ego1"]), vehicle(3, &["sel1", "sel2"]), vehicle(12, &["f1"]), vehicle(2, &["f2", "f1"])]
}

#[test]
fn selected_id_defaults_to_max() {
    assert_eq!(selected_vehicle_id("3"), 3);
    assert_eq!(selected_vehicle_id(""), u32::MAX);
    assert_eq!(selected_vehicle_id("x"), u32::MAX);
}

#[test]
fn vehicle_mac_lookup() {
    assert_eq!(vehicle_macs_of(&fleet(), 3), vec!["sel1".to_string(), "sel2".to_string()]);
    assert!(vehicle_macs_of(&fleet(), 99).is_empty());
}

#[test]
fn labels_of_macs() {
    let v = fleet();
    assert_eq!(label_for_mac(&v, &"ego1".to_string()), "Ego");
    // `f1` belongs to two vehicles: the last one listed wins
    assert_eq!(label_for_mac(&v, &"f1".to_string()), "2");
    assert_eq!(label_for_mac(&v, &"f2".to_string()), "2");
    assert_eq!(label_for_mac(&v, &"zz".to_string()), "?");
}

#[test]
fn visible_list_sorted_by_label_then_mac() {
    let pkts = vec![
        pkt("zz", 10_000, false),
        pkt("f2", 10_500, true),
        pkt("f1", 9_200, true),
        pkt("ego1", 10_000, true),
        pkt("sel1", 10_000, true),
        pkt("f1", 10_100, true),
        pkt("far", 12_000, true),
        pkt("aa", 11_000, false),
    ];
    let v = visible_macs(&pkts, 10_000, &fleet(), "3", false);
    let got: Vec<(String, String, usize)> = v.iter().map(|e| (e.label.clone(), e.mac.clone(), e.packet)).collect();
    assert_eq!(
        got,
        vec![
            ("2".to_string(), "f1".to_string(), 5),
            ("2".to_string(), "f2".to_string(), 1),
            ("?".to_string(), "aa".to_string(), 7),
            ("?".to_string(), "zz".to_string(), 0),
        ]
    );
}

#[test]
fn visible_list_can_show_ego() {
    let pkts = vec![pkt("ego1", 10_000, true), pkt("f2", 10_000, true)];
    let v = visible_macs(&pkts, 10_000, &fleet(), "", true);
    let macs: Vec<String> = v.iter().map(|e| e.mac.clone()).collect();
    assert_eq!(macs, vec!["f2".to_string(), "ego1".to_string()]);
}

#[test]
fn closest_packet_ties_keep_first() {
    let pkts = vec![pkt("m", 9_900, true), pkt("m", 10_100, true), pkt("m", 10_050, true)];
    let v = visible_macs(&pkts, 10_000, &vec![], "", false);
    assert_eq!(v.len(), 1);
    assert_eq!(v[0].packet, 2);
    let tie = vec![pkt("m", 9_900, true), pkt("m", 10_100, true)];
    assert_eq!(visible_macs(&tie, 10_000, &vec![], "", false)[0].packet, 0);
}

#[test]
fn anchor_of_selected_vehicle() {
    let pkts = vec![
        pkt("sel1", 9_000, true),
        pkt("sel2", 10_300, false),
        pkt("sel2", 10_200, true),
        pkt("sel1", 9_800, true),
        pkt("other", 10_000, true),
    ];
    assert_eq!(selected_anchor(&pkts, 10_000, &fleet(), "3"), Some(2));
    assert_eq!(selected_anchor(&pkts, 10_000, &fleet(), "12"), None);
    assert_eq!(selected_anchor(&pkts, 20_000, &fleet(), "3"), None);
}
