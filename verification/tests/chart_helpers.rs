use cites_ui::analysis::VehicleRow;
use cites_ui::charts::{
    chart_color, mac_chain, mac_vehicle_id, macs_with_data, map_entries, sample_point_indices, sample_stride,
    strided_positions, time_ticks, vehicle_label, vehicle_table_order,
};

fn strings(v: &[&str]) -> Vec<String> {
    v.iter().map(|s| s.to_string()).collect()
}

fn row(id: u32, macs: &[&str]) -> VehicleRow {
    VehicleRow { virtual_id: id, macs: strings(macs), start_ms: 0, end_ms: 0, packet_count: 0 }
}

#[test]
fn palette_repeats() {
    assert_eq!(chart_color(0), "#1f77b4");
    assert_eq!(chart_color(19), "#9edae5");
    assert_eq!(chart_color(21), "#ff7f0e");
}

#[test]
fn five_time_ticks() {
    assert_eq!(time_ticks(0, 100), vec![0, 25, 50, 75, 100]);
    assert_eq!(time_ticks(1_000, 1_003), vec![1_000, 1_000, 1_001, 1_002, 1_003]);
    // a reversed range divides toward zero
    assert_eq!(time_ticks(3, 0), vec![3, 3, 2, 1, 0]);
}

#[test]
fn thinning_stride() {
    assert_eq!(sample_stride(0, 4000), 1);
    assert_eq!(sample_stride(7_999, 4000), 1);
    assert_eq!(sample_stride(12_000, 4000), 3);
}

#[test]
fn series_with_data_limited() {
    let order = strings(&["a", "b", "c", "d", "e"]);
    let events = strings(&["e", "c", "a", "c"]);
    assert_eq!(macs_with_data(&order, &events, 8), strings(&["a", "c", "e"]));
    assert_eq!(macs_with_data(&order, &events, 2), strings(&["a", "c"]));
    assert!(macs_with_data(&order, &vec![], 8).is_empty());
}

#[test]
fn every_stride_th_event_of_a_mac() {
    let events = strings(&["a", "b", "a", "a", "b", "a", "a"]);
    assert_eq!(strided_positions(&events, &"a".to_string(), 2), vec![0, 3, 6]);
    assert_eq!(strided_positions(&events, &"b".to_string(), 1), vec![1, 4]);
}

#[test]
fn short_trajectories_keep_all_points() {
    assert_eq!(sample_point_indices(0), Vec::<usize>::new());
    assert_eq!(sample_point_indices(40), (0..40).collect::<Vec<usize>>());
}

#[test]
fn long_trajectories_keep_ends_and_sample_middle() {
    let idx = sample_point_indices(41);
    assert_eq!(idx, (0..41).collect::<Vec<usize>>());
    let n = 20 + 9_000 + 20;
    let idx = sample_point_indices(n);
    // stride 3 in the middle: 20 + 3000 + 20 points
    assert_eq!(idx.len(), 20 + 3_000 + 20);
    assert_eq!(&idx[..21], &(0..21).collect::<Vec<usize>>()[..]);
    assert_eq!(idx[21], 23);
    assert_eq!(*idx.last().unwrap(), n - 1);
}

#[test]
fn map_vehicle_labels() {
    assert_eq!(vehicle_label(0), "Ego");
    assert_eq!(vehicle_label(12), "Vehicle 12");
    assert_eq!(vehicle_label(-1), "Unknown");
}

#[test]
fn mac_to_vehicle_last_row_wins() {
    let rows = vec![row(1, &["a", "b"]), row(2, &["b"])];
    assert_eq!(mac_vehicle_id(&rows, &"a".to_string()), 1);
    assert_eq!(mac_vehicle_id(&rows, &"b".to_string()), 2);
    assert_eq!(mac_vehicle_id(&rows, &"z".to_string()), -1);
}

#[test]
fn map_entries_grouped_by_vehicle() {
    let rows = vec![row(3, &["c"]), row(0, &["e"]), row(1, &["a", "b"])];
    let trajs = strings(&["a", "c", "z", "b", "e"]);
    let got: Vec<(usize, i64, usize)> = map_entries(&trajs, &rows).iter().map(|m| (m.trajectory, m.vehicle, m.color)).collect();
    assert_eq!(got, vec![(2, -1, 0), (4, 0, 1), (0, 1, 2), (3, 1, 2), (1, 3, 3)]);
}

#[test]
fn vehicle_table_rows_by_id() {
    let rows = vec![row(3, &[]), row(0, &[]), row(3, &["x"]), row(1, &[])];
    assert_eq!(vehicle_table_order(&rows), vec![1, 3, 0, 2]);
}

#[test]
fn mac_chain_joined_with_arrows() {
    assert_eq!(mac_chain(&strings(&["a", "b", "c"])), "a → b → c");
    assert_eq!(mac_chain(&strings(&["a"])), "a");
    assert_eq!(mac_chain(&vec![]), "");
}
