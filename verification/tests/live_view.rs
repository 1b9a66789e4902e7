use cites_ui::calendar::{ITS_EPOCH_MS, TST_WRAP_MS};
use cites_ui::live::{
    accel_css, adas_badge_css, car_label, car_visual, ctrl_btn_class, demo_button_class, demo_button_label, demo_vehicles, derive_vehicle_ids,
    find_selected_vehicle, frame_unix_ms, headlight_css, play_button_label, point_colors, tail_css, traj_color,
    turn_css, vehicle_options, DemoControl, LiveMode, OfflineVehicle, TrackerVehicle, VehicleState,
};
use cites_ui::trajectory::{lights_from_cam, AccelControl, DriveDirection, ExteriorLights, PlaybackLightState};

fn strings(v: &[&str]) -> Vec<String> {
    v.iter().map(|s| s.to_string()).collect()
}

#[test]
fn live_modes_cycle() {
    assert_eq!(LiveMode::Demo.next(), LiveMode::Online);
    assert_eq!(LiveMode::Online.next(), LiveMode::Offline);
    assert_eq!(LiveMode::Offline.next(), LiveMode::Demo);
    assert_eq!(LiveMode::Demo.next().next().next(), LiveMode::Demo);
    assert_eq!(LiveMode::Online.label(), "Online");
}

#[test]
fn initial_vehicle_state() {
    let s = VehicleState::new();
    assert!(s.daytime_running && !s.no_light && !s.low_beam && !s.high_beam);
    assert!(!s.left_blinker && !s.right_blinker && !s.hazard && !s.brake && !s.accelerating);
    assert!(s.mac.is_empty() && s.drive_direction.is_none());
    assert_eq!(s.flags(), PlaybackLightState::default());
}

#[test]
fn blinking_follows_hazard() {
    let mut s = VehicleState::new();
    assert!(!s.blink_left());
    s.toggle(DemoControl::Hazard);
    assert!(s.hazard && s.blink_left() && s.blink_right());
}

#[test]
fn demo_indicator_clears_hazard() {
    let mut s = VehicleState::new();
    s.toggle(DemoControl::Hazard);
    s.toggle(DemoControl::Left);
    assert!(s.left_blinker && !s.hazard);
    s.toggle(DemoControl::Hazard);
    assert!(s.hazard && !s.left_blinker && !s.right_blinker);
}

#[test]
fn demo_plain_controls_toggle_back() {
    let mut s = VehicleState::new();
    let before = s.flags();
    for c in [DemoControl::NoLight, DemoControl::DaytimeRunning, DemoControl::LowBeam, DemoControl::HighBeam, DemoControl::Brake, DemoControl::Accelerate] {
        s.toggle(c);
        assert_ne!(s.flags(), before);
        s.toggle(c);
        assert_eq!(s.flags(), before);
    }
}

#[test]
fn car_drawing_classes() {
    let mut s = VehicleState::new();
    assert_eq!(headlight_css(&s), "headlight off");
    s.toggle(DemoControl::LowBeam);
    assert_eq!(headlight_css(&s), "headlight low-beam");
    s.toggle(DemoControl::HighBeam);
    assert_eq!(headlight_css(&s), "headlight high-beam");
    s.toggle(DemoControl::NoLight);
    assert_eq!(headlight_css(&s), "headlight off");
    assert_eq!(turn_css(true), "turn-signal blinking");
    assert_eq!(tail_css(true), "tail-light brake");
    assert_eq!(accel_css(false), "accel-line");
    assert_eq!(adas_badge_css(true), "adas-badge active");
}

#[test]
fn car_visual_of_playback_sample() {
    let lights = PlaybackLightState { hazard: true, brake: true, acc_engaged: true, ..PlaybackLightState::default() };
    let s = VehicleState::from_playback(&lights, &"aa".to_string(), Some(DriveDirection::Backward));
    let v = car_visual(&s);
    assert_eq!(v.left_signal, "turn-signal blinking");
    assert_eq!(v.right_signal, "turn-signal blinking");
    assert_eq!(v.tail, "tail-light brake");
    assert!(v.drl && !v.high_beam_rays && !v.forward_arrow && v.backward_arrow);
    assert_eq!(v.acc_badge, "adas-badge active");
    assert_eq!(v.cruise_badge, "adas-badge");
    assert_eq!(s.mac, "aa");
}

#[test]
fn lights_from_cam_merges_containers() {
    let prev = PlaybackLightState { brake: true, low_beam: true, ..PlaybackLightState::default() };
    let both = ExteriorLights { low_beam: false, high_beam: true, left_turn: true, right_turn: true, daytime_running: false, reverse_light: true };
    let next = lights_from_cam(Some(both), None, &prev);
    assert!(next.hazard && !next.left_blinker && !next.right_blinker && next.high_beam && !next.low_beam);
    assert!(next.brake && next.reverse_light);
    let ac = AccelControl {
        brake_pedal_active: false,
        gas_pedal_active: true,
        emergency_brake_active: false,
        collision_warning_active: false,
        acc_engaged: false,
        cruise_control_active: true,
        speed_limiter_active: false,
    };
    let only_accel = lights_from_cam(None, Some(ac), &prev);
    assert!(!only_accel.brake && only_accel.accelerating && only_accel.cruise_control_active && only_accel.low_beam);
}

#[test]
fn drive_direction_raw_values() {
    assert_eq!(DriveDirection::from_raw(0), Some(DriveDirection::Forward));
    assert_eq!(DriveDirection::from_raw(1), Some(DriveDirection::Backward));
    assert_eq!(DriveDirection::from_raw(2), Some(DriveDirection::Unavailable));
    assert_eq!(DriveDirection::from_raw(3), None);
}

#[test]
fn vehicles_sorted_by_id_with_ego() {
    let found = vec![
        TrackerVehicle { id: 7, macs: strings(&["g"]) },
        TrackerVehicle { id: 2, macs: strings(&["b", "c"]) },
    ];
    let v = derive_vehicle_ids(&found, &strings(&["e"]));
    let ids: Vec<u32> = v.iter().map(|x| x.id).collect();
    assert_eq!(ids, vec![0, 2, 7]);
    assert_eq!(v[0].label, "Ego");
    assert_eq!(v[0].macs, strings(&["e"]));
    assert_eq!(v[1].label, "Vehicle 2");
    assert_eq!(v[2].macs, strings(&["g"]));
    assert_eq!(derive_vehicle_ids(&found, &vec![]).len(), 2);
}

#[test]
fn dropdown_selection() {
    let v = vec![
        OfflineVehicle { id: 0, label: "Ego".to_string(), macs: vec![] },
        OfflineVehicle { id: 4, label: "Vehicle 4".to_string(), macs: vec![] },
    ];
    assert_eq!(find_selected_vehicle(&v, "4"), Some(1));
    assert_eq!(find_selected_vehicle(&v, "0"), Some(0));
    assert_eq!(find_selected_vehicle(&v, "5"), None);
    assert_eq!(find_selected_vehicle(&v, ""), None);
    let opts = vehicle_options(&v, &"4".to_string());
    assert_eq!(opts.len(), 2);
    assert_eq!((opts[1].value.as_str(), opts[1].label.as_str(), opts[1].selected), ("4", "Vehicle 4", true));
    assert!(!opts[0].selected);
    assert_eq!(demo_vehicles(), vec!["VV-001", "VV-002", "VV-003", "VV-004"]);
}

#[test]
fn trajectory_colours() {
    assert_eq!(traj_color(0), "#44aaff");
    assert_eq!(traj_color(9), "#ff7f0e");
    let macs = strings(&["a", "b", "a"]);
    let pts = strings(&["a", "b", "z"]);
    // `a` takes the colour of its last position, unknown MACs the first colour
    assert_eq!(point_colors(&macs, &pts), vec!["#2ca02c", "#ff7f0e", "#44aaff"]);
}

#[test]
fn frame_timestamp_source() {
    assert_eq!(frame_unix_ms(false, Some(5), 1_700_000_000_000, 42), 42);
    assert_eq!(frame_unix_ms(true, None, 1_700_000_000_000, 42), 42);
    let unix: i64 = 1_700_000_000_000;
    let tst = ((unix - ITS_EPOCH_MS).rem_euclid(TST_WRAP_MS)) as u32;
    assert_eq!(frame_unix_ms(true, Some(tst), unix + 40, 7), unix);
}

#[test]
fn car_mac_label() {
    assert_eq!(car_label(&"aa".to_string(), &"3".to_string()), Some("aa".to_string()));
    assert_eq!(car_label(&String::new(), &"3".to_string()), Some("3".to_string()));
    assert_eq!(car_label(&String::new(), &String::new()), None);
}

#[test]
fn control_labels() {
    assert_eq!(ctrl_btn_class(true), "ctrl-btn active");
    assert_eq!(play_button_label(false), "Play");
    assert_eq!(play_button_label(true), "Pause");
}

#[test]
fn demo_buttons_show_kind_and_state() {
    let mut v = VehicleState::new();
    assert_eq!(demo_button_class(DemoControl::DaytimeRunning, &v), "ctrl-btn active");
    assert_eq!(demo_button_class(DemoControl::LowBeam, &v), "ctrl-btn");
    assert_eq!(demo_button_class(DemoControl::Left, &v), "ctrl-btn blinker-btn");
    v.toggle(DemoControl::Hazard);
    assert_eq!(demo_button_class(DemoControl::Hazard, &v), "ctrl-btn hazard-btn active");
    v.toggle(DemoControl::Right);
    assert_eq!(demo_button_class(DemoControl::Right, &v), "ctrl-btn blinker-btn active");
    assert_eq!(demo_button_class(DemoControl::Hazard, &v), "ctrl-btn hazard-btn");
    assert_eq!(demo_button_class(DemoControl::Brake, &v), "ctrl-btn brake-btn");
    v.toggle(DemoControl::Accelerate);
    assert_eq!(demo_button_class(DemoControl::Accelerate, &v), "ctrl-btn accel-btn active");
    assert_eq!(demo_button_label(DemoControl::DaytimeRunning), "DRL");
    assert_eq!(demo_button_label(DemoControl::Accelerate), "Accel");
    assert_eq!(demo_button_label(DemoControl::NoLight), "No Light");
}
