use cites_ui::countries::{countries, find_country, COUNTRY_COUNT};
use cites_ui::monitor::{
    drain_speech_queue,
    connection_rising, connection_status_text, ip_connect_enabled, is_ble, is_connected, push_history, sidebar_class,
    tts_language, ConnectionState, HISTORY_LEN,
};
use cites_ui::picker::{after_node_list, fetching_message, is_archive, list_heading, loading_message, local_archives, PickerState};

fn strings(v: &[&str]) -> Vec<String> {
    v.iter().map(|s| s.to_string()).collect()
}

#[test]
fn country_table() {
    let t = countries();
    assert_eq!(t.len(), COUNTRY_COUNT);
    assert_eq!(t[0].code, "AT");
    assert_eq!(t[COUNTRY_COUNT - 1].code, "SK");
    let es = find_country("ES");
    assert_eq!((es.name, es.lon_centideg, es.lat_centideg, es.zoom), ("Spain", -370, 4040, 5));
}

#[test]
fn country_lookup_falls_back_to_germany() {
    assert_eq!(find_country("FR").name, "France");
    assert_eq!(find_country("MT").zoom, 10);
    let de = find_country("XX");
    assert_eq!((de.code, de.name, de.zoom), ("DE", "Germany", 5));
    assert_eq!(find_country("").code, "DE");
    assert_eq!(find_country("fr").code, "DE");
}

#[test]
fn history_keeps_its_length() {
    let mut h = vec![0_u32; HISTORY_LEN];
    push_history(&mut h, 5);
    assert_eq!(h.len(), HISTORY_LEN);
    assert_eq!(h[HISTORY_LEN - 1], 5);
    let mut f = vec![1.0_f64, 2.0, 3.0];
    push_history(&mut f, 4.0);
    assert_eq!(f, vec![2.0, 3.0, 4.0]);
}

#[test]
fn connection_edges_and_states() {
    assert!(connection_rising(false, true));
    assert!(!connection_rising(true, true));
    assert!(!connection_rising(false, false));
    let bt = ConnectionState::ConnectedBT("node-1".to_string());
    assert!(is_connected(&bt) && is_ble(&bt));
    let ip = ConnectionState::ConnectedIP("10.0.0.2".to_string());
    assert!(is_connected(&ip) && !is_ble(&ip));
    assert!(!is_connected(&ConnectionState::Scanning));
    assert_eq!(connection_status_text(&ip), Some("Connected to 10.0.0.2".to_string()));
    assert_eq!(connection_status_text(&ConnectionState::Connecting("n".to_string())), Some("Connecting to n...".to_string()));
    assert_eq!(connection_status_text(&ConnectionState::Disconnected), None);
    assert!(ip_connect_enabled(&"host".to_string()) && !ip_connect_enabled(&String::new()));
}

#[test]
fn tts_and_sidebar() {
    assert_eq!(tts_language(&String::new()), None);
    assert_eq!(tts_language(&"de".to_string()), Some("de".to_string()));
    assert_eq!(sidebar_class(true), "sidebar open");
    assert_eq!(sidebar_class(false), "sidebar");
}

#[test]
fn local_recordings_filtered_and_sorted() {
    let entries = strings(&["archive_b.pcapng", "notes.txt", "archive_a.pcapng", "xarchive_c", "archive_"]);
    assert_eq!(local_archives(&entries), strings(&["archive_", "archive_a.pcapng", "archive_b.pcapng"]));
    assert!(is_archive(&"archive_1".to_string()));
    assert!(!is_archive(&"archiv".to_string()));
}

#[test]
fn picker_messages() {
    assert_eq!(loading_message("rec.pcapng"), "Loading rec.pcapng…");
    assert_eq!(fetching_message(), "Fetching file list from node…");
    assert_eq!(list_heading(true), "Recordings stored on the node:");
    assert_eq!(list_heading(false), "Locally stored recordings:");
    match after_node_list(Ok(strings(&["a"]))) {
        PickerState::NodeList { files } => assert_eq!(files, strings(&["a"])),
        _ => panic!("expected a node list"),
    }
    match after_node_list(Err("offline".to_string())) {
        PickerState::Error(m) => assert_eq!(m, "offline"),
        _ => panic!("expected an error"),
    }
}

#[test]
fn speech_drain_always_empties_the_queue() {
    let mut q = vec!["Warnung".to_string(), "Tracking".to_string()];
    assert_eq!(drain_speech_queue(&mut q, true), vec!["Warnung".to_string(), "Tracking".to_string()]);
    assert!(q.is_empty());
    let mut q = vec!["x".to_string()];
    assert!(drain_speech_queue(&mut q, false).is_empty());
    assert!(q.is_empty());
}
