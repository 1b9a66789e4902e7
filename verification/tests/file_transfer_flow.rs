use cites_ui::transfer::{
    apply_drop, choose_file, clear_pending, drop_zone_step, dropzone_class, finish_upload, initial_upload_state,
    start_upload, transfer_placeholder, DropEvent,
};

#[test]
fn drag_highlight() {
    let s = initial_upload_state();
    let s = drop_zone_step(s, DropEvent::DragEnter);
    assert!(s.drag_active);
    assert_eq!(dropzone_class(s.drag_active), "ft-dropzone ft-dropzone-active");
    let s = drop_zone_step(s, DropEvent::DragLeave);
    assert!(!s.drag_active);
    assert_eq!(dropzone_class(s.drag_active), "ft-dropzone");
}

#[test]
fn drop_decodes_base64_contents() {
    let s = drop_zone_step(initial_upload_state(), DropEvent::DragEnter);
    let s = drop_zone_step(s, DropEvent::Drop { name: Some("cap.pcapng".to_string()), data: Some("aGk=".to_string()) });
    assert!(!s.drag_active);
    let p = s.pending.unwrap();
    assert_eq!(p.name, "cap.pcapng");
    assert_eq!(p.data, vec![b'h', b'i']);
}

#[test]
fn drop_with_invalid_base64_keeps_state() {
    let mut s = initial_upload_state();
    s.error = Some("old".to_string());
    s.drag_active = true;
    let s = drop_zone_step(s, DropEvent::Drop { name: Some("x".to_string()), data: Some("not base64!".to_string()) });
    assert!(!s.drag_active);
    assert!(s.pending.is_none());
    assert_eq!(s.error, Some("old".to_string()));
}

#[test]
fn drop_without_name_keeps_state() {
    let s = drop_zone_step(initial_upload_state(), DropEvent::Drop { name: None, data: Some("aGk=".to_string()) });
    assert!(s.pending.is_none());
    let s = drop_zone_step(s, DropEvent::Other);
    assert!(s.pending.is_none() && !s.drag_active);
}

#[test]
fn chosen_file_clears_previous_outcome() {
    let mut s = initial_upload_state();
    s.ok = true;
    s.error = Some("e".to_string());
    let s = choose_file(s, "f".to_string(), vec![1, 2]);
    assert!(!s.ok && s.error.is_none());
    let s = apply_drop(s, None, None);
    assert_eq!(s.pending.as_ref().unwrap().data, vec![1, 2]);
}

#[test]
fn upload_round_trip() {
    assert!(start_upload(initial_upload_state()).is_none());
    let s = choose_file(initial_upload_state(), "f".to_string(), vec![7]);
    let busy = start_upload(s).unwrap();
    assert!(busy.busy);
    let failed = finish_upload(busy.clone(), Err("node refused".to_string()));
    assert!(!failed.busy && !failed.ok);
    assert_eq!(failed.error, Some("node refused".to_string()));
    assert!(failed.pending.is_some());
    let done = finish_upload(busy, Ok(()));
    assert!(done.ok && done.pending.is_none() && !done.busy);
    let cleared = clear_pending(choose_file(initial_upload_state(), "g".to_string(), vec![]));
    assert!(cleared.pending.is_none());
}

#[test]
fn transfer_list_placeholder() {
    assert_eq!(transfer_placeholder(false), "No archives — connect to a node");
    assert_eq!(transfer_placeholder(true), "No archives found on connected node");
}
