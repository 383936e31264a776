use rust_note::access::{channel_of, AccessGates, Channel};
use rust_note::document::Document;
use rust_note::protocol::{frame, opening_frames, parse_frame, Tag};
use rust_note::registry::{CursorMarker, PeerAddr, Rgb, Users};
use rust_note::server::{should_apply_snapshot, AppState, Broadcast, HOST_ID};

fn addr(port: u16) -> PeerAddr {
    PeerAddr { ip: 1, port }
}

fn open_gates() -> AccessGates {
    AccessGates { read_access_hash: None, write_access_hash: None }
}

#[test]
fn channels_from_paths() {
    assert_eq!(channel_of("/read"), Channel::Read);
    assert_eq!(channel_of("/edit"), Channel::Edit);
    assert_eq!(channel_of("/status"), Channel::Other);
    assert_eq!(channel_of("/edits"), Channel::Other);
}

#[test]
fn open_gates_admit_anyone() {
    let g = open_gates();
    assert!(g.admits("/edit", None));
    assert!(g.admits("/read", Some("whatever")));
    assert!(g.admits("/status", None));
}

#[test]
fn write_gate_rejects_missing_credential() {
    let g = AccessGates::new(None, Some(String::from("secret")));
    assert!(g.read_access_hash.is_none());
    assert!(g.write_access_hash.is_some());
    assert!(!g.admits("/edit", None));
    assert!(g.admits("/read", None));
}

#[test]
fn write_gate_rejects_wrong_credential() {
    let g = AccessGates::new(None, Some(String::from("secret")));
    assert!(!g.admits("/edit", Some("guess")));
}

#[test]
fn write_gate_admits_right_credential() {
    let g = AccessGates::new(None, Some(String::from("secret")));
    assert!(g.admits("/edit", Some("secret")));
}

#[test]
fn stored_hash_is_salted_not_cleartext() {
    let g = AccessGates::new(Some(String::from("pw")), None);
    let h = g.read_access_hash.clone().unwrap();
    assert!(h.starts_with("$argon2id$v=19$"));
    assert_ne!(h, "pw");
    assert!(!h.contains("pw$"));
}

#[test]
fn frames_round_trip() {
    let m = frame(Tag::Insert, "{\"a\":1}");
    assert_eq!(m, "Insert: {\"a\":1}");
    let (t, p) = parse_frame(&m).unwrap();
    assert_eq!(t, Tag::Insert);
    assert_eq!(p, " {\"a\":1}");
}

#[test]
fn payload_may_hold_colons() {
    let (t, p) = parse_frame("Cursor: {\"y\":1.0,\"k\":\"a:b\"}").unwrap();
    assert_eq!(t, Tag::Cursor);
    assert_eq!(p, " {\"y\":1.0,\"k\":\"a:b\"}");
}

#[test]
fn unknown_or_bare_messages_are_not_understood() {
    assert!(parse_frame("Hello: x").is_none());
    assert!(parse_frame("Insert").is_none());
    assert!(parse_frame("").is_none());
}

#[test]
fn opening_frames_come_in_order() {
    let f = opening_frames("{}", "2", "[]");
    assert_eq!(f, vec!["Document: {}".to_string(), "Id: 2".to_string(), "Users: []".to_string()]);
}

#[test]
fn tag_names() {
    assert_eq!(Tag::Document.name(), "Document");
    assert_eq!(Tag::from_name("Users"), Some(Tag::Users));
    assert_eq!(Tag::from_name("users"), None);
}

fn state() -> AppState {
    AppState::new(Document::new(String::from("ab")), Users::new(), open_gates())
}

#[test]
fn connect_assigns_identities_in_order() {
    let mut s = state();
    assert_eq!(s.connect(addr(1)), Some(1));
    assert_eq!(s.connect(addr(2)), Some(2));
    assert_eq!(s.connect(addr(1)), Some(1));
    s.disconnect(addr(1));
    assert_eq!(s.connect(addr(3)), Some(3));
}

#[test]
fn insertions_on_write_channel_apply() {
    let mut s = state();
    s.connect(addr(1));
    let mut client = Document::new(String::from("ab")).fork(1);
    let op = client.insert(2, String::from("c"));
    assert!(s.apply_insertion(addr(1), Channel::Edit, &op));
    assert_eq!(s.document.buffer(), "abc");
    assert_eq!(s.document.last_edit(), 1);
    assert!(s.is_dirty);
}

#[test]
fn insertions_on_read_channel_are_refused() {
    let mut s = state();
    s.connect(addr(1));
    let mut client = Document::new(String::from("ab")).fork(1);
    let op = client.insert(0, String::from("z"));
    assert!(!s.apply_insertion(addr(1), Channel::Read, &op));
    assert_eq!(s.document.buffer(), "ab");
    assert!(!s.is_dirty);
}

#[test]
fn edits_from_unknown_connections_are_ignored() {
    let mut s = state();
    let mut client = Document::new(String::from("ab")).fork(5);
    let op = client.delete(0..1);
    assert!(!s.apply_deletion(addr(5), Channel::Edit, &op));
    assert_eq!(s.document.buffer(), "ab");
}

#[test]
fn deletions_apply() {
    let mut s = state();
    s.connect(addr(1));
    let mut client = Document::new(String::from("ab")).fork(1);
    let op = client.delete(0..1);
    assert!(s.apply_deletion(addr(1), Channel::Edit, &op));
    assert_eq!(s.document.buffer(), "b");
}

#[test]
fn cursor_reports_mark_participants_moved() {
    let mut s = state();
    let c = CursorMarker { y: 7, color: Rgb { r: 0, g: 0, b: 0 } };
    let cursors = s.apply_cursor(addr(4), c).unwrap();
    assert_eq!(cursors, vec![c]);
    assert!(s.is_moved);
    let left = s.disconnect(addr(4));
    assert!(left.is_empty());
}

#[test]
fn broadcast_with_no_subscribers_drops_document_change() {
    let mut s = state();
    s.is_dirty = true;
    s.is_moved = true;
    let b = s.broadcast_step(0);
    assert_eq!(b, Broadcast { document: false, host_update: false, users: false });
    assert!(!s.is_dirty);
    assert!(s.is_moved);
}

#[test]
fn broadcast_sends_pending_changes() {
    let mut s = state();
    s.is_dirty = true;
    s.is_moved = true;
    s.document.set_last_edit(3);
    let b = s.broadcast_step(2);
    assert_eq!(b, Broadcast { document: true, host_update: true, users: true });
    assert!(!s.is_dirty && !s.is_moved);
    let quiet = s.broadcast_step(2);
    assert_eq!(quiet, Broadcast { document: false, host_update: false, users: false });
}

#[test]
fn host_edits_do_not_go_back_to_host() {
    let mut s = state();
    s.is_dirty = true;
    s.document.set_last_edit(HOST_ID);
    let b = s.broadcast_step(1);
    assert!(b.document);
    assert!(!b.host_update);
}

#[test]
fn own_snapshots_are_skipped() {
    assert!(!should_apply_snapshot(Some(2), 2));
    assert!(should_apply_snapshot(Some(2), 3));
    assert!(should_apply_snapshot(None, 0));
}

#[test]
fn same_password_hashes_differently_each_time() {
    let a = AccessGates::new(Some(String::from("pw")), None);
    let b = AccessGates::new(Some(String::from("pw")), None);
    assert_ne!(a.read_access_hash, b.read_access_hash);
}
