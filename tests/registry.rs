use rust_note::registry::{CursorMarker, PeerAddr, Rgb, Users};

fn addr(port: u16) -> PeerAddr {
    PeerAddr { ip: 0x7f000001, port }
}

fn cursor(y: u32) -> CursorMarker {
    CursorMarker { y, color: Rgb { r: 1, g: 2, b: 3 } }
}

#[test]
fn two_join_then_first_leaves() {
    let mut users = Users::new();
    let a = users.add_user(addr(1), Some(cursor(10)));
    let b = users.add_user(addr(2), Some(cursor(20)));
    assert_eq!((a, b), (1, 2));
    assert_eq!(users.get_id(addr(1)), Some(1));
    assert_eq!(users.get_id(addr(2)), Some(2));
    assert_eq!(users.get_all_cursors().len(), 2);
    users.remove_user(addr(1));
    let cursors = users.get_all_cursors();
    assert_eq!(cursors, vec![cursor(20)]);
    assert_eq!(users.get_id(addr(1)), None);
    let c = users.add_user(addr(3), None);
    assert_eq!(c, 3);
}

#[test]
fn known_participant_keeps_identity() {
    let mut users = Users::new();
    users.add_user(addr(1), None);
    assert!(users.get_all_cursors().is_empty());
    let again = users.add_user(addr(1), Some(cursor(5)));
    assert_eq!(again, 1);
    assert_eq!(users.get_all_cursors(), vec![cursor(5)]);
    assert_eq!(users.next_id(), 2);
}

#[test]
fn identities_are_not_reused_after_clear() {
    let mut users = Users::new();
    users.add_user(addr(1), None);
    users.add_user(addr(2), None);
    users.delete_all_users();
    assert!(users.get_all_cursors().is_empty());
    assert_eq!(users.get_id(addr(1)), None);
    assert_eq!(users.add_user(addr(1), None), 3);
}

#[test]
fn identities_increase_whatever_the_order() {
    let mut users = Users::new();
    let mut last = 0;
    for port in [9u16, 3, 7, 1] {
        let id = users.add_user(addr(port), None);
        assert!(id > last);
        last = id;
        users.remove_user(addr(port));
    }
    assert_eq!(last, 4);
}

#[test]
fn removing_unknown_is_harmless() {
    let mut users = Users::new();
    users.add_user(addr(1), Some(cursor(1)));
    users.remove_user(addr(8));
    assert_eq!(users.get_all_cursors().len(), 1);
    assert!(users.can_add(addr(8)));
}

#[test]
fn cursor_moves() {
    let mut c = cursor(1);
    c.move_cursor(42);
    assert_eq!(c.y, 42);
    assert_eq!(c.color, Rgb { r: 1, g: 2, b: 3 });
}
