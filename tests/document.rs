use rust_note::document::{Deletion, Document, Insertion, Operation};

#[test]
fn new_document_shows_its_text() {
    let d = Document::new(String::from("ab\nc"));
    assert_eq!(d.len(), 4);
    assert_eq!(d.buffer(), "ab\nc");
    assert!(d.check_newline_at(2));
    assert!(!d.check_newline_at(1));
    assert!(!d.check_newline_at(9));
    assert_eq!(d.last_edit(), 0);
    assert_eq!(d.site(), 0);
}

#[test]
fn empty_document() {
    let d = Document::new(String::new());
    assert_eq!(d.len(), 0);
    assert_eq!(d.buffer(), "");
}

#[test]
fn insert_places_text_at_offset() {
    let mut d = Document::new(String::from("ad"));
    let op = d.insert(1, String::from("bc"));
    assert_eq!(d.buffer(), "abcd");
    assert_eq!(op.insert_at, 1);
    assert_eq!(op.text, "bc");
    assert_eq!(op.elements.len(), 2);
    assert_eq!(op.made_by, 0);
}

#[test]
fn insert_at_both_ends() {
    let mut d = Document::new(String::from("b"));
    d.insert(0, String::from("a"));
    d.insert(2, String::from("c"));
    assert_eq!(d.buffer(), "abc");
}

#[test]
fn delete_removes_range() {
    let mut d = Document::new(String::from("hello"));
    let op = d.delete(1..3);
    assert_eq!(d.buffer(), "hlo");
    assert_eq!(op.start, 1);
    assert_eq!(op.end, 3);
    assert_eq!(op.positions.len(), 2);
}

#[test]
fn delete_everything_leaves_empty_buffer() {
    let mut d = Document::new(String::from("xy"));
    d.delete(0..2);
    assert_eq!(d.len(), 0);
    assert_eq!(d.buffer(), "");
}

#[test]
fn concurrent_insert_and_delete_converge() {
    let origin = Document::new(String::from("ab"));
    let mut a = origin.fork(1);
    let mut b = origin.fork(2);
    let ins = a.insert(1, String::from("X"));
    assert_eq!(a.buffer(), "aXb");
    let del = b.delete(0..1);
    assert_eq!(b.buffer(), "b");
    a.integrate_deletion(&del);
    b.integrate_insertion(&ins);
    assert_eq!(a.buffer(), "Xb");
    assert_eq!(b.buffer(), "Xb");
}

#[test]
fn concurrent_inserts_at_same_offset_converge() {
    let origin = Document::new(String::from("ab"));
    let mut a = origin.fork(1);
    let mut b = origin.fork(2);
    let ia = a.insert(1, String::from("X"));
    let ib = b.insert(1, String::from("Y"));
    a.integrate_insertion(&ib);
    b.integrate_insertion(&ia);
    assert_eq!(a.buffer(), b.buffer());
    assert_eq!(a.buffer(), "aXYb");
}

#[test]
fn three_replicas_any_order() {
    let origin = Document::new(String::from("abc"));
    let mut r1 = origin.fork(1);
    let mut r2 = origin.fork(2);
    let mut r3 = origin.fork(3);
    let o1 = Operation::Insert(r1.insert(0, String::from("1")));
    let o2 = Operation::Delete(r2.delete(1..2));
    let o3 = Operation::Insert(r3.insert(3, String::from("33")));
    r1.integrate(&o3);
    r1.integrate(&o2);
    r2.integrate(&o1);
    r2.integrate(&o3);
    r3.integrate(&o2);
    r3.integrate(&o1);
    assert_eq!(r1.buffer(), "1ac33");
    assert_eq!(r2.buffer(), r1.buffer());
    assert_eq!(r3.buffer(), r1.buffer());
}

#[test]
fn replaying_an_insertion_changes_nothing() {
    let origin = Document::new(String::from("ab"));
    let mut a = origin.fork(1);
    let mut b = origin.fork(2);
    let ins = a.insert(2, String::from("cd"));
    b.integrate_insertion(&ins);
    assert_eq!(b.buffer(), "abcd");
    b.integrate_insertion(&ins);
    assert_eq!(b.buffer(), "abcd");
}

#[test]
fn replaying_a_deletion_changes_nothing() {
    let origin = Document::new(String::from("abc"));
    let mut a = origin.fork(1);
    let mut b = origin.fork(2);
    let del = a.delete(1..2);
    b.integrate_deletion(&del);
    b.integrate_deletion(&del);
    assert_eq!(b.buffer(), "ac");
}

#[test]
fn own_insertion_echoed_back_is_not_applied_twice() {
    let mut a = Document::new(String::from("ab")).fork(1);
    let ins = a.insert(1, String::from("Z"));
    let len_after_typing = a.len();
    a.integrate_insertion(&ins);
    assert_eq!(a.len(), len_after_typing);
    assert_eq!(a.buffer(), "aZb");
}

#[test]
fn deletion_before_insertion_keeps_text_out() {
    let origin = Document::new(String::from("ab"));
    let mut a = origin.fork(1);
    let mut b = origin.fork(2);
    let mut c = origin.fork(3);
    let ins = a.insert(1, String::from("Q"));
    b.integrate_insertion(&ins);
    let del = b.delete(1..2);
    c.integrate_deletion(&del);
    c.integrate_insertion(&ins);
    assert_eq!(c.buffer(), "ab");
}

#[test]
fn malformed_identifiers_are_dropped() {
    let mut d = Document::new(String::from("ab"));
    let bad = Insertion::new(
        7,
        0,
        String::from("Q"),
        vec![rust_note::document::Element { pos: vec![], ch: 'Q' }],
    );
    d.integrate_insertion(&bad);
    assert_eq!(d.buffer(), "ab");
    let bad_del = Deletion::new(7, 0..1, vec![vec![(0, 0)]]);
    d.integrate_deletion(&bad_del);
    assert_eq!(d.buffer(), "ab");
}

#[test]
fn operation_reports_its_author() {
    let mut d = Document::new(String::from("ab")).fork(4);
    d.set_last_edit(4);
    let op = Operation::Insert(d.insert(0, String::from("x")));
    assert_eq!(op.made_by(), 4);
}

#[test]
fn fork_keeps_text_and_takes_new_tag() {
    let d = Document::new(String::from("text"));
    let f = d.fork(9);
    assert_eq!(f.site(), 9);
    assert_eq!(f.buffer(), "text");
}

#[test]
fn capacity_check_for_typing() {
    let d = Document::new(String::from("ab"));
    assert!(d.can_insert(10));
    assert!(!d.can_insert(usize::MAX));
}

#[test]
fn snapshot_rebuilds_the_same_replica() {
    let origin = Document::new(String::from("abc"));
    let mut a = origin.fork(1);
    a.insert(3, String::from("d"));
    a.delete(0..1);
    let (elements, deleted) = a.snapshot();
    assert_eq!(elements.len(), 3);
    assert_eq!(deleted.len(), 1);
    let b = Document::from_snapshot(2, 1, elements, deleted);
    assert_eq!(b.buffer(), "bcd");
    assert_eq!(b.site(), 2);
    assert_eq!(b.last_edit(), 1);
}

#[test]
fn length_counts_utf8_bytes() {
    let d = Document::new(String::from("\u{e9}"));
    assert_eq!(d.len(), 2);
    assert_eq!(d.char_len(), 1);
    let e = Document::new(String::from("a\u{20ac}\u{1f600}"));
    assert_eq!(e.len(), 1 + 3 + 4);
    assert_eq!(e.char_len(), 3);
}

#[test]
fn fresh_document_can_take_typing() {
    let mut d = Document::new(String::from("ab"));
    assert!(d.can_insert(1));
    d.insert(1, String::from("X"));
    assert_eq!(d.buffer(), "aXb");
}
