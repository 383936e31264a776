use rust_note::document::Document;
use rust_note::edit::{apply_edit, Edit};
use rust_note::editor::{toggle_formatting, FormatBar, MenuBar, SessionModal, SessionType, TabId, TextStyle, DEFAULT_FONT_SIZE};

#[test]
fn password_needs_one_of_two() {
    let mut m = SessionModal::default();
    assert!(!m.validate_password());
    m.read_password_input = String::from("r");
    assert!(m.validate_password());
    m.read_password_input = String::new();
    m.write_password_input = String::from("w");
    assert!(m.validate_password());
    m.read_password_input = String::from("r");
    assert!(m.validate_password());
}

#[test]
fn file_checks() {
    let mut m = SessionModal::default();
    assert!(m.validate_file(false));
    assert_eq!(m.file_error, "");
    m.file_path_input = String::from("notes.txt");
    assert!(!m.validate_file(true));
    assert_eq!(m.file_error, "Invalid Markdown file path.");
    m.file_path_input = String::from("notes.md");
    assert!(!m.validate_file(false));
    assert!(m.validate_file(true));
    assert_eq!(m.file_error, "");
}

#[test]
fn defaults() {
    let m = SessionModal::default();
    assert_eq!(m.session_selection, Some(SessionType::Read));
    assert_eq!(TabId::default(), TabId::StartSession);
    assert_eq!(SessionType::Read.as_str(), "read");
    assert_eq!(SessionType::Edit.as_str(), "edit");
    assert_eq!(DEFAULT_FONT_SIZE, 16);
    let _ = MenuBar::new();
}

#[test]
fn format_bar_text_size() {
    let mut f = FormatBar::new();
    assert_eq!(f.text_size(), "16");
    f.update(TextStyle::Bold);
    assert_eq!(f.text_size(), "16");
    f.update(TextStyle::TextSize(String::from("20")));
    assert_eq!(f.text_size(), "20");
}

#[test]
fn formatting_toggles() {
    assert_eq!(toggle_formatting(&TextStyle::Bold, "x"), Some(String::from("**x**")));
    assert_eq!(toggle_formatting(&TextStyle::Bold, "**x**"), Some(String::from("x")));
    assert_eq!(toggle_formatting(&TextStyle::Italic, "x"), Some(String::from("*x*")));
    assert_eq!(toggle_formatting(&TextStyle::Italic, "*x*"), Some(String::from("x")));
    assert_eq!(toggle_formatting(&TextStyle::Italic, "**x**"), Some(String::from("***x***")));
    assert_eq!(toggle_formatting(&TextStyle::Italic, "***x***"), Some(String::from("**x**")));
    assert_eq!(toggle_formatting(&TextStyle::Strikethrough, "~~x~~"), Some(String::from("x")));
    assert_eq!(toggle_formatting(&TextStyle::Strikethrough, "x"), Some(String::from("~~x~~")));
    assert_eq!(toggle_formatting(&TextStyle::TextSize(String::from("3")), "x"), None);
    assert_eq!(toggle_formatting(&TextStyle::Bold, "**"), Some(String::from("******")));
}

#[test]
fn typing_a_character() {
    let mut d = Document::new(String::from("ac"));
    let ops = apply_edit(&mut d, Edit::Insert('b'), 1, None, false);
    assert_eq!(d.buffer(), "abc");
    assert_eq!(ops.len(), 1);
}

#[test]
fn typing_on_blank_line_adds_break() {
    let mut d = Document::new(String::from("a\n"));
    apply_edit(&mut d, Edit::Insert('b'), 2, None, true);
    assert_eq!(d.buffer(), "a\nb\n");
}

#[test]
fn typing_over_selection_replaces_it() {
    let mut d = Document::new(String::from("hello world"));
    let ops = apply_edit(&mut d, Edit::Paste(String::from("there")), 11, Some(String::from("world")), false);
    assert_eq!(d.buffer(), "hello there");
    assert_eq!(ops.len(), 2);
}

#[test]
fn enter_delete_backspace() {
    let mut d = Document::new(String::from("abc"));
    apply_edit(&mut d, Edit::Enter, 1, None, false);
    assert_eq!(d.buffer(), "a\nbc");
    apply_edit(&mut d, Edit::Delete, 1, None, false);
    assert_eq!(d.buffer(), "abc");
    apply_edit(&mut d, Edit::Backspace, 3, None, false);
    assert_eq!(d.buffer(), "ab");
    apply_edit(&mut d, Edit::Backspace, 0, None, false);
    assert_eq!(d.buffer(), "ab");
}

#[test]
fn last_character_goes_too() {
    let mut d = Document::new(String::from("ab"));
    apply_edit(&mut d, Edit::Backspace, 1, None, false);
    assert_eq!(d.buffer(), "");
}

#[test]
fn edit_operations_replay_elsewhere() {
    let origin = Document::new(String::from("one two"));
    let mut a = origin.fork(1);
    let mut b = origin.fork(2);
    let ops = apply_edit(&mut a, Edit::Paste(String::from("2")), 7, Some(String::from("two")), false);
    for op in ops.iter() {
        b.integrate(op);
    }
    assert_eq!(a.buffer(), "one 2");
    assert_eq!(b.buffer(), "one 2");
}
