use vstd::prelude::*;

use crate::text::{append, ends_with, ends_with_spec, starts_with, starts_with_spec};

verus! {

/// Which channel a joining participant asks for.
#[derive(Clone, Copy, Debug, PartialEq, Eq, Structural)]
pub enum SessionType {
    Read,
    Edit,
}

impl SessionType {
    /// The path segment of the channel: `read` or `edit`.
    pub fn as_str(&self) -> (r: &'static str)
        ensures
            *self == SessionType::Read ==> r@ == "read"@,
            *self == SessionType::Edit ==> r@ == "edit"@,
    {
        match self {
            SessionType::Read => "read",
            SessionType::Edit => "edit",
        }
    }
}

/// The two tabs of the session dialog.
#[derive(Clone, Copy, Debug, PartialEq, Eq, Structural)]
pub enum TabId {
    StartSession,
    JoinSession,
}

impl Default for TabId {
    fn default() -> (r: TabId)
        ensures
            r == TabId::StartSession,
    {
        TabId::StartSession
    }
}

/// What the session dialog holds: the passwords typed, the file to share,
/// the messages shown, and the channel chosen.
#[derive(Clone, Debug)]
pub struct SessionModal {
    pub session_password_input: String,
    pub write_password_input: String,
    pub read_password_input: String,
    pub file_path_input: String,
    pub file_error: String,
    pub session_join_error: String,
    pub session_selection: Option<SessionType>,
}

impl Default for SessionModal {
    fn default() -> (r: SessionModal)
        ensures
            r.session_password_input@ == Seq::<char>::empty(),
            r.write_password_input@ == Seq::<char>::empty(),
            r.read_password_input@ == Seq::<char>::empty(),
            r.file_path_input@ == Seq::<char>::empty(),
            r.file_error@ == Seq::<char>::empty(),
            r.session_join_error@ == Seq::<char>::empty(),
            r.session_selection == Some(SessionType::Read),
    {
        SessionModal {
            session_password_input: String::new(),
            write_password_input: String::new(),
            read_password_input: String::new(),
            file_path_input: String::new(),
            file_error: String::new(),
            session_join_error: String::new(),
            session_selection: Some(SessionType::Read),
        }
    }
}

pub open spec fn markdown_path_ok(path: Seq<char>, exists: bool) -> bool {
    path.len() == 0 || (ends_with_spec(path, ".md"@) && exists)
}

impl SessionModal {
    /// A session can start once at least one of the two passwords is set.
    pub fn validate_password(&self) -> (r: bool)
        ensures
            r == (self.read_password_input@.len() > 0 || self.write_password_input@.len() > 0),
    {
        self.read_password_input.as_str().unicode_len() > 0
            || self.write_password_input.as_str().unicode_len() > 0
    }

    /// Checks the file to share, given whether it exists on disk. No file
    /// is fine; else it must be an existing `.md` file. Sets the message
    /// shown accordingly.
    pub fn validate_file(&mut self, path_exists: bool) -> (r: bool)
        ensures
            r == markdown_path_ok(old(self).file_path_input@, path_exists),
            r ==> final(self).file_error@ == Seq::<char>::empty(),
            !r ==> final(self).file_error@ == "Invalid Markdown file path."@,
            final(self).file_path_input == old(self).file_path_input,
            final(self).read_password_input == old(self).read_password_input,
            final(self).write_password_input == old(self).write_password_input,
            final(self).session_password_input == old(self).session_password_input,
            final(self).session_join_error == old(self).session_join_error,
            final(self).session_selection == old(self).session_selection,
    {
        if self.file_path_input.as_str().unicode_len() > 0 {
            if ends_with(self.file_path_input.as_str(), ".md") && path_exists {
                self.file_error = String::new();
                true
            } else {
                self.file_error = "Invalid Markdown file path.".to_owned();
                false
            }
        } else {
            self.file_error = String::new();
            true
        }
    }
}

/// Default size of the text.
pub const DEFAULT_FONT_SIZE: u16 = 16;

/// What the formatting bar asks for.
#[derive(Clone, Debug)]
pub enum TextStyle {
    Bold,
    Italic,
    Strikethrough,
    TextSize(String),
}

/// The formatting bar: the text size typed into it.
pub struct FormatBar {
    text_size: String,
}

impl FormatBar {
    pub closed spec fn text_size_spec(&self) -> Seq<char> {
        self.text_size@
    }

    pub fn new() -> (r: FormatBar)
        ensures
            r.text_size_spec() == "16"@,
    {
        FormatBar { text_size: "16".to_owned() }
    }

    /// Takes a new text size; the other styles leave the bar as it is.
    pub fn update(&mut self, message: TextStyle)
        ensures
            message matches TextStyle::TextSize(s) ==> final(self).text_size_spec() == s@,
            !(message is TextSize) ==> final(self).text_size_spec() == old(self).text_size_spec(),
    {
        match message {
            TextStyle::TextSize(text_size) => {
                self.text_size = text_size;
            },
            _ => {},
        }
    }

    /// The text size as typed.
    pub fn text_size(&self) -> (r: &str)
        ensures
            r@ == self.text_size_spec(),
    {
        self.text_size.as_str()
    }
}

/// The menu bar; it holds no state.
pub struct MenuBar {}

impl MenuBar {
    pub fn new() -> (r: MenuBar) {
        MenuBar {  }
    }
}

/// `s` carries the marker `m` on both sides, with room for both.
pub open spec fn marked(s: Seq<char>, m: Seq<char>) -> bool {
    starts_with_spec(s, m) && ends_with_spec(s, m) && s.len() >= 2 * m.len()
}

pub open spec fn unwrapped(s: Seq<char>, k: int) -> Seq<char> {
    s.subrange(k, s.len() - k)
}

/// Toggling a style on a selection: the markers come off when they are
/// there, else they go on. Italic leaves a bold selection to be wrapped,
/// but unwraps one that is bold and italic. A text size is no toggle.
pub open spec fn toggled_spec(style: TextStyle, s: Seq<char>) -> Option<Seq<char>> {
    match style {
        TextStyle::Bold => Some(
            if marked(s, "**"@) {
                unwrapped(s, 2)
            } else {
                "**"@ + s + "**"@
            },
        ),
        TextStyle::Italic => Some(
            if marked(s, "***"@) || (!(starts_with_spec(s, "**"@) && ends_with_spec(s, "**"@))
                && marked(s, "*"@)) {
                unwrapped(s, 1)
            } else {
                "*"@ + s + "*"@
            },
        ),
        TextStyle::Strikethrough => Some(
            if marked(s, "~~"@) {
                unwrapped(s, 2)
            } else {
                "~~"@ + s + "~~"@
            },
        ),
        TextStyle::TextSize(_) => None,
    }
}

fn is_marked(s: &str, m: &str) -> (r: bool)
    ensures
        r == marked(s@, m@),
{
    starts_with(s, m) && ends_with(s, m) && s.unicode_len() / 2 >= m.unicode_len()
}

fn unwrap_or_wrap(s: &str, m: &str, strip: bool, k: usize) -> (r: String)
    requires
        strip ==> 2 * k <= s@.len(),
    ensures
        strip ==> r@ == unwrapped(s@, k as int),
        !strip ==> r@ == m@ + s@ + m@,
{
    let mut out = String::new();
    if strip {
        let n = s.unicode_len();
        append(&mut out, s.substring_char(k, n - k));
    } else {
        append(&mut out, m);
        append(&mut out, s);
        append(&mut out, m);
    }
    out
}

/// The selection after toggling `style` on it, as `toggled_spec` says.
pub fn toggle_formatting(style: &TextStyle, selection: &str) -> (r: Option<String>)
    ensures
        r matches Some(t) ==> toggled_spec(*style, selection@) == Some(t@),
        r is None ==> toggled_spec(*style, selection@) is None,
{
    proof {
        reveal_strlit("**");
        reveal_strlit("***");
        reveal_strlit("*");
        reveal_strlit("~~");
    }
    match style {
        TextStyle::Bold => {
            let strip = is_marked(selection, "**");
            Some(unwrap_or_wrap(selection, "**", strip, 2))
        },
        TextStyle::Italic => {
            let strip = is_marked(selection, "***") || (!(starts_with(selection, "**")
                && ends_with(selection, "**")) && is_marked(selection, "*"));
            Some(unwrap_or_wrap(selection, "*", strip, 1))
        },
        TextStyle::Strikethrough => {
            let strip = is_marked(selection, "~~");
            Some(unwrap_or_wrap(selection, "~~", strip, 2))
        },
        TextStyle::TextSize(_) => None,
    }
}

} // verus!
