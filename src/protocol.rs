use vstd::prelude::*;

use crate::access::str_equal;
use crate::text::append;

verus! {

/// The kinds of message that travel on a streaming connection.
#[derive(Clone, Copy, Debug, PartialEq, Eq, Structural)]
pub enum Tag {
    Document,
    Id,
    Users,
    Insert,
    Delete,
    Cursor,
}

pub open spec fn tag_name(t: Tag) -> Seq<char> {
    match t {
        Tag::Document => "Document"@,
        Tag::Id => "Id"@,
        Tag::Users => "Users"@,
        Tag::Insert => "Insert"@,
        Tag::Delete => "Delete"@,
        Tag::Cursor => "Cursor"@,
    }
}

pub open spec fn tag_of_name(s: Seq<char>) -> Option<Tag> {
    if s == "Document"@ {
        Some(Tag::Document)
    } else if s == "Id"@ {
        Some(Tag::Id)
    } else if s == "Users"@ {
        Some(Tag::Users)
    } else if s == "Insert"@ {
        Some(Tag::Insert)
    } else if s == "Delete"@ {
        Some(Tag::Delete)
    } else if s == "Cursor"@ {
        Some(Tag::Cursor)
    } else {
        None
    }
}

/// `k` is the first colon of `m`.
pub open spec fn first_colon_at(m: Seq<char>, k: int) -> bool {
    0 <= k < m.len() && m[k] == ':' && forall|j: int| 0 <= j < k ==> m[j] != ':'
}

/// A message splits at its first colon into a tag and the payload after
/// it; without a colon, or with an unknown tag, it is not understood.
pub open spec fn parse_spec(m: Seq<char>) -> Option<(Tag, Seq<char>)> {
    if exists|k: int| first_colon_at(m, k) {
        let k = choose|k: int| first_colon_at(m, k);
        match tag_of_name(m.take(k)) {
            Some(t) => Some((t, m.skip(k + 1))),
            None => None,
        }
    } else {
        None
    }
}

impl Tag {
    /// The word a message of this kind starts with.
    pub fn name(&self) -> (r: &'static str)
        ensures
            r@ == tag_name(*self),
    {
        match self {
            Tag::Document => "Document",
            Tag::Id => "Id",
            Tag::Users => "Users",
            Tag::Insert => "Insert",
            Tag::Delete => "Delete",
            Tag::Cursor => "Cursor",
        }
    }

    /// The tag a message starts with, if it is one.
    pub fn from_name(s: &str) -> (r: Option<Tag>)
        ensures
            r == tag_of_name(s@),
    {
        if str_equal(s, "Document") {
            Some(Tag::Document)
        } else if str_equal(s, "Id") {
            Some(Tag::Id)
        } else if str_equal(s, "Users") {
            Some(Tag::Users)
        } else if str_equal(s, "Insert") {
            Some(Tag::Insert)
        } else if str_equal(s, "Delete") {
            Some(Tag::Delete)
        } else if str_equal(s, "Cursor") {
            Some(Tag::Cursor)
        } else {
            None
        }
    }
}

/// The message `<tag>: <payload>`.
pub fn frame(tag: Tag, payload: &str) -> (r: String)
    ensures
        r@ == tag_name(tag) + ": "@ + payload@,
{
    let mut out = String::new();
    append(&mut out, tag.name());
    append(&mut out, ": ");
    append(&mut out, payload);
    out
}

/// Splits a message into its tag and its payload, as `parse_spec` says.
pub fn parse_frame(msg: &str) -> (r: Option<(Tag, String)>)
    ensures
        r matches Some((t, p)) ==> parse_spec(msg@) == Some((t, p@)),
        r is None ==> parse_spec(msg@) is None,
{
    let n = msg.unicode_len();
    let mut k: usize = 0;
    while k < n
        invariant
            n == msg@.len(),
            k <= n,
            forall|j: int| 0 <= j < k ==> msg@[j] != ':',
        ensures
            k <= n,
            forall|j: int| 0 <= j < k ==> msg@[j] != ':',
            k < n ==> msg@[k as int] == ':',
        decreases n - k,
    {
        if msg.get_char(k) == ':' {
            break;
        }
        k = k + 1;
    }
    if k == n {
        assert(!exists|k: int| first_colon_at(msg@, k));
        return None;
    }
    proof {
        assert(first_colon_at(msg@, k as int));
        let c = choose|c: int| first_colon_at(msg@, c);
        if c < k {
            assert(msg@[c] != ':');
        } else if c > k {
            assert(msg@[k as int] != ':');
        }
    }
    let head = msg.substring_char(0, k);
    match Tag::from_name(head) {
        Some(t) => {
            let payload = msg.substring_char(k + 1, n).to_owned();
            Some((t, payload))
        },
        None => None,
    }
}

/// The three messages that open a stream, in the order a newcomer needs
/// them: the document, its own identity, then the participants.
pub fn opening_frames(document: &str, id: &str, users: &str) -> (r: Vec<String>)
    ensures
        r@.len() == 3,
        r@[0]@ == tag_name(Tag::Document) + ": "@ + document@,
        r@[1]@ == tag_name(Tag::Id) + ": "@ + id@,
        r@[2]@ == tag_name(Tag::Users) + ": "@ + users@,
{
    let mut out: Vec<String> = Vec::new();
    out.push(frame(Tag::Document, document));
    out.push(frame(Tag::Id, id));
    out.push(frame(Tag::Users, users));
    out
}

} // verus!
