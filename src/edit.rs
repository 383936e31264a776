use vstd::prelude::*;

use crate::document::{Document, Operation};
use crate::model::{apply_all, apply_op, DocState, OpModel};

verus! {

/// An edit as the text editor reports it.
#[derive(Clone, Debug)]
pub enum Edit {
    Insert(char),
    Paste(String),
    Enter,
    Delete,
    Backspace,
}

pub open spec fn is_match(t: Seq<char>, s: Seq<char>, k: int) -> bool {
    0 <= k && k + s.len() <= t.len() && t.subrange(k, k + s.len()) == s
}

pub open spec fn match_in(t: Seq<char>, s: Seq<char>, lo: int, hi: int, k: int) -> bool {
    lo <= k && k + s.len() <= hi && is_match(t, s, k)
}

/// The first place at or after `lo` where `s` occurs and ends by `hi`.
#[verifier::opaque]
pub open spec fn first_match(t: Seq<char>, s: Seq<char>, lo: int, hi: int) -> Option<int> {
    if exists|k: int| match_in(t, s, lo, hi, k) {
        Some(
            choose|k: int|
                match_in(t, s, lo, hi, k) && forall|j: int| lo <= j < k ==> !match_in(t, s, lo, hi, j),
        )
    } else {
        None
    }
}

/// The selection is looked for around the cursor: from its length before
/// the cursor to its length after, within the text.
pub open spec fn window(index: int, len: int, n: int) -> (int, int) {
    (if len > index { 0 } else { index - len }, if index + len > n { n } else { index + len })
}

/// The text once a found selection is removed, with the cursor to insert
/// at and how many characters went.
pub open spec fn after_selection(t: Seq<char>, index: int, sel: Option<Seq<char>>) -> (Seq<char>, int, int) {
    match sel {
        None => (t, index, 0),
        Some(s) => {
            let w = window(index, s.len() as int, t.len() as int);
            match first_match(t, s, w.0, w.1) {
                Some(k) => (t.take(k) + t.skip(k + s.len()), k, s.len() as int),
                None => (t, index, 0),
            }
        },
    }
}

pub open spec fn newline_at(t: Seq<char>, i: int) -> bool {
    0 <= i < t.len() && t[i] == '\n'
}

/// Typed text on a blank line takes a line break after it, unless one
/// follows already.
pub open spec fn with_break(t: Seq<char>, i: int, txt: Seq<char>, blank: bool) -> Seq<char> {
    if blank && !newline_at(t, i) {
        txt.push('\n')
    } else {
        txt
    }
}

pub open spec fn insert_text(t: Seq<char>, i: int, txt: Seq<char>) -> Seq<char> {
    t.take(i) + txt + t.skip(i)
}

pub open spec fn delete_text(t: Seq<char>, a: int, b: int) -> Seq<char> {
    t.take(a) + t.skip(b)
}

/// A lone remaining character, the last line break, goes too.
pub open spec fn drop_lone(t: Seq<char>) -> Seq<char> {
    if t.len() == 1 {
        Seq::empty()
    } else {
        t
    }
}

/// The text after the editor's edit: a selection found near the cursor is
/// removed first; then the edit acts at the cursor. Delete takes the next
/// character while one more follows it, backspace the one before the
/// cursor while more than one remains, in both cases only if no selection
/// went.
pub open spec fn edit_text(
    t: Seq<char>,
    edit: Edit,
    index: int,
    sel: Option<Seq<char>>,
    blank: bool,
) -> Seq<char> {
    let (t1, i, gone) = after_selection(t, index, sel);
    edit_tail(t1, edit, i, gone, blank)
}

pub open spec fn opt_chars(s: Option<String>) -> Option<Seq<char>> {
    match s {
        Some(x) => Some(x@),
        None => None,
    }
}

pub open spec fn models(ops: Seq<Operation>) -> Seq<OpModel> {
    ops.map_values(|o: Operation| o.model())
}

pub open spec fn edit_len(edit: Edit) -> int {
    match edit {
        Edit::Paste(p) => p@.len() as int,
        _ => 1,
    }
}

proof fn lemma_push_op(start: DocState, ops: Seq<Operation>, op: Operation)
    ensures
        apply_all(start, models(ops.push(op))) == apply_op(apply_all(start, models(ops)), op.model()),
{
    assert(models(ops.push(op)).drop_last() =~= models(ops));
}

fn matches_at(doc: &Document, s: &str, k: usize) -> (r: bool)
    requires
        k + s@.len() <= doc.text().len(),
    ensures
        r == is_match(doc.text(), s@, k as int),
{
    let ghost t = doc.text();
    let m = s.unicode_len();
    let n = doc.char_len();
    assert(k + m <= n);
    let mut i: usize = 0;
    while i < m
        invariant
            t == doc.text(),
            k + m <= t.len(),
            m == s@.len(),
            i <= m,
            n == t.len(),
            forall|j: int| 0 <= j < i ==> t[k + j] == s@[j],
        decreases m - i,
    {
        if doc.char_at(k + i) != s.get_char(i) {
            assert(t.subrange(k as int, k + m)[i as int] == t[k + i]);
            return false;
        }
        i = i + 1;
    }
    assert(t.subrange(k as int, k + m) =~= s@);
    true
}

/// Where `s` first occurs in the document within `lo..hi`.
fn find_in(doc: &Document, s: &str, lo: usize, hi: usize) -> (r: Option<usize>)
    requires
        hi <= doc.text().len(),
    ensures
        r matches Some(k) ==> first_match(doc.text(), s@, lo as int, hi as int) == Some(k as int),
        r matches Some(k) ==> lo <= k && k + s@.len() <= hi,
        r is None ==> first_match(doc.text(), s@, lo as int, hi as int) is None,
{
    let ghost t = doc.text();
    let m = s.unicode_len();
    if m > hi || lo > hi - m {
        proof {
            reveal(first_match);
            assert(!exists|k: int| match_in(t, s@, lo as int, hi as int, k));
        }
        return None;
    }
    let last = hi - m;
    let mut k: usize = lo;
    loop
        invariant
            t == doc.text(),
            hi <= t.len(),
            m == s@.len(),
            last + m == hi,
            lo <= k <= last,
            forall|j: int| lo <= j < k ==> !match_in(t, s@, lo as int, hi as int, j),
        decreases last - k,
    {
        if matches_at(doc, s, k) {
            proof {
                reveal(first_match);
                assert(match_in(t, s@, lo as int, hi as int, k as int));
                let c = choose|c: int|
                    match_in(t, s@, lo as int, hi as int, c) && forall|j: int|
                        lo <= j < c ==> !match_in(t, s@, lo as int, hi as int, j);
                if c > k {
                    assert(!match_in(t, s@, lo as int, hi as int, k as int));
                }
                assert(c == k);
            }
            return Some(k);
        }
        if k == last {
            proof {
                reveal(first_match);
                assert forall|c: int| !match_in(t, s@, lo as int, hi as int, c) by {}
            }
            return None;
        }
        k = k + 1;
    }
}

/// The text after the edit proper, once a selection is dealt with.
pub open spec fn edit_tail(t1: Seq<char>, edit: Edit, i: int, gone: int, blank: bool) -> Seq<char> {
    match edit {
        Edit::Insert(c) => insert_text(t1, i, with_break(t1, i, seq![c], blank)),
        Edit::Paste(p) => insert_text(t1, i, with_break(t1, i, p@, blank)),
        Edit::Enter => insert_text(t1, i, seq!['\n']),
        Edit::Delete => drop_lone(
            if gone == 0 && t1.len() > i + 1 {
                delete_text(t1, i, i + 1)
            } else {
                t1
            },
        ),
        Edit::Backspace => drop_lone(
            if gone == 0 && t1.len() > 1 && i > 0 {
                delete_text(t1, i - 1, i)
            } else {
                t1
            },
        ),
    }
}

/// Removes the selection when it is found near the cursor.
fn take_selection(doc: &mut Document, index: usize, selection: &Option<String>) -> (r: (
    usize,
    usize,
    Option<Operation>,
))
    requires
        old(doc).wf(),
        index <= old(doc).text().len(),
    ensures
        final(doc).wf(),
        final(doc).text() == after_selection(old(doc).text(), index as int, opt_chars(*selection)).0,
        r.0 as int == after_selection(old(doc).text(), index as int, opt_chars(*selection)).1,
        r.1 as int == after_selection(old(doc).text(), index as int, opt_chars(*selection)).2,
        r.2 matches Some(op) ==> final(doc)@ == apply_op(old(doc)@, op.model()),
        r.2 is None ==> final(doc)@ == old(doc)@,
        final(doc).clock_spec() == old(doc).clock_spec(),
        r.0 <= final(doc).text().len(),
{
    let ghost t = doc.text();
    match selection {
        Some(s) => {
            let n = doc.char_len();
            let len = s.as_str().unicode_len();
            let lo = if len > index {
                0
            } else {
                index - len
            };
            let hi = if len > n - index {
                n
            } else {
                index + len
            };
            let ghost w = window(index as int, len as int, n as int);
            assert(lo as int == w.0 && hi as int == w.1);
            match find_in(doc, s.as_str(), lo, hi) {
                Some(k) => {
                    let d = doc.delete(k..k + len);
                    proof {
                        assert(doc.text() =~= t.take(k as int) + t.skip(k + len));
                        assert(after_selection(t, index as int, opt_chars(*selection)) == (
                            t.take(k as int) + t.skip(k + len),
                            k as int,
                            len as int,
                        ));
                    }
                    (k, len, Some(Operation::Delete(d)))
                },
                None => {
                    proof {
                        assert(after_selection(t, index as int, opt_chars(*selection)) == (
                            t,
                            index as int,
                            0int,
                        ));
                    }
                    (index, 0, None)
                },
            }
        },
        None => (index, 0, None),
    }
}

fn push_op(ops: &mut Vec<Operation>, op: Operation, Ghost(start): Ghost<DocState>, Ghost(
    before,
): Ghost<DocState>)
    requires
        before == apply_all(start, models(old(ops)@)),
    ensures
        apply_op(before, op.model()) == apply_all(start, models(final(ops)@)),
{
    let ghost o = ops@;
    ops.push(op);
    proof {
        lemma_push_op(start, o, op);
    }
}

fn one_text(c: char) -> (r: String)
    ensures
        r@ == seq![c],
{
    let mut txt = String::new();
    crate::text::push_char(&mut txt, c);
    assert(txt@ =~= seq![c]);
    txt
}

/// The edit proper at `at`, after `gone` characters of selection went.
fn apply_at(
    doc: &mut Document,
    edit: Edit,
    at: usize,
    gone: usize,
    is_blank_line: bool,
    ops: &mut Vec<Operation>,
    Ghost(start): Ghost<DocState>,
)
    requires
        old(doc).wf(),
        at <= old(doc).text().len(),
        old(doc).clock_spec() + edit_len(edit) + 1 < u64::MAX,
        old(doc)@ == apply_all(start, models(old(ops)@)),
    ensures
        final(doc).wf(),
        final(doc).text() == edit_tail(old(doc).text(), edit, at as int, gone as int, is_blank_line),
        final(doc)@ == apply_all(start, models(final(ops)@)),
{
    let ghost t1 = doc.text();
    match edit {
        Edit::Insert(c) => {
            let mut txt = one_text(c);
            if is_blank_line && !doc.check_newline_at(at) {
                crate::text::push_char(&mut txt, '\n');
            }
            let ghost before = doc@;
            let ins = doc.insert(at, txt);
            push_op(ops, Operation::Insert(ins), Ghost(start), Ghost(before));
        },
        Edit::Paste(p) => {
            let mut txt = String::new();
            crate::text::append(&mut txt, p.as_str());
            if is_blank_line && !doc.check_newline_at(at) {
                crate::text::push_char(&mut txt, '\n');
            }
            let ghost before = doc@;
            let ins = doc.insert(at, txt);
            push_op(ops, Operation::Insert(ins), Ghost(start), Ghost(before));
        },
        Edit::Enter => {
            let txt = one_text('\n');
            let ghost before = doc@;
            let ins = doc.insert(at, txt);
            push_op(ops, Operation::Insert(ins), Ghost(start), Ghost(before));
        },
        Edit::Delete => {
            if gone == 0 && doc.char_len() > at && doc.char_len() - at > 1 {
                let ghost before = doc@;
                let d = doc.delete(at..at + 1);
                push_op(ops, Operation::Delete(d), Ghost(start), Ghost(before));
            }
            let ghost t2 = doc.text();
            if doc.char_len() == 1 {
                let ghost before = doc@;
                let d = doc.delete(0..1);
                push_op(ops, Operation::Delete(d), Ghost(start), Ghost(before));
                assert(doc.text() =~= drop_lone(t2));
            }
        },
        Edit::Backspace => {
            if gone == 0 && doc.char_len() > 1 && at > 0 {
                let ghost before = doc@;
                let d = doc.delete(at - 1..at);
                push_op(ops, Operation::Delete(d), Ghost(start), Ghost(before));
            }
            let ghost t2 = doc.text();
            if doc.char_len() == 1 {
                let ghost before = doc@;
                let d = doc.delete(0..1);
                push_op(ops, Operation::Delete(d), Ghost(start), Ghost(before));
                assert(doc.text() =~= drop_lone(t2));
            }
        },
    }
}

/// Applies an edit of the text editor to the replica and returns the
/// operations it made, in order, for the other replicas. `index` is the
/// cursor, `selection` the text selected before the edit, `is_blank_line`
/// whether the cursor's line was empty.
pub fn apply_edit(
    doc: &mut Document,
    edit: Edit,
    index: usize,
    selection: Option<String>,
    is_blank_line: bool,
) -> (r: Vec<Operation>)
    requires
        old(doc).wf(),
        index <= old(doc).text().len(),
        old(doc).clock_spec() + edit_len(edit) + 1 < u64::MAX,
    ensures
        final(doc).wf(),
        final(doc).text() == edit_text(
            old(doc).text(),
            edit,
            index as int,
            opt_chars(selection),
            is_blank_line,
        ),
        final(doc)@ == apply_all(old(doc)@, models(r@)),
{
    let ghost st0 = doc@;
    let mut ops: Vec<Operation> = Vec::new();
    proof {
        assert(models(ops@) =~= Seq::<OpModel>::empty());
    }
    let (at, gone, first) = take_selection(doc, index, &selection);
    match first {
        Some(op) => {
            push_op(&mut ops, op, Ghost(st0), Ghost(st0));
        },
        None => {},
    }
    apply_at(doc, edit, at, gone, is_blank_line, &mut ops, Ghost(st0));
    ops
}

} // verus!
