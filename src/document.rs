use vstd::prelude::*;

use crate::model::{
    apply_all, apply_deletes, apply_inserts, apply_op, consistent, del_one, ins_one,
    lemma_convergence, lemma_replay_idempotent, pos_taken, state_inv, DocState, Entry, OpModel,
};
use crate::text::push_char;
use crate::position::{
    compare_pos, fresh_between, lemma_lt_asymmetric, lemma_lt_irreflexive,
    lemma_lt_transitive, pos_lt, valid_pos, Atom,
};

verus! {

/// Identity of a participant; also the replica tag of a document.
pub type UserId = usize;

/// One character of a document with the identifier that orders it.
#[derive(Clone, Debug)]
pub struct Element {
    pub pos: Vec<Atom>,
    pub ch: char,
}

impl View for Element {
    type V = Entry;

    open spec fn view(&self) -> Entry {
        (self.pos@, self.ch)
    }
}

pub fn copy_pos(p: &Vec<Atom>) -> (r: Vec<Atom>)
    ensures
        r@ == p@,
{
    let mut r: Vec<Atom> = Vec::new();
    let mut i: usize = 0;
    while i < p.len()
        invariant
            i <= p@.len(),
            r@ == p@.subrange(0, i as int),
        decreases p.len() - i,
    {
        r.push(p[i]);
        proof {
            assert(p@.subrange(0, i + 1) =~= p@.subrange(0, i as int).push(p@[i as int]));
        }
        i = i + 1;
    }
    assert(r@ =~= p@);
    r
}

impl Element {
    pub fn copy(&self) -> (r: Element)
        ensures
            r@ == self@,
    {
        Element { pos: copy_pos(&self.pos), ch: self.ch }
    }
}

pub open spec fn entries(v: Seq<Element>) -> Seq<Entry> {
    v.map_values(|e: Element| e@)
}

pub open spec fn positions(v: Seq<Vec<Atom>>) -> Seq<Seq<Atom>> {
    v.map_values(|p: Vec<Atom>| p@)
}

pub open spec fn chars_of(s: Seq<Entry>) -> Seq<char> {
    s.map_values(|e: Entry| e.1)
}

pub open spec fn strictly_sorted(s: Seq<Entry>) -> bool {
    forall|i: int, j: int| 0 <= i < j < s.len() ==> pos_lt(#[trigger] s[i].0, #[trigger] s[j].0)
}

/// The characters of a fresh document, numbered from one by the origin
/// replica `0`.
pub open spec fn initial_entries(s: Seq<char>) -> Seq<Entry> {
    Seq::new(s.len(), |i: int| (seq![(0usize, (i + 1) as u64)], s[i]))
}

pub open spec fn initial_state(s: Seq<char>) -> DocState {
    DocState { live: initial_entries(s).to_set(), dead: Set::empty() }
}

/// The counter after integrating an identifier: moved past the
/// identifier's own counter when that is not below it already.
pub open spec fn bump(c: int, p: Seq<Atom>) -> int {
    if valid_pos(p) && p.last().1 >= c {
        p.last().1 + 1
    } else {
        c
    }
}

pub open spec fn bump_all(c: int, ps: Seq<Seq<Atom>>) -> int
    decreases ps.len(),
{
    if ps.len() == 0 {
        c
    } else {
        bump(bump_all(c, ps.drop_last()), ps.last())
    }
}

/// The counter after integrating `op` with counter `c`.
pub open spec fn clock_after(c: int, op: OpModel) -> int {
    match op {
        OpModel::Ins(es) => bump_all(c, es.map_values(|e: Entry| e.0)),
        OpModel::Del(ps) => bump_all(c, ps),
    }
}

/// How many bytes UTF-8 takes for `c`.
pub open spec fn char_width(c: char) -> int {
    let v = c as u32;
    if v < 0x80 {
        1
    } else if v < 0x800 {
        2
    } else if v < 0x10000 {
        3
    } else {
        4
    }
}

/// How many bytes UTF-8 takes for `s`.
pub open spec fn utf8_len(s: Seq<char>) -> int
    decreases s.len(),
{
    if s.len() == 0 {
        0
    } else {
        utf8_len(s.drop_last()) + char_width(s.last())
    }
}

proof fn lemma_utf8_len_grows(s: Seq<char>, i: int)
    requires
        0 <= i <= s.len(),
    ensures
        utf8_len(s.take(i)) <= utf8_len(s),
    decreases s.len(),
{
    if i < s.len() {
        assert(s.drop_last().take(i) =~= s.take(i));
        lemma_utf8_len_grows(s.drop_last(), i);
    } else {
        assert(s.take(i) =~= s);
    }
}

/// A replica of the shared text: its characters in order, each with its
/// identifier, and the identifiers of deleted characters.
#[derive(Clone, Debug)]
pub struct Document {
    last_edit: UserId,
    site: UserId,
    clock: u64,
    elems: Vec<Element>,
    tombs: Vec<Vec<Atom>>,
}

impl View for Document {
    type V = DocState;

    open spec fn view(&self) -> DocState {
        DocState { live: self.entries().to_set(), dead: self.dead_seq().to_set() }
    }
}

impl Document {
    pub closed spec fn entries(&self) -> Seq<Entry> {
        entries(self.elems@)
    }

    pub closed spec fn dead_seq(&self) -> Seq<Seq<Atom>> {
        positions(self.tombs@)
    }

    /// The text that the document shows.
    pub open spec fn text(&self) -> Seq<char> {
        chars_of(self.entries())
    }

    /// The participant whose edit changed the document last.
    pub closed spec fn last_edit_spec(&self) -> UserId {
        self.last_edit
    }

    pub closed spec fn site_spec(&self) -> UserId {
        self.site
    }

    pub closed spec fn clock_spec(&self) -> u64 {
        self.clock
    }

    pub closed spec fn wf(&self) -> bool {
        &&& strictly_sorted(self.entries())
        &&& forall|i: int|
            0 <= i < self.entries().len() ==> valid_pos(#[trigger] self.entries()[i].0)
                && self.entries()[i].0.last().1 < self.clock
        &&& forall|i: int|
            0 <= i < self.dead_seq().len() ==> valid_pos(#[trigger] self.dead_seq()[i])
                && self.dead_seq()[i].last().1 < self.clock
        &&& forall|i: int, j: int|
            0 <= i < self.entries().len() && 0 <= j < self.dead_seq().len() ==> #[trigger] self.entries()[i].0
                != #[trigger] self.dead_seq()[j]
        &&& self.clock > 0
    }

    proof fn lemma_wf_state(&self)
        requires
            self.wf(),
        ensures
            state_inv(self@),
            forall|x: Entry| #[trigger] self@.live.contains(x) ==> valid_pos(x.0),
    {
        let s = self.entries();
        assert forall|x: Entry, y: Entry|
            #[trigger] self@.live.contains(x) && #[trigger] self@.live.contains(y) && x.0 == y.0 implies x
            == y by {
            let i = choose|i: int| 0 <= i < s.len() && s[i] == x;
            let j = choose|j: int| 0 <= j < s.len() && s[j] == y;
            if i < j || j < i {
                lemma_lt_irreflexive(x.0);
            }
        }
        assert forall|x: Entry| #[trigger] self@.live.contains(x) implies !self@.dead.contains(x.0) by {
            let i = choose|i: int| 0 <= i < s.len() && s[i] == x;
            if self@.dead.contains(x.0) {
                let j = choose|j: int| 0 <= j < self.dead_seq().len() && self.dead_seq()[j] == x.0;
                assert(self.entries()[i].0 != self.dead_seq()[j]);
            }
        }
        assert forall|x: Entry| #[trigger] self@.live.contains(x) implies valid_pos(x.0) by {
            let i = choose|i: int| 0 <= i < s.len() && s[i] == x;
            assert(valid_pos(s[i].0));
        }
    }

    /// Where `p` belongs among the characters, and whether a character
    /// already carries it.
    fn find_slot(&self, p: &Vec<Atom>) -> (r: (usize, bool))
        requires
            self.wf(),
        ensures
            r.0 <= self.entries().len(),
            forall|j: int| 0 <= j < r.0 ==> pos_lt(#[trigger] self.entries()[j].0, p@),
            r.1 ==> r.0 < self.entries().len() && self.entries()[r.0 as int].0 == p@,
            !r.1 ==> forall|j: int|
                r.0 <= j < self.entries().len() ==> pos_lt(p@, #[trigger] self.entries()[j].0),
            r.1 == pos_taken(self@, p@),
    {
        let mut i: usize = 0;
        while i < self.elems.len()
            invariant
                self.wf(),
                i <= self.entries().len(),
                forall|j: int| 0 <= j < i ==> pos_lt(#[trigger] self.entries()[j].0, p@),
            decreases self.elems.len() - i,
        {
            let c = compare_pos(&self.elems[i].pos, p);
            assert(self.entries()[i as int] == self.elems@[i as int]@);
            if c >= 0 {
                proof {
                    let s = self.entries();
                    if c > 0 {
                        assert forall|j: int| i <= j < s.len() implies pos_lt(p@, #[trigger] s[j].0) by {
                            if j > i {
                                lemma_lt_transitive(p@, s[i as int].0, s[j].0);
                            }
                        }
                        assert(!pos_taken(self@, p@)) by {
                            if pos_taken(self@, p@) {
                                let x = choose|x: Entry| #[trigger] self@.live.contains(x) && x.0 == p@;
                                let j = choose|j: int| 0 <= j < s.len() && s[j] == x;
                                lemma_lt_irreflexive(p@);
                            }
                        }
                    } else {
                        assert(self@.live.contains(s[i as int]));
                    }
                }
                return (i, c == 0);
            }
            i = i + 1;
        }
        proof {
            let s = self.entries();
            if pos_taken(self@, p@) {
                let x = choose|x: Entry| #[trigger] self@.live.contains(x) && x.0 == p@;
                let j = choose|j: int| 0 <= j < s.len() && s[j] == x;
                lemma_lt_irreflexive(p@);
            }
        }
        (i, false)
    }

    fn is_dead(&self, p: &Vec<Atom>) -> (r: bool)
        ensures
            r == self@.dead.contains(p@),
    {
        let mut i: usize = 0;
        while i < self.tombs.len()
            invariant
                i <= self.dead_seq().len(),
                forall|j: int| 0 <= j < i ==> #[trigger] self.dead_seq()[j] != p@,
            decreases self.tombs.len() - i,
        {
            assert(self.dead_seq()[i as int] == self.tombs@[i as int]@);
            if compare_pos(&self.tombs[i], p) == 0 {
                assert(self.dead_seq().contains(p@));
                return true;
            }
            i = i + 1;
        }
        false
    }
}

impl Document {
    proof fn lemma_insert_sorted(s: Seq<Entry>, slot: int, x: Entry)
        requires
            strictly_sorted(s),
            0 <= slot <= s.len(),
            forall|j: int| 0 <= j < slot ==> pos_lt(#[trigger] s[j].0, x.0),
            forall|j: int| slot <= j < s.len() ==> pos_lt(x.0, #[trigger] s[j].0),
        ensures
            strictly_sorted(s.insert(slot, x)),
    {
        let s2 = s.insert(slot, x);
        assert forall|i: int, j: int| 0 <= i < j < s2.len() implies pos_lt(
            #[trigger] s2[i].0,
            #[trigger] s2[j].0,
        ) by {
            if j < slot {
                assert(s2[i] == s[i] && s2[j] == s[j]);
            } else if j == slot {
                assert(s2[i] == s[i]);
            } else {
                assert(s2[j] == s[j - 1]);
                if i < slot {
                    assert(s2[i] == s[i]);
                } else if i > slot {
                    assert(s2[i] == s[i - 1]);
                }
            }
        }
    }

    /// Adds one character made elsewhere: dropped when malformed, deleted
    /// before, or already present. Tells where it went and whether it was
    /// added.
    fn integrate_entry(&mut self, e: &Element) -> (r: (usize, bool))
        requires
            old(self).wf(),
        ensures
            final(self).wf(),
            final(self)@ == ins_one(old(self)@, e@),
            final(self).site == old(self).site,
            final(self).last_edit == old(self).last_edit,
            final(self).clock == bump(old(self).clock as int, e@.0),
            r.1 == !(!valid_pos(e@.0) || old(self)@.dead.contains(e@.0) || pos_taken(
                old(self)@,
                e@.0,
            )),
            r.1 ==> r.0 <= old(self).entries().len() && final(self).entries() == old(
                self,
            ).entries().insert(r.0 as int, e@),
            r.1 ==> forall|j: int| 0 <= j < r.0 ==> pos_lt(#[trigger] old(self).entries()[j].0, e@.0),
            r.1 ==> forall|j: int|
                r.0 <= j < old(self).entries().len() ==> pos_lt(e@.0, #[trigger] old(self).entries()[j].0),
            !r.1 ==> final(self).entries() == old(self).entries(),
            !r.1 ==> final(self)@ == old(self)@,
    {
        if !check_valid_pos(&e.pos) {
            return (0, false);
        }
        let c = e.pos[e.pos.len() - 1].1;
        let bumped = if c >= self.clock {
            c + 1
        } else {
            self.clock
        };
        if self.is_dead(&e.pos) {
            self.clock = bumped;
            return (0, false);
        }
        let (slot, found) = self.find_slot(&e.pos);
        if found {
            self.clock = bumped;
            return (slot, false);
        }
        let ghost s = self.entries();
        let el = e.copy();
        self.elems.insert(slot, el);
        self.clock = bumped;
        proof {
            assert(self.entries() =~= s.insert(slot as int, e@));
            Self::lemma_insert_sorted(s, slot as int, e@);
            lemma_insert_to_set(s, slot as int, e@);
            let s2 = self.entries();
            assert forall|i: int| 0 <= i < s2.len() implies valid_pos(#[trigger] s2[i].0) && s2[i].0.last().1
                < self.clock by {
                if i < slot {
                    assert(s2[i] == s[i]);
                } else if i > slot {
                    assert(s2[i] == s[i - 1]);
                }
            }
            assert forall|i: int, j: int|
                0 <= i < s2.len() && 0 <= j < self.dead_seq().len() implies #[trigger] s2[i].0
                != #[trigger] self.dead_seq()[j] by {
                if i < slot {
                    assert(s2[i] == s[i]);
                } else if i > slot {
                    assert(s2[i] == s[i - 1]);
                } else {
                    assert(self.dead_seq().contains(self.dead_seq()[j]));
                }
            }
            assert(self@.live == old(self)@.live.insert(e@));
        }
        (slot, true)
    }

    /// Deletes the character that carries `p`, if any, and records `p` as
    /// deleted. Tells where the character stood, when there was one.
    fn integrate_removal(&mut self, p: &Vec<Atom>) -> (r: (usize, bool))
        requires
            old(self).wf(),
        ensures
            final(self).wf(),
            final(self)@ == del_one(old(self)@, p@),
            final(self).site == old(self).site,
            final(self).last_edit == old(self).last_edit,
            final(self).clock == bump(old(self).clock as int, p@),
            r.1 == (valid_pos(p@) && pos_taken(old(self)@, p@)),
            r.1 ==> r.0 < old(self).entries().len() && old(self).entries()[r.0 as int].0 == p@
                && final(self).entries() == old(self).entries().remove(r.0 as int),
            !r.1 ==> final(self).entries() == old(self).entries(),
    {
        if !check_valid_pos(p) {
            return (0, false);
        }
        let c = p[p.len() - 1].1;
        let bumped = if c >= self.clock {
            c + 1
        } else {
            self.clock
        };
        let ghost s = self.entries();
        let ghost d = self.dead_seq();
        let (slot, found) = self.find_slot(p);
        if found {
            let _gone = self.elems.remove(slot);
            proof {
                assert(self.entries() =~= s.remove(slot as int));
                assert forall|j: int| 0 <= j < s.len() && j != slot implies s[j] != s[slot as int] by {
                    lemma_lt_irreflexive(s[j].0);
                }
                lemma_remove_to_set(s, slot as int);
            }
        }
        let ghost s1 = self.entries();
        let already = self.is_dead(p);
        if !already {
            let q = copy_pos(p);
            self.tombs.push(q);
            proof {
                assert(self.dead_seq() =~= d.push(p@));
                assert(self.dead_seq().to_set() =~= d.to_set().insert(p@)) by {
                    assert forall|y: Seq<Atom>| self.dead_seq().to_set().contains(y) implies d.to_set().insert(
                        p@,
                    ).contains(y) by {
                        let k = choose|k: int| 0 <= k < self.dead_seq().len() && self.dead_seq()[k] == y;
                        if k < d.len() {
                            assert(d[k] == y);
                        }
                    }
                    assert forall|y: Seq<Atom>| d.to_set().insert(p@).contains(y) implies self.dead_seq().to_set().contains(
                        y,
                    ) by {
                        if y == p@ {
                            assert(self.dead_seq()[d.len() as int] == y);
                        } else {
                            let k = choose|k: int| 0 <= k < d.len() && d[k] == y;
                            assert(self.dead_seq()[k] == y);
                        }
                    }
                }
            }
        } else {
            proof {
                assert(d.to_set().insert(p@) =~= d.to_set());
            }
        }
        self.clock = bumped;
        proof {
            let s2 = self.entries();
            let ds = self.dead_seq();
            // no remaining character carries `p`
            assert forall|i: int| 0 <= i < s2.len() implies #[trigger] s2[i].0 != p@ by {
                if found {
                    if i < slot {
                        assert(s2[i] == s[i]);
                        lemma_lt_irreflexive(p@);
                    } else {
                        assert(s2[i] == s[i + 1]);
                        lemma_lt_irreflexive(p@);
                    }
                } else {
                    lemma_lt_irreflexive(p@);
                }
            }
            assert forall|i: int| 0 <= i < s2.len() implies valid_pos(#[trigger] s2[i].0) && s2[i].0.last().1
                < self.clock by {
                if found {
                    if i < slot {
                        assert(s2[i] == s[i]);
                    } else {
                        assert(s2[i] == s[i + 1]);
                    }
                }
            }
            assert(strictly_sorted(s2)) by {
                if found {
                    assert forall|i: int, j: int| 0 <= i < j < s2.len() implies pos_lt(
                        #[trigger] s2[i].0,
                        #[trigger] s2[j].0,
                    ) by {
                        if j < slot {
                            assert(s2[i] == s[i] && s2[j] == s[j]);
                        } else if i < slot {
                            assert(s2[i] == s[i] && s2[j] == s[j + 1]);
                        } else {
                            assert(s2[i] == s[i + 1] && s2[j] == s[j + 1]);
                        }
                    }
                }
            }
            assert forall|i: int, j: int|
                0 <= i < s2.len() && 0 <= j < ds.len() implies #[trigger] s2[i].0 != #[trigger] ds[j] by {
                if j == d.len() {
                    assert(ds[j] == p@);
                } else if j < d.len() {
                    assert(ds[j] == d[j]);
                    if found {
                        if i < slot {
                            assert(s2[i] == s[i]);
                        } else {
                            assert(s2[i] == s[i + 1]);
                        }
                    }
                }
            }
            assert(self@.live =~= old(self)@.live.filter(|x: Entry| x.0 != p@)) by {
                if found {
                    assert forall|x: Entry| #[trigger] old(self)@.live.contains(x) && x.0 != p@ implies self@.live.contains(
                        x,
                    ) by {
                        assert(x != s[slot as int]);
                        assert(s.to_set().remove(s[slot as int]).contains(x));
                    }
                } else {
                    assert forall|x: Entry| #[trigger] old(self)@.live.contains(x) implies x.0 != p@ by {
                        if x.0 == p@ {
                            assert(pos_taken(old(self)@, p@));
                        }
                    }
                }
                assert forall|x: Entry| #[trigger] self@.live.contains(x) implies x.0 != p@ by {
                    let k = choose|k: int| 0 <= k < s2.len() && s2[k] == x;
                }
            }
            if found {
                assert(pos_taken(old(self)@, p@)) by {
                    assert(old(self)@.live.contains(s[slot as int]));
                }
            }
        }
        (slot, found)
    }
}

fn check_valid_pos(p: &Vec<Atom>) -> (r: bool)
    ensures
        r == valid_pos(p@),
{
    if p.len() == 0 {
        false
    } else {
        let last = p[p.len() - 1];
        !(last.0 == 0 && last.1 == 0) && last.1 < u64::MAX
    }
}

proof fn lemma_insert_to_set<A>(s: Seq<A>, i: int, x: A)
    requires
        0 <= i <= s.len(),
    ensures
        s.insert(i, x).to_set() == s.to_set().insert(x),
{
    let t = s.insert(i, x);
    assert forall|y: A| t.to_set().contains(y) implies s.to_set().insert(x).contains(y) by {
        let k = choose|k: int| 0 <= k < t.len() && t[k] == y;
        if k < i {
            assert(s[k] == y);
        } else if k > i {
            assert(s[k - 1] == y);
        }
    }
    assert forall|y: A| s.to_set().insert(x).contains(y) implies t.to_set().contains(y) by {
        if y == x {
            assert(t[i] == x);
        } else {
            let k = choose|k: int| 0 <= k < s.len() && s[k] == y;
            if k < i {
                assert(t[k] == y);
            } else {
                assert(t[k + 1] == y);
            }
        }
    }
    assert(t.to_set() =~= s.to_set().insert(x));
}

proof fn lemma_remove_to_set<A>(s: Seq<A>, i: int)
    requires
        0 <= i < s.len(),
        forall|j: int| 0 <= j < s.len() && j != i ==> s[j] != s[i],
    ensures
        s.remove(i).to_set() == s.to_set().remove(s[i]),
{
    let t = s.remove(i);
    assert forall|y: A| t.to_set().contains(y) implies s.to_set().remove(s[i]).contains(y) by {
        let k = choose|k: int| 0 <= k < t.len() && t[k] == y;
        if k < i {
            assert(s[k] == y);
        } else {
            assert(s[k + 1] == y);
        }
    }
    assert forall|y: A| s.to_set().remove(s[i]).contains(y) implies t.to_set().contains(y) by {
        let k = choose|k: int| 0 <= k < s.len() && s[k] == y;
        if k < i {
            assert(t[k] == y);
        } else {
            assert(t[k - 1] == y);
        }
    }
    assert(t.to_set() =~= s.to_set().remove(s[i]));
}

/// An insertion as it travels between replicas: who made it, where and
/// what was typed, and each new character with its identifier.
#[derive(Clone, Debug)]
pub struct Insertion {
    pub made_by: UserId,
    pub insert_at: usize,
    pub text: String,
    pub elements: Vec<Element>,
}

impl Insertion {
    pub open spec fn model(&self) -> OpModel {
        OpModel::Ins(entries(self.elements@))
    }

    pub fn new(made_by: UserId, insert_at: usize, text: String, elements: Vec<Element>) -> (r:
        Insertion)
        ensures
            r.made_by == made_by,
            r.insert_at == insert_at,
            r.text@ == text@,
            r.elements@ == elements@,
    {
        Insertion { made_by, insert_at, text, elements }
    }
}

/// A deletion as it travels between replicas: who made it, the range
/// `start..end` it took out, and the identifiers of the characters in that
/// range.
#[derive(Clone, Debug)]
pub struct Deletion {
    pub made_by: UserId,
    pub start: usize,
    pub end: usize,
    pub positions: Vec<Vec<Atom>>,
}

impl Deletion {
    pub open spec fn model(&self) -> OpModel {
        OpModel::Del(positions(self.positions@))
    }

    pub fn new(made_by: UserId, range: std::ops::Range<usize>, positions: Vec<Vec<Atom>>) -> (r:
        Deletion)
        ensures
            r.made_by == made_by,
            r.start == range.start,
            r.end == range.end,
            r.positions@ == positions@,
    {
        Deletion { made_by, start: range.start, end: range.end, positions }
    }
}

/// The unit that replicas exchange.
#[derive(Clone, Debug)]
pub enum Operation {
    Insert(Insertion),
    Delete(Deletion),
}

impl Operation {
    pub open spec fn model(&self) -> OpModel {
        match self {
            Operation::Insert(i) => i.model(),
            Operation::Delete(d) => d.model(),
        }
    }

    pub open spec fn origin(&self) -> UserId {
        match self {
            Operation::Insert(i) => i.made_by,
            Operation::Delete(d) => d.made_by,
        }
    }

    /// The participant that made the operation.
    pub fn made_by(&self) -> (r: UserId)
        ensures
            r == self.origin(),
    {
        match self {
            Operation::Insert(i) => i.made_by,
            Operation::Delete(d) => d.made_by,
        }
    }
}

impl Document {
    /// A document holding `buffer`, as the origin replica `0` numbers it;
    /// replicas made from the same text start from the same state.
    pub fn new(buffer: String) -> (r: Document)
        requires
            buffer@.len() < u64::MAX,
        ensures
            r.wf(),
            r.entries() == initial_entries(buffer@),
            r@ == initial_state(buffer@),
            r.text() == buffer@,
            r.last_edit_spec() == 0,
            r.site_spec() == 0,
            r.clock_spec() == buffer@.len() + 1,
    {
        let n = buffer.as_str().unicode_len();
        let mut elems: Vec<Element> = Vec::new();
        let mut i: usize = 0;
        let mut ctr: u64 = 1;
        while i < n
            invariant
                n == buffer@.len(),
                n < u64::MAX,
                i <= n,
                ctr == i + 1,
                entries(elems@) == initial_entries(buffer@).take(i as int),
            decreases n - i,
        {
            let ch = buffer.as_str().get_char(i);
            let mut pos: Vec<Atom> = Vec::new();
            pos.push((0, ctr));
            let ghost before = elems@;
            elems.push(Element { pos, ch });
            proof {
                assert(pos@ =~= seq![(0usize, ctr)]);
                assert(entries(elems@) =~= entries(before).push((seq![(0usize, ctr)], ch)));
                assert(initial_entries(buffer@).take(i + 1) =~= initial_entries(buffer@).take(
                    i as int,
                ).push(initial_entries(buffer@)[i as int]));
            }
            i = i + 1;
            ctr = ctr + 1;
        }
        let r = Document { last_edit: 0, site: 0, clock: ctr, elems, tombs: Vec::new() };
        proof {
            let s = r.entries();
            assert(s =~= initial_entries(buffer@));
            assert forall|a: int, b: int| 0 <= a < b < s.len() implies pos_lt(
                #[trigger] s[a].0,
                #[trigger] s[b].0,
            ) by {
                assert(s[a].0[0] == (0usize, (a + 1) as u64));
                assert(s[b].0[0] == (0usize, (b + 1) as u64));
            }
            assert(r.text() =~= buffer@);
            assert(r.dead_seq().to_set() =~= Set::empty());
        }
        r
    }

    /// Number of characters shown.
    pub fn char_len(&self) -> (r: usize)
        ensures
            r == self.text().len(),
    {
        self.elems.len()
    }

    /// Number of bytes the text takes in UTF-8; `usize::MAX` if it could
    /// not be held.
    pub fn len(&self) -> (r: usize)
        ensures
            r == if utf8_len(self.text()) <= usize::MAX {
                utf8_len(self.text())
            } else {
                usize::MAX as int
            },
    {
        let mut total: usize = 0;
        let mut i: usize = 0;
        while i < self.elems.len()
            invariant
                i <= self.text().len(),
                total == utf8_len(self.text().take(i as int)),
            decreases self.elems.len() - i,
        {
            let c = self.elems[i].ch;
            let v = c as u32;
            let w: usize = if v < 0x80 {
                1
            } else if v < 0x800 {
                2
            } else if v < 0x10000 {
                3
            } else {
                4
            };
            proof {
                assert(self.text().take(i + 1).drop_last() =~= self.text().take(i as int));
                assert(self.text()[i as int] == c);
            }
            if total > usize::MAX - w {
                proof {
                    lemma_utf8_len_grows(self.text(), i + 1);
                }
                return usize::MAX;
            }
            total = total + w;
            i = i + 1;
        }
        assert(self.text().take(i as int) =~= self.text());
        total
    }

    /// Whether the character at `index` is a line break.
    pub fn check_newline_at(&self, index: usize) -> (r: bool)
        ensures
            r == (index < self.text().len() && self.text()[index as int] == '\n'),
    {
        if index < self.elems.len() {
            self.elems[index].ch == '\n'
        } else {
            false
        }
    }

    /// The participant whose edit changed the document last.
    pub fn last_edit(&self) -> (r: UserId)
        ensures
            r == self.last_edit_spec(),
    {
        self.last_edit
    }

    /// Records `id` as the author of the edits that follow.
    pub fn set_last_edit(&mut self, id: UserId)
        requires
            old(self).wf(),
        ensures
            final(self).wf(),
            final(self).last_edit_spec() == id,
            final(self).entries() == old(self).entries(),
            final(self)@ == old(self)@,
            final(self).site_spec() == old(self).site_spec(),
            final(self).clock_spec() == old(self).clock_spec(),
    {
        let ghost before = *self;
        self.last_edit = id;
        proof {
            assert(self.entries() == before.entries());
            assert(self.dead_seq() == before.dead_seq());
        }
    }

    /// The character at `i`.
    pub fn char_at(&self, i: usize) -> (r: char)
        requires
            i < self.text().len(),
        ensures
            r == self.text()[i as int],
    {
        self.elems[i].ch
    }

    /// The replica tag this document makes identifiers with.
    pub fn site(&self) -> (r: UserId)
        ensures
            r == self.site_spec(),
    {
        self.site
    }

    /// Whether `n` more characters can be typed into this replica.
    pub fn can_insert(&self, n: usize) -> (r: bool)
        ensures
            r == (self.clock_spec() + n < u64::MAX),
    {
        (n as u64) < u64::MAX - self.clock
    }

    /// The text that the document shows.
    pub fn buffer(&self) -> (r: String)
        ensures
            r@ == self.text(),
    {
        let mut out = String::new();
        let mut i: usize = 0;
        while i < self.elems.len()
            invariant
                i <= self.entries().len(),
                out@ == self.text().take(i as int),
            decreases self.elems.len() - i,
        {
            push_char(&mut out, self.elems[i].ch);
            proof {
                assert(self.text().take(i + 1) =~= self.text().take(i as int).push(self.text()[i as int]));
            }
            i = i + 1;
        }
        assert(self.text().take(i as int) =~= self.text());
        out
    }
}

impl Document {
    /// Types `text` at `insert_at`: each character gets an identifier
    /// between its neighbours, made from this replica's tag and counter.
    /// Returns the operation, which this replica has already applied.
    pub fn insert(&mut self, insert_at: usize, text: String) -> (r: Insertion)
        requires
            old(self).wf(),
            insert_at <= old(self).text().len(),
            old(self).clock_spec() + text@.len() < u64::MAX,
        ensures
            final(self).wf(),
            final(self).text() == old(self).text().take(insert_at as int) + text@ + old(
                self,
            ).text().skip(insert_at as int),
            final(self)@ == apply_op(old(self)@, r.model()),
            r.made_by == old(self).last_edit_spec(),
            r.insert_at == insert_at,
            r.text@ == text@,
            chars_of(entries(r.elements@)) == text@,
            forall|i: int|
                0 <= i < r.elements@.len() ==> #[trigger] r.elements@[i].pos@.last() == (
                    old(self).site_spec(),
                    (old(self).clock_spec() + i) as u64,
                ),
            final(self).clock_spec() == old(self).clock_spec() + text@.len(),
            final(self).last_edit_spec() == old(self).last_edit_spec(),
            final(self).site_spec() == old(self).site_spec(),
    {
        let n = text.as_str().unicode_len();
        let mut out: Vec<Element> = Vec::new();
        let mut k: usize = 0;
        let ghost t0 = old(self).text();
        let ghost st0 = old(self)@;
        while k < n
            invariant
                self.wf(),
                n == text@.len(),
                k <= n,
                insert_at + k <= self.entries().len(),
                self.entries().len() == t0.len() + k,
                self.text() == t0.take(insert_at as int) + text@.take(k as int) + t0.skip(
                    insert_at as int,
                ),
                self@ == apply_inserts(st0, entries(out@)),
                chars_of(entries(out@)) == text@.take(k as int),
                self.clock + (n - k) < u64::MAX,
                self.clock == old(self).clock + k,
                out@.len() == k,
                forall|j: int|
                    0 <= j < k ==> #[trigger] out@[j].pos@.last() == (
                        old(self).site,
                        (old(self).clock + j) as u64,
                    ),
                self.site == old(self).site,
                self.last_edit == old(self).last_edit,
                t0 == old(self).text(),
                st0 == old(self)@,
                insert_at <= t0.len(),
            decreases n - k,
        {
            let cur_len = self.elems.len();
            assert(insert_at + k <= cur_len);
            let idx = insert_at + k;
            let ch = text.as_str().get_char(k);
            let left = if idx == 0 {
                Vec::new()
            } else {
                copy_pos(&self.elems[idx - 1].pos)
            };
            let atom = (self.site, self.clock);
            let ghost s = self.entries();
            proof {
                if idx > 0 && idx < s.len() {
                    assert(s[idx - 1].0 == left@);
                    assert(pos_lt(s[idx - 1].0, s[idx as int].0));
                }
                if idx == 0 && idx < s.len() {
                    assert(valid_pos(s[idx as int].0));
                    assert(left@.len() == 0);
                }
                if idx < s.len() {
                    assert(self.elems@[idx as int].pos@ == s[idx as int].0);
                }
            }
            let pos = if idx < self.elems.len() {
                fresh_between(&left, Some(&self.elems[idx].pos), atom)
            } else {
                fresh_between(&left, None, atom)
            };
            let el = Element { pos, ch };
            proof {
                assert(valid_pos(el@.0));
                assert(!self@.dead.contains(el@.0)) by {
                    if self@.dead.contains(el@.0) {
                        let j = choose|j: int|
                            0 <= j < self.dead_seq().len() && self.dead_seq()[j] == el@.0;
                        assert(self.dead_seq()[j].last().1 < self.clock);
                    }
                }
                assert(!pos_taken(self@, el@.0)) by {
                    if pos_taken(self@, el@.0) {
                        let x = choose|x: Entry| #[trigger] self@.live.contains(x) && x.0 == el@.0;
                        let j = choose|j: int| 0 <= j < s.len() && s[j] == x;
                        assert(s[j].0.last().1 < self.clock);
                    }
                }
            }
            let ghost before = out@;
            let (slot, added) = self.integrate_entry(&el);
            proof {
                assert(added);
                // the character lands right after its left neighbour
                if slot < idx {
                    assert(pos_lt(el@.0, s[slot as int].0));
                    if (slot as int) < idx - 1 {
                        lemma_lt_transitive(s[slot as int].0, s[idx - 1].0, el@.0);
                    }
                    lemma_lt_asymmetric(el@.0, s[slot as int].0);
                }
                if slot > idx {
                    assert(pos_lt(s[idx as int].0, el@.0));
                    lemma_lt_asymmetric(el@.0, s[idx as int].0);
                }
                assert(slot == idx);
                let t1 = self.text();
                assert(t1 =~= chars_of(s).insert(idx as int, ch));
                assert(text@.take(k + 1) =~= text@.take(k as int).push(ch));
                assert(t1 =~= t0.take(insert_at as int) + text@.take(k + 1) + t0.skip(
                    insert_at as int,
                ));
            }
            out.push(el);
            proof {
                assert(entries(out@) =~= entries(before).push(el@));
                assert(entries(out@).drop_last() =~= entries(before));
                assert(chars_of(entries(out@)) =~= chars_of(entries(before)).push(ch));
            }
            k = k + 1;
        }
        proof {
            assert(text@.take(n as int) =~= text@);
        }
        Insertion { made_by: self.last_edit, insert_at, text, elements: out }
    }
}

impl Document {
    /// Deletes the characters `range.start..range.end` and returns the
    /// operation, which this replica has already applied.
    pub fn delete(&mut self, range: std::ops::Range<usize>) -> (r: Deletion)
        requires
            old(self).wf(),
            range.start <= range.end <= old(self).text().len(),
        ensures
            final(self).wf(),
            final(self).text() == old(self).text().take(range.start as int) + old(self).text().skip(
                range.end as int,
            ),
            final(self)@ == apply_op(old(self)@, r.model()),
            r.made_by == old(self).last_edit_spec(),
            r.start == range.start,
            r.end == range.end,
            r.positions@.len() == range.end - range.start,
            final(self).last_edit_spec() == old(self).last_edit_spec(),
            final(self).site_spec() == old(self).site_spec(),
            final(self).clock_spec() == old(self).clock_spec(),
    {
        let start = range.start;
        let count = range.end - range.start;
        let mut out: Vec<Vec<Atom>> = Vec::new();
        let mut k: usize = 0;
        let ghost e0 = old(self).entries();
        let ghost st0 = old(self)@;
        while k < count
            invariant
                self.wf(),
                k <= count,
                start + count <= e0.len(),
                self.entries() == e0.take(start as int) + e0.skip(start + k),
                self@ == apply_deletes(st0, positions(out@)),
                out@.len() == k,
                self.site == old(self).site,
                self.last_edit == old(self).last_edit,
                self.clock == old(self).clock,
                e0 == old(self).entries(),
                st0 == old(self)@,
            decreases count - k,
        {
            let ghost s = self.entries();
            assert(start < s.len());
            assert(valid_pos(s[start as int].0));
            assert(s[start as int] == self.elems@[start as int]@);
            let p = copy_pos(&self.elems[start].pos);
            proof {
                assert(valid_pos(p@));
                assert(self@.live.contains(s[start as int]));
            }
            let ghost before = out@;
            let (slot, found) = self.integrate_removal(&p);
            proof {
                assert(found);
                if slot != start {
                    if slot < start {
                        assert(pos_lt(s[slot as int].0, s[start as int].0));
                    } else {
                        assert(pos_lt(s[start as int].0, s[slot as int].0));
                    }
                    lemma_lt_irreflexive(p@);
                }
                assert(self.entries() =~= e0.take(start as int) + e0.skip(start + k + 1));
            }
            out.push(p);
            proof {
                assert(positions(out@) =~= positions(before).push(p@));
                assert(positions(out@).drop_last() =~= positions(before));
            }
            k = k + 1;
        }
        proof {
            assert(self.text() =~= old(self).text().take(range.start as int) + old(self).text().skip(
                range.end as int,
            ));
        }
        Deletion { made_by: self.last_edit, start: range.start, end: range.end, positions: out }
    }

    /// Integrates an insertion made by any replica. Characters whose
    /// identifier is malformed, deleted or already present are skipped, so
    /// replaying an insertion changes nothing.
    pub fn integrate_insertion(&mut self, op: &Insertion)
        requires
            old(self).wf(),
        ensures
            final(self).wf(),
            final(self)@ == apply_op(old(self)@, op.model()),
            final(self).clock_spec() == clock_after(old(self).clock_spec() as int, op.model()),
            final(self).last_edit_spec() == old(self).last_edit_spec(),
            final(self).site_spec() == old(self).site_spec(),
    {
        let mut k: usize = 0;
        let ghost st0 = old(self)@;
        let ghost es = entries(op.elements@);
        let ghost ps = es.map_values(|e: Entry| e.0);
        while k < op.elements.len()
            invariant
                self.wf(),
                k <= es.len(),
                es == entries(op.elements@),
                self@ == apply_inserts(st0, es.take(k as int)),
                ps == es.map_values(|e: Entry| e.0),
                self.clock == bump_all(old(self).clock as int, ps.take(k as int)),
                self.site == old(self).site,
                self.last_edit == old(self).last_edit,
                st0 == old(self)@,
            decreases op.elements.len() - k,
        {
            let _ = self.integrate_entry(&op.elements[k]);
            proof {
                assert(es.take(k + 1).drop_last() =~= es.take(k as int));
                assert(es.take(k + 1).last() == op.elements@[k as int]@);
                assert(ps.take(k + 1).drop_last() =~= ps.take(k as int));
                assert(ps.take(k + 1).last() == op.elements@[k as int].pos@);
            }
            k = k + 1;
        }
        assert(es.take(k as int) =~= es);
        assert(ps.take(k as int) =~= ps);
    }

    /// Integrates a deletion made by any replica. Identifiers that no
    /// character carries are still recorded, so that a late insertion of
    /// them stays out.
    pub fn integrate_deletion(&mut self, op: &Deletion)
        requires
            old(self).wf(),
        ensures
            final(self).wf(),
            final(self)@ == apply_op(old(self)@, op.model()),
            final(self).clock_spec() == clock_after(old(self).clock_spec() as int, op.model()),
            final(self).last_edit_spec() == old(self).last_edit_spec(),
            final(self).site_spec() == old(self).site_spec(),
    {
        let mut k: usize = 0;
        let ghost st0 = old(self)@;
        let ghost ps = positions(op.positions@);
        while k < op.positions.len()
            invariant
                self.wf(),
                k <= ps.len(),
                ps == positions(op.positions@),
                self@ == apply_deletes(st0, ps.take(k as int)),
                self.clock == bump_all(old(self).clock as int, ps.take(k as int)),
                self.site == old(self).site,
                self.last_edit == old(self).last_edit,
                st0 == old(self)@,
            decreases op.positions.len() - k,
        {
            let _ = self.integrate_removal(&op.positions[k]);
            proof {
                assert(ps.take(k + 1).drop_last() =~= ps.take(k as int));
                assert(ps.take(k + 1).last() == op.positions@[k as int]@);
            }
            k = k + 1;
        }
        assert(ps.take(k as int) =~= ps);
    }

    /// Integrates either kind of operation.
    pub fn integrate(&mut self, op: &Operation)
        requires
            old(self).wf(),
        ensures
            final(self).wf(),
            final(self)@ == apply_op(old(self)@, op.model()),
            final(self).clock_spec() == clock_after(old(self).clock_spec() as int, op.model()),
            final(self).last_edit_spec() == old(self).last_edit_spec(),
            final(self).site_spec() == old(self).site_spec(),
    {
        match op {
            Operation::Insert(i) => self.integrate_insertion(i),
            Operation::Delete(d) => self.integrate_deletion(d),
        }
    }

    /// A copy of this replica that makes its identifiers under the tag
    /// `new_identity`.
    pub fn fork(&self, new_identity: UserId) -> (r: Document)
        requires
            self.wf(),
        ensures
            r.wf(),
            r.entries() == self.entries(),
            r@ == self@,
            r.text() == self.text(),
            r.site_spec() == new_identity,
            r.last_edit_spec() == self.last_edit_spec(),
            r.clock_spec() == self.clock_spec(),
    {
        let mut elems: Vec<Element> = Vec::new();
        let mut i: usize = 0;
        while i < self.elems.len()
            invariant
                i <= self.elems@.len(),
                entries(elems@) == self.entries().take(i as int),
            decreases self.elems.len() - i,
        {
            let ghost before = elems@;
            elems.push(self.elems[i].copy());
            proof {
                assert(entries(elems@) =~= entries(before).push(self.elems@[i as int]@));
                assert(self.entries().take(i + 1) =~= self.entries().take(i as int).push(
                    self.entries()[i as int],
                ));
            }
            i = i + 1;
        }
        let mut tombs: Vec<Vec<Atom>> = Vec::new();
        let mut j: usize = 0;
        while j < self.tombs.len()
            invariant
                j <= self.tombs@.len(),
                positions(tombs@) == self.dead_seq().take(j as int),
            decreases self.tombs.len() - j,
        {
            let ghost before = tombs@;
            tombs.push(copy_pos(&self.tombs[j]));
            proof {
                assert(positions(tombs@) =~= positions(before).push(self.tombs@[j as int]@));
                assert(self.dead_seq().take(j + 1) =~= self.dead_seq().take(j as int).push(
                    self.dead_seq()[j as int],
                ));
            }
            j = j + 1;
        }
        let r = Document {
            last_edit: self.last_edit,
            site: new_identity,
            clock: self.clock,
            elems,
            tombs,
        };
        proof {
            assert(r.entries() =~= self.entries());
            assert(r.dead_seq() =~= self.dead_seq());
        }
        r
    }
}

proof fn lemma_sorted_unique(a: Seq<Entry>, b: Seq<Entry>)
    requires
        strictly_sorted(a),
        strictly_sorted(b),
        a.to_set() == b.to_set(),
    ensures
        a == b,
    decreases a.len(),
{
    if a.len() == 0 {
        if b.len() > 0 {
            assert(b.to_set().contains(b[0]));
        }
        assert(a =~= b);
    } else {
        assert(a.to_set().contains(a[0]));
        let k = choose|k: int| 0 <= k < b.len() && b[k] == a[0];
        assert(b.to_set().contains(b[0]));
        let m = choose|m: int| 0 <= m < a.len() && a[m] == b[0];
        if k > 0 {
            assert(pos_lt(b[0].0, b[k].0));
            if m > 0 {
                assert(pos_lt(a[0].0, a[m].0));
                lemma_lt_asymmetric(a[0].0, b[0].0);
            } else {
                lemma_lt_irreflexive(a[0].0);
            }
        }
        assert(a[0] == b[0]);
        let ta = a.drop_first();
        let tb = b.drop_first();
        assert(ta.to_set() =~= tb.to_set()) by {
            assert forall|x: Entry| ta.to_set().contains(x) implies tb.to_set().contains(x) by {
                let i = choose|i: int| 0 <= i < ta.len() && ta[i] == x;
                assert(a[i + 1] == x);
                assert(a.to_set().contains(x));
                let j = choose|j: int| 0 <= j < b.len() && b[j] == x;
                if j == 0 {
                    assert(pos_lt(a[0].0, a[i + 1].0));
                    lemma_lt_irreflexive(x.0);
                }
                assert(tb[j - 1] == x);
            }
            assert forall|x: Entry| tb.to_set().contains(x) implies ta.to_set().contains(x) by {
                let i = choose|i: int| 0 <= i < tb.len() && tb[i] == x;
                assert(b[i + 1] == x);
                assert(b.to_set().contains(x));
                let j = choose|j: int| 0 <= j < a.len() && a[j] == x;
                if j == 0 {
                    assert(pos_lt(b[0].0, b[i + 1].0));
                    lemma_lt_irreflexive(x.0);
                }
                assert(ta[j - 1] == x);
            }
        }
        lemma_sorted_unique(ta, tb);
        assert(a =~= seq![a[0]] + ta);
        assert(b =~= seq![b[0]] + tb);
    }
}

/// Two well-formed replicas in the same state show the same text.
pub proof fn lemma_same_state_same_text(d1: Document, d2: Document)
    requires
        d1.wf(),
        d2.wf(),
        d1@ == d2@,
    ensures
        d1.text() == d2.text(),
{
    lemma_sorted_unique(d1.entries(), d2.entries());
}

/// Convergence: replicas that start from one state and each integrate the
/// same operations, in any order and any number of times, show the same
/// text, provided no identifier is given two different characters.
pub proof fn lemma_replicas_converge(
    r1: Document,
    r2: Document,
    start: Document,
    ops1: Seq<OpModel>,
    ops2: Seq<OpModel>,
)
    requires
        start.wf(),
        r1.wf(),
        r2.wf(),
        r1@ == apply_all(start@, ops1),
        r2@ == apply_all(start@, ops2),
        consistent(start@, ops1),
        ops1.to_set() == ops2.to_set(),
    ensures
        r1.text() == r2.text(),
{
    start.lemma_wf_state();
    lemma_convergence(start@, ops1, ops2);
    lemma_same_state_same_text(r1, r2);
}

/// Integrating an operation a second time leaves the text as it was after
/// the first time.
pub proof fn lemma_replay_keeps_text(once: Document, twice: Document, before: DocState, op: OpModel)
    requires
        once.wf(),
        twice.wf(),
        once@ == apply_op(before, op),
        twice@ == apply_op(once@, op),
    ensures
        twice.text() == once.text(),
{
    lemma_replay_idempotent(before, op);
    lemma_same_state_same_text(once, twice);
}

/// A replica that typed an insertion and then receives the same insertion
/// back keeps the length it had right after typing.
pub proof fn lemma_echo_keeps_length(typed: Document, echoed: Document, before: Document, ins: Insertion)
    requires
        before.wf(),
        typed.wf(),
        echoed.wf(),
        typed@ == apply_op(before@, ins.model()),
        echoed@ == apply_op(typed@, ins.model()),
    ensures
        echoed.text().len() == typed.text().len(),
{
    lemma_replay_keeps_text(typed, echoed, before@, ins.model());
}

impl Document {
    /// What a snapshot of this replica carries: its characters with their
    /// identifiers, in order, and the identifiers deleted.
    pub fn snapshot(&self) -> (r: (Vec<Element>, Vec<Vec<Atom>>))
        requires
            self.wf(),
        ensures
            entries(r.0@) == self.entries(),
            entries(r.0@).to_set() == self@.live,
            positions(r.1@).to_set() == self@.dead,
            chars_of(entries(r.0@)) == self.text(),
    {
        let f = self.fork(self.site);
        (f.elems, f.tombs)
    }

    /// A replica with tag `site` built from a snapshot: the deleted
    /// identifiers are integrated, then the characters. Malformed or
    /// conflicting parts are skipped as integration skips them.
    pub fn from_snapshot(
        site: UserId,
        last_edit: UserId,
        elements: Vec<Element>,
        deleted: Vec<Vec<Atom>>,
    ) -> (r: Document)
        ensures
            r.wf(),
            r@ == apply_op(
                apply_op(initial_state(Seq::empty()), OpModel::Del(positions(deleted@))),
                OpModel::Ins(entries(elements@)),
            ),
            r.site_spec() == site,
            r.last_edit_spec() == last_edit,
            r.clock_spec() == clock_after(
                clock_after(1, OpModel::Del(positions(deleted@))),
                OpModel::Ins(entries(elements@)),
            ),
    {
        let empty = Document::new(String::new());
        let mut d = empty.fork(site);
        let del = Deletion { made_by: last_edit, start: 0, end: 0, positions: deleted };
        d.integrate_deletion(&del);
        let ins = Insertion { made_by: last_edit, insert_at: 0, text: String::new(), elements };
        d.integrate_insertion(&ins);
        d.set_last_edit(last_edit);
        d
    }
}

} // verus!
