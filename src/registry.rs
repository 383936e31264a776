use vstd::prelude::*;

use crate::document::UserId;

verus! {

/// Where a connection comes from: its address (an IPv4 address in its
/// IPv6-mapped form) and its port.
#[derive(Clone, Copy, Debug, PartialEq, Eq, Structural)]
pub struct PeerAddr {
    pub ip: u128,
    pub port: u16,
}

/// A colour, each component held as the bit pattern of a 32-bit float.
#[derive(Clone, Copy, Debug, PartialEq, Eq, Structural)]
pub struct Rgb {
    pub r: u32,
    pub g: u32,
    pub b: u32,
}

/// A remote cursor: its vertical offset, held as the bit pattern of a
/// 32-bit float, and its colour.
#[derive(Clone, Copy, Debug, PartialEq, Eq, Structural)]
pub struct CursorMarker {
    pub y: u32,
    pub color: Rgb,
}

impl CursorMarker {
    /// Moves the cursor to the offset whose bit pattern is `y`.
    pub fn move_cursor(&mut self, y: u32)
        ensures
            final(self).y == y,
            final(self).color == old(self).color,
    {
        self.y = y;
    }
}

/// A participant: its identity and its last reported cursor.
#[derive(Clone, Copy, Debug)]
pub struct User {
    pub id: UserId,
    pub cursor: Option<CursorMarker>,
}

pub open spec fn has_addr(s: Seq<(PeerAddr, User)>, a: PeerAddr) -> bool {
    exists|i: int| 0 <= i < s.len() && #[trigger] s[i].0 == a
}

pub open spec fn index_of(s: Seq<(PeerAddr, User)>, a: PeerAddr) -> int {
    choose|i: int| 0 <= i < s.len() && #[trigger] s[i].0 == a
}

/// The cursors of the participants that reported one, in the order they
/// joined.
pub open spec fn cursors_of(s: Seq<(PeerAddr, User)>) -> Seq<CursorMarker>
    decreases s.len(),
{
    if s.len() == 0 {
        Seq::empty()
    } else {
        cursors_of(s.drop_last()) + match s.last().1.cursor {
            Some(c) => seq![c],
            None => Seq::empty(),
        }
    }
}

/// The live participants in the order they joined, each under the address
/// of its connection, and the identity the next newcomer gets.
pub struct Users {
    user_map: Vec<(PeerAddr, User)>,
    next_id: UserId,
}

impl View for Users {
    type V = Seq<(PeerAddr, User)>;

    closed spec fn view(&self) -> Seq<(PeerAddr, User)> {
        self.user_map@
    }
}

impl Users {
    pub closed spec fn next_id_spec(&self) -> UserId {
        self.next_id
    }

    /// One entry per address; identities distinct, positive and below the
    /// next one to hand out.
    pub open spec fn wf(&self) -> bool {
        &&& forall|i: int, j: int|
            0 <= i < j < self@.len() ==> #[trigger] self@[i].0 != #[trigger] self@[j].0
        &&& forall|i: int, j: int|
            0 <= i < j < self@.len() ==> #[trigger] self@[i].1.id != #[trigger] self@[j].1.id
        &&& forall|i: int|
            0 <= i < self@.len() ==> 0 < #[trigger] self@[i].1.id < self.next_id_spec()
        &&& self.next_id_spec() >= 1
    }

    pub fn new() -> (r: Users)
        ensures
            r.wf(),
            r@ == Seq::<(PeerAddr, User)>::empty(),
            r.next_id_spec() == 1,
    {
        Users { user_map: Vec::new(), next_id: 1 }
    }

    fn find(&self, addr: PeerAddr) -> (r: Option<usize>)
        ensures
            r matches Some(i) ==> i < self@.len() && self@[i as int].0 == addr,
            r is None ==> !has_addr(self@, addr),
    {
        let mut i: usize = 0;
        while i < self.user_map.len()
            invariant
                i <= self@.len(),
                forall|j: int| 0 <= j < i ==> #[trigger] self@[j].0 != addr,
            decreases self.user_map.len() - i,
        {
            if self.user_map[i].0 == addr {
                return Some(i);
            }
            i = i + 1;
        }
        None
    }

    /// The identity the next newcomer gets.
    pub fn next_id(&self) -> (r: UserId)
        ensures
            r == self.next_id_spec(),
    {
        self.next_id
    }

    /// Whether `add_user` can take `socket_addr`: it is known, or
    /// identities are not exhausted.
    pub fn can_add(&self, socket_addr: PeerAddr) -> (r: bool)
        ensures
            r == (has_addr(self@, socket_addr) || self.next_id_spec() < usize::MAX),
    {
        self.find(socket_addr).is_some() || self.next_id < usize::MAX
    }

    /// Records the cursor of `socket_addr`. A known participant keeps its
    /// identity; a newcomer gets the next one, above every identity handed
    /// out before, also to participants that have left since.
    pub fn add_user(&mut self, socket_addr: PeerAddr, cursor: Option<CursorMarker>) -> (r: UserId)
        requires
            old(self).wf(),
            has_addr(old(self)@, socket_addr) || old(self).next_id_spec() < usize::MAX,
        ensures
            final(self).wf(),
            has_addr(old(self)@, socket_addr) ==> {
                let i = index_of(old(self)@, socket_addr);
                &&& r == old(self)@[i].1.id
                &&& final(self)@ == old(self)@.update(i, (socket_addr, User { id: r, cursor }))
                &&& final(self).next_id_spec() == old(self).next_id_spec()
            },
            !has_addr(old(self)@, socket_addr) ==> {
                &&& r == old(self).next_id_spec()
                &&& final(self)@ == old(self)@.push((socket_addr, User { id: r, cursor }))
                &&& final(self).next_id_spec() == old(self).next_id_spec() + 1
            },
            !has_addr(old(self)@, socket_addr) ==> forall|i: int|
                0 <= i < old(self)@.len() ==> #[trigger] old(self)@[i].1.id < r,
            (final(self)@, final(self).next_id_spec() as int) == reg_apply(
                (old(self)@, old(self).next_id_spec() as int),
                RegOp::Report(socket_addr, cursor),
            ),
    {
        match self.find(socket_addr) {
            Some(i) => {
                let id = self.user_map[i].1.id;
                self.user_map.set(i, (socket_addr, User { id, cursor }));
                proof {
                    let s = old(self)@;
                    let k = index_of(s, socket_addr);
                    if k != i {
                        if k < i {
                            assert(s[k].0 != s[i as int].0);
                        } else {
                            assert(s[i as int].0 != s[k].0);
                        }
                    }
                    assert forall|a: int, b: int| 0 <= a < b < self@.len() implies #[trigger] self@[a].0
                        != #[trigger] self@[b].0 && self@[a].1.id != self@[b].1.id by {
                        assert(s[a].0 != s[b].0 && s[a].1.id != s[b].1.id);
                    }
                    assert forall|a: int| 0 <= a < self@.len() implies 0 < #[trigger] self@[a].1.id
                        < self.next_id by {
                        assert(0 < s[a].1.id < self.next_id);
                    }
                }
                id
            },
            None => {
                let id = self.next_id;
                self.user_map.push((socket_addr, User { id, cursor }));
                self.next_id = self.next_id + 1;
                proof {
                    let s = old(self)@;
                    assert forall|a: int, b: int| 0 <= a < b < self@.len() implies #[trigger] self@[a].0
                        != #[trigger] self@[b].0 && self@[a].1.id != self@[b].1.id by {
                        if b == s.len() {
                            assert(s[a].1.id < id);
                            if s[a].0 == socket_addr {
                                assert(has_addr(s, socket_addr));
                            }
                        } else {
                            assert(s[a].0 != s[b].0 && s[a].1.id != s[b].1.id);
                        }
                    }
                    assert forall|a: int| 0 <= a < self@.len() implies 0 < #[trigger] self@[a].1.id
                        < self.next_id by {
                        if a < s.len() {
                            assert(0 < s[a].1.id < id);
                        }
                    }
                }
                id
            },
        }
    }

    /// The identity of `socket_addr`, if it is connected.
    pub fn get_id(&self, socket_addr: PeerAddr) -> (r: Option<UserId>)
        requires
            self.wf(),
        ensures
            has_addr(self@, socket_addr) ==> r == Some(
                self@[index_of(self@, socket_addr)].1.id,
            ),
            !has_addr(self@, socket_addr) ==> r is None,
    {
        match self.find(socket_addr) {
            Some(i) => {
                proof {
                    let k = index_of(self@, socket_addr);
                    lemma_addr_unique(self, k, i as int, socket_addr);
                }
                Some(self.user_map[i].1.id)
            },
            None => None,
        }
    }

    /// A snapshot of the participants, in the order they joined.
    pub fn list(&self) -> (r: Vec<(PeerAddr, User)>)
        ensures
            r@ == self@,
    {
        let mut out: Vec<(PeerAddr, User)> = Vec::new();
        let mut i: usize = 0;
        while i < self.user_map.len()
            invariant
                i <= self@.len(),
                out@ == self@.take(i as int),
            decreases self.user_map.len() - i,
        {
            out.push(self.user_map[i]);
            assert(self@.take(i + 1) =~= self@.take(i as int).push(self@[i as int]));
            i = i + 1;
        }
        assert(self@.take(i as int) =~= self@);
        out
    }

    /// A snapshot of the reported cursors.
    pub fn get_all_cursors(&self) -> (r: Vec<CursorMarker>)
        ensures
            r@ == cursors_of(self@),
    {
        let mut out: Vec<CursorMarker> = Vec::new();
        let mut i: usize = 0;
        while i < self.user_map.len()
            invariant
                i <= self@.len(),
                out@ == cursors_of(self@.take(i as int)),
            decreases self.user_map.len() - i,
        {
            let ghost before = out@;
            if let Some(c) = self.user_map[i].1.cursor {
                out.push(c);
            }
            proof {
                assert(self@.take(i + 1).drop_last() =~= self@.take(i as int));
                assert(out@ =~= cursors_of(self@.take(i + 1)));
            }
            i = i + 1;
        }
        assert(self@.take(i as int) =~= self@);
        out
    }

    /// Forgets `socket_addr`. Its identity is not handed out again.
    pub fn remove_user(&mut self, socket_addr: PeerAddr)
        requires
            old(self).wf(),
        ensures
            final(self).wf(),
            has_addr(old(self)@, socket_addr) ==> final(self)@ == old(self)@.remove(
                index_of(old(self)@, socket_addr),
            ),
            !has_addr(old(self)@, socket_addr) ==> final(self)@ == old(self)@,
            !has_addr(final(self)@, socket_addr),
            final(self).next_id_spec() == old(self).next_id_spec(),
            (final(self)@, final(self).next_id_spec() as int) == reg_apply(
                (old(self)@, old(self).next_id_spec() as int),
                RegOp::Leave(socket_addr),
            ),
    {
        match self.find(socket_addr) {
            Some(i) => {
                proof {
                    let k = index_of(self@, socket_addr);
                    lemma_addr_unique(self, k, i as int, socket_addr);
                }
                let _ = self.user_map.remove(i);
                proof {
                    let s = old(self)@;
                    if has_addr(self@, socket_addr) {
                        let j = choose|j: int| 0 <= j < self@.len() && #[trigger] self@[j].0 == socket_addr;
                        if j < i {
                            assert(s[j].0 == s[i as int].0);
                        } else {
                            assert(s[j + 1].0 == s[i as int].0);
                        }
                    }
                    assert forall|a: int, b: int| 0 <= a < b < self@.len() implies #[trigger] self@[a].0
                        != #[trigger] self@[b].0 && self@[a].1.id != self@[b].1.id by {
                        let a2 = if a < i { a } else { a + 1 };
                        let b2 = if b < i { b } else { b + 1 };
                        assert(self@[a] == s[a2] && self@[b] == s[b2]);
                    }
                    assert forall|a: int| 0 <= a < self@.len() implies 0 < #[trigger] self@[a].1.id
                        < self.next_id by {
                        if a < i {
                            assert(self@[a] == s[a]);
                        } else {
                            assert(self@[a] == s[a + 1]);
                        }
                    }
                }
            },
            None => {},
        }
    }

    /// Forgets every participant. Identities handed out stay used.
    pub fn delete_all_users(&mut self)
        requires
            old(self).wf(),
        ensures
            final(self).wf(),
            final(self)@ == Seq::<(PeerAddr, User)>::empty(),
            final(self).next_id_spec() == old(self).next_id_spec(),
            (final(self)@, final(self).next_id_spec() as int) == reg_apply(
                (old(self)@, old(self).next_id_spec() as int),
                RegOp::Clear,
            ),
    {
        self.user_map.clear();
    }
}

/// A change to the participants.
pub enum RegOp {
    /// A connection reports, joining if it is new.
    Report(PeerAddr, Option<CursorMarker>),
    /// A connection leaves.
    Leave(PeerAddr),
    /// Everybody leaves.
    Clear,
}

/// The participants and the next identity after one change, as `add_user`,
/// `remove_user` and `delete_all_users` make it.
pub open spec fn reg_apply(s: (Seq<(PeerAddr, User)>, int), op: RegOp) -> (
    Seq<(PeerAddr, User)>,
    int,
) {
    match op {
        RegOp::Report(a, c) => if has_addr(s.0, a) {
            let i = index_of(s.0, a);
            (s.0.update(i, (a, User { id: s.0[i].1.id, cursor: c })), s.1)
        } else {
            (s.0.push((a, User { id: s.1 as usize, cursor: c })), s.1 + 1)
        },
        RegOp::Leave(a) => if has_addr(s.0, a) {
            (s.0.remove(index_of(s.0, a)), s.1)
        } else {
            s
        },
        RegOp::Clear => (Seq::empty(), s.1),
    }
}

pub open spec fn reg_run(s: (Seq<(PeerAddr, User)>, int), ops: Seq<RegOp>) -> (
    Seq<(PeerAddr, User)>,
    int,
)
    decreases ops.len(),
{
    if ops.len() == 0 {
        s
    } else {
        reg_apply(reg_run(s, ops.drop_last()), ops.last())
    }
}

/// The operation at step `k` brings a newcomer.
pub open spec fn joins_at(s: (Seq<(PeerAddr, User)>, int), ops: Seq<RegOp>, k: int) -> bool {
    ops[k] matches RegOp::Report(a, _) && !has_addr(reg_run(s, ops.take(k)).0, a)
}

proof fn lemma_next_grows(s: (Seq<(PeerAddr, User)>, int), ops: Seq<RegOp>, i: int, j: int)
    requires
        0 <= i <= j <= ops.len(),
    ensures
        reg_run(s, ops.take(i)).1 <= reg_run(s, ops.take(j)).1,
        i < j && joins_at(s, ops, i) ==> reg_run(s, ops.take(i)).1 < reg_run(s, ops.take(j)).1,
    decreases j - i,
{
    if i < j {
        lemma_next_grows(s, ops, i, j - 1);
        assert(ops.take(j).drop_last() =~= ops.take(j - 1));
        assert(ops.take(j).last() == ops[j - 1]);
        if i == j - 1 {
            assert(ops.take(j - 1) =~= ops.take(i));
        }
    }
}

/// Identities grow: whatever joins, reports and departures come between,
/// a newcomer gets a larger identity than any earlier newcomer, so an
/// identity is never handed out twice.
pub proof fn lemma_identities_increase(s: (Seq<(PeerAddr, User)>, int), ops: Seq<RegOp>, i: int, j: int)
    requires
        0 <= i < j < ops.len(),
        joins_at(s, ops, i),
        joins_at(s, ops, j),
    ensures
        reg_run(s, ops.take(i)).1 < reg_run(s, ops.take(j)).1,
{
    lemma_next_grows(s, ops, i, j);
}

proof fn lemma_addr_unique(u: &Users, k: int, i: int, a: PeerAddr)
    requires
        u.wf(),
        0 <= k < u@.len(),
        0 <= i < u@.len(),
        u@[k].0 == a,
        u@[i].0 == a,
    ensures
        k == i,
{
    if k < i {
        assert(u@[k].0 != u@[i].0);
    } else if i < k {
        assert(u@[i].0 != u@[k].0);
    }
}

} // verus!
