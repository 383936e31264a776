use vstd::prelude::*;

use crate::access::{AccessGates, Channel};
use crate::document::{Deletion, Document, Insertion, UserId};
use crate::model::apply_op;
use crate::registry::{
    cursors_of, has_addr, index_of, reg_apply, CursorMarker, PeerAddr, RegOp, Users,
};

verus! {

/// The identity of the participant that hosts the session.
pub const HOST_ID: UserId = 1;

/// What one pass of the broadcast loop sends.
#[derive(Clone, Copy, Debug, PartialEq, Eq, Structural)]
pub struct Broadcast {
    /// A snapshot of the document goes to every subscriber.
    pub document: bool,
    /// The host's own editor is told of the change, made by someone else.
    pub host_update: bool,
    /// A snapshot of the participants goes to every subscriber.
    pub users: bool,
}

/// The authoritative state of a session: the document, the participants,
/// the two change flags the broadcast loop consumes, and the gates.
pub struct AppState {
    pub document: Document,
    pub users: Users,
    pub is_dirty: bool,
    pub is_moved: bool,
    pub gates: AccessGates,
}

impl AppState {
    pub open spec fn wf(&self) -> bool {
        self.document.wf() && self.users.wf()
    }

    pub fn new(document: Document, users: Users, gates: AccessGates) -> (r: AppState)
        requires
            document.wf(),
            users.wf(),
        ensures
            r.wf(),
            r.document == document,
            r.users == users,
            r.gates == gates,
            !r.is_dirty,
            !r.is_moved,
    {
        AppState { document, users, is_dirty: false, is_moved: false, gates }
    }

    /// A stream opens for `who`: its identity, made now if it has none yet.
    /// `None` only when identities are exhausted.
    pub fn connect(&mut self, who: PeerAddr) -> (r: Option<UserId>)
        requires
            old(self).wf(),
        ensures
            final(self).wf(),
            final(self).document == old(self).document,
            final(self).gates == old(self).gates,
            final(self).is_dirty == old(self).is_dirty,
            final(self).is_moved == old(self).is_moved,
            has_addr(old(self).users@, who) ==> r == Some(
                old(self).users@[index_of(old(self).users@, who)].1.id,
            ) && final(self).users == old(self).users,
            !has_addr(old(self).users@, who) && old(self).users.next_id_spec() < usize::MAX ==> r
                == Some(old(self).users.next_id_spec()) && final(self).users@ == old(
                self,
            ).users@.push((who, crate::registry::User { id: old(self).users.next_id_spec(), cursor: None })),
            !has_addr(old(self).users@, who) && old(self).users.next_id_spec() == usize::MAX ==> r
                is None && final(self).users == old(self).users,
    {
        match self.users.get_id(who) {
            Some(id) => Some(id),
            None => {
                if self.users.can_add(who) {
                    Some(self.users.add_user(who, None))
                } else {
                    None
                }
            },
        }
    }

    /// An insertion arrives from `who` on `channel`. It is applied only on
    /// the write channel and only from a registered participant, who is
    /// then recorded as the author of the latest edit.
    pub fn apply_insertion(&mut self, who: PeerAddr, channel: Channel, op: &Insertion) -> (r: bool)
        requires
            old(self).wf(),
        ensures
            final(self).wf(),
            r == (channel == Channel::Edit && has_addr(old(self).users@, who)),
            r ==> final(self).document@ == apply_op(old(self).document@, op.model())
                && final(self).document.last_edit_spec() == old(self).users@[index_of(
                old(self).users@,
                who,
            )].1.id && final(self).is_dirty,
            !r ==> final(self).document == old(self).document && final(self).is_dirty == old(
                self,
            ).is_dirty,
            final(self).users == old(self).users,
            final(self).is_moved == old(self).is_moved,
            final(self).gates == old(self).gates,
    {
        if channel != Channel::Edit {
            return false;
        }
        match self.users.get_id(who) {
            Some(id) => {
                self.document.set_last_edit(id);
                self.document.integrate_insertion(op);
                self.is_dirty = true;
                true
            },
            None => false,
        }
    }

    /// A deletion arrives from `who` on `channel`; handled as insertions are.
    pub fn apply_deletion(&mut self, who: PeerAddr, channel: Channel, op: &Deletion) -> (r: bool)
        requires
            old(self).wf(),
        ensures
            final(self).wf(),
            r == (channel == Channel::Edit && has_addr(old(self).users@, who)),
            r ==> final(self).document@ == apply_op(old(self).document@, op.model())
                && final(self).document.last_edit_spec() == old(self).users@[index_of(
                old(self).users@,
                who,
            )].1.id && final(self).is_dirty,
            !r ==> final(self).document == old(self).document && final(self).is_dirty == old(
                self,
            ).is_dirty,
            final(self).users == old(self).users,
            final(self).is_moved == old(self).is_moved,
            final(self).gates == old(self).gates,
    {
        if channel != Channel::Edit {
            return false;
        }
        match self.users.get_id(who) {
            Some(id) => {
                self.document.set_last_edit(id);
                self.document.integrate_deletion(op);
                self.is_dirty = true;
                true
            },
            None => false,
        }
    }

    /// `who` reports its cursor, on either channel. Returns the cursors to
    /// show, or `None` when a newcomer finds identities exhausted.
    pub fn apply_cursor(&mut self, who: PeerAddr, cursor: CursorMarker) -> (r: Option<
        Vec<CursorMarker>,
    >)
        requires
            old(self).wf(),
        ensures
            final(self).wf(),
            final(self).document == old(self).document,
            final(self).is_dirty == old(self).is_dirty,
            final(self).gates == old(self).gates,
            (r is Some) == (has_addr(old(self).users@, who) || old(self).users.next_id_spec()
                < usize::MAX),
            r is Some ==> final(self).is_moved && has_addr(final(self).users@, who)
                && final(self).users@[index_of(final(self).users@, who)].1.cursor == Some(cursor),
            r matches Some(c) ==> c@ == cursors_of(final(self).users@),
            r is Some ==> (final(self).users@, final(self).users.next_id_spec() as int) == reg_apply(
                (old(self).users@, old(self).users.next_id_spec() as int),
                RegOp::Report(who, Some(cursor)),
            ),
            r is None ==> final(self).users == old(self).users && final(self).is_moved == old(
                self,
            ).is_moved,
    {
        if !self.users.can_add(who) {
            return None;
        }
        let ghost before = self.users@;
        let _ = self.users.add_user(who, Some(cursor));
        proof {
            let s = self.users@;
            if has_addr(before, who) {
                let i = index_of(before, who);
                assert(s[i].0 == who);
                let k = index_of(s, who);
                if k != i {
                    if k < i {
                        assert(s[k].0 != s[i].0);
                    } else {
                        assert(s[i].0 != s[k].0);
                    }
                }
            } else {
                let i = before.len() as int;
                assert(s[i].0 == who);
                let k = index_of(s, who);
                if k != i {
                    assert(s[k].0 != s[i].0);
                }
            }
        }
        self.is_moved = true;
        Some(self.users.get_all_cursors())
    }

    /// The stream of `who` has ended: it leaves the participants, and the
    /// others are told. Returns the cursors that remain.
    pub fn disconnect(&mut self, who: PeerAddr) -> (r: Vec<CursorMarker>)
        requires
            old(self).wf(),
        ensures
            final(self).wf(),
            !has_addr(final(self).users@, who),
            has_addr(old(self).users@, who) ==> final(self).users@ == old(self).users@.remove(
                index_of(old(self).users@, who),
            ),
            !has_addr(old(self).users@, who) ==> final(self).users@ == old(self).users@,
            final(self).users.next_id_spec() == old(self).users.next_id_spec(),
            final(self).is_moved,
            r@ == cursors_of(final(self).users@),
            final(self).document == old(self).document,
            final(self).is_dirty == old(self).is_dirty,
            final(self).gates == old(self).gates,
    {
        self.users.remove_user(who);
        self.is_moved = true;
        self.users.get_all_cursors()
    }

    /// One pass of the broadcast loop, with `subscribers` streams open.
    /// With nobody listening a pending document change is dropped. Else a
    /// pending document change goes out, and to the host's editor too unless
    /// the host made it; then a pending participants change goes out. Each
    /// flag sent on is cleared.
    pub fn broadcast_step(&mut self, subscribers: usize) -> (r: Broadcast)
        requires
            old(self).wf(),
        ensures
            final(self).wf(),
            final(self).document == old(self).document,
            final(self).users == old(self).users,
            final(self).gates == old(self).gates,
            subscribers == 0 ==> r == (Broadcast { document: false, host_update: false, users: false })
                && !final(self).is_dirty && final(self).is_moved == old(self).is_moved,
            subscribers > 0 ==> r == (Broadcast {
                document: old(self).is_dirty,
                host_update: old(self).is_dirty && old(self).document.last_edit_spec() != HOST_ID,
                users: old(self).is_moved,
            }) && !final(self).is_dirty && !final(self).is_moved,
    {
        if subscribers == 0 {
            self.is_dirty = false;
            return Broadcast { document: false, host_update: false, users: false };
        }
        let document = self.is_dirty;
        let host_update = self.is_dirty && self.document.last_edit() != HOST_ID;
        let users = self.is_moved;
        self.is_dirty = false;
        self.is_moved = false;
        Broadcast { document, host_update, users }
    }
}

/// Whether a replica whose identity is `own_id` takes in a document
/// snapshot whose latest edit is by `last_edit`: not when that edit is its
/// own, which it has shown already.
pub fn should_apply_snapshot(own_id: Option<UserId>, last_edit: UserId) -> (r: bool)
    ensures
        r == (own_id != Some(last_edit)),
{
    match own_id {
        Some(id) => id != last_edit,
        None => true,
    }
}

} // verus!
