use vstd::prelude::*;

use crate::position::{valid_pos, Atom};

verus! {

/// A character together with the identifier that fixes its place.
pub type Entry = (Seq<Atom>, char);

/// What a replica knows: the characters still present and the identifiers
/// of those deleted.
pub struct DocState {
    pub live: Set<Entry>,
    pub dead: Set<Seq<Atom>>,
}

/// An operation as it acts on a replica's state.
pub enum OpModel {
    Ins(Seq<Entry>),
    Del(Seq<Seq<Atom>>),
}

pub open spec fn pos_taken(st: DocState, p: Seq<Atom>) -> bool {
    exists|x: Entry| #[trigger] st.live.contains(x) && x.0 == p
}

/// Adding one character: dropped when malformed, deleted before, or its
/// identifier is already present.
pub open spec fn ins_one(st: DocState, e: Entry) -> DocState {
    if !valid_pos(e.0) || st.dead.contains(e.0) || pos_taken(st, e.0) {
        st
    } else {
        DocState { live: st.live.insert(e), dead: st.dead }
    }
}

/// Deleting one identifier: the character goes, the identifier is kept as
/// deleted so that a late insertion of it stays out.
pub open spec fn del_one(st: DocState, p: Seq<Atom>) -> DocState {
    if !valid_pos(p) {
        st
    } else {
        DocState { live: st.live.filter(|x: Entry| x.0 != p), dead: st.dead.insert(p) }
    }
}

pub open spec fn apply_inserts(st: DocState, es: Seq<Entry>) -> DocState
    decreases es.len(),
{
    if es.len() == 0 {
        st
    } else {
        ins_one(apply_inserts(st, es.drop_last()), es.last())
    }
}

pub open spec fn apply_deletes(st: DocState, ps: Seq<Seq<Atom>>) -> DocState
    decreases ps.len(),
{
    if ps.len() == 0 {
        st
    } else {
        del_one(apply_deletes(st, ps.drop_last()), ps.last())
    }
}

pub open spec fn apply_op(st: DocState, op: OpModel) -> DocState {
    match op {
        OpModel::Ins(es) => apply_inserts(st, es),
        OpModel::Del(ps) => apply_deletes(st, ps),
    }
}

/// Integrating a list of operations in the order given.
pub open spec fn apply_all(st: DocState, ops: Seq<OpModel>) -> DocState
    decreases ops.len(),
{
    if ops.len() == 0 {
        st
    } else {
        apply_op(apply_all(st, ops.drop_last()), ops.last())
    }
}

/// A state in which no present character has a deleted identifier and no
/// two present characters share one.
pub open spec fn state_inv(st: DocState) -> bool {
    &&& forall|x: Entry| #[trigger] st.live.contains(x) ==> !st.dead.contains(x.0)
    &&& forall|x: Entry, y: Entry|
        #[trigger] st.live.contains(x) && #[trigger] st.live.contains(y) && x.0 == y.0 ==> x == y
}

pub open spec fn op_inserts(op: OpModel, e: Entry) -> bool {
    match op {
        OpModel::Ins(es) => es.contains(e) && valid_pos(e.0),
        OpModel::Del(_) => false,
    }
}

pub open spec fn op_deletes(op: OpModel, p: Seq<Atom>) -> bool {
    match op {
        OpModel::Ins(_) => false,
        OpModel::Del(ps) => ps.contains(p) && valid_pos(p),
    }
}

/// Every well-formed character that some operation of `ops` inserts.
pub open spec fn inserted(ops: Seq<OpModel>) -> Set<Entry> {
    Set::new(|e: Entry| exists|k: int| 0 <= k < ops.len() && op_inserts(#[trigger] ops[k], e))
}

/// Every well-formed identifier that some operation of `ops` deletes.
pub open spec fn deleted(ops: Seq<OpModel>) -> Set<Seq<Atom>> {
    Set::new(|p: Seq<Atom>| exists|k: int| 0 <= k < ops.len() && op_deletes(#[trigger] ops[k], p))
}

/// Operations that never give one identifier two different characters,
/// among themselves or with what `st` already holds.
pub open spec fn consistent(st: DocState, ops: Seq<OpModel>) -> bool {
    forall|x: Entry, y: Entry|
        (st.live.contains(x) || inserted(ops).contains(x)) && (st.live.contains(y) || inserted(
            ops,
        ).contains(y)) && #[trigger] x.0 == #[trigger] y.0 ==> x == y
}

/// The state reached from `st` once the characters `ins` were added and the
/// identifiers `del` deleted, whatever the order.
pub open spec fn merged(st: DocState, ins: Set<Entry>, del: Set<Seq<Atom>>) -> DocState {
    DocState {
        live: st.live.union(ins).filter(|x: Entry| !st.dead.union(del).contains(x.0)),
        dead: st.dead.union(del),
    }
}

proof fn lemma_inserts_merged(
    st: DocState,
    ins: Set<Entry>,
    del: Set<Seq<Atom>>,
    es: Seq<Entry>,
    all: Set<Entry>,
)
    requires
        forall|x: Entry| #[trigger] ins.contains(x) ==> valid_pos(x.0),
        forall|x: Entry| #[trigger] st.live.contains(x) ==> valid_pos(x.0),
        forall|x: Entry| ins.contains(x) ==> #[trigger] all.contains(x),
        forall|x: Entry| st.live.contains(x) ==> #[trigger] all.contains(x),
        forall|i: int| 0 <= i < es.len() && valid_pos(es[i].0) ==> #[trigger] all.contains(es[i]),
        forall|x: Entry, y: Entry|
            #[trigger] all.contains(x) && #[trigger] all.contains(y) && x.0 == y.0 ==> x == y,
    ensures
        apply_inserts(merged(st, ins, del), es) == merged(
            st,
            ins.union(Set::new(|e: Entry| es.contains(e) && valid_pos(e.0))),
            del,
        ),
    decreases es.len(),
{
    let es_set = Set::new(|e: Entry| es.contains(e) && valid_pos(e.0));
    if es.len() == 0 {
        assert(ins.union(es_set) =~= ins);
    } else {
        let init = es.drop_last();
        let e = es.last();
        let init_set = Set::new(|x: Entry| init.contains(x) && valid_pos(x.0));
        assert forall|i: int| 0 <= i < init.len() && valid_pos(init[i].0) implies #[trigger] all.contains(
            init[i],
        ) by {
            assert(init[i] == es[i]);
        }
        lemma_inserts_merged(st, ins, del, init, all);
        let m = merged(st, ins.union(init_set), del);
        assert(apply_inserts(merged(st, ins, del), es) == ins_one(m, e));
        let target = merged(st, ins.union(es_set), del);
        if !valid_pos(e.0) {
            assert(es_set =~= init_set) by {
                assert forall|x: Entry| es_set.contains(x) implies init_set.contains(x) by {
                    let i = choose|i: int| 0 <= i < es.len() && es[i] == x;
                    if i == es.len() - 1 {
                    } else {
                        assert(init[i] == x);
                    }
                }
                assert forall|x: Entry| init_set.contains(x) implies es_set.contains(x) by {
                    let i = choose|i: int| 0 <= i < init.len() && init[i] == x;
                    assert(es[i] == x);
                }
            }
        } else {
            assert(es_set =~= init_set.insert(e)) by {
                assert forall|x: Entry| es_set.contains(x) implies init_set.insert(e).contains(x) by {
                    let i = choose|i: int| 0 <= i < es.len() && es[i] == x;
                    if i < es.len() - 1 {
                        assert(init[i] == x);
                    }
                }
                assert forall|x: Entry| init_set.insert(e).contains(x) implies es_set.contains(
                    x,
                ) by {
                    if x != e {
                        let i = choose|i: int| 0 <= i < init.len() && init[i] == x;
                        assert(es[i] == x);
                    } else {
                        assert(es[es.len() - 1] == x);
                    }
                }
            }
            assert(all.contains(e)) by {
                assert(es[es.len() - 1] == e);
            }
            if m.dead.contains(e.0) {
                assert(target.live =~= m.live);
            } else if pos_taken(m, e.0) {
                let x = choose|x: Entry| #[trigger] m.live.contains(x) && x.0 == e.0;
                assert(init_set.contains(x) || ins.contains(x) || st.live.contains(x));
                assert(all.contains(x));
                assert(x == e);
                assert(target.live =~= m.live);
            } else {
                assert(target.live =~= m.live.insert(e));
            }
        }
    }
}

proof fn lemma_deletes_merged(
    st: DocState,
    ins: Set<Entry>,
    del: Set<Seq<Atom>>,
    ps: Seq<Seq<Atom>>,
)
    ensures
        apply_deletes(merged(st, ins, del), ps) == merged(
            st,
            ins,
            del.union(Set::new(|p: Seq<Atom>| ps.contains(p) && valid_pos(p))),
        ),
    decreases ps.len(),
{
    let ps_set = Set::new(|p: Seq<Atom>| ps.contains(p) && valid_pos(p));
    if ps.len() == 0 {
        assert(del.union(ps_set) =~= del);
    } else {
        let init = ps.drop_last();
        let p = ps.last();
        let init_set = Set::new(|x: Seq<Atom>| init.contains(x) && valid_pos(x));
        lemma_deletes_merged(st, ins, del, init);
        let m = merged(st, ins, del.union(init_set));
        assert(apply_deletes(merged(st, ins, del), ps) == del_one(m, p));
        let target = merged(st, ins, del.union(ps_set));
        if !valid_pos(p) {
            assert(ps_set =~= init_set) by {
                assert forall|x: Seq<Atom>| ps_set.contains(x) implies init_set.contains(x) by {
                    let i = choose|i: int| 0 <= i < ps.len() && ps[i] == x;
                    if i < ps.len() - 1 {
                        assert(init[i] == x);
                    }
                }
                assert forall|x: Seq<Atom>| init_set.contains(x) implies ps_set.contains(x) by {
                    let i = choose|i: int| 0 <= i < init.len() && init[i] == x;
                    assert(ps[i] == x);
                }
            }
        } else {
            assert(ps_set =~= init_set.insert(p)) by {
                assert forall|x: Seq<Atom>| ps_set.contains(x) implies init_set.insert(p).contains(
                    x,
                ) by {
                    let i = choose|i: int| 0 <= i < ps.len() && ps[i] == x;
                    if i < ps.len() - 1 {
                        assert(init[i] == x);
                    }
                }
                assert forall|x: Seq<Atom>| init_set.insert(p).contains(x) implies ps_set.contains(
                    x,
                ) by {
                    if x != p {
                        let i = choose|i: int| 0 <= i < init.len() && init[i] == x;
                        assert(ps[i] == x);
                    } else {
                        assert(ps[ps.len() - 1] == x);
                    }
                }
            }
            assert(target.live =~= del_one(m, p).live);
            assert(target.dead =~= del_one(m, p).dead);
        }
    }
}

/// Closed form of integration: from a state without conflicts, a list of
/// consistent operations leads to the state that only the characters they
/// insert and the identifiers they delete decide.
pub proof fn lemma_apply_all_merged(st: DocState, ops: Seq<OpModel>)
    requires
        state_inv(st),
        forall|x: Entry| #[trigger] st.live.contains(x) ==> valid_pos(x.0),
        consistent(st, ops),
    ensures
        apply_all(st, ops) == merged(st, inserted(ops), deleted(ops)),
    decreases ops.len(),
{
    if ops.len() == 0 {
        assert(inserted(ops) =~= Set::empty());
        assert(deleted(ops) =~= Set::empty());
        assert(merged(st, inserted(ops), deleted(ops)).live =~= st.live);
        assert(merged(st, inserted(ops), deleted(ops)).dead =~= st.dead);
    } else {
        let init = ops.drop_last();
        let op = ops.last();
        assert(inserted(init).subset_of(inserted(ops))) by {
            assert forall|e: Entry| inserted(init).contains(e) implies inserted(ops).contains(e) by {
                let k = choose|k: int| 0 <= k < init.len() && op_inserts(#[trigger] init[k], e);
                assert(ops[k] == init[k]);
            }
        }
        lemma_apply_all_merged(st, init);
        let ins = inserted(init);
        let del = deleted(init);
        match op {
            OpModel::Ins(es) => {
                let all = st.live.union(inserted(ops));
                assert forall|i: int| 0 <= i < es.len() && valid_pos(es[i].0) implies #[trigger] all.contains(
                    es[i],
                ) by {
                    assert(op_inserts(ops[ops.len() - 1], es[i]));
                }
                lemma_inserts_merged(st, ins, del, es, all);
                let es_set = Set::new(|e: Entry| es.contains(e) && valid_pos(e.0));
                assert(ins.union(es_set) =~= inserted(ops)) by {
                    assert forall|e: Entry| inserted(ops).contains(e) implies ins.union(
                        es_set,
                    ).contains(e) by {
                        let k = choose|k: int| 0 <= k < ops.len() && op_inserts(#[trigger] ops[k], e);
                        if k < ops.len() - 1 {
                            assert(init[k] == ops[k]);
                        }
                    }
                    assert forall|e: Entry| es_set.contains(e) implies inserted(ops).contains(e) by {
                        assert(op_inserts(ops[ops.len() - 1], e));
                    }
                }
                assert(deleted(ops) =~= del) by {
                    assert forall|p: Seq<Atom>| deleted(ops).contains(p) implies del.contains(p) by {
                        let k = choose|k: int| 0 <= k < ops.len() && op_deletes(#[trigger] ops[k], p);
                        assert(init[k] == ops[k]);
                    }
                    assert forall|p: Seq<Atom>| del.contains(p) implies deleted(ops).contains(p) by {
                        let k = choose|k: int| 0 <= k < init.len() && op_deletes(#[trigger] init[k], p);
                        assert(ops[k] == init[k]);
                    }
                }
            },
            OpModel::Del(ps) => {
                lemma_deletes_merged(st, ins, del, ps);
                let ps_set = Set::new(|p: Seq<Atom>| ps.contains(p) && valid_pos(p));
                assert(del.union(ps_set) =~= deleted(ops)) by {
                    assert forall|p: Seq<Atom>| deleted(ops).contains(p) implies del.union(
                        ps_set,
                    ).contains(p) by {
                        let k = choose|k: int| 0 <= k < ops.len() && op_deletes(#[trigger] ops[k], p);
                        if k < ops.len() - 1 {
                            assert(init[k] == ops[k]);
                        }
                    }
                    assert forall|p: Seq<Atom>| ps_set.contains(p) implies deleted(ops).contains(p) by {
                        assert(op_deletes(ops[ops.len() - 1], p));
                    }
                }
                assert(inserted(ops) =~= ins) by {
                    assert forall|e: Entry| inserted(ops).contains(e) implies ins.contains(e) by {
                        let k = choose|k: int| 0 <= k < ops.len() && op_inserts(#[trigger] ops[k], e);
                        assert(init[k] == ops[k]);
                    }
                }
            },
        }
    }
}

/// Convergence: two replicas that start from the same state and integrate
/// the same consistent operations, each in its own order and each as often
/// as it likes, reach the same state.
pub proof fn lemma_convergence(st: DocState, ops1: Seq<OpModel>, ops2: Seq<OpModel>)
    requires
        state_inv(st),
        forall|x: Entry| #[trigger] st.live.contains(x) ==> valid_pos(x.0),
        consistent(st, ops1),
        ops1.to_set() == ops2.to_set(),
    ensures
        apply_all(st, ops1) == apply_all(st, ops2),
{
    assert(inserted(ops1) =~= inserted(ops2)) by {
        assert forall|e: Entry| inserted(ops1).contains(e) implies inserted(ops2).contains(e) by {
            let k = choose|k: int| 0 <= k < ops1.len() && op_inserts(#[trigger] ops1[k], e);
            assert(ops1.to_set().contains(ops1[k]));
            assert(ops2.to_set().contains(ops1[k]));
            let k2 = choose|k2: int| 0 <= k2 < ops2.len() && ops2[k2] == ops1[k];
            assert(op_inserts(ops2[k2], e));
        }
        assert forall|e: Entry| inserted(ops2).contains(e) implies inserted(ops1).contains(e) by {
            let k = choose|k: int| 0 <= k < ops2.len() && op_inserts(#[trigger] ops2[k], e);
            assert(ops2.to_set().contains(ops2[k]));
            assert(ops1.to_set().contains(ops2[k]));
            let k1 = choose|k1: int| 0 <= k1 < ops1.len() && ops1[k1] == ops2[k];
            assert(op_inserts(ops1[k1], e));
        }
    }
    assert(deleted(ops1) =~= deleted(ops2)) by {
        assert forall|p: Seq<Atom>| deleted(ops1).contains(p) implies deleted(ops2).contains(p) by {
            let k = choose|k: int| 0 <= k < ops1.len() && op_deletes(#[trigger] ops1[k], p);
            assert(ops1.to_set().contains(ops1[k]));
            assert(ops2.to_set().contains(ops1[k]));
            let k2 = choose|k2: int| 0 <= k2 < ops2.len() && ops2[k2] == ops1[k];
            assert(op_deletes(ops2[k2], p));
        }
        assert forall|p: Seq<Atom>| deleted(ops2).contains(p) implies deleted(ops1).contains(p) by {
            let k = choose|k: int| 0 <= k < ops2.len() && op_deletes(#[trigger] ops2[k], p);
            assert(ops2.to_set().contains(ops2[k]));
            assert(ops1.to_set().contains(ops2[k]));
            let k1 = choose|k1: int| 0 <= k1 < ops1.len() && ops1[k1] == ops2[k];
            assert(op_deletes(ops1[k1], p));
        }
    }
    assert(consistent(st, ops2));
    lemma_apply_all_merged(st, ops1);
    lemma_apply_all_merged(st, ops2);
}

pub open spec fn ins_blocked(st: DocState, e: Entry) -> bool {
    !valid_pos(e.0) || st.dead.contains(e.0) || pos_taken(st, e.0)
}

pub open spec fn del_blocked(st: DocState, p: Seq<Atom>) -> bool {
    !valid_pos(p) || (st.dead.contains(p) && !pos_taken(st, p))
}

proof fn lemma_inserts_blocked(st: DocState, es: Seq<Entry>)
    requires
        forall|i: int| 0 <= i < es.len() ==> ins_blocked(st, #[trigger] es[i]),
    ensures
        apply_inserts(st, es) == st,
    decreases es.len(),
{
    if es.len() > 0 {
        let init = es.drop_last();
        assert forall|i: int| 0 <= i < init.len() implies ins_blocked(st, #[trigger] init[i]) by {
            assert(init[i] == es[i]);
        }
        lemma_inserts_blocked(st, init);
        assert(ins_blocked(st, es[es.len() - 1]));
    }
}

proof fn lemma_inserts_block(st: DocState, es: Seq<Entry>)
    ensures
        forall|i: int| 0 <= i < es.len() ==> ins_blocked(apply_inserts(st, es), #[trigger] es[i]),
        st.live.subset_of(apply_inserts(st, es).live),
        apply_inserts(st, es).dead == st.dead,
    decreases es.len(),
{
    if es.len() > 0 {
        let init = es.drop_last();
        let e = es.last();
        lemma_inserts_block(st, init);
        let s1 = apply_inserts(st, init);
        let s2 = apply_inserts(st, es);
        assert(s2 == ins_one(s1, e));
        assert forall|i: int| 0 <= i < es.len() implies ins_blocked(s2, #[trigger] es[i]) by {
            if i < es.len() - 1 {
                assert(init[i] == es[i]);
                assert(ins_blocked(s1, init[i]));
                if pos_taken(s1, es[i].0) {
                    let x = choose|x: Entry| #[trigger] s1.live.contains(x) && x.0 == es[i].0;
                    assert(s2.live.contains(x));
                }
            } else {
                if !ins_blocked(s1, e) {
                    assert(s2.live.contains(e));
                } else if pos_taken(s1, e.0) {
                    let x = choose|x: Entry| #[trigger] s1.live.contains(x) && x.0 == e.0;
                    assert(s2.live.contains(x));
                }
            }
        }
    }
}

proof fn lemma_deletes_blocked(st: DocState, ps: Seq<Seq<Atom>>)
    requires
        forall|i: int| 0 <= i < ps.len() ==> del_blocked(st, #[trigger] ps[i]),
    ensures
        apply_deletes(st, ps) == st,
    decreases ps.len(),
{
    if ps.len() > 0 {
        let init = ps.drop_last();
        let p = ps.last();
        assert forall|i: int| 0 <= i < init.len() implies del_blocked(st, #[trigger] init[i]) by {
            assert(init[i] == ps[i]);
        }
        lemma_deletes_blocked(st, init);
        assert(del_blocked(st, ps[ps.len() - 1]));
        if valid_pos(p) {
            assert(st.live.filter(|x: Entry| x.0 != p) =~= st.live) by {
                assert forall|x: Entry| st.live.contains(x) implies x.0 != p by {
                    if x.0 == p {
                        assert(pos_taken(st, p));
                    }
                }
            }
            assert(del_one(st, p).live =~= st.live);
            assert(del_one(st, p).dead =~= st.dead);
        }
    }
}

proof fn lemma_deletes_block(st: DocState, ps: Seq<Seq<Atom>>)
    ensures
        forall|i: int| 0 <= i < ps.len() ==> del_blocked(apply_deletes(st, ps), #[trigger] ps[i]),
        apply_deletes(st, ps).live.subset_of(st.live),
        st.dead.subset_of(apply_deletes(st, ps).dead),
    decreases ps.len(),
{
    if ps.len() > 0 {
        let init = ps.drop_last();
        let p = ps.last();
        lemma_deletes_block(st, init);
        let s1 = apply_deletes(st, init);
        let s2 = apply_deletes(st, ps);
        assert(s2 == del_one(s1, p));
        assert forall|i: int| 0 <= i < ps.len() implies del_blocked(s2, #[trigger] ps[i]) by {
            if i < ps.len() - 1 {
                assert(init[i] == ps[i]);
                assert(del_blocked(s1, init[i]));
            }
            if pos_taken(s2, ps[i]) {
                let x = choose|x: Entry| #[trigger] s2.live.contains(x) && x.0 == ps[i];
                assert(s1.live.contains(x));
            }
        }
    }
}

/// Replaying an operation that was already integrated changes nothing.
pub proof fn lemma_replay_idempotent(st: DocState, op: OpModel)
    ensures
        apply_op(apply_op(st, op), op) == apply_op(st, op),
{
    match op {
        OpModel::Ins(es) => {
            lemma_inserts_block(st, es);
            lemma_inserts_blocked(apply_inserts(st, es), es);
        },
        OpModel::Del(ps) => {
            lemma_deletes_block(st, ps);
            lemma_deletes_blocked(apply_deletes(st, ps), ps);
        },
    }
}

} // verus!
