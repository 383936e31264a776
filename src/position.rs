use vstd::prelude::*;

verus! {

/// One step of a position identifier: the replica that made it and that
/// replica's counter at the time.
pub type Atom = (usize, u64);

/// The atom that only ever stands inside an identifier, never at its end.
pub open spec fn is_zero(a: Atom) -> bool {
    a.0 == 0 && a.1 == 0
}

pub open spec fn atom_lt(a: Atom, b: Atom) -> bool {
    a.0 < b.0 || (a.0 == b.0 && a.1 < b.1)
}

/// Lexicographic order on identifiers; a proper prefix comes first.
pub open spec fn pos_lt(a: Seq<Atom>, b: Seq<Atom>) -> bool
    decreases a.len(),
{
    if a.len() == 0 {
        b.len() > 0
    } else if b.len() == 0 {
        false
    } else if atom_lt(a[0], b[0]) {
        true
    } else if a[0] == b[0] {
        pos_lt(a.drop_first(), b.drop_first())
    } else {
        false
    }
}

/// An identifier that a character may carry: not empty, not ending in the
/// zero atom, and leaving room for the counter to move past it.
pub open spec fn valid_pos(p: Seq<Atom>) -> bool {
    p.len() > 0 && !is_zero(p.last()) && p.last().1 < u64::MAX
}

pub open spec fn is_prefix(a: Seq<Atom>, b: Seq<Atom>) -> bool {
    a.len() <= b.len() && b.subrange(0, a.len() as int) == a
}

pub proof fn lemma_lt_irreflexive(a: Seq<Atom>)
    ensures
        !pos_lt(a, a),
    decreases a.len(),
{
    if a.len() > 0 {
        lemma_lt_irreflexive(a.drop_first());
    }
}

pub proof fn lemma_lt_transitive(a: Seq<Atom>, b: Seq<Atom>, c: Seq<Atom>)
    requires
        pos_lt(a, b),
        pos_lt(b, c),
    ensures
        pos_lt(a, c),
    decreases a.len(),
{
    if a.len() > 0 && a[0] == b[0] && b[0] == c[0] {
        lemma_lt_transitive(a.drop_first(), b.drop_first(), c.drop_first());
    }
}

pub proof fn lemma_lt_asymmetric(a: Seq<Atom>, b: Seq<Atom>)
    requires
        pos_lt(a, b),
    ensures
        !pos_lt(b, a),
{
    if pos_lt(b, a) {
        lemma_lt_transitive(a, b, a);
        lemma_lt_irreflexive(a);
    }
}

/// Past a shared prefix of length `i`, the order is decided by what follows.
pub proof fn lemma_lt_skip(a: Seq<Atom>, b: Seq<Atom>, i: int)
    requires
        0 <= i <= a.len(),
        i <= b.len(),
        a.subrange(0, i) == b.subrange(0, i),
    ensures
        pos_lt(a, b) == pos_lt(a.skip(i), b.skip(i)),
    decreases i,
{
    if i == 0 {
        assert(a.skip(0) =~= a);
        assert(b.skip(0) =~= b);
    } else {
        assert(a[0] == a.subrange(0, i)[0]);
        assert(b[0] == b.subrange(0, i)[0]);
        assert(a.drop_first().subrange(0, i - 1) =~= a.subrange(0, i).drop_first());
        assert(b.drop_first().subrange(0, i - 1) =~= b.subrange(0, i).drop_first());
        lemma_lt_skip(a.drop_first(), b.drop_first(), i - 1);
        assert(a.drop_first().skip(i - 1) =~= a.skip(i));
        assert(b.drop_first().skip(i - 1) =~= b.skip(i));
    }
}

/// An identifier comes before every proper extension of itself.
pub proof fn lemma_lt_extension(a: Seq<Atom>, x: Seq<Atom>)
    requires
        x.len() > 0,
    ensures
        pos_lt(a, a + x),
{
    let b = a + x;
    assert(b.subrange(0, a.len() as int) =~= a);
    assert(a.subrange(0, a.len() as int) =~= a);
    lemma_lt_skip(a, b, a.len() as int);
    assert(b.skip(a.len() as int) =~= x);
}

/// If `a < b` and `a` is no prefix of `b`, anything that extends `a` stays
/// below `b`.
pub proof fn lemma_lt_not_prefix(a: Seq<Atom>, b: Seq<Atom>, x: Seq<Atom>)
    requires
        pos_lt(a, b),
        !is_prefix(a, b),
    ensures
        pos_lt(a + x, b),
    decreases a.len(),
{
    if a.len() == 0 {
        assert(b.subrange(0, 0) =~= a);
    } else {
        assert((a + x)[0] == a[0]);
        if a[0] == b[0] {
            if is_prefix(a.drop_first(), b.drop_first()) {
                assert(b.subrange(0, a.len() as int) =~= seq![b[0]] + b.drop_first().subrange(
                    0,
                    a.len() - 1,
                ));
                assert(a =~= seq![a[0]] + a.drop_first());
            }
            lemma_lt_not_prefix(a.drop_first(), b.drop_first(), x);
            assert((a + x).drop_first() =~= a.drop_first() + x);
        }
    }
}

/// Exact comparison of two identifiers: negative, zero or positive.
pub fn compare_pos(a: &Vec<Atom>, b: &Vec<Atom>) -> (r: i8)
    ensures
        (r < 0) == pos_lt(a@, b@),
        (r == 0) == (a@ == b@),
        (r > 0) == pos_lt(b@, a@),
{
    let mut i: usize = 0;
    while i < a.len() && i < b.len()
        invariant
            i <= a@.len(),
            i <= b@.len(),
            a@.subrange(0, i as int) == b@.subrange(0, i as int),
        decreases a.len() - i,
    {
        let x = a[i];
        let y = b[i];
        if x.0 != y.0 || x.1 != y.1 {
            proof {
                lemma_lt_skip(a@, b@, i as int);
                lemma_lt_skip(b@, a@, i as int);
                assert(a@.skip(i as int)[0] == x);
                assert(b@.skip(i as int)[0] == y);
                if a@ == b@ {
                    assert(a@[i as int] == b@[i as int]);
                }
            }
            if x.0 < y.0 || (x.0 == y.0 && x.1 < y.1) {
                return -1;
            } else {
                return 1;
            }
        }
        proof {
            assert(a@.subrange(0, i + 1) =~= a@.subrange(0, i as int).push(x));
            assert(b@.subrange(0, i + 1) =~= b@.subrange(0, i as int).push(y));
        }
        i = i + 1;
    }
    proof {
        lemma_lt_skip(a@, b@, i as int);
        lemma_lt_skip(b@, a@, i as int);
        if a@.len() == b@.len() {
            assert(a@ =~= a@.subrange(0, i as int));
            assert(b@ =~= b@.subrange(0, i as int));
        } else if a@ == b@ {
            assert(false);
        }
    }
    if a.len() < b.len() {
        -1
    } else if a.len() == b.len() {
        0
    } else {
        1
    }
}

/// A copy of `left` extended by `atom` when that already falls below
/// `right`, or else by zero atoms and `atom`, placed to fall just below
/// `right`. The result lies strictly between the two and ends in `atom`.
pub fn fresh_between(left: &Vec<Atom>, right: Option<&Vec<Atom>>, atom: Atom) -> (r: Vec<Atom>)
    requires
        right matches Some(q) ==> pos_lt(left@, q@) && valid_pos(q@),
    ensures
        pos_lt(left@, r@),
        right matches Some(q) ==> pos_lt(r@, q@),
        r@.len() > 0,
        r@.last() == atom,
{
    let mut r: Vec<Atom> = Vec::new();
    let mut i: usize = 0;
    while i < left.len()
        invariant
            i <= left@.len(),
            r@ == left@.subrange(0, i as int),
        decreases left.len() - i,
    {
        r.push(left[i]);
        proof {
            assert(left@.subrange(0, i + 1) =~= left@.subrange(0, i as int).push(left@[i as int]));
        }
        i = i + 1;
    }
    assert(r@ =~= left@);
    let ghost lv = left@;
    match right {
        None => {
            r.push(atom);
            proof {
                lemma_lt_extension(lv, seq![atom]);
                assert(r@ =~= lv + seq![atom]);
            }
            r
        },
        Some(q) => {
            let mut pre = left.len() <= q.len();
            let mut k: usize = 0;
            while pre && k < left.len()
                invariant
                    pre ==> left@.len() <= q@.len(),
                    k <= left@.len(),
                    pre ==> q@.subrange(0, k as int) == left@.subrange(0, k as int),
                    !pre ==> !is_prefix(left@, q@),
                ensures
                    pre ==> k == left@.len(),
                decreases left.len() - k,
            {
                if left[k].0 != q[k].0 || left[k].1 != q[k].1 {
                    pre = false;
                    proof {
                        if is_prefix(left@, q@) {
                            assert(q@.subrange(0, left@.len() as int)[k as int] == q@[k as int]);
                        }
                    }
                    break;
                } else {
                    proof {
                        assert(q@.subrange(0, k + 1) =~= q@.subrange(0, k as int).push(q@[k as int]));
                        assert(left@.subrange(0, k + 1) =~= left@.subrange(0, k as int).push(
                            left@[k as int],
                        ));
                    }
                    k = k + 1;
                }
            }
            if !pre {
                r.push(atom);
                proof {
                    lemma_lt_extension(lv, seq![atom]);
                    lemma_lt_not_prefix(lv, q@, seq![atom]);
                    assert(r@ =~= lv + seq![atom]);
                }
                r
            } else {
                proof {
                    assert(left@.subrange(0, k as int) =~= left@);
                    if left@.len() == q@.len() {
                        assert(q@ =~= q@.subrange(0, k as int));
                        lemma_lt_irreflexive(lv);
                    }
                }
                let mut j: usize = left.len();
                while j < q.len() && q[j].0 == 0 && q[j].1 == 0
                    invariant
                        lv.len() <= j <= q@.len(),
                        lv.len() < q@.len(),
                        valid_pos(q@),
                        r@.len() == j,
                        r@ == q@.subrange(0, j as int),
                        forall|t: int| lv.len() <= t < j ==> is_zero(#[trigger] q@[t]),
                    decreases q.len() - j,
                {
                    r.push((0, 0));
                    proof {
                        assert(q@.subrange(0, j + 1) =~= q@.subrange(0, j as int).push(
                            q@[j as int],
                        ));
                    }
                    j = j + 1;
                }
                proof {
                    if j == q@.len() {
                        assert(is_zero(q@[j - 1]));
                    }
                    assert(j < q@.len());
                }
                let ghost shared = r@;
                r.push((0, 0));
                r.push(atom);
                proof {
                    assert(r@ =~= shared + seq![(0usize, 0u64), atom]);
                    assert(r@.subrange(0, j as int) =~= shared);
                    lemma_lt_skip(r@, q@, j as int);
                    assert(r@.skip(j as int) =~= seq![(0usize, 0u64), atom]);
                    assert(q@.skip(j as int)[0] == q@[j as int]);
                    assert(r@.subrange(0, lv.len() as int) =~= lv);
                    assert(r@ =~= lv + r@.skip(lv.len() as int));
                    lemma_lt_extension(lv, r@.skip(lv.len() as int));
                }
                r
            }
        },
    }
}

} // verus!
