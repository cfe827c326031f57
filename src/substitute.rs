//! Literal substitution of a placeholder inside a token.
//!
//! Occurrences are found from the left and do not overlap; the inserted
//! value is never searched again.

use vstd::prelude::*;

verus! {

/// `p` stands in `t` at position `i`.
pub open spec fn occurs_at(t: Seq<u8>, p: Seq<u8>, i: int) -> bool {
    0 <= i && i + p.len() <= t.len() && t.subrange(i, i + p.len()) == p
}

/// `t` with every occurrence of `p` replaced by `v`, scanning from the left.
pub open spec fn replace_all(t: Seq<u8>, p: Seq<u8>, v: Seq<u8>) -> Seq<u8>
    decreases t.len(),
{
    if p.len() == 0 || t.len() < p.len() {
        t
    } else if occurs_at(t, p, 0) {
        v + replace_all(t.subrange(p.len() as int, t.len() as int), p, v)
    } else {
        seq![t[0]] + replace_all(t.subrange(1, t.len() as int), p, v)
    }
}

/// `p` stands somewhere in `t`.
pub open spec fn holds(t: Seq<u8>, p: Seq<u8>) -> bool {
    exists|i: int| occurs_at(t, p, i)
}

/// The stretches of `t` between the occurrences of `p` found from the left.
pub open spec fn pieces(t: Seq<u8>, p: Seq<u8>) -> Seq<Seq<u8>>
    decreases t.len(),
{
    if p.len() == 0 || t.len() < p.len() {
        seq![t]
    } else if occurs_at(t, p, 0) {
        seq![Seq::empty()] + pieces(t.subrange(p.len() as int, t.len() as int), p)
    } else {
        let r = pieces(t.subrange(1, t.len() as int), p);
        r.update(0, seq![t[0]] + r[0])
    }
}

/// The parts in order, with `sep` between each two of them.
pub open spec fn interleave(parts: Seq<Seq<u8>>, sep: Seq<u8>) -> Seq<u8>
    decreases parts.len(),
{
    if parts.len() == 0 {
        Seq::empty()
    } else if parts.len() == 1 {
        parts[0]
    } else {
        parts[0] + sep + interleave(parts.drop_first(), sep)
    }
}

proof fn lemma_pieces_first(t: Seq<u8>, p: Seq<u8>)
    requires
        p.len() > 0,
    ensures
        pieces(t, p).len() >= 1,
        pieces(t, p)[0].len() <= t.len(),
        t.subrange(0, pieces(t, p)[0].len() as int) == pieces(t, p)[0],
    decreases t.len(),
{
    if t.len() < p.len() {
        assert(t.subrange(0, t.len() as int) == t);
    } else if occurs_at(t, p, 0) {
        lemma_pieces_first(t.subrange(p.len() as int, t.len() as int), p);
        assert(t.subrange(0, 0) =~= Seq::<u8>::empty());
    } else {
        let rest = t.subrange(1, t.len() as int);
        lemma_pieces_first(rest, p);
        let r = pieces(rest, p);
        assert(t.subrange(0, r[0].len() + 1 as int) =~= seq![t[0]] + rest.subrange(0, r[0].len() as int));
    }
}

proof fn lemma_interleave_cons(r: Seq<Seq<u8>>, c: u8, sep: Seq<u8>)
    requires
        r.len() >= 1,
    ensures
        interleave(r.update(0, seq![c] + r[0]), sep) == seq![c] + interleave(r, sep),
{
    let u = r.update(0, seq![c] + r[0]);
    if r.len() > 1 {
        assert(u.drop_first() == r.drop_first());
        assert(seq![c] + r[0] + sep + interleave(r.drop_first(), sep) =~= seq![c] + (r[0] + sep
            + interleave(r.drop_first(), sep)));
    }
}

proof fn lemma_occurs_shift(t: Seq<u8>, p: Seq<u8>, k: int, i: int)
    requires
        0 <= k <= t.len(),
        occurs_at(t.subrange(k, t.len() as int), p, i),
    ensures
        occurs_at(t, p, i + k),
{
    assert(t.subrange(k, t.len() as int).subrange(i, i + p.len()) =~= t.subrange(
        i + k,
        i + k + p.len(),
    ));
}

/// Every occurrence of the placeholder is replaced: the token is made of
/// pieces that hold no occurrence of the placeholder, with the placeholder
/// between each two of them, and the substitution puts the value in each of
/// those places and nothing else changes.
pub proof fn lemma_replace_all_occurrences(t: Seq<u8>, p: Seq<u8>, v: Seq<u8>)
    requires
        p.len() > 0,
    ensures
        t == interleave(pieces(t, p), p),
        replace_all(t, p, v) == interleave(pieces(t, p), v),
        forall|i: int| 0 <= i < pieces(t, p).len() ==> !holds(#[trigger] pieces(t, p)[i], p),
    decreases t.len(),
{
    let ps = pieces(t, p);
    if t.len() < p.len() {
        assert forall|i: int| 0 <= i < ps.len() implies !holds(#[trigger] ps[i], p) by {
            assert(ps[i] == t);
        }
    } else if occurs_at(t, p, 0) {
        let rest = t.subrange(p.len() as int, t.len() as int);
        lemma_replace_all_occurrences(rest, p, v);
        lemma_pieces_first(rest, p);
        let r = pieces(rest, p);
        assert(ps.drop_first() == r);
        assert(ps[0] == Seq::<u8>::empty());
        assert(t =~= t.subrange(0, p.len() as int) + rest);
        assert(interleave(ps, p) =~= Seq::<u8>::empty() + p + interleave(r, p));
        assert(interleave(ps, v) =~= Seq::<u8>::empty() + v + interleave(r, v));
        assert forall|i: int| 0 <= i < ps.len() implies !holds(#[trigger] ps[i], p) by {
            if i > 0 {
                assert(ps[i] == r[i - 1]);
            }
        }
    } else {
        let rest = t.subrange(1, t.len() as int);
        lemma_replace_all_occurrences(rest, p, v);
        lemma_pieces_first(rest, p);
        let r = pieces(rest, p);
        lemma_interleave_cons(r, t[0], p);
        lemma_interleave_cons(r, t[0], v);
        assert(t =~= seq![t[0]] + rest);
        assert forall|i: int| 0 <= i < ps.len() implies !holds(#[trigger] ps[i], p) by {
            if i > 0 {
                assert(ps[i] == r[i]);
            } else {
                let x = ps[0];
                assert(x == seq![t[0]] + r[0]);
                if holds(x, p) {
                    let j = choose|j: int| occurs_at(x, p, j);
                    if j >= 1 {
                        assert(x.subrange(j, j + p.len()) =~= r[0].subrange(
                            j - 1,
                            j - 1 + p.len(),
                        ));
                        assert(occurs_at(r[0], p, j - 1));
                    } else {
                        assert(r[0] == rest.subrange(0, r[0].len() as int));
                        assert(x.subrange(0, p.len() as int) =~= t.subrange(0, p.len() as int));
                    }
                }
            }
        }
    }
}

/// A token that holds no occurrence of the placeholder is left as it is.
pub proof fn lemma_replace_absent(t: Seq<u8>, p: Seq<u8>, v: Seq<u8>)
    requires
        p.len() > 0,
        !holds(t, p),
    ensures
        replace_all(t, p, v) == t,
    decreases t.len(),
{
    if t.len() >= p.len() {
        assert(!occurs_at(t, p, 0));
        let rest = t.subrange(1, t.len() as int);
        if holds(rest, p) {
            let i = choose|i: int| occurs_at(rest, p, i);
            lemma_occurs_shift(t, p, 1, i);
        }
        lemma_replace_absent(rest, p, v);
        assert(t =~= seq![t[0]] + rest);
    }
}

fn occurs_at_exec(t: &[u8], p: &[u8], i: usize) -> (r: bool)
    requires
        i <= t@.len(),
    ensures
        r == occurs_at(t@, p@, i as int),
{
    if p.len() > t.len() - i {
        return false;
    }
    let len = t.len();
    let mut j: usize = 0;
    while j < p.len()
        invariant
            len == t@.len(),
            i + p@.len() <= t@.len(),
            j <= p@.len(),
            forall|k: int| 0 <= k < j ==> t@[i + k] == p@[k],
        decreases p@.len() - j,
    {
        if t[i + j] != p[j] {
            assert(t@.subrange(i as int, i + p@.len())[j as int] != p@[j as int]);
            return false;
        }
        j = j + 1;
    }
    assert(t@.subrange(i as int, i + p@.len()) =~= p@);
    true
}

/// Replaces every occurrence of `pattern` in `text` by `value`.
pub fn replace_all_bytes(text: &[u8], pattern: &[u8], value: &[u8]) -> (r: Vec<u8>)
    requires
        pattern@.len() > 0,
    ensures
        r@ == replace_all(text@, pattern@, value@),
{
    let ghost p = pattern@;
    let ghost v = value@;
    let mut out: Vec<u8> = Vec::new();
    let mut i: usize = 0;
    assert(text@.subrange(0, text@.len() as int) == text@);
    while i < text.len()
        invariant
            p == pattern@,
            v == value@,
            p.len() > 0,
            i <= text@.len(),
            replace_all(text@, p, v) == out@ + replace_all(
                text@.subrange(i as int, text@.len() as int),
                p,
                v,
            ),
        decreases text@.len() - i,
    {
        let ghost rest = text@.subrange(i as int, text@.len() as int);
        let ghost before = out@;
        if occurs_at_exec(text, pattern, i) {
            assert(rest.subrange(0, p.len() as int) == text@.subrange(i as int, i + p.len()));
            let mut k: usize = 0;
            while k < value.len()
                invariant
                    v == value@,
                    k <= v.len(),
                    out@ == before + v.subrange(0, k as int),
                decreases v.len() - k,
            {
                out.push(value[k]);
                k = k + 1;
                assert(v.subrange(0, k as int) == v.subrange(0, k - 1).push(v[k - 1]));
            }
            assert(v.subrange(0, v.len() as int) == v);
            i = i + pattern.len();
            assert(rest.subrange(p.len() as int, rest.len() as int) == text@.subrange(
                i as int,
                text@.len() as int,
            ));
        } else {
            out.push(text[i]);
            i = i + 1;
            proof {
                let tail = text@.subrange(i as int, text@.len() as int);
                assert(rest.subrange(1, rest.len() as int) == tail);
                if rest.len() < p.len() {
                    assert(rest == seq![rest[0]] + tail);
                } else {
                    assert(rest.subrange(0, p.len() as int) == text@.subrange(
                        i - 1,
                        i - 1 + p.len(),
                    ));
                }
            }
        }
    }
    assert(text@.subrange(text@.len() as int, text@.len() as int) =~= Seq::<u8>::empty());
    out
}

} // verus!
