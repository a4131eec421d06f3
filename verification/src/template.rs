//! Payload templating: literal substring replacement, as the template engine
//! uses it to substitute the sender address and the running identifier.

use vstd::prelude::*;

verus! {

/// The pattern `p` occurs in `t` starting at position `i`.
pub open spec fn is_match_at(t: Seq<u8>, p: Seq<u8>, i: int) -> bool {
    0 <= i && i + p.len() <= t.len() && t.subrange(i, i + p.len() as int) == p
}

/// The pattern `p` occurs somewhere in `t`.
pub open spec fn has_match(t: Seq<u8>, p: Seq<u8>) -> bool {
    exists|i: int| is_match_at(t, p, i)
}

/// Left-to-right replacement of every non-overlapping occurrence of `p` in
/// `t` by `a`; the text is scanned from the front, as `str::replace` does.
/// An empty pattern replaces nothing.
pub open spec fn replace_all(t: Seq<u8>, p: Seq<u8>, a: Seq<u8>) -> Seq<u8>
    decreases t.len(),
{
    if p.len() == 0 || p.len() > t.len() {
        t
    } else if t.subrange(0, p.len() as int) == p {
        a + replace_all(t.skip(p.len() as int), p, a)
    } else {
        seq![t[0]] + replace_all(t.skip(1), p, a)
    }
}

/// The literal `[address]` marker that the template engine substitutes.
pub open spec fn addr_pat() -> Seq<u8> {
    seq![91u8, 97u8, 100u8, 100u8, 114u8, 101u8, 115u8, 115u8, 93u8]
}

/// A replacement text that can never assemble a new `[address]` marker:
/// it holds neither bracket and is at least as long as the marker. A
/// canonical `0x`-prefixed address always qualifies.
pub open spec fn bracket_free(a: Seq<u8>) -> bool {
    &&& a.len() >= addr_pat().len()
    &&& forall|i: int| 0 <= i < a.len() ==> #[trigger] a[i] != 91u8 && a[i] != 93u8
}

proof fn lemma_replace_prefix_reflects(t: Seq<u8>, a: Seq<u8>, k: int)
    requires
        bracket_free(a),
        1 <= k < addr_pat().len(),
        replace_all(t, addr_pat(), a).len() >= addr_pat().len() - k,
        replace_all(t, addr_pat(), a).subrange(0, addr_pat().len() - k) == addr_pat().skip(k),
    ensures
        t.len() >= addr_pat().len() - k,
        t.subrange(0, addr_pat().len() - k) == addr_pat().skip(k),
    decreases t.len(),
{
    let p = addr_pat();
    let plen = p.len() as int;
    let r = replace_all(t, p, a);
    if plen > t.len() {
        assert(r == t);
    } else if t.subrange(0, plen) == p {
        let rest = replace_all(t.skip(plen), p, a);
        assert(r == a + rest);
        assert(plen - k <= a.len());
        assert(r.subrange(0, plen - k) =~= a.subrange(0, plen - k));
        assert(a[plen - k - 1] == p.skip(k)[plen - k - 1]);
        assert(p.skip(k)[plen - k - 1] == p[plen - 1]);
        assert(p[plen - 1] == 93u8);
        assert(false);
    } else {
        let rest = replace_all(t.skip(1), p, a);
        assert(r == seq![t[0]] + rest);
        assert(t[0] == r[0]);
        assert(r[0] == p.skip(k)[0]);
        assert(p.skip(k)[0] == p[k]);
        if k == plen - 1 {
            assert(t.subrange(0, plen - k) =~= seq![t[0]]);
            assert(p.skip(k) =~= seq![p[k]]);
        } else {
            assert(rest.len() >= plen - (k + 1));
            assert(rest.subrange(0, plen - (k + 1)) =~= r.subrange(1, plen - k));
            assert(r.subrange(1, plen - k) =~= p.skip(k + 1)) by {
                assert(forall|m: int|
                    0 <= m < plen - k - 1 ==> #[trigger] r.subrange(1, plen - k)[m] == r.subrange(
                        0,
                        plen - k,
                    )[m + 1]);
            }
            lemma_replace_prefix_reflects(t.skip(1), a, k + 1);
            assert(t.subrange(0, plen - k) =~= seq![p[k]] + t.skip(1).subrange(0, plen - k - 1));
            assert(p.skip(k) =~= seq![p[k]] + p.skip(k + 1));
        }
    }
}

/// After substituting a bracket-free replacement for every `[address]`
/// marker, no `[address]` marker remains in the text.
pub proof fn lemma_expand_no_marker(t: Seq<u8>, a: Seq<u8>)
    requires
        bracket_free(a),
    ensures
        !has_match(replace_all(t, addr_pat(), a), addr_pat()),
    decreases t.len(),
{
    let p = addr_pat();
    let plen = p.len() as int;
    let r = replace_all(t, p, a);
    if has_match(r, p) {
        let j = choose|j: int| is_match_at(r, p, j);
        assert(r.subrange(j, j + plen) == p);
        if plen > t.len() {
            assert(r == t);
            assert(j + plen <= t.len());
            assert(false);
        } else if t.subrange(0, plen) == p {
            let rest = replace_all(t.skip(plen), p, a);
            assert(r == a + rest);
            lemma_expand_no_marker(t.skip(plen), a);
            if j < a.len() {
                assert(r[j] == a[j]);
                assert(r.subrange(j, j + plen)[0] == p[0]);
                assert(r[j] == p[0]);
                assert(p[0] == 91u8);
                assert(false);
            } else {
                assert(r.subrange(j, j + plen) =~= rest.subrange(
                    j - a.len(),
                    j - a.len() + plen,
                ));
                assert(is_match_at(rest, p, j - a.len()));
                assert(false);
            }
        } else {
            let rest = replace_all(t.skip(1), p, a);
            assert(r == seq![t[0]] + rest);
            lemma_expand_no_marker(t.skip(1), a);
            if j >= 1 {
                assert(r.subrange(j, j + plen) =~= rest.subrange(j - 1, j - 1 + plen));
                assert(is_match_at(rest, p, j - 1));
                assert(false);
            } else {
                assert(t[0] == r[0]);
                assert(r[0] == r.subrange(0, plen)[0]);
                assert(t[0] == p[0]);
                assert(rest.len() >= plen - 1);
                assert(rest.subrange(0, plen - 1) =~= r.subrange(1, plen)) by {
                    assert(forall|m: int|
                        0 <= m < plen - 1 ==> #[trigger] rest[m] == r[m + 1]);
                }
                assert(r.subrange(1, plen) =~= p.skip(1)) by {
                    assert(forall|m: int|
                        0 <= m < plen - 1 ==> #[trigger] r.subrange(1, plen)[m] == r.subrange(
                            0,
                            plen,
                        )[m + 1]);
                }
                lemma_replace_prefix_reflects(t.skip(1), a, 1);
                assert(t.subrange(0, plen) =~= seq![p[0]] + t.skip(1).subrange(0, plen - 1));
                assert(p =~= seq![p[0]] + p.skip(1));
                assert(t.subrange(0, plen) == p);
                assert(false);
            }
        }
    }
}

/// Tests whether `p` occurs in `t` at position `i`.
pub fn matches_at(t: &Vec<u8>, p: &Vec<u8>, i: usize) -> (r: bool)
    requires
        i + p@.len() <= t@.len(),
    ensures
        r == is_match_at(t@, p@, i as int),
{
    let tn = t.len();
    let mut j: usize = 0;
    while j < p.len()
        invariant
            i + p@.len() <= t@.len(),
            tn == t@.len(),
            j <= p@.len(),
            forall|k: int| 0 <= k < j ==> t@[i + k] == p@[k],
        decreases p@.len() - j,
    {
        if t[i + j] != p[j] {
            proof {
                assert(t@.subrange(i as int, i + p@.len() as int)[j as int] != p@[j as int]);
            }
            return false;
        }
        j = j + 1;
    }
    proof {
        assert(t@.subrange(i as int, i + p@.len() as int) =~= p@);
    }
    true
}

/// Appends all of `src` to `dst`.
pub fn push_all(dst: &mut Vec<u8>, src: &Vec<u8>)
    ensures
        final(dst)@ == old(dst)@ + src@,
{
    let mut j: usize = 0;
    while j < src.len()
        invariant
            j <= src@.len(),
            dst@ == old(dst)@ + src@.take(j as int),
        decreases src@.len() - j,
    {
        dst.push(src[j]);
        proof {
            assert(src@.take(j + 1 as int) =~= src@.take(j as int) + seq![src@[j as int]]);
            assert(dst@ =~= old(dst)@ + src@.take(j + 1 as int));
        }
        j = j + 1;
    }
    proof {
        assert(src@.take(src@.len() as int) =~= src@);
    }
}

/// A fresh vector holding the same bytes.
pub fn copy_bytes(v: &Vec<u8>) -> (r: Vec<u8>)
    ensures
        r@ == v@,
{
    let mut out: Vec<u8> = Vec::new();
    push_all(&mut out, v);
    proof {
        assert(out@ =~= v@);
    }
    out
}

/// The bytes `t[from..to]` as a fresh vector.
pub fn copy_range(t: &Vec<u8>, from: usize, to: usize) -> (r: Vec<u8>)
    requires
        from <= to <= t@.len(),
    ensures
        r@ == t@.subrange(from as int, to as int),
{
    let mut out: Vec<u8> = Vec::new();
    let mut i: usize = from;
    while i < to
        invariant
            from <= i <= to <= t@.len(),
            out@ == t@.subrange(from as int, i as int),
        decreases to - i,
    {
        out.push(t[i]);
        proof {
            assert(t@.subrange(from as int, i + 1 as int) =~= t@.subrange(from as int, i as int)
                + seq![t@[i as int]]);
        }
        i = i + 1;
    }
    out
}

/// Replaces every occurrence of `p` in `t` by `a`, scanning left to right.
pub fn replace_bytes(t: &Vec<u8>, p: &Vec<u8>, a: &Vec<u8>) -> (r: Vec<u8>)
    ensures
        r@ == replace_all(t@, p@, a@),
{
    let mut out: Vec<u8> = Vec::new();
    if p.len() == 0 {
        push_all(&mut out, t);
        return out;
    }
    let tn = t.len();
    let mut i: usize = 0;
    proof {
        assert(t@.skip(0) =~= t@);
        assert(out@ + replace_all(t@, p@, a@) =~= replace_all(t@, p@, a@));
    }
    while i < t.len()
        invariant
            p@.len() >= 1,
            tn == t@.len(),
            i <= t@.len(),
            out@ + replace_all(t@.skip(i as int), p@, a@) == replace_all(t@, p@, a@),
        decreases t@.len() - i,
    {
        let ghost rem = t@.skip(i as int);
        if p.len() <= t.len() - i && matches_at(t, p, i) {
            push_all(&mut out, a);
            proof {
                assert(rem.subrange(0, p@.len() as int) =~= t@.subrange(
                    i as int,
                    i + p@.len() as int,
                ));
                assert(rem.skip(p@.len() as int) =~= t@.skip(i + p@.len() as int));
                assert(replace_all(rem, p@, a@) == a@ + replace_all(
                    t@.skip(i + p@.len() as int),
                    p@,
                    a@,
                ));
                assert(out@ + replace_all(t@.skip(i + p@.len()), p@, a@) =~= replace_all(
                    t@,
                    p@,
                    a@,
                ));
            }
            i = i + p.len();
        } else {
            out.push(t[i]);
            proof {
                assert(rem.skip(1) =~= t@.skip(i + 1));
                if p@.len() <= rem.len() {
                    assert(rem.subrange(0, p@.len() as int) != p@) by {
                        if rem.subrange(0, p@.len() as int) == p@ {
                            assert(t@.subrange(i as int, i + p@.len() as int) =~= rem.subrange(
                                0,
                                p@.len() as int,
                            ));
                            assert(is_match_at(t@, p@, i as int));
                        }
                    }
                    assert(replace_all(rem, p@, a@) == seq![rem[0]] + replace_all(
                        rem.skip(1),
                        p@,
                        a@,
                    ));
                } else {
                    assert(replace_all(rem, p@, a@) == rem);
                    assert(replace_all(rem.skip(1), p@, a@) == rem.skip(1));
                    assert(replace_all(rem, p@, a@) == seq![rem[0]] + replace_all(
                        rem.skip(1),
                        p@,
                        a@,
                    )) by {
                        assert(rem =~= seq![rem[0]] + rem.skip(1));
                    }
                }
                assert(out@ + replace_all(t@.skip(i + 1), p@, a@) =~= replace_all(t@, p@, a@));
            }
            i = i + 1;
        }
    }
    proof {
        assert(t@.skip(t@.len() as int) =~= Seq::<u8>::empty());
        assert(replace_all(Seq::<u8>::empty(), p@, a@) =~= Seq::<u8>::empty());
        assert(out@ =~= out@ + replace_all(t@.skip(t@.len() as int), p@, a@));
    }
    out
}

} // verus!
