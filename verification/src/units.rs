//! Decimal unit conversion: gwei or ether text such as `1.5` becomes an
//! integer number of wei, scaled by a power of ten with the fractional part
//! truncated toward zero.

use vstd::prelude::*;

verus! {

pub open spec fn is_digit(c: u8) -> bool {
    48 <= c <= 57
}

pub open spec fn all_digits(s: Seq<u8>) -> bool {
    forall|i: int| 0 <= i < s.len() ==> is_digit(#[trigger] s[i])
}

/// The number denoted by a digit string, most significant digit first.
pub open spec fn digits_val(s: Seq<u8>) -> nat
    decreases s.len(),
{
    if s.len() == 0 {
        0
    } else {
        (digits_val(s.take(s.len() - 1)) * 10 + (s[s.len() - 1] - 48)) as nat
    }
}

pub open spec fn pow10(n: nat) -> nat
    decreases n,
{
    if n == 0 {
        1
    } else {
        10 * pow10((n - 1) as nat)
    }
}

/// Position of the first `.` in `s`, or `s.len()` when there is none.
pub open spec fn dot_pos(s: Seq<u8>) -> int
    decreases s.len(),
{
    if s.len() == 0 {
        0
    } else if s[0] == 46u8 {
        0
    } else {
        1 + dot_pos(s.skip(1))
    }
}

pub open spec fn dec_int_part(s: Seq<u8>) -> Seq<u8> {
    s.take(dot_pos(s))
}

pub open spec fn dec_frac_part(s: Seq<u8>) -> Seq<u8> {
    if dot_pos(s) < s.len() {
        s.skip(dot_pos(s) + 1)
    } else {
        Seq::empty()
    }
}

/// A well-formed decimal: a run of digits, optionally followed by a dot and
/// a run of digits; one of the two runs may be empty, not both. Signs and
/// exponent forms are not decimals.
pub open spec fn dec_wf(s: Seq<u8>) -> bool {
    &&& (dot_pos(s) >= 1 || (dot_pos(s) == 0 && s.len() >= 2))
    &&& all_digits(dec_int_part(s))
    &&& all_digits(dec_frac_part(s))
}

/// The value of a well-formed decimal scaled by `10^decimals`, fractional
/// digits beyond `decimals` truncated toward zero.
pub open spec fn dec_scaled(s: Seq<u8>, decimals: nat) -> nat {
    let fp = dec_frac_part(s);
    let keep = if fp.len() <= decimals {
        fp.len()
    } else {
        decimals
    };
    digits_val(dec_int_part(s)) * pow10(decimals) + digits_val(fp.take(keep as int)) * pow10(
        (decimals - keep) as nat,
    )
}

pub proof fn lemma_pow10_pos(n: nat)
    ensures
        pow10(n) >= 1,
    decreases n,
{
    if n > 0 {
        lemma_pow10_pos((n - 1) as nat);
    }
}

/// Splitting a digit string: the whole value is the prefix value shifted by
/// the length of the suffix, plus the suffix value.
pub proof fn lemma_digits_val_split(s: Seq<u8>, i: int)
    requires
        0 <= i <= s.len(),
        all_digits(s),
    ensures
        digits_val(s) == digits_val(s.take(i)) * pow10((s.len() - i) as nat) + digits_val(
            s.skip(i),
        ),
    decreases s.len() - i,
{
    if i == s.len() {
        assert(s.take(i) =~= s);
        assert(s.skip(i) =~= Seq::<u8>::empty());
        assert(digits_val(s) * 1 == digits_val(s));
    } else {
        let n = s.len() as int;
        let head = s.take(n - 1);
        assert(all_digits(head)) by {
            assert(forall|k: int| 0 <= k < head.len() ==> #[trigger] head[k] == s[k]);
        }
        lemma_digits_val_split(head, i);
        assert(head.take(i) =~= s.take(i));
        assert(head.skip(i) =~= s.skip(i).take(s.skip(i).len() - 1));
        let tailpart = s.skip(i);
        assert(is_digit(s[n - 1]));
        assert(tailpart[tailpart.len() - 1] == s[n - 1]);
        assert(digits_val(tailpart) == digits_val(tailpart.take(tailpart.len() - 1)) * 10 + (
        tailpart[tailpart.len() - 1] - 48));
        assert(tailpart[tailpart.len() - 1] == s[n - 1]);
        let a = digits_val(s.take(i));
        let b = digits_val(head.skip(i));
        let p = pow10((n - 1 - i) as nat);
        let d = (s[n - 1] - 48) as nat;
        assert(digits_val(head) == a * p + b);
        assert(digits_val(s) == digits_val(head) * 10 + d);
        assert(pow10((n - i) as nat) == 10 * p);
        assert((a * p + b) * 10 + d == a * (10 * p) + (b * 10 + d)) by (nonlinear_arith);
        assert(digits_val(tailpart) == b * 10 + d);
    }
}

fn is_digit_exec(c: u8) -> (r: bool)
    ensures
        r == is_digit(c),
{
    48 <= c && c <= 57
}

/// Why decimal text is rejected: it does not fit the decimal grammar, or its
/// scaled value does not fit the result type.
#[derive(Clone, Copy, Debug, PartialEq, Eq, Structural)]
pub enum UnitsError {
    Malformed,
    Overflow,
}

/// The value of the digits `s[from..to]`, when it fits.
pub(crate) fn parse_digits_u128(s: &Vec<u8>, from: usize, to: usize) -> (r: Option<u128>)
    requires
        from <= to <= s@.len(),
        all_digits(s@.subrange(from as int, to as int)),
    ensures
        r matches Some(v) ==> digits_val(s@.subrange(from as int, to as int)) == v,
        r is None <==> digits_val(s@.subrange(from as int, to as int)) > u128::MAX,
{
    let ghost d = s@.subrange(from as int, to as int);
    let mut acc: u128 = 0;
    let mut i: usize = from;
    while i < to
        invariant
            from <= i <= to <= s@.len(),
            d == s@.subrange(from as int, to as int),
            all_digits(d),
            acc == digits_val(d.take(i - from)),
        decreases to - i,
    {
        let c = s[i];
        assert(c == d[i - from]);
        assert(is_digit(c));
        let digit = (c - 48) as u128;
        let next = match acc.checked_mul(10) {
            Some(m) => m.checked_add(digit),
            None => None,
        };
        proof {
            let k = i - from;
            assert(d.take(k + 1).take(k) =~= d.take(k));
            assert(d.take(k + 1)[k] == d[k]);
            assert(digits_val(d.take(k + 1)) == digits_val(d.take(k)) * 10 + (d[k] - 48));
        }
        match next {
            Some(v) => {
                acc = v;
            },
            None => {
                proof {
                    let k = i - from;
                    lemma_digits_val_split(d, k + 1);
                    lemma_pow10_pos((d.len() - (k + 1)) as nat);
                    let hi = digits_val(d.take(k + 1));
                    let p = pow10((d.len() - (k + 1)) as nat);
                    assert(hi * p >= hi * 1 >= hi) by (nonlinear_arith)
                        requires
                            p >= 1,
                    ;
                    assert(digits_val(d) >= hi);
                    assert(hi > u128::MAX);
                }
                return None;
            },
        }
        i = i + 1;
    }
    proof {
        assert(d.take(d.len() as int) =~= d);
    }
    Some(acc)
}

fn pow10_u128(n: usize) -> (r: u128)
    requires
        pow10(n as nat) <= u128::MAX,
    ensures
        r == pow10(n as nat),
{
    let mut acc: u128 = 1;
    let mut i: usize = 0;
    while i < n
        invariant
            i <= n,
            acc == pow10(i as nat),
            pow10(n as nat) <= u128::MAX,
        decreases n - i,
    {
        proof {
            lemma_pow10_mono((i + 1) as nat, n as nat);
            lemma_pow10_pos(i as nat);
        }
        assert(10 * acc == pow10((i + 1) as nat));
        acc = 10 * acc;
        i = i + 1;
    }
    acc
}

pub proof fn lemma_pow10_mono(m: nat, n: nat)
    requires
        m <= n,
    ensures
        pow10(m) <= pow10(n),
    decreases n,
{
    if m < n {
        lemma_pow10_mono(m, (n - 1) as nat);
        lemma_pow10_pos((n - 1) as nat);
    }
}

/// The scale factors used by the library fit the result type.
pub proof fn lemma_small_pow10_fits()
    ensures
        pow10(3) < u128::MAX,
        pow10(9) < u128::MAX,
        pow10(18) < u128::MAX,
{
    reveal_with_fuel(pow10, 20);
}

proof fn lemma_dot_pos_at(s: Seq<u8>, i: int)
    requires
        0 <= i <= s.len(),
        forall|k: int| 0 <= k < i ==> #[trigger] s[k] != 46u8,
        i < s.len() ==> s[i] == 46u8,
    ensures
        dot_pos(s) == i,
    decreases i,
{
    if i == 0 {
    } else {
        assert(s[0] != 46u8);
        let tail = s.skip(1);
        assert(forall|k: int| 0 <= k < i - 1 ==> #[trigger] tail[k] == s[k + 1]);
        lemma_dot_pos_at(tail, i - 1);
    }
}

/// Parse decimal text and scale it by `10^decimals`, truncating fractional
/// digits beyond `decimals` toward zero; exactly the well-formed decimals
/// whose scaled value fits are accepted.
pub fn parse_units(s: &Vec<u8>, decimals: usize) -> (r: Result<u128, UnitsError>)
    requires
        pow10(decimals as nat) <= u128::MAX,
    ensures
        r is Ok <==> dec_wf(s@) && dec_scaled(s@, decimals as nat) <= u128::MAX,
        (r matches Ok(v) ==> v == dec_scaled(s@, decimals as nat)),
        r == Result::<u128, UnitsError>::Err(UnitsError::Malformed) <==> !dec_wf(s@),
{
    let n = s.len();
    let mut dotp: usize = 0;
    while dotp < n && s[dotp] != 46
        invariant
            dotp <= n == s@.len(),
            forall|k: int| 0 <= k < dotp ==> #[trigger] s@[k] != 46u8,
        decreases n - dotp,
    {
        dotp = dotp + 1;
    }
    proof {
        lemma_dot_pos_at(s@, dotp as int);
    }
    let ghost ip = dec_int_part(s@);
    let ghost fp = dec_frac_part(s@);
    if dotp == 0 && n < 2 {
        return Err(UnitsError::Malformed);
    }
    let mut i: usize = 0;
    while i < dotp
        invariant
            i <= dotp <= n == s@.len(),
            dot_pos(s@) == dotp,
            ip == dec_int_part(s@),
            forall|k: int| 0 <= k < i ==> is_digit(#[trigger] s@[k]),
        decreases dotp - i,
    {
        if !is_digit_exec(s[i]) {
            proof {
                assert(ip[i as int] == s@[i as int]);
                assert(!all_digits(ip));
            }
            return Err(UnitsError::Malformed);
        }
        i = i + 1;
    }
    proof {
        assert(forall|k: int| 0 <= k < ip.len() ==> #[trigger] ip[k] == s@[k]);
        assert(all_digits(ip));
    }
    let frac_len: usize = if dotp < n {
        n - dotp - 1
    } else {
        0
    };
    let mut j: usize = 0;
    while j < frac_len
        invariant
            j <= frac_len,
            dotp < n ==> frac_len == n - dotp - 1,
            dotp == n ==> frac_len == 0,
            dotp <= n == s@.len(),
            dot_pos(s@) == dotp,
            fp == dec_frac_part(s@),
            forall|k: int| 0 <= k < j ==> is_digit(#[trigger] s@[dotp + 1 + k]),
        decreases frac_len - j,
    {
        if !is_digit_exec(s[dotp + 1 + j]) {
            proof {
                assert(fp[j as int] == s@[dotp + 1 + j]);
                assert(!all_digits(fp));
            }
            return Err(UnitsError::Malformed);
        }
        j = j + 1;
    }
    proof {
        if dotp < n {
            assert(forall|k: int| 0 <= k < fp.len() ==> #[trigger] fp[k] == s@[dotp + 1 + k]);
        }
        assert(all_digits(fp));
        assert(dec_wf(s@));
    }
    let keep: usize = if frac_len <= decimals {
        frac_len
    } else {
        decimals
    };
    let ghost dn = decimals as nat;
    let ghost scaled = dec_scaled(s@, dn);
    proof {
        assert(fp.len() == frac_len);
        assert(scaled == digits_val(ip) * pow10(dn) + digits_val(fp.take(keep as int)) * pow10(
            (dn - keep) as nat,
        ));
        lemma_pow10_pos(dn);
        lemma_pow10_pos((dn - keep) as nat);
    }
    proof {
        assert(s@.subrange(0, dotp as int) =~= ip);
    }
    let int_val = match parse_digits_u128(s, 0, dotp) {
        Some(v) => v,
        None => {
            proof {
                let a = digits_val(ip);
                let p = pow10(dn);
                assert(a * p >= a * 1) by (nonlinear_arith)
                    requires
                        p >= 1,
                        a >= 0,
                ;
                assert(scaled > u128::MAX);
            }
            return Err(UnitsError::Overflow);
        },
    };
    let int_scaled = match int_val.checked_mul(pow10_u128(decimals)) {
        Some(v) => v,
        None => {
            return Err(UnitsError::Overflow);
        },
    };
    let frac_val = if keep > 0 {
        proof {
            assert(s@.subrange(dotp + 1 as int, (dotp + 1 + keep) as int) =~= fp.take(
                keep as int,
            ));
        }
        match parse_digits_u128(s, dotp + 1, dotp + 1 + keep) {
            Some(v) => v,
            None => {
                proof {
                    let a = digits_val(ip);
                    let pw = pow10(dn);
                    let b = digits_val(fp.take(keep as int));
                    let q = pow10((dn - keep) as nat);
                    assert(b * q >= b) by (nonlinear_arith)
                        requires
                            q >= 1,
                            b >= 0,
                    ;
                    assert(a * pw >= 0) by (nonlinear_arith)
                        requires
                            a >= 0,
                            pw >= 0,
                    ;
                    assert(scaled > u128::MAX);
                }
                return Err(UnitsError::Overflow);
            },
        }
    } else {
        proof {
            assert(fp.take(0) =~= Seq::<u8>::empty());
        }
        0
    };
    let ghost q = pow10((dn - keep) as nat);
    proof {
        lemma_pow10_mono((dn - keep) as nat, dn);
    }
    let frac_scaled = match frac_val.checked_mul(pow10_u128(decimals - keep)) {
        Some(v) => v,
        None => {
            return Err(UnitsError::Overflow);
        },
    };
    match int_scaled.checked_add(frac_scaled) {
        Some(v) => {
            assert(v == scaled);
            Ok(v)
        },
        None => Err(UnitsError::Overflow),
    }
}

} // verus!
