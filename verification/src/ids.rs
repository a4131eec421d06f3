//! The identifier sequencer: parsing the `[a-b]`, `[a-]` or `[-b]` marker
//! out of a template, seeding the running identifier, and rendering it as
//! decimal text.

use vstd::prelude::*;
use crate::units::{all_digits, digits_val, is_digit};
use crate::template;

verus! {

/// The running identifier substituted into the template: the current value,
/// the optional range bounds, and the literal marker text that is replaced.
#[derive(Debug, Clone)]
pub struct Id {
    pub id: u64,
    pub start_id: Option<u64>,
    pub end_id: Option<u64>,
    pub match_id: Vec<u8>,
}

impl Id {
    /// At least one bound is present; the direction of advancement follows
    /// from which one.
    pub open spec fn wf(self) -> bool {
        self.start_id is Some || self.end_id is Some
    }

    /// The identifier counts upward exactly when a start bound is present.
    pub open spec fn ascending(self) -> bool {
        self.start_id is Some
    }
}

/// Decimal text of a number, most significant digit first, no leading zeros.
pub open spec fn dec_str(n: nat) -> Seq<u8>
    decreases n,
{
    if n < 10 {
        seq![(48 + n) as u8]
    } else {
        dec_str(n / 10) + seq![(48 + n % 10) as u8]
    }
}

/// Renders a number as decimal text, as the identifier is substituted into
/// the template.
pub fn u64_to_dec(n: u64) -> (r: Vec<u8>)
    ensures
        r@ == dec_str(n as nat),
    decreases n,
{
    if n < 10 {
        let mut out: Vec<u8> = Vec::new();
        out.push(48 + (n as u8));
        proof {
            assert(out@ =~= dec_str(n as nat));
        }
        out
    } else {
        let mut out = u64_to_dec(n / 10);
        out.push(48 + ((n % 10) as u8));
        proof {
            assert(out@ =~= dec_str((n / 10) as nat) + seq![(48 + (n as nat) % 10) as u8]);
        }
        out
    }
}

/// Length of the maximal digit run in `t` starting at `from`.
pub open spec fn digit_run(t: Seq<u8>, from: int) -> int
    decreases t.len() - from when 0 <= from <= t.len()
{
    if from < 0 || from >= t.len() {
        0
    } else if is_digit(t[from]) {
        1 + digit_run(t, from + 1)
    } else {
        0
    }
}

/// The bracket marker `[<digits?>-<digits?>]` matches at position `i`, with
/// both digit runs taken maximally, exactly as the pattern
/// `\[(\d+)?-(\d+)?]` matches there.
pub open spec fn marker_at(t: Seq<u8>, i: int) -> bool {
    let d1 = digit_run(t, i + 1);
    let dash = i + 1 + d1;
    let d2 = digit_run(t, dash + 1);
    let close = dash + 1 + d2;
    &&& 0 <= i < t.len()
    &&& t[i] == 91u8
    &&& dash < t.len() && t[dash] == 45u8
    &&& close < t.len() && t[close] == 93u8
}

/// First position at or after `i` where the marker matches, or `t.len()`.
pub open spec fn marker_from(t: Seq<u8>, i: int) -> int
    decreases t.len() - i when 0 <= i <= t.len()
{
    if i < 0 || i >= t.len() {
        t.len() as int
    } else if marker_at(t, i) {
        i
    } else {
        marker_from(t, i + 1)
    }
}

/// Position of the first marker in `t`, or `t.len()` when there is none.
pub open spec fn marker_pos(t: Seq<u8>) -> int {
    marker_from(t, 0)
}

pub open spec fn has_marker(t: Seq<u8>) -> bool {
    marker_pos(t) < t.len()
}

/// The first group of the first marker, when present and within `u64`.
pub open spec fn marker_start(t: Seq<u8>) -> Option<u64> {
    let m = marker_pos(t);
    let d1 = digit_run(t, m + 1);
    let digits = t.subrange(m + 1, m + 1 + d1);
    if d1 > 0 && digits_val(digits) <= u64::MAX {
        Some(digits_val(digits) as u64)
    } else {
        None
    }
}

/// The second group of the first marker, when present and within `u64`.
pub open spec fn marker_end(t: Seq<u8>) -> Option<u64> {
    let m = marker_pos(t);
    let d1 = digit_run(t, m + 1);
    let dash = m + 1 + d1;
    let d2 = digit_run(t, dash + 1);
    let digits = t.subrange(dash + 1, dash + 1 + d2);
    if d2 > 0 && digits_val(digits) <= u64::MAX {
        Some(digits_val(digits) as u64)
    } else {
        None
    }
}

/// The literal text of the first marker, brackets included.
pub open spec fn marker_text(t: Seq<u8>) -> Seq<u8> {
    let m = marker_pos(t);
    let d1 = digit_run(t, m + 1);
    let dash = m + 1 + d1;
    let d2 = digit_run(t, dash + 1);
    let close = dash + 1 + d2;
    t.subrange(m, close + 1)
}

/// How many identifiers the first marker allows: the size of a two-sided
/// range (zero when its bounds are inverted, saturated at `u64::MAX`), and
/// unbounded otherwise.
pub open spec fn marker_range(t: Seq<u8>) -> u64 {
    match (marker_start(t), marker_end(t)) {
        (Some(s), Some(e)) => if e < s {
            0u64
        } else if e - s + 1 > u64::MAX {
            u64::MAX
        } else {
            (e - s + 1) as u64
        },
        _ => u64::MAX,
    }
}

/// The first marker yields an identifier exactly when at least one of its
/// groups is a digit run whose value fits `u64`.
pub open spec fn marker_yields_id(t: Seq<u8>) -> bool {
    has_marker(t) && (marker_start(t) is Some || marker_end(t) is Some)
}

/// The seed of the identifier: the start bound when present, else the end
/// bound.
pub open spec fn marker_seed(t: Seq<u8>) -> u64 {
    match marker_start(t) {
        Some(s) => s,
        None => marker_end(t)->Some_0,
    }
}

proof fn lemma_marker_from_at(t: Seq<u8>, k: int, i: int)
    requires
        0 <= k <= i <= t.len(),
        forall|j: int| k <= j < i ==> !marker_at(t, j),
        i < t.len() ==> marker_at(t, i),
    ensures
        marker_from(t, k) == i,
    decreases i - k,
{
    if k == i {
    } else {
        assert(!marker_at(t, k));
        lemma_marker_from_at(t, k + 1, i);
    }
}

fn digit_run_exec(t: &Vec<u8>, from: usize) -> (r: usize)
    requires
        from <= t@.len(),
    ensures
        r == digit_run(t@, from as int),
        from + r <= t@.len(),
        all_digits(t@.subrange(from as int, from + r)),
    decreases t@.len() - from,
{
    if from < t.len() && 48 <= t[from] && t[from] <= 57 {
        let inner = digit_run_exec(t, from + 1);
        proof {
            assert(forall|m: int|
                from + 1 <= m < from + 1 + inner ==> is_digit(
                    #[trigger] t@.subrange(from + 1 as int, from + 1 + inner)[m - (from + 1)],
                ));
            assert(forall|m: int|
                from <= m < from + 1 + inner ==> is_digit(#[trigger] t@[m])) by {
                assert(forall|m: int|
                    from + 1 <= m < from + 1 + inner ==> t@[m] == t@.subrange(
                        from + 1 as int,
                        from + 1 + inner,
                    )[m - (from + 1)]);
            }
            assert(forall|m: int|
                0 <= m < 1 + inner ==> is_digit(
                    #[trigger] t@.subrange(from as int, from + 1 + inner)[m],
                )) by {
                assert(forall|m: int|
                    0 <= m < 1 + inner ==> #[trigger] t@.subrange(from as int, from + 1 + inner)[m]
                        == t@[from + m]);
            }
        }
        1 + inner
    } else {
        proof {
            assert(t@.subrange(from as int, from as int) =~= Seq::<u8>::empty());
        }
        0
    }
}

/// The identifier after one advance step: up by one when ascending, down by
/// one when descending.
pub open spec fn advanced(id: Id) -> Id {
    Id {
        id: if id.ascending() {
            (id.id + 1) as u64
        } else {
            (id.id - 1) as u64
        },
        ..id
    }
}

/// The identifier after `k` advance steps.
pub open spec fn advanced_n(id: Id, k: nat) -> Id
    decreases k,
{
    if k == 0 {
        id
    } else {
        advanced(advanced_n(id, (k - 1) as nat))
    }
}

/// The identifier can advance `n` times without leaving `u64`.
pub open spec fn advance_ok(id: Id, n: nat) -> bool {
    if id.ascending() {
        id.id + n <= u64::MAX
    } else {
        id.id >= n
    }
}

/// An ascending identifier seeded at `s` substitutes `s + k - 1` into the
/// `k`-th expansion: after `k` advance steps its value is exactly `s + k`,
/// and its bounds, direction and marker text never change.
pub proof fn lemma_ascending_sequence(id: Id, k: nat)
    requires
        id.ascending(),
        id.id + k <= u64::MAX,
    ensures
        advanced_n(id, k).id == id.id + k,
        advanced_n(id, k).start_id == id.start_id,
        advanced_n(id, k).end_id == id.end_id,
        advanced_n(id, k).match_id == id.match_id,
        advanced_n(id, k).ascending(),
    decreases k,
{
    if k > 0 {
        lemma_ascending_sequence(id, (k - 1) as nat);
    }
}

/// A descending identifier seeded at `s` substitutes `s - k + 1` into the
/// `k`-th expansion: after `k` advance steps its value is exactly `s - k`.
pub proof fn lemma_descending_sequence(id: Id, k: nat)
    requires
        !id.ascending(),
        id.id >= k,
    ensures
        advanced_n(id, k).id == id.id - k,
        advanced_n(id, k).start_id == id.start_id,
        advanced_n(id, k).end_id == id.end_id,
        advanced_n(id, k).match_id == id.match_id,
        !advanced_n(id, k).ascending(),
    decreases k,
{
    if k > 0 {
        lemma_descending_sequence(id, (k - 1) as nat);
    }
}

fn parse_digits_u64(s: &Vec<u8>, from: usize, to: usize) -> (r: Option<u64>)
    requires
        from <= to <= s@.len(),
        all_digits(s@.subrange(from as int, to as int)),
    ensures
        r matches Some(v) ==> digits_val(s@.subrange(from as int, to as int)) == v,
        r is None <==> digits_val(s@.subrange(from as int, to as int)) > u64::MAX,
{
    match crate::units::parse_digits_u128(s, from, to) {
        Some(v) => if v <= u64::MAX as u128 {
            Some(v as u64)
        } else {
            None
        },
        None => None,
    }
}

/// Finds the first `[a-b]`, `[a-]` or `[-b]` marker in the template and
/// seeds the identifier from it: from `a` counting up when `a` is present,
/// else from `b` counting down. Returns the identifier, its seed, and the
/// number of transmissions the marker allows; a marker with no usable bound
/// (or none at all) yields no identifier and an unbounded count.
pub fn process_id(text: &Vec<u8>) -> (r: (Option<Id>, Option<u64>, u64))
    ensures
        ({
            let t = text@;
            &&& (!marker_yields_id(t) ==> r == (None::<Id>, None::<u64>, u64::MAX))
            &&& (marker_yields_id(t) ==> {
                &&& r.0 matches Some(id)
                &&& r.0->Some_0.id == marker_seed(t)
                &&& r.0->Some_0.start_id == marker_start(t)
                &&& r.0->Some_0.end_id == marker_end(t)
                &&& r.0->Some_0.match_id@ == marker_text(t)
                &&& r.1 == Some(marker_seed(t))
                &&& r.2 == marker_range(t)
            })
        }),
{
    let n = text.len();
    let mut i: usize = 0;
    while i < n
        invariant
            i <= n == text@.len(),
            forall|j: int| 0 <= j < i ==> !marker_at(text@, j),
        decreases n - i,
    {
        if marker_at_exec(text, i) {
            proof {
                lemma_marker_from_at(text@, 0, i as int);
            }
            let d1 = digit_run_exec(text, i + 1);
            let dash = i + 1 + d1;
            assert(dash < n);
            let d2 = digit_run_exec(text, dash + 1);
            let close = dash + 1 + d2;
            assert(close < n);
            let match_id = template::copy_range(text, i, close + 1);
            let s_opt: Option<u64> = if d1 > 0 {
                parse_digits_u64(text, i + 1, dash)
            } else {
                proof {
                    assert(marker_start(text@) is None);
                }
                None
            };
            let e_opt: Option<u64> = if d2 > 0 {
                parse_digits_u64(text, dash + 1, close)
            } else {
                proof {
                    assert(marker_end(text@) is None);
                }
                None
            };
            proof {
                assert(s_opt == marker_start(text@));
                assert(e_opt == marker_end(text@));
            }
            match (s_opt, e_opt) {
                (None, None) => {
                    return (None, None, u64::MAX);
                },
                (Some(s), None) => {
                    return (
                        Some(Id { id: s, start_id: Some(s), end_id: None, match_id }),
                        Some(s),
                        u64::MAX,
                    );
                },
                (None, Some(e)) => {
                    return (
                        Some(Id { id: e, start_id: None, end_id: Some(e), match_id }),
                        Some(e),
                        u64::MAX,
                    );
                },
                (Some(s), Some(e)) => {
                    let range: u64 = if e < s {
                        0
                    } else {
                        let diff = e - s;
                        if diff == u64::MAX {
                            u64::MAX
                        } else {
                            diff + 1
                        }
                    };
                    return (
                        Some(Id { id: s, start_id: Some(s), end_id: Some(e), match_id }),
                        Some(s),
                        range,
                    );
                },
            }
        }
        i = i + 1;
    }
    proof {
        lemma_marker_from_at(text@, 0, n as int);
    }
    (None, None, u64::MAX)
}

fn marker_at_exec(t: &Vec<u8>, i: usize) -> (r: bool)
    requires
        i < t@.len(),
    ensures
        r == marker_at(t@, i as int),
{
    let n = t.len();
    if t[i] != 91 {
        return false;
    }
    let d1 = digit_run_exec(t, i + 1);
    let dash = i + 1 + d1;
    if dash >= n {
        return false;
    }
    if t[dash] != 45 {
        return false;
    }
    let d2 = digit_run_exec(t, dash + 1);
    let close = dash + 1 + d2;
    if close >= n {
        return false;
    }
    if t[close] != 93 {
        return false;
    }
    true
}

} // verus!
