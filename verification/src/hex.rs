//! Hex encoding and decoding of payload bytes, with the `0x` prefix used on
//! the JSON-RPC wire.

use vstd::prelude::*;

verus! {

/// The lowercase hex character for a nibble value.
pub open spec fn hex_digit_char(n: int) -> u8 {
    if n < 10 {
        (48 + n) as u8
    } else {
        (87 + n) as u8
    }
}

/// Lowercase hex expansion of a byte sequence, two characters per byte.
pub open spec fn hex_of(b: Seq<u8>) -> Seq<u8>
    decreases b.len(),
{
    if b.len() == 0 {
        Seq::empty()
    } else {
        seq![hex_digit_char(b[0] as int / 16), hex_digit_char(b[0] as int % 16)] + hex_of(b.skip(1))
    }
}

pub open spec fn is_lower_hex_digit(c: u8) -> bool {
    (48 <= c <= 57) || (97 <= c <= 102)
}

pub open spec fn is_hex_digit(c: u8) -> bool {
    (48 <= c <= 57) || (97 <= c <= 102) || (65 <= c <= 70)
}

/// Value of one hex digit character, of either case.
pub open spec fn hex_val(c: u8) -> int {
    if 48 <= c <= 57 {
        c - 48
    } else if 97 <= c <= 102 {
        c - 87
    } else {
        c - 55
    }
}

/// The hex text without its optional `0x` (or `0X`) prefix.
pub open spec fn strip_0x(s: Seq<u8>) -> Seq<u8> {
    if s.len() >= 2 && s[0] == 48 && (s[1] == 120 || s[1] == 88) {
        s.skip(2)
    } else {
        s
    }
}

/// A well-formed hex body: even length, hex digits throughout.
pub open spec fn valid_hex_body(s: Seq<u8>) -> bool {
    s.len() % 2 == 0 && forall|i: int| 0 <= i < s.len() ==> is_hex_digit(#[trigger] s[i])
}

/// Bytes denoted by a well-formed hex body, one byte per digit pair.
pub open spec fn hex_decode_bytes(s: Seq<u8>) -> Seq<u8>
    decreases s.len(),
{
    if s.len() < 2 {
        Seq::empty()
    } else {
        seq![(hex_val(s[0]) * 16 + hex_val(s[1])) as u8] + hex_decode_bytes(s.skip(2))
    }
}

pub proof fn lemma_hex_of_singleton(c: u8)
    ensures
        hex_of(seq![c]) == seq![hex_digit_char(c as int / 16), hex_digit_char(c as int % 16)],
{
    assert(seq![c].skip(1) =~= Seq::<u8>::empty());
    assert(hex_of(Seq::<u8>::empty()) =~= Seq::<u8>::empty());
    assert(hex_of(seq![c]) =~= seq![hex_digit_char(c as int / 16), hex_digit_char(c as int % 16)]);
}

pub proof fn lemma_hex_of_concat(a: Seq<u8>, b: Seq<u8>)
    ensures
        hex_of(a + b) == hex_of(a) + hex_of(b),
    decreases a.len(),
{
    if a.len() == 0 {
        assert(a + b =~= b);
        assert(hex_of(a) + hex_of(b) =~= hex_of(b));
    } else {
        lemma_hex_of_concat(a.skip(1), b);
        assert((a + b).skip(1) =~= a.skip(1) + b);
        assert(hex_of(a + b) =~= hex_of(a) + hex_of(b));
    }
}

/// Every character of a hex expansion is a lowercase hex digit, and the
/// expansion has even length: two characters per byte.
pub proof fn lemma_hex_of_shape(b: Seq<u8>)
    ensures
        hex_of(b).len() == 2 * b.len(),
        forall|i: int| 0 <= i < hex_of(b).len() ==> is_lower_hex_digit(#[trigger] hex_of(b)[i]),
    decreases b.len(),
{
    if b.len() > 0 {
        lemma_hex_of_shape(b.skip(1));
    }
}

pub proof fn lemma_hex_decode_concat(a: Seq<u8>, b: Seq<u8>)
    requires
        a.len() % 2 == 0,
    ensures
        hex_decode_bytes(a + b) == hex_decode_bytes(a) + hex_decode_bytes(b),
    decreases a.len(),
{
    if a.len() == 0 {
        assert(a + b =~= b);
        assert(hex_decode_bytes(a) + hex_decode_bytes(b) =~= hex_decode_bytes(b));
    } else {
        lemma_hex_decode_concat(a.skip(2), b);
        assert((a + b).skip(2) =~= a.skip(2) + b);
        assert(hex_decode_bytes(a + b) =~= hex_decode_bytes(a) + hex_decode_bytes(b));
    }
}

proof fn lemma_hex_decode_pair(hi: u8, lo: u8)
    ensures
        hex_decode_bytes(seq![hi, lo]) == seq![(hex_val(hi) * 16 + hex_val(lo)) as u8],
{
    assert(seq![hi, lo].skip(2) =~= Seq::<u8>::empty());
    assert(hex_decode_bytes(Seq::<u8>::empty()) =~= Seq::<u8>::empty());
    assert(hex_decode_bytes(seq![hi, lo]) =~= seq![(hex_val(hi) * 16 + hex_val(lo)) as u8]);
}

/// Round trip at the byte level: decoding a hex expansion gives back the
/// bytes that were encoded, and the expansion is always a well-formed body.
pub proof fn lemma_hex_round_trip(b: Seq<u8>)
    ensures
        valid_hex_body(hex_of(b)),
        hex_decode_bytes(hex_of(b)) == b,
    decreases b.len(),
{
    lemma_hex_of_shape(b);
    if b.len() == 0 {
        assert(hex_decode_bytes(hex_of(b)) =~= b);
    } else {
        lemma_hex_round_trip(b.skip(1));
        let hi = hex_digit_char(b[0] as int / 16);
        let lo = hex_digit_char(b[0] as int % 16);
        assert(hex_of(b) == seq![hi, lo] + hex_of(b.skip(1)));
        assert(hex_of(b).skip(2) =~= hex_of(b.skip(1)));
        assert(hex_val(hi) == b[0] as int / 16);
        assert(hex_val(lo) == b[0] as int % 16);
        assert((hex_val(hi) * 16 + hex_val(lo)) as u8 == b[0]);
        assert(hex_decode_bytes(hex_of(b)) =~= b);
    }
}

/// Round trip through the wire form: stripping the `0x` prefix off an
/// encoded payload and decoding it gives back the original bytes.
pub proof fn lemma_hex_round_trip_prefixed(b: Seq<u8>)
    ensures
        strip_0x(seq![48u8, 120u8] + hex_of(b)) == hex_of(b),
        valid_hex_body(hex_of(b)),
        hex_decode_bytes(hex_of(b)) == b,
{
    lemma_hex_round_trip(b);
    assert((seq![48u8, 120u8] + hex_of(b)).skip(2) =~= hex_of(b));
}

fn hex_char(n: u8) -> (r: u8)
    requires
        n < 16,
    ensures
        r == hex_digit_char(n as int),
{
    if n < 10 {
        48 + n
    } else {
        87 + n
    }
}

/// Encode bytes as `0x`-prefixed lowercase hex, as raw transactions and
/// payloads are put on the wire.
pub fn hex_encode_prefixed(data: &Vec<u8>) -> (r: Vec<u8>)
    ensures
        r@ == seq![48u8, 120u8] + hex_of(data@),
        r@.len() == 2 + 2 * data@.len(),
{
    let mut out: Vec<u8> = Vec::new();
    out.push(48);
    out.push(120);
    let mut i: usize = 0;
    while i < data.len()
        invariant
            i <= data@.len(),
            out@ == seq![48u8, 120u8] + hex_of(data@.take(i as int)),
        decreases data@.len() - i,
    {
        let byte = data[i];
        out.push(hex_char(byte / 16));
        out.push(hex_char(byte % 16));
        proof {
            let prefix = data@.take(i as int);
            let step = data@.take(i + 1 as int);
            assert(step =~= prefix + seq![data@[i as int]]);
            lemma_hex_of_concat(prefix, seq![data@[i as int]]);
            lemma_hex_of_singleton(data@[i as int]);
            assert(out@ =~= seq![48u8, 120u8] + hex_of(step));
        }
        i = i + 1;
    }
    proof {
        assert(data@.take(data@.len() as int) =~= data@);
        lemma_hex_of_shape(data@);
    }
    out
}

/// Why hex text is rejected: an odd number of digits, or a character that is
/// no hex digit.
#[derive(Clone, Copy, Debug, PartialEq, Eq, Structural)]
pub enum HexError {
    OddLength,
    InvalidDigit,
}

fn is_hex_exec(c: u8) -> (r: bool)
    ensures
        r == is_hex_digit(c),
{
    (48 <= c && c <= 57) || (97 <= c && c <= 102) || (65 <= c && c <= 70)
}

fn hex_val_exec(c: u8) -> (r: u8)
    requires
        is_hex_digit(c),
    ensures
        r == hex_val(c),
{
    if 48 <= c && c <= 57 {
        c - 48
    } else if 97 <= c && c <= 102 {
        c - 87
    } else {
        c - 55
    }
}

/// Decode hex text, with an optional `0x` or `0X` prefix, into the bytes it
/// denotes; two digits of either case per byte.
pub fn decode_hex(h: &Vec<u8>) -> (r: Result<Vec<u8>, HexError>)
    ensures
        r is Ok <==> valid_hex_body(strip_0x(h@)),
        (r matches Ok(v) ==> v@ == hex_decode_bytes(strip_0x(h@))),
        r == Result::<Vec<u8>, HexError>::Err(HexError::OddLength) <==> strip_0x(h@).len() % 2
            != 0,
{
    let start: usize = if h.len() >= 2 && h[0] == 48 && (h[1] == 120 || h[1] == 88) {
        2
    } else {
        0
    };
    let ghost body = strip_0x(h@);
    proof {
        assert(body =~= h@.skip(start as int));
    }
    let n = h.len();
    if (n - start) % 2 != 0 {
        return Err(HexError::OddLength);
    }
    let mut out: Vec<u8> = Vec::new();
    let mut j: usize = 0;
    while j < n - start
        invariant
            body == strip_0x(h@),
            body == h@.skip(start as int),
            start + body.len() == h@.len() <= usize::MAX,
            n == h@.len(),
            j <= body.len(),
            j % 2 == 0,
            body.len() % 2 == 0,
            out@ == hex_decode_bytes(body.take(j as int)),
            forall|k: int| 0 <= k < j ==> is_hex_digit(#[trigger] body[k]),
        decreases body.len() - j,
    {
        let hi = h[start + j];
        let lo = h[start + j + 1];
        assert(hi == body[j as int]);
        assert(lo == body[j + 1 as int]);
        if !is_hex_exec(hi) || !is_hex_exec(lo) {
            proof {
                let bad: int = if !is_hex_digit(body[j as int]) {
                    j as int
                } else {
                    j + 1
                };
                assert(0 <= bad < body.len() && !is_hex_digit(body[bad]));
                assert(!valid_hex_body(body));
            }
            return Err(HexError::InvalidDigit);
        }
        let byte = hex_val_exec(hi) * 16 + hex_val_exec(lo);
        out.push(byte);
        proof {
            let prefix = body.take(j as int);
            let step = body.take(j + 2 as int);
            assert(step =~= prefix + seq![body[j as int], body[j + 1 as int]]);
            lemma_hex_decode_concat(prefix, seq![body[j as int], body[j + 1 as int]]);
            lemma_hex_decode_pair(body[j as int], body[j + 1 as int]);
            assert(out@ =~= hex_decode_bytes(step));
        }
        j = j + 2;
    }
    proof {
        assert(body.take(body.len() as int) =~= body);
    }
    Ok(out)
}

} // verus!
