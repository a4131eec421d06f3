//! The account iterator's pure part: splitting a wallets file into lines,
//! taking the last `----`-separated field of each line as that account's
//! private key, and cloning the base configuration per account.

use vstd::prelude::*;
use crate::config::Config;
use crate::ids::Id;
use crate::template;

verus! {

/// Position of the first line feed in `s`, or `s.len()` when there is none.
pub open spec fn nl_pos(s: Seq<u8>) -> nat
    decreases s.len(),
{
    if s.len() == 0 {
        0
    } else if s[0] == 10u8 {
        0
    } else {
        (1 + nl_pos(s.skip(1))) as nat
    }
}

/// A line with its trailing carriage return removed, as happens to lines
/// that were terminated by `\r\n`.
pub open spec fn chomp_cr(l: Seq<u8>) -> Seq<u8> {
    if l.len() > 0 && l[l.len() - 1] == 13u8 {
        l.take(l.len() - 1)
    } else {
        l
    }
}

/// The lines of a text: split at line feeds, `\r\n` endings stripped, and
/// no empty line after a final line ending.
pub open spec fn line_split(s: Seq<u8>) -> Seq<Seq<u8>>
    decreases s.len(),
{
    if s.len() == 0 {
        Seq::empty()
    } else {
        let nl = nl_pos(s) as int;
        if nl >= s.len() {
            seq![s]
        } else {
            seq![chomp_cr(s.take(nl))] + line_split(s.skip(nl + 1))
        }
    }
}

/// The views of a sequence of byte vectors.
pub open spec fn views_of(v: Seq<Vec<u8>>) -> Seq<Seq<u8>> {
    Seq::new(v.len(), |k: int| v[k]@)
}

/// The field separator of the wallets file.
pub open spec fn sep() -> Seq<u8> {
    seq![45u8, 45u8, 45u8, 45u8]
}

/// The scan that yields the last field: `f` is the start of the current
/// field, `j` the scan position; each separator found restarts the field
/// after it.
pub open spec fn last_field_scan(l: Seq<u8>, f: int, j: int) -> Seq<u8>
    decreases l.len() - j when 0 <= f <= j <= l.len()
{
    if j + 4 > l.len() {
        l.skip(f)
    } else if l.subrange(j, j + 4) == sep() {
        last_field_scan(l, j + 4, j + 4)
    } else {
        last_field_scan(l, f, j + 1)
    }
}

/// The last `----`-separated field of a line.
pub open spec fn last_field(l: Seq<u8>) -> Seq<u8> {
    last_field_scan(l, 0, 0)
}

/// ASCII whitespace, as trimming recognizes it.
pub open spec fn is_space(c: u8) -> bool {
    c == 32u8 || (9 <= c <= 13)
}

pub open spec fn trim_start(s: Seq<u8>) -> Seq<u8>
    decreases s.len(),
{
    if s.len() > 0 && is_space(s[0]) {
        trim_start(s.skip(1))
    } else {
        s
    }
}

pub open spec fn trim_end(s: Seq<u8>) -> Seq<u8>
    decreases s.len(),
{
    if s.len() > 0 && is_space(s[s.len() - 1]) {
        trim_end(s.take(s.len() - 1))
    } else {
        s
    }
}

/// The text with ASCII whitespace removed from both ends.
pub open spec fn trim(s: Seq<u8>) -> Seq<u8> {
    trim_end(trim_start(s))
}

/// The private key a wallets-file line names: its last field, trimmed.
pub open spec fn line_key(l: Seq<u8>) -> Seq<u8> {
    trim(last_field(l))
}

/// Two identifiers carry the same values.
pub open spec fn opt_id_like(a: Option<Id>, b: Option<Id>) -> bool {
    match (a, b) {
        (None, None) => true,
        (Some(x), Some(y)) => x.id == y.id && x.start_id == y.start_id && x.end_id == y.end_id
            && x.match_id@ == y.match_id@,
        _ => false,
    }
}

/// Two optional texts carry the same bytes.
pub open spec fn opt_bytes_like(a: Option<Vec<u8>>, b: Option<Vec<u8>>) -> bool {
    match (a, b) {
        (None, None) => true,
        (Some(x), Some(y)) => x@ == y@,
        _ => false,
    }
}

/// `b` is the same campaign configuration as `a` in everything but the
/// private key.
pub open spec fn same_but_key(a: Config, b: Config) -> bool {
    &&& b.prefix@ == a.prefix@
    &&& b.rpc_url@ == a.rpc_url@
    &&& b.address@ == a.address@
    &&& opt_bytes_like(a.to_address, b.to_address)
    &&& b.max_fee_per_gas@ == a.max_fee_per_gas@
    &&& opt_bytes_like(a.max_priority_fee_per_gas, b.max_priority_fee_per_gas)
    &&& b.gas_limit == a.gas_limit
    &&& b.count == a.count
    &&& b.data@ == a.data@
    &&& opt_bytes_like(a.hex_text, b.hex_text)
    &&& opt_id_like(a.id, b.id)
    &&& b.value@ == a.value@
    &&& b.batch_size == a.batch_size
    &&& b.interval@ == a.interval@
}

fn copy_opt_bytes(v: &Option<Vec<u8>>) -> (r: Option<Vec<u8>>)
    ensures
        opt_bytes_like(*v, r),
{
    match v {
        Some(b) => Some(template::copy_bytes(b)),
        None => None,
    }
}

/// A copy of the base configuration carrying another account's key.
fn config_with_key(c: &Config, key: Vec<u8>) -> (r: Config)
    ensures
        same_but_key(*c, r),
        r.private_key@ == key@,
{
    let id: Option<Id> = match &c.id {
        Some(i) => Some(
            Id {
                id: i.id,
                start_id: i.start_id,
                end_id: i.end_id,
                match_id: template::copy_bytes(&i.match_id),
            },
        ),
        None => None,
    };
    Config {
        prefix: template::copy_bytes(&c.prefix),
        rpc_url: template::copy_bytes(&c.rpc_url),
        private_key: key,
        address: template::copy_bytes(&c.address),
        to_address: copy_opt_bytes(&c.to_address),
        max_fee_per_gas: template::copy_bytes(&c.max_fee_per_gas),
        max_priority_fee_per_gas: copy_opt_bytes(&c.max_priority_fee_per_gas),
        gas_limit: c.gas_limit,
        count: c.count,
        data: template::copy_bytes(&c.data),
        hex_text: copy_opt_bytes(&c.hex_text),
        id,
        value: template::copy_bytes(&c.value),
        batch_size: c.batch_size,
        interval: template::copy_bytes(&c.interval),
    }
}

proof fn lemma_nl_pos_at(s: Seq<u8>, i: int)
    requires
        0 <= i <= s.len(),
        forall|k: int| 0 <= k < i ==> #[trigger] s[k] != 10u8,
        i < s.len() ==> s[i] == 10u8,
    ensures
        nl_pos(s) == i,
    decreases i,
{
    if i == 0 {
    } else {
        assert(s[0] != 10u8);
        let tail = s.skip(1);
        assert(forall|k: int| 0 <= k < i - 1 ==> #[trigger] tail[k] == s[k + 1]);
        lemma_nl_pos_at(tail, i - 1);
    }
}

/// Splits a text into its lines.
fn split_lines(t: &Vec<u8>) -> (r: Vec<Vec<u8>>)
    ensures
        r@.len() == line_split(t@).len(),
        forall|k: int| 0 <= k < r@.len() ==> (#[trigger] r@[k])@ == line_split(t@)[k],
{
    let n = t.len();
    let mut out: Vec<Vec<u8>> = Vec::new();
    let mut pos: usize = 0;
    proof {
        assert(t@.skip(0) =~= t@);
    }
    while pos < n
        invariant
            pos <= n == t@.len(),
            views_of(out@) + line_split(t@.skip(pos as int)) == line_split(t@),
        decreases n - pos,
    {
        let mut e: usize = pos;
        while e < n && t[e] != 10
            invariant
                pos <= e <= n == t@.len(),
                forall|k: int| pos <= k < e ==> #[trigger] t@[k] != 10u8,
            decreases n - e,
        {
            e = e + 1;
        }
        let ghost rem = t@.skip(pos as int);
        proof {
            assert(forall|k: int| 0 <= k < e - pos ==> #[trigger] rem[k] == t@[pos + k]);
            lemma_nl_pos_at(rem, e - pos);
        }
        let line_end: usize = if e < n && e > pos && t[e - 1] == 13 {
            e - 1
        } else {
            e
        };
        let line = template::copy_range(t, pos, line_end);
        proof {
            let nl = (e - pos) as int;
            if e < n {
                assert(rem.take(nl) =~= t@.subrange(pos as int, e as int));
                assert(chomp_cr(rem.take(nl)) =~= t@.subrange(pos as int, line_end as int));
                assert(rem.skip(nl + 1) =~= t@.skip(e + 1 as int));
                assert(line_split(rem) == seq![chomp_cr(rem.take(nl))] + line_split(
                    rem.skip(nl + 1),
                ));
            } else {
                assert(rem =~= t@.subrange(pos as int, line_end as int));
                assert(line_split(rem) == seq![rem]);
                assert(t@.skip(n as int) =~= Seq::<u8>::empty());
                assert(line_split(t@.skip(n as int)).len() == 0);
            }
        }
        let ghost old_out = out@;
        out.push(line);
        proof {
            assert(views_of(out@) =~= views_of(old_out) + seq![line@]);
            let nextpos: int = if e < n {
                e + 1
            } else {
                e as int
            };
            if e >= n {
                assert(t@.skip(nextpos) =~= Seq::<u8>::empty());
            }
            assert(views_of(out@) + line_split(t@.skip(nextpos)) =~= line_split(t@));
        }
        if e < n {
            pos = e + 1;
        } else {
            pos = e;
        }
    }
    proof {
        assert(t@.skip(pos as int) =~= Seq::<u8>::empty());
        assert(views_of(out@) =~= line_split(t@));
        assert(forall|k: int|
            0 <= k < out@.len() ==> (#[trigger] out@[k])@ == views_of(out@)[k]);
    }
    out
}

/// The start index of the last `----`-separated field of `l`.
fn last_field_start(l: &Vec<u8>) -> (r: usize)
    ensures
        r <= l@.len(),
        l@.skip(r as int) == last_field(l@),
{
    let n = l.len();
    let mut f: usize = 0;
    let mut j: usize = 0;
    let sep_v = sep_vec();
    while n >= 4 && j <= n - 4
        invariant
            0 <= f <= j <= n == l@.len(),
            sep_v@ == sep(),
            last_field(l@) == last_field_scan(l@, f as int, j as int),
        decreases n - j,
    {
        if template::matches_at(l, &sep_v, j) {
            proof {
                assert(l@.subrange(j as int, j + 4 as int) == sep());
            }
            j = j + 4;
            f = j;
        } else {
            proof {
                assert(l@.subrange(j as int, j + 4 as int) != sep());
            }
            j = j + 1;
        }
    }
    f
}

fn sep_vec() -> (r: Vec<u8>)
    ensures
        r@ == sep(),
{
    let mut out: Vec<u8> = Vec::new();
    out.push(45);
    out.push(45);
    out.push(45);
    out.push(45);
    proof {
        assert(out@ =~= sep());
    }
    out
}

proof fn lemma_trim_start_at(s: Seq<u8>, i: int)
    requires
        0 <= i <= s.len(),
        forall|k: int| 0 <= k < i ==> is_space(#[trigger] s[k]),
        i < s.len() ==> !is_space(s[i]),
    ensures
        trim_start(s) == s.skip(i),
    decreases i,
{
    if i == 0 {
        assert(s.skip(0) =~= s);
    } else {
        assert(is_space(s[0]));
        let tail = s.skip(1);
        assert(forall|k: int| 0 <= k < i - 1 ==> #[trigger] tail[k] == s[k + 1]);
        lemma_trim_start_at(tail, i - 1);
        assert(tail.skip(i - 1) =~= s.skip(i));
    }
}

proof fn lemma_trim_end_at(s: Seq<u8>, b: int)
    requires
        0 <= b <= s.len(),
        forall|k: int| b <= k < s.len() ==> is_space(#[trigger] s[k]),
        b > 0 ==> !is_space(s[b - 1]),
    ensures
        trim_end(s) == s.take(b),
    decreases s.len() - b,
{
    if b == s.len() {
        assert(s.take(b) =~= s);
    } else {
        assert(is_space(s[s.len() - 1]));
        let head = s.take(s.len() - 1);
        assert(forall|k: int| b <= k < head.len() ==> #[trigger] head[k] == s[k]);
        lemma_trim_end_at(head, b);
        assert(head.take(b) =~= s.take(b));
    }
}

/// The trimmed tail `l[from..]`, with ASCII whitespace removed at both
/// ends.
fn trim_from(l: &Vec<u8>, from: usize) -> (r: Vec<u8>)
    requires
        from <= l@.len(),
    ensures
        r@ == trim(l@.skip(from as int)),
{
    let n = l.len();
    let ghost s = l@.skip(from as int);
    let mut a: usize = from;
    while a < n && (l[a] == 32 || (9 <= l[a] && l[a] <= 13))
        invariant
            from <= a <= n == l@.len(),
            forall|k: int| from <= k < a ==> is_space(#[trigger] l@[k]),
        decreases n - a,
    {
        a = a + 1;
    }
    proof {
        assert(forall|k: int| 0 <= k < s.len() ==> #[trigger] s[k] == l@[from + k]);
        lemma_trim_start_at(s, a - from);
        assert(trim_start(s) =~= l@.skip(a as int));
    }
    let ghost s1 = trim_start(s);
    let mut b: usize = n;
    while b > a && (l[b - 1] == 32 || (9 <= l[b - 1] && l[b - 1] <= 13))
        invariant
            a <= b <= n == l@.len(),
            forall|k: int| b <= k < n ==> is_space(#[trigger] l@[k]),
        decreases b,
    {
        b = b - 1;
    }
    proof {
        assert(forall|k: int| 0 <= k < s1.len() ==> #[trigger] s1[k] == l@[a + k]);
        lemma_trim_end_at(s1, b - a);
        assert(trim_end(s1) =~= l@.subrange(a as int, b as int));
    }
    template::copy_range(l, a, b)
}

/// One configuration per account: when a wallets file is given, one clone
/// of the base configuration per line, carrying that line's key (the last
/// `----`-separated field, trimmed); otherwise the base configuration
/// alone.
pub fn execution_addresses(config: Config, wallets_text: Option<&Vec<u8>>) -> (r: Vec<Config>)
    ensures
        wallets_text is None ==> r@.len() == 1 && r@[0] == config,
        wallets_text matches Some(t) ==> ({
            &&& r@.len() == line_split(t@).len()
            &&& forall|k: int|
                0 <= k < r@.len() ==> same_but_key(config, #[trigger] r@[k]) && r@[k].private_key@
                    == line_key(line_split(t@)[k])
        }),
{
    match wallets_text {
        None => {
            let mut out: Vec<Config> = Vec::new();
            out.push(config);
            out
        },
        Some(t) => {
            let lines = split_lines(t);
            let mut out: Vec<Config> = Vec::new();
            let mut k: usize = 0;
            while k < lines.len()
                invariant
                    k <= lines@.len(),
                    lines@.len() == line_split(t@).len(),
                    forall|m: int|
                        0 <= m < lines@.len() ==> (#[trigger] lines@[m])@ == line_split(t@)[m],
                    out@.len() == k,
                    forall|m: int|
                        0 <= m < k ==> same_but_key(config, #[trigger] out@[m])
                            && out@[m].private_key@ == line_key(line_split(t@)[m]),
                decreases lines@.len() - k,
            {
                let line = &lines[k];
                let f = last_field_start(line);
                let key = trim_from(line, f);
                out.push(config_with_key(&config, key));
                k = k + 1;
            }
            out
        },
    }
}

} // verus!
