//! The JSON-RPC wire shape of one batch: a JSON array of
//! `eth_sendRawTransaction` request objects, one per signed raw
//! transaction, with ids numbered in request order. The dispatcher sends
//! one such body per group; responses are paired back by id.

use vstd::prelude::*;
use crate::ids::dec_str;
use crate::ids::u64_to_dec;
use crate::template::push_all;
use crate::wallets::views_of;

verus! {

/// The bytes before the raw transaction in one request object:
/// `{"jsonrpc":"2.0","method":"eth_sendRawTransaction","params":["`.
pub open spec fn entry_head() -> Seq<u8> {
    seq![
        123u8, 34u8, 106u8, 115u8, 111u8, 110u8, 114u8, 112u8, 99u8, 34u8, 58u8, 34u8, 50u8,
        46u8, 48u8, 34u8, 44u8, 34u8, 109u8, 101u8, 116u8, 104u8, 111u8, 100u8, 34u8, 58u8,
        34u8, 101u8, 116u8, 104u8, 95u8, 115u8, 101u8, 110u8, 100u8, 82u8, 97u8, 119u8, 84u8,
        114u8, 97u8, 110u8, 115u8, 97u8, 99u8, 116u8, 105u8, 111u8, 110u8, 34u8, 44u8, 34u8,
        112u8, 97u8, 114u8, 97u8, 109u8, 115u8, 34u8, 58u8, 91u8, 34u8,
    ]
}

/// The bytes between the raw transaction and its id: `"],"id":`.
pub open spec fn entry_mid() -> Seq<u8> {
    seq![34u8, 93u8, 44u8, 34u8, 105u8, 100u8, 34u8, 58u8]
}

/// One request object carrying `raw` under id `id`.
pub open spec fn rpc_entry(raw: Seq<u8>, id: nat) -> Seq<u8> {
    entry_head() + raw + entry_mid() + dec_str(id) + seq![125u8]
}

/// The request objects for `items`, ids counting up from `k`, separated by
/// commas.
pub open spec fn rpc_entries(items: Seq<Seq<u8>>, k: nat) -> Seq<u8>
    decreases items.len(),
{
    if items.len() == 0 {
        Seq::empty()
    } else if items.len() == 1 {
        rpc_entry(items[0], k)
    } else {
        rpc_entry(items[0], k) + seq![44u8] + rpc_entries(items.skip(1), (k + 1) as nat)
    }
}

/// The whole batch body: the request objects in order, ids from zero,
/// wrapped in a JSON array.
pub open spec fn rpc_body(items: Seq<Seq<u8>>) -> Seq<u8> {
    seq![91u8] + rpc_entries(items, 0) + seq![93u8]
}

proof fn lemma_entries_split(v: Seq<Seq<u8>>, j: int, k: nat)
    requires
        0 < j < v.len(),
    ensures
        rpc_entries(v, k) == rpc_entries(v.take(j), k) + seq![44u8] + rpc_entries(
            v.skip(j),
            (k + j) as nat,
        ),
    decreases j,
{
    if j == 1 {
        assert(v.take(1) =~= seq![v[0]]);
        assert(rpc_entries(v.take(1), k) == rpc_entry(v[0], k));
        assert(rpc_entries(v, k) =~= rpc_entries(v.take(1), k) + seq![44u8] + rpc_entries(
            v.skip(1),
            (k + 1) as nat,
        ));
    } else {
        lemma_entries_split(v.skip(1), j - 1, (k + 1) as nat);
        assert(v.skip(1).take(j - 1) =~= v.take(j).skip(1));
        assert(v.skip(1).skip(j - 1) =~= v.skip(j));
        assert(v.take(j).len() == j >= 2);
        assert(rpc_entries(v.take(j), k) == rpc_entry(v.take(j)[0], k) + seq![44u8]
            + rpc_entries(v.take(j).skip(1), (k + 1) as nat));
        assert(rpc_entries(v, k) =~= rpc_entries(v.take(j), k) + seq![44u8] + rpc_entries(
            v.skip(j),
            (k + j) as nat,
        ));
    }
}

fn entry_head_vec() -> (r: Vec<u8>)
    ensures
        r@ == entry_head(),
{
    let mut out: Vec<u8> = Vec::new();
    out.push(123);
    out.push(34);
    out.push(106);
    out.push(115);
    out.push(111);
    out.push(110);
    out.push(114);
    out.push(112);
    out.push(99);
    out.push(34);
    out.push(58);
    out.push(34);
    out.push(50);
    out.push(46);
    out.push(48);
    out.push(34);
    out.push(44);
    out.push(34);
    out.push(109);
    out.push(101);
    out.push(116);
    out.push(104);
    out.push(111);
    out.push(100);
    out.push(34);
    out.push(58);
    out.push(34);
    out.push(101);
    out.push(116);
    out.push(104);
    out.push(95);
    out.push(115);
    out.push(101);
    out.push(110);
    out.push(100);
    out.push(82);
    out.push(97);
    out.push(119);
    out.push(84);
    out.push(114);
    out.push(97);
    out.push(110);
    out.push(115);
    out.push(97);
    out.push(99);
    out.push(116);
    out.push(105);
    out.push(111);
    out.push(110);
    out.push(34);
    out.push(44);
    out.push(34);
    out.push(112);
    out.push(97);
    out.push(114);
    out.push(97);
    out.push(109);
    out.push(115);
    out.push(34);
    out.push(58);
    out.push(91);
    out.push(34);
    proof {
        assert(out@ =~= entry_head());
    }
    out
}

fn entry_mid_vec() -> (r: Vec<u8>)
    ensures
        r@ == entry_mid(),
{
    let mut out: Vec<u8> = Vec::new();
    out.push(34);
    out.push(93);
    out.push(44);
    out.push(34);
    out.push(105);
    out.push(100);
    out.push(34);
    out.push(58);
    proof {
        assert(out@ =~= entry_mid());
    }
    out
}

/// Builds the JSON-RPC batch body for the signed raw transactions of one
/// group, request ids counting up from zero in request order.
pub fn batch_request_body(items: &Vec<Vec<u8>>) -> (r: Vec<u8>)
    requires
        items@.len() <= u64::MAX,
    ensures
        r@ == rpc_body(views_of(items@)),
{
    let head = entry_head_vec();
    let mid = entry_mid_vec();
    let ghost v = views_of(items@);
    let mut out: Vec<u8> = Vec::new();
    out.push(91);
    let n = items.len();
    let mut j: usize = 0;
    while j < n
        invariant
            j <= n == items@.len() <= u64::MAX,
            v == views_of(items@),
            head@ == entry_head(),
            mid@ == entry_mid(),
            out@ == seq![91u8] + rpc_entries(v.take(j as int), 0),
        decreases n - j,
    {
        if j > 0 {
            out.push(44);
        }
        push_all(&mut out, &head);
        push_all(&mut out, &items[j]);
        push_all(&mut out, &mid);
        let id_dec = u64_to_dec(j as u64);
        push_all(&mut out, &id_dec);
        out.push(125);
        proof {
            let jj = j as int;
            assert(v[jj] == items@[jj]@);
            if jj == 0 {
                assert(v.take(1) =~= seq![v[0]]);
                assert(rpc_entries(v.take(1), 0) == rpc_entry(v[0], 0));
                assert(out@ =~= seq![91u8] + rpc_entries(v.take(1), 0));
            } else {
                assert(v.take(jj + 1).take(jj) =~= v.take(jj));
                assert(v.take(jj + 1).skip(jj) =~= seq![v[jj]]);
                lemma_entries_split(v.take(jj + 1), jj, 0);
                assert(rpc_entries(seq![v[jj]], jj as nat) == rpc_entry(v[jj], jj as nat));
                assert(out@ =~= seq![91u8] + rpc_entries(v.take(jj + 1), 0));
            }
        }
        j = j + 1;
    }
    out.push(93);
    proof {
        assert(v.take(v.len() as int) =~= v);
        assert(out@ =~= rpc_body(v));
    }
    out
}

} // verus!
