//! The batch dispatcher's planning and building: partitioning the campaign
//! into fixed-size groups, and building each group's signed raw
//! transactions with contiguous nonces and advancing payloads.

use vstd::prelude::*;
use vstd::arithmetic::div_mod::{lemma_fundamental_div_mod, lemma_mod_bound};
use crate::config::{
    config_after, data_is_raw_hex, expansions_ok, payload_at, Config, GasPrice,
};
use crate::hex;
use crate::hex::{hex_decode_bytes, hex_of, strip_0x, valid_hex_body};
use crate::sign;
use crate::sign::{eip1559_raw_tx, eip1559_sign_fails, legacy_raw_tx, legacy_sign_fails};

verus! {

/// The number of groups: the count divided by the group size, rounded up.
pub open spec fn spec_batch_count(count: int, batch_size: int) -> int
    recommends
        batch_size >= 1,
        count >= 0,
{
    count / batch_size + if count % batch_size == 0 {
        0int
    } else {
        1int
    }
}

/// The half-open slot range of group `i`.
pub open spec fn spec_batch_bounds(i: int, count: int, batch_size: int) -> (int, int)
    recommends
        batch_size >= 1,
{
    (i * batch_size, if i * batch_size + batch_size < count {
        i * batch_size + batch_size
    } else {
        count
    })
}

/// How many groups the dispatcher issues: `ceil(count / batch_size)`.
pub fn batch_count(count: u64, batch_size: u64) -> (r: u64)
    requires
        batch_size >= 1,
    ensures
        r == spec_batch_count(count as int, batch_size as int),
{
    let q = count / batch_size;
    let rm = count % batch_size;
    proof {
        let c = count as int;
        let b = batch_size as int;
        lemma_fundamental_div_mod(c, b);
        lemma_mod_bound(c, b);
        if c % b != 0 {
            assert(b >= 2);
            assert(2 * (c / b) <= c) by (nonlinear_arith)
                requires
                    c == b * (c / b) + c % b,
                    b >= 2,
                    c % b >= 0,
                    c / b >= 0,
            ;
        }
    }
    if rm == 0 {
        q
    } else {
        q + 1
    }
}

/// Group `i` of the partition lies inside the count: its start is strictly
/// below `count` and one further group step stays within bounds.
pub proof fn lemma_batch_in_range(i: int, count: int, batch_size: int)
    requires
        batch_size >= 1,
        count >= 0,
        0 <= i < spec_batch_count(count, batch_size),
    ensures
        i * batch_size < count,
        i * batch_size >= 0,
        (i + 1) * batch_size == i * batch_size + batch_size,
{
    let b = batch_size;
    let c = count;
    let q = c / b;
    let rm = c % b;
    lemma_fundamental_div_mod(c, b);
    lemma_mod_bound(c, b);
    let bc = spec_batch_count(c, b);
    assert(i * b < c) by (nonlinear_arith)
        requires
            b >= 1,
            c == b * q + rm,
            0 <= rm < b,
            bc == q + (if rm == 0 { 0int } else { 1int }),
            0 <= i < bc,
    ;
    assert(i * b >= 0) by (nonlinear_arith)
        requires
            i >= 0,
            b >= 1,
    ;
    assert((i + 1) * b == i * b + b) by (nonlinear_arith);
}

/// The slot range `[start, end)` of group `i`: `start = i * batch_size`,
/// `end = min((i + 1) * batch_size, count)`.
pub fn batch_bounds(i: u64, count: u64, batch_size: u64) -> (r: (u64, u64))
    requires
        batch_size >= 1,
        i < spec_batch_count(count as int, batch_size as int),
    ensures
        (r.0 as int, r.1 as int) == spec_batch_bounds(i as int, count as int, batch_size as int),
        r.0 < r.1 <= count,
        r.1 - r.0 <= batch_size,
{
    proof {
        lemma_batch_in_range(i as int, count as int, batch_size as int);
    }
    let start = i * batch_size;
    let end = if count - start > batch_size {
        start + batch_size
    } else {
        count
    };
    (start, end)
}

/// The groups partition the campaign exactly: group zero starts at slot
/// zero, each group ends where the next begins, the last group ends at the
/// count, and every group is nonempty and within the count. Hence the
/// group sizes sum to the count, and since group `i` uses the nonces
/// `nonce0 + start .. nonce0 + end`, the nonces of the whole run are
/// exactly `nonce0 .. nonce0 + count`, without gaps or duplicates.
pub proof fn lemma_batch_partition(count: int, batch_size: int)
    requires
        batch_size >= 1,
        count >= 0,
    ensures
        spec_batch_count(count, batch_size) == 0 <==> count == 0,
        count > 0 ==> spec_batch_bounds(0, count, batch_size).0 == 0,
        forall|i: int|
            0 <= i < spec_batch_count(count, batch_size) ==> (#[trigger] spec_batch_bounds(
                i,
                count,
                batch_size,
            )).0 < spec_batch_bounds(i, count, batch_size).1 <= count,
        forall|i: int|
            0 <= i && i + 1 < spec_batch_count(count, batch_size) ==> (#[trigger] spec_batch_bounds(
                i,
                count,
                batch_size,
            )).1 == spec_batch_bounds(i + 1, count, batch_size).0,
        count > 0 ==> spec_batch_bounds(
            spec_batch_count(count, batch_size) - 1,
            count,
            batch_size,
        ).1 == count,
        forall|j: int|
            0 <= j < count ==> ({
                let i = #[trigger] (j / batch_size);
                &&& 0 <= i < spec_batch_count(count, batch_size)
                &&& spec_batch_bounds(i, count, batch_size).0 <= j < spec_batch_bounds(
                    i,
                    count,
                    batch_size,
                ).1
            }),
{
    let b = batch_size;
    let c = count;
    let q = c / b;
    let rm = c % b;
    lemma_fundamental_div_mod(c, b);
    lemma_mod_bound(c, b);
    let bc = spec_batch_count(c, b);
    assert(bc == 0 <==> c == 0) by (nonlinear_arith)
        requires
            b >= 1,
            c == b * q + rm,
            0 <= rm < b,
            bc == q + (if rm == 0 { 0int } else { 1int }),
            q >= 0,
    ;
    assert forall|i: int| 0 <= i < bc implies (#[trigger] spec_batch_bounds(i, c, b)).0
        < spec_batch_bounds(i, c, b).1 <= c by {
        lemma_batch_in_range(i, c, b);
    }
    assert forall|i: int| 0 <= i && i + 1 < bc implies (#[trigger] spec_batch_bounds(i, c, b)).1
        == spec_batch_bounds(i + 1, c, b).0 by {
        lemma_batch_in_range(i, c, b);
        lemma_batch_in_range(i + 1, c, b);
    }
    assert forall|j: int| 0 <= j < c implies ({
        let i = #[trigger] (j / b);
        &&& 0 <= i < bc
        &&& spec_batch_bounds(i, c, b).0 <= j < spec_batch_bounds(i, c, b).1
    }) by {
        let i = j / b;
        lemma_fundamental_div_mod(j, b);
        lemma_mod_bound(j, b);
        assert(i * b <= j < i * b + b) by (nonlinear_arith)
            requires
                j == b * i + j % b,
                0 <= j % b < b,
        ;
        assert(i >= 0) by (nonlinear_arith)
            requires
                i * b <= j,
                j >= 0,
                b >= 1,
                i * b + b > j,
        ;
        assert(i < bc) by (nonlinear_arith)
            requires
                b >= 1,
                i * b <= j < c,
                c == b * q + rm,
                0 <= rm < b,
                bc == q + (if rm == 0 { 0int } else { 1int }),
                i >= 0,
        ;
    }
    if c > 0 {
        lemma_batch_in_range(bc - 1, c, b);
        assert((bc - 1) * b + b >= c) by (nonlinear_arith)
            requires
                b >= 1,
                c == b * q + rm,
                0 <= rm < b,
                bc == q + (if rm == 0 { 0int } else { 1int }),
        ;
    }
}

/// The nonce of the whole campaign's slot `j`, built group by group from
/// `nonce0`: slot `j` falls in exactly group `j / batch_size`, at offset
/// `j - start` within it, and `build_batch` gives that slot the nonce
/// `(nonce0 + start) + (j - start) == nonce0 + j`; so the nonces of the
/// whole run are exactly `nonce0 .. nonce0 + count`, without gaps or
/// duplicates.
pub proof fn lemma_run_nonces(count: int, batch_size: int, nonce0: int, j: int)
    requires
        batch_size >= 1,
        0 <= j < count,
    ensures
        ({
            let i = j / batch_size;
            let b = spec_batch_bounds(i, count, batch_size);
            &&& 0 <= i < spec_batch_count(count, batch_size)
            &&& b.0 <= j < b.1
            &&& nonce0 + b.0 + (j - b.0) == nonce0 + j
        }),
{
    lemma_batch_partition(count, batch_size);
}

/// The 1-based index of slot `k` of group `i` across the whole campaign,
/// as the dispatcher reports each response.
pub fn absolute_index(i: u64, batch_size: u64, k: u64) -> (r: u64)
    requires
        i * batch_size + k + 1 <= u64::MAX,
        i * batch_size >= 0,
    ensures
        r == i * batch_size + k + 1,
{
    proof {
        assert(i * batch_size <= i * batch_size + k + 1) by (nonlinear_arith)
            requires
                k >= 0,
        ;
    }
    i * batch_size + k + 1
}

/// Why a group could not be built: the raw-hex template is not valid hex,
/// or the signer refused the key.
#[derive(Debug)]
pub enum BuildError {
    BadPayload,
    Sign(ethers::signers::WalletError),
}

/// The signed raw transaction of the `k`-th expansion of `c`, at the given
/// nonce: the payload is the hex-decoded `k`-th hex text, and the
/// transaction shape follows the gas price's mode.
pub open spec fn raw_tx_for(
    c: Config,
    g: GasPrice,
    key: Seq<u8>,
    chain_id: u64,
    to: Seq<u8>,
    nonce: u64,
    k: nat,
) -> Seq<u8> {
    let data = hex_decode_bytes(strip_0x(payload_at(c, k)));
    if g.eip1559 {
        eip1559_raw_tx(
            key,
            chain_id,
            to,
            g.value,
            g.max_fee_per_gas,
            g.max_priority_fee_per_gas,
            c.gas_limit,
            nonce,
            data,
        )
    } else {
        legacy_raw_tx(key, chain_id, to, g.value, g.max_fee_per_gas, c.gas_limit, nonce, data)
    }
}

/// Every hex text the expansion produces decodes back to bytes: either the
/// template is not raw hex (the engine's own encoding round-trips), or it
/// is and must itself be valid hex.
pub open spec fn payload_decodable(c: Config) -> bool {
    data_is_raw_hex(c) ==> valid_hex_body(strip_0x(c.data@))
}

/// Whether the signer fails on the `k`-th slot of `c` at the given nonce:
/// signing is deterministic, so this is fixed by the arguments (the signer
/// rejects exactly an invalid key scalar).
pub open spec fn slot_sign_fails(
    c: Config,
    g: GasPrice,
    key: Seq<u8>,
    chain_id: u64,
    to: Seq<u8>,
    nonce: u64,
    k: nat,
) -> bool {
    let data = hex_decode_bytes(strip_0x(payload_at(c, k)));
    if g.eip1559 {
        eip1559_sign_fails(
            key,
            chain_id,
            to,
            g.value,
            g.max_fee_per_gas,
            g.max_priority_fee_per_gas,
            c.gas_limit,
            nonce,
            data,
        )
    } else {
        legacy_sign_fails(key, chain_id, to, g.value, g.max_fee_per_gas, c.gas_limit, nonce, data)
    }
}

/// Builds the signed raw transactions of one group, slots `[start, end)`:
/// one transaction per slot, each carrying the next expansion of the
/// template and the next nonce, hex-encoded for the wire.
pub fn build_batch(
    config: &mut Config,
    gas_price: &GasPrice,
    key: &Vec<u8>,
    chain_id: u64,
    to: &Vec<u8>,
    nonce: &mut u64,
    start: u64,
    end: u64,
) -> (r: Result<Vec<Vec<u8>>, BuildError>)
    requires
        start <= end,
        *old(nonce) + (end - start) <= u64::MAX,
        key@.len() == 32,
        to@.len() == 20,
        chain_id <= (u64::MAX - 36) / 2,
        expansions_ok(*old(config), (end - start) as nat),
    ensures
        r is Ok <==> (start == end || (payload_decodable(*old(config)) && forall|k: int|
            0 <= k < end - start ==> !(#[trigger] slot_sign_fails(
                *old(config),
                *gas_price,
                key@,
                chain_id,
                to@,
                (*old(nonce) + k) as u64,
                k as nat,
            )))),
        r matches Ok(v) ==> ({
            &&& v@.len() == end - start
            &&& *final(nonce) == *old(nonce) + (end - start)
            &&& *final(config) == config_after(*old(config), (end - start) as nat)
            &&& forall|k: int|
                0 <= k < v@.len() ==> (#[trigger] v@[k])@ == seq![48u8, 120u8] + hex_of(
                    raw_tx_for(
                        *old(config),
                        *gas_price,
                        key@,
                        chain_id,
                        to@,
                        (*old(nonce) + k) as u64,
                        k as nat,
                    ),
                )
        }),
        r is Err ==> *old(nonce) <= *final(nonce) <= *old(nonce) + (end - start),
        (r matches Err(e) && e is BadPayload) <==> (start < end && !payload_decodable(
            *old(config),
        )),
{
    let n = end - start;
    let mut out: Vec<Vec<u8>> = Vec::new();
    let mut j: u64 = 0;
    while j < n
        invariant
            0 <= j <= n,
            n == end - start,
            *old(nonce) + n <= u64::MAX,
            *nonce == *old(nonce) + j,
            key@.len() == 32,
            to@.len() == 20,
            chain_id <= (u64::MAX - 36) / 2,
            *config == config_after(*old(config), j as nat),
            expansions_ok(*old(config), n as nat),
            out@.len() == j,
            j > 0 ==> payload_decodable(*old(config)),
            forall|k: int|
                0 <= k < j ==> !(#[trigger] slot_sign_fails(
                    *old(config),
                    *gas_price,
                    key@,
                    chain_id,
                    to@,
                    (*old(nonce) + k) as u64,
                    k as nat,
                )),
            forall|k: int|
                0 <= k < j ==> (#[trigger] out@[k])@ == seq![48u8, 120u8] + hex_of(
                    raw_tx_for(
                        *old(config),
                        *gas_price,
                        key@,
                        chain_id,
                        to@,
                        (*old(nonce) + k) as u64,
                        k as nat,
                    ),
                ),
        decreases n - j,
    {
        proof {
            lemma_expansions_still_ok(*old(config), j as nat, n as nat);
        }
        let hex_text = config.get_hex_text();
        proof {
            lemma_config_after_step(*old(config), j as nat);
            assert(hex_text@ == payload_at(*old(config), j as nat));
        }
        let data = match hex::decode_hex(&hex_text) {
            Ok(d) => d,
            Err(_) => {
                proof {
                    if !data_is_raw_hex(*old(config)) {
                        hex::lemma_hex_round_trip_prefixed(
                            config_after(*old(config), j as nat).prefix@ + crate::config::expanded_text(
                                config_after(*old(config), j as nat),
                            ),
                        );
                        assert(false);
                    }
                    assert(payload_at(*old(config), j as nat) == old(config).data@);
                }
                return Err(BuildError::BadPayload);
            },
        };
        proof {
            if data_is_raw_hex(*old(config)) {
                assert(payload_at(*old(config), j as nat) == old(config).data@);
                assert(payload_decodable(*old(config)));
            } else {
                assert(payload_decodable(*old(config)));
            }
        }
        let raw = if gas_price.eip1559 {
            sign::sign_eip1559(
                key,
                chain_id,
                to,
                gas_price.value,
                gas_price.max_fee_per_gas,
                gas_price.max_priority_fee_per_gas,
                config.gas_limit,
                *nonce,
                &data,
            )
        } else {
            sign::sign_legacy(
                key,
                chain_id,
                to,
                gas_price.value,
                gas_price.max_fee_per_gas,
                config.gas_limit,
                *nonce,
                &data,
            )
        };
        let raw = match raw {
            Ok(b) => b,
            Err(e) => {
                proof {
                    assert(config.gas_limit == old(config).gas_limit);
                    assert(slot_sign_fails(
                        *old(config),
                        *gas_price,
                        key@,
                        chain_id,
                        to@,
                        (*old(nonce) + j) as u64,
                        j as nat,
                    ));
                }
                return Err(BuildError::Sign(e));
            },
        };
        let wire = hex::hex_encode_prefixed(&raw);
        out.push(wire);
        *nonce = *nonce + 1;
        j = j + 1;
    }
    Ok(out)
}

/// Advancing `j` of the `n` allowed steps leaves one more step allowed
/// while `j < n`.
proof fn lemma_expansions_still_ok(c: Config, j: nat, n: nat)
    requires
        j < n,
        expansions_ok(c, n),
    ensures
        expansions_ok(config_after(c, j), 1),
        !data_is_raw_hex(config_after(c, j)) && config_after(c, j).id is Some ==> crate::ids::advance_ok(
            config_after(c, j).id->Some_0,
            1,
        ),
{
    if !data_is_raw_hex(c) {
        match c.id {
            Some(id) => {
                if id.ascending() {
                    crate::ids::lemma_ascending_sequence(id, j);
                } else {
                    crate::ids::lemma_descending_sequence(id, j);
                }
            },
            None => {},
        }
    }
}

/// One more advance after `j` advances is the same as `j + 1` advances.
proof fn lemma_config_after_step(c: Config, j: nat)
    ensures
        !data_is_raw_hex(config_after(c, j)) ==> crate::config::advance_config(
            config_after(c, j),
        ) == config_after(c, (j + 1) as nat),
        data_is_raw_hex(config_after(c, j)) ==> config_after(c, j) == config_after(
            c,
            (j + 1) as nat,
        ),
        data_is_raw_hex(config_after(c, j)) == data_is_raw_hex(c),
{
    assert(config_after(c, j).data == c.data);
    if !data_is_raw_hex(c) {
        match c.id {
            Some(id) => {
                assert(crate::ids::advanced_n(id, (j + 1) as nat) == crate::ids::advanced(
                    crate::ids::advanced_n(id, j),
                ));
            },
            None => {},
        }
    }
}

} // verus!
