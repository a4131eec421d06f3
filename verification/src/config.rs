//! The per-account campaign configuration and the template engine driving
//! it: expansion to hex payloads, identifier advancement, gas price
//! initialization, and per-account preparation.

use vstd::prelude::*;
use crate::hex;
use crate::hex::{hex_of, hex_decode_bytes, strip_0x, valid_hex_body};
use crate::ids;
use crate::ids::{advance_ok, advanced, advanced_n, dec_str, Id};
use crate::template;
use crate::template::{addr_pat, replace_all};
use crate::units::{dec_scaled, dec_wf, UnitsError};

verus! {

/// The campaign configuration of one account. Textual fields hold UTF-8
/// bytes; fee, value and interval fields hold decimal text.
#[derive(Debug)]
pub struct Config {
    pub prefix: Vec<u8>,
    pub rpc_url: Vec<u8>,
    pub private_key: Vec<u8>,
    pub address: Vec<u8>,
    pub to_address: Option<Vec<u8>>,
    pub max_fee_per_gas: Vec<u8>,
    pub max_priority_fee_per_gas: Option<Vec<u8>>,
    pub gas_limit: u64,
    pub count: u64,
    pub data: Vec<u8>,
    pub hex_text: Option<Vec<u8>>,
    pub id: Option<Id>,
    pub value: Vec<u8>,
    pub batch_size: u64,
    pub interval: Vec<u8>,
}

/// Wei amounts for one account, converted once from the decimal text.
#[derive(Debug)]
pub struct GasPrice {
    pub eip1559: bool,
    pub max_fee_per_gas: u128,
    pub max_priority_fee_per_gas: u128,
    pub value: u128,
}

pub fn default_prefix() -> (r: Vec<u8>)
    ensures
        r@ == seq![100u8, 97u8, 116u8, 97u8, 58u8, 44u8],
{
    let mut out: Vec<u8> = Vec::new();
    out.push(100);
    out.push(97);
    out.push(116);
    out.push(97);
    out.push(58);
    out.push(44);
    proof {
        assert(out@ =~= seq![100u8, 97u8, 116u8, 97u8, 58u8, 44u8]);
    }
    out
}

pub fn default_gas_limit() -> (r: u64)
    ensures
        r == 50000,
{
    50000
}

pub fn default_value() -> (r: Vec<u8>)
    ensures
        r@ == seq![48u8],
{
    let mut out: Vec<u8> = Vec::new();
    out.push(48);
    proof {
        assert(out@ =~= seq![48u8]);
    }
    out
}

pub fn default_batch_size() -> (r: u64)
    ensures
        r == 100,
{
    100
}

pub fn default_interval() -> (r: Vec<u8>)
    ensures
        r@ == seq![48u8],
{
    let mut out: Vec<u8> = Vec::new();
    out.push(48);
    proof {
        assert(out@ =~= seq![48u8]);
    }
    out
}

/// The template is an already-hex-encoded opaque payload: it begins with
/// the literal `0x`, and templating and the prefix are suppressed.
pub open spec fn data_is_raw_hex(c: Config) -> bool {
    c.data@.len() >= 2 && c.data@[0] == 48u8 && c.data@[1] == 120u8
}

/// One expansion of the template: every `[address]` replaced by the sender
/// address, then, when an identifier is present, every occurrence of its
/// marker replaced by the identifier's decimal text.
pub open spec fn expanded_text(c: Config) -> Seq<u8> {
    let t1 = replace_all(c.data@, addr_pat(), c.address@);
    match c.id {
        Some(id) => replace_all(t1, id.match_id@, dec_str(id.id as nat)),
        None => t1,
    }
}

/// The hex payload of one expansion: the raw template when it is already
/// hex, else `0x` plus the hex of prefix-plus-expansion.
pub open spec fn hex_output(c: Config) -> Seq<u8> {
    if data_is_raw_hex(c) {
        c.data@
    } else {
        seq![48u8, 120u8] + hex_of(c.prefix@ + expanded_text(c))
    }
}

/// The configuration after one advance of its identifier, if it has one.
pub open spec fn advance_config(c: Config) -> Config {
    match c.id {
        Some(id) => Config { id: Some(advanced(id)), ..c },
        None => c,
    }
}

/// The configuration after `k` calls of `get_hex_text`: a raw-hex template
/// never advances; otherwise the identifier has advanced `k` times.
pub open spec fn config_after(c: Config, k: nat) -> Config {
    if data_is_raw_hex(c) {
        c
    } else {
        match c.id {
            Some(id) => Config { id: Some(advanced_n(id, k)), ..c },
            None => c,
        }
    }
}

/// The hex payload of the `k`-th expansion (0-based) of a configuration.
pub open spec fn payload_at(c: Config, k: nat) -> Seq<u8> {
    hex_output(config_after(c, k))
}

/// The identifier can advance `n` more times without leaving `u64`; a
/// raw-hex template or an absent identifier never advances.
pub open spec fn expansions_ok(c: Config, n: nat) -> bool {
    data_is_raw_hex(c) || match c.id {
        Some(id) => advance_ok(id, n),
        None => true,
    }
}

/// Why per-account preparation fails: a recipient address that is not
/// twenty bytes of hex, or an empty template.
#[derive(Clone, Copy, Debug, PartialEq, Eq, Structural)]
pub enum ConfigError {
    BadToAddress,
    EmptyData,
}

/// The recipient text that must be parsed: present and nonempty.
pub open spec fn to_addr_source(c: Config) -> Option<Seq<u8>> {
    match c.to_address {
        Some(t) => if t@.len() > 0 {
            Some(t@)
        } else {
            None
        },
        None => None,
    }
}

/// A present recipient parses as hex text denoting twenty bytes.
pub open spec fn to_addr_ok(c: Config) -> bool {
    match to_addr_source(c) {
        Some(t) => valid_hex_body(strip_0x(t)) && hex_decode_bytes(strip_0x(t)).len() == 20,
        None => true,
    }
}

/// The canonical recipient text: the recipient re-encoded as lowercase
/// `0x` hex, or the sender when absent or empty.
pub open spec fn canonical_to(c: Config, sender: Seq<u8>) -> Seq<u8> {
    match to_addr_source(c) {
        Some(t) => seq![48u8, 120u8] + hex_of(hex_decode_bytes(strip_0x(t))),
        None => sender,
    }
}

/// A decimal gwei setting that converts to wei within range.
pub open spec fn fee_ok(s: Seq<u8>) -> bool {
    dec_wf(s) && dec_scaled(s, 9) <= u128::MAX
}

/// A decimal ether setting that converts to wei within range.
pub open spec fn ether_ok(s: Seq<u8>) -> bool {
    dec_wf(s) && dec_scaled(s, 18) <= u128::MAX
}

/// The error a decimal setting draws: malformed text, else overflow.
pub open spec fn unit_err(s: Seq<u8>, decimals: nat) -> UnitsError {
    if !dec_wf(s) {
        UnitsError::Malformed
    } else {
        UnitsError::Overflow
    }
}

/// How many transactions this account will send: the requested count capped
/// by the identifier range of the template's marker.
pub open spec fn effective_count(c: Config) -> u64 {
    let rng: u64 = if ids::marker_yields_id(c.data@) {
        ids::marker_range(c.data@)
    } else {
        u64::MAX
    };
    if c.count < rng {
        c.count
    } else {
        rng
    }
}

/// Round trip of the wire form: for a templated payload, stripping the
/// `0x` prefix off the hex output and decoding it gives back exactly
/// prefix-plus-expansion; a raw-hex template is passed through as it is.
pub proof fn lemma_payload_round_trip(c: Config)
    requires
        !data_is_raw_hex(c),
    ensures
        valid_hex_body(strip_0x(hex_output(c))),
        hex_decode_bytes(strip_0x(hex_output(c))) == c.prefix@ + expanded_text(c),
{
    hex::lemma_hex_round_trip_prefixed(c.prefix@ + expanded_text(c));
}

/// The identifier substituted into the `k`-th expansion (0-based): an
/// ascending identifier seeded at `s` puts `s + k` into expansion `k`, so
/// the `k`-th transaction (1-based) carries `s + k - 1`; a descending one
/// puts `s - k` there.
pub proof fn lemma_kth_expansion_text(c: Config, k: nat)
    requires
        !data_is_raw_hex(c),
        c.id is Some,
        ids::advance_ok(c.id->Some_0, k),
    ensures
        ({
            let id = c.id->Some_0;
            let v: int = if id.ascending() {
                id.id + k
            } else {
                id.id - k
            };
            expanded_text(config_after(c, k)) == replace_all(
                replace_all(c.data@, addr_pat(), c.address@),
                id.match_id@,
                dec_str(v as nat),
            )
        }),
{
    let id = c.id->Some_0;
    if id.ascending() {
        ids::lemma_ascending_sequence(id, k);
    } else {
        ids::lemma_descending_sequence(id, k);
    }
}

fn addr_pat_vec() -> (r: Vec<u8>)
    ensures
        r@ == addr_pat(),
{
    let mut out: Vec<u8> = Vec::new();
    out.push(91);
    out.push(97);
    out.push(100);
    out.push(100);
    out.push(114);
    out.push(101);
    out.push(115);
    out.push(115);
    out.push(93);
    proof {
        assert(out@ =~= addr_pat());
    }
    out
}

impl Config {
    /// Overwrites the current identifier value, keeping its bounds and
    /// marker text.
    pub fn set_id(&mut self, new_id: u64)
        requires
            old(self).id is Some,
        ensures
            final(self).id == Some(Id { id: new_id, ..old(self).id->Some_0 }),
            *final(self) == (Config { id: final(self).id, ..*old(self) }),
    {
        let mut tmp: Option<Id> = None;
        core::mem::swap(&mut self.id, &mut tmp);
        match tmp {
            Some(mut id) => {
                id.id = new_id;
                self.id = Some(id);
            },
            None => {
                proof {
                    assert(false);
                }
            },
        }
    }

    /// Advances the identifier one step in its direction.
    fn auto_set_id(&mut self)
        requires
            old(self).id is Some,
            advance_ok(old(self).id->Some_0, 1),
        ensures
            *final(self) == advance_config(*old(self)),
    {
        let (asc, cur) = match &self.id {
            Some(id) => (id.start_id.is_some(), id.id),
            None => (false, 0),
        };
        if asc {
            self.set_id(cur + 1);
        } else {
            self.set_id(cur - 1);
        }
    }

    /// One expansion of the template text, advancing the identifier when
    /// one is present.
    pub fn process_text(&mut self) -> (r: Vec<u8>)
        requires
            old(self).id matches Some(id) ==> advance_ok(id, 1),
        ensures
            r@ == expanded_text(*old(self)),
            *final(self) == advance_config(*old(self)),
    {
        let pat = addr_pat_vec();
        let t1 = template::replace_bytes(&self.data, &pat, &self.address);
        let t2: Option<Vec<u8>> = match &self.id {
            Some(id) => {
                let dec = ids::u64_to_dec(id.id);
                Some(template::replace_bytes(&t1, &id.match_id, &dec))
            },
            None => None,
        };
        match t2 {
            Some(t) => {
                self.auto_set_id();
                t
            },
            None => t1,
        }
    }

    /// The hex payload for the next transaction: the raw template verbatim
    /// when it is already hex (nothing advances), else the hex of
    /// prefix-plus-expansion, with the identifier advanced.
    pub fn get_hex_text(&mut self) -> (r: Vec<u8>)
        requires
            (!data_is_raw_hex(*old(self)) && old(self).id is Some) ==> advance_ok(
                old(self).id->Some_0,
                1,
            ),
        ensures
            r@ == hex_output(*old(self)),
            data_is_raw_hex(*old(self)) ==> *final(self) == *old(self),
            !data_is_raw_hex(*old(self)) ==> *final(self) == advance_config(*old(self)),
    {
        if self.data.len() >= 2 && self.data[0] == 48 && self.data[1] == 120 {
            template::copy_bytes(&self.data)
        } else {
            let expanded = self.process_text();
            let mut full = template::copy_bytes(&self.prefix);
            template::push_all(&mut full, &expanded);
            let r = hex::hex_encode_prefixed(&full);
            proof {
                assert(full@ == old(self).prefix@ + expanded_text(*old(self)));
            }
            r
        }
    }

    /// Prepares this configuration for one account's campaign: derives the
    /// identifier from the template's marker, caps the count by the
    /// marker's range, records the canonical sender address, canonicalizes
    /// the recipient (defaulting it to the sender when absent or empty),
    /// and rejects an unparseable recipient or an empty template, leaving
    /// the configuration untouched on rejection. Returns the identifier
    /// seed, for resetting the identifier after a preview expansion.
    pub fn prepare_account(&mut self, sender: &Vec<u8>) -> (r: Result<Option<u64>, ConfigError>)
        ensures
            r is Err ==> *final(self) == *old(self),
            r == Result::<Option<u64>, ConfigError>::Err(ConfigError::BadToAddress) <==> !to_addr_ok(
                *old(self),
            ),
            r == Result::<Option<u64>, ConfigError>::Err(ConfigError::EmptyData) <==> (to_addr_ok(
                *old(self),
            ) && old(self).data@.len() == 0),
            r matches Ok(seed) ==> ({
                &&& seed == (if ids::marker_yields_id(old(self).data@) {
                    Some(ids::marker_seed(old(self).data@))
                } else {
                    None::<u64>
                })
                &&& final(self).address@ == sender@
                &&& final(self).to_address matches Some(t) && t@ == canonical_to(
                    *old(self),
                    sender@,
                )
                &&& final(self).count == effective_count(*old(self))
                &&& (ids::marker_yields_id(old(self).data@) ==> ({
                    let t = old(self).data@;
                    &&& final(self).id matches Some(id)
                    &&& id.id == ids::marker_seed(t)
                    &&& id.start_id == ids::marker_start(t)
                    &&& id.end_id == ids::marker_end(t)
                    &&& id.match_id@ == ids::marker_text(t)
                }))
                &&& (!ids::marker_yields_id(old(self).data@) ==> final(self).id is None)
                &&& *final(self) == (Config {
                    address: final(self).address,
                    to_address: final(self).to_address,
                    count: final(self).count,
                    id: final(self).id,
                    ..*old(self)
                })
            }),
    {
        let to_canonical: Option<Vec<u8>> = match &self.to_address {
            Some(t) => {
                if t.len() == 0 {
                    None
                } else {
                    match hex::decode_hex(t) {
                        Ok(b) => {
                            if b.len() == 20 {
                                Some(hex::hex_encode_prefixed(&b))
                            } else {
                                return Err(ConfigError::BadToAddress);
                            }
                        },
                        Err(_) => {
                            return Err(ConfigError::BadToAddress);
                        },
                    }
                }
            },
            None => None,
        };
        let canonical: Vec<u8> = match to_canonical {
            Some(v) => v,
            None => template::copy_bytes(sender),
        };
        if self.data.len() == 0 {
            return Err(ConfigError::EmptyData);
        }
        let (id, seed, id_count) = ids::process_id(&self.data);
        self.id = id;
        self.count = if self.count < id_count {
            self.count
        } else {
            id_count
        };
        self.address = template::copy_bytes(sender);
        self.to_address = Some(canonical);
        Ok(seed)
    }

    /// Converts the decimal gwei and ether texts into wei once per account:
    /// gwei scaled by ten to the ninth, ether by ten to the eighteenth,
    /// fractions truncated toward zero. A missing priority fee selects
    /// legacy mode with a zero priority fee. The first setting that fails,
    /// in the order fee, priority fee, value, names the error.
    pub fn init_gas_price(&self) -> (r: Result<GasPrice, UnitsError>)
        ensures
            !fee_ok(self.max_fee_per_gas@) ==> r == Result::<GasPrice, UnitsError>::Err(
                unit_err(self.max_fee_per_gas@, 9),
            ),
            (fee_ok(self.max_fee_per_gas@) && (self.max_priority_fee_per_gas matches Some(p)
                && !fee_ok(p@))) ==> r == Result::<GasPrice, UnitsError>::Err(
                unit_err(self.max_priority_fee_per_gas->Some_0@, 9),
            ),
            (fee_ok(self.max_fee_per_gas@) && (self.max_priority_fee_per_gas matches Some(p) ==>
            fee_ok(p@)) && !ether_ok(self.value@)) ==> r == Result::<GasPrice, UnitsError>::Err(
                unit_err(self.value@, 18),
            ),
            r is Ok <==> ({
                &&& dec_wf(self.max_fee_per_gas@) && dec_scaled(self.max_fee_per_gas@, 9)
                    <= u128::MAX
                &&& (self.max_priority_fee_per_gas matches Some(p) ==> dec_wf(p@) && dec_scaled(
                    p@,
                    9,
                ) <= u128::MAX)
                &&& dec_wf(self.value@) && dec_scaled(self.value@, 18) <= u128::MAX
            }),
            r matches Ok(g) ==> ({
                &&& g.eip1559 == self.max_priority_fee_per_gas is Some
                &&& g.max_fee_per_gas == dec_scaled(self.max_fee_per_gas@, 9)
                &&& g.max_priority_fee_per_gas == (match self.max_priority_fee_per_gas {
                    Some(p) => dec_scaled(p@, 9),
                    None => 0,
                })
                &&& g.value == dec_scaled(self.value@, 18)
            }),
    {
        proof {
            crate::units::lemma_small_pow10_fits();
        }
        let max_fee_per_gas = match crate::units::parse_units(&self.max_fee_per_gas, 9) {
            Ok(v) => v,
            Err(e) => {
                return Err(e);
            },
        };
        let max_priority_fee_per_gas = match &self.max_priority_fee_per_gas {
            Some(p) => match crate::units::parse_units(p, 9) {
                Ok(v) => v,
                Err(e) => {
                    return Err(e);
                },
            },
            None => 0,
        };
        let value = match crate::units::parse_units(&self.value, 18) {
            Ok(v) => v,
            Err(e) => {
                return Err(e);
            },
        };
        Ok(
            GasPrice {
                eip1559: self.max_priority_fee_per_gas.is_some(),
                max_fee_per_gas,
                max_priority_fee_per_gas,
                value,
            },
        )
    }
}

} // verus!
