//! Local signing and RLP encoding of campaign transactions, through the
//! `ethers` signer. The signing scheme (RFC 6979 deterministic ECDSA over
//! secp256k1, keccak sighash) makes every raw transaction — and whether the
//! signer accepts the key at all — a function of the secret key and the
//! transaction fields alone, so the results are named rather than written
//! out. EIP-155 replay protection computes `v = chain_id * 2 + 35 + parity`
//! in plain 64-bit arithmetic, so every signing entry point asks for a
//! chain id that keeps that product in range.

use vstd::prelude::*;
use ethers::signers::Signer;

verus! {

#[verifier::external_type_specification]
#[verifier::external_body]
pub struct ExWalletError(ethers::signers::WalletError);

/// The twenty address bytes derived from a secp256k1 secret key: the tail
/// of the keccak hash of the public key.
pub uninterp spec fn address_of(key: Seq<u8>) -> Seq<u8>;

/// Whether the signer rejects the thirty-two key bytes: exactly when they
/// are no valid secp256k1 scalar (zero, or not below the group order).
pub uninterp spec fn derive_fails(key: Seq<u8>) -> bool;

/// The signed, RLP-encoded EIP-1559 transaction with the given fields,
/// wrapped in its type-2 envelope.
pub uninterp spec fn eip1559_raw_tx(
    key: Seq<u8>,
    chain_id: u64,
    to: Seq<u8>,
    value: u128,
    max_fee: u128,
    max_priority: u128,
    gas: u64,
    nonce: u64,
    data: Seq<u8>,
) -> Seq<u8>;

/// Whether signing the EIP-1559 transaction with the given fields fails:
/// deterministic signing makes this, too, a function of the arguments.
pub uninterp spec fn eip1559_sign_fails(
    key: Seq<u8>,
    chain_id: u64,
    to: Seq<u8>,
    value: u128,
    max_fee: u128,
    max_priority: u128,
    gas: u64,
    nonce: u64,
    data: Seq<u8>,
) -> bool;

/// The signed, RLP-encoded legacy transaction with the given fields, with
/// EIP-155 replay protection under the given chain id.
pub uninterp spec fn legacy_raw_tx(
    key: Seq<u8>,
    chain_id: u64,
    to: Seq<u8>,
    value: u128,
    gas_price: u128,
    gas: u64,
    nonce: u64,
    data: Seq<u8>,
) -> Seq<u8>;

/// Whether signing the legacy transaction with the given fields fails.
pub uninterp spec fn legacy_sign_fails(
    key: Seq<u8>,
    chain_id: u64,
    to: Seq<u8>,
    value: u128,
    gas_price: u128,
    gas: u64,
    nonce: u64,
    data: Seq<u8>,
) -> bool;

/// Relies on ethers' `Wallet::from_bytes`: with thirty-two key bytes it
/// cannot panic, it rejects exactly an invalid scalar, and the derived
/// address is a function of the key bytes alone — twenty bytes, the tail
/// of the keccak hash of the public key.
#[verifier::external_body]
pub fn derive_address(key: &Vec<u8>) -> (r: Result<Vec<u8>, ethers::signers::WalletError>)
    requires
        key@.len() == 32,
    ensures
        r is Ok <==> !derive_fails(key@),
        r matches Ok(a) ==> a@ == address_of(key@) && a@.len() == 20,
{
    let wallet = ethers::signers::Wallet::from_bytes(key.as_slice())?;
    Ok(wallet.address().as_bytes().to_vec())
}

/// Relies on ethers' `Wallet::sign_transaction_sync` and
/// `TypedTransaction::rlp_signed`: deterministic signing makes the raw
/// bytes — and whether signing fails at all — a function of the arguments,
/// and the type-2 envelope makes the first byte `2`. The chain id bound
/// keeps the EIP-155 `v = chain_id * 2 + 35 + parity` computation inside
/// `u64`, where the signer would otherwise panic.
#[verifier::external_body]
pub fn sign_eip1559(
    key: &Vec<u8>,
    chain_id: u64,
    to: &Vec<u8>,
    value: u128,
    max_fee: u128,
    max_priority: u128,
    gas: u64,
    nonce: u64,
    data: &Vec<u8>,
) -> (r: Result<Vec<u8>, ethers::signers::WalletError>)
    requires
        key@.len() == 32,
        to@.len() == 20,
        chain_id <= (u64::MAX - 36) / 2,
    ensures
        r is Ok <==> !eip1559_sign_fails(
            key@,
            chain_id,
            to@,
            value,
            max_fee,
            max_priority,
            gas,
            nonce,
            data@,
        ),
        r matches Ok(b) ==> b@ == eip1559_raw_tx(
            key@,
            chain_id,
            to@,
            value,
            max_fee,
            max_priority,
            gas,
            nonce,
            data@,
        ) && b@.len() > 0 && b@[0] == 2u8,
{
    let wallet = ethers::signers::Wallet::from_bytes(key.as_slice())?.with_chain_id(chain_id);
    let tx: ethers::types::transaction::eip2718::TypedTransaction =
        ethers::types::Eip1559TransactionRequest::new()
        .chain_id(chain_id).from(wallet.address())
        .to(ethers::types::Address::from_slice(to.as_slice()))
        .value(ethers::types::U256::from(value))
        .max_fee_per_gas(ethers::types::U256::from(max_fee))
        .max_priority_fee_per_gas(ethers::types::U256::from(max_priority))
        .gas(gas).nonce(nonce).data(data.clone()).access_list(vec![]).into();
    let sig = wallet.sign_transaction_sync(&tx)?;
    Ok(tx.rlp_signed(&sig).to_vec())
}

/// Relies on ethers' `Wallet::sign_transaction_sync` and
/// `TypedTransaction::rlp_signed`: deterministic signing makes the raw
/// bytes of the EIP-155-protected legacy transaction — and whether signing
/// fails at all — a function of the arguments alone. The chain id bound
/// keeps the EIP-155 `v` computation inside `u64`, where the signer would
/// otherwise panic.
#[verifier::external_body]
pub fn sign_legacy(
    key: &Vec<u8>,
    chain_id: u64,
    to: &Vec<u8>,
    value: u128,
    gas_price: u128,
    gas: u64,
    nonce: u64,
    data: &Vec<u8>,
) -> (r: Result<Vec<u8>, ethers::signers::WalletError>)
    requires
        key@.len() == 32,
        to@.len() == 20,
        chain_id <= (u64::MAX - 36) / 2,
    ensures
        r is Ok <==> !legacy_sign_fails(
            key@,
            chain_id,
            to@,
            value,
            gas_price,
            gas,
            nonce,
            data@,
        ),
        r matches Ok(b) ==> b@ == legacy_raw_tx(
            key@,
            chain_id,
            to@,
            value,
            gas_price,
            gas,
            nonce,
            data@,
        ) && b@.len() > 0,
{
    let wallet = ethers::signers::Wallet::from_bytes(key.as_slice())?.with_chain_id(chain_id);
    let tx: ethers::types::transaction::eip2718::TypedTransaction =
        ethers::types::TransactionRequest::new()
        .chain_id(chain_id).from(wallet.address())
        .to(ethers::types::Address::from_slice(to.as_slice()))
        .value(ethers::types::U256::from(value))
        .nonce(nonce).data(data.clone()).gas(gas)
        .gas_price(ethers::types::U256::from(gas_price)).into();
    let sig = wallet.sign_transaction_sync(&tx)?;
    Ok(tx.rlp_signed(&sig).to_vec())
}

} // verus!
