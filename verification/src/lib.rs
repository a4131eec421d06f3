//! Batch transmitter core for EVM inscription campaigns: payload templating
//! with an advancing numeric identifier, hex encoding of payloads, decimal
//! unit conversion, batch partitioning with contiguous nonce assignment, and
//! locally signed raw-transaction construction.

pub mod batch;
pub mod config;
pub mod hex;
pub mod ids;
pub mod rpc;
pub mod sign;
pub mod template;
pub mod units;
pub mod wallets;

pub use batch::{absolute_index, batch_bounds, batch_count, build_batch, BuildError};
pub use config::{
    default_batch_size, default_gas_limit, default_interval, default_prefix, default_value,
    Config, ConfigError, GasPrice,
};
pub use hex::{decode_hex, hex_encode_prefixed, HexError};
pub use ids::{process_id, u64_to_dec, Id};
pub use rpc::batch_request_body;
pub use sign::derive_address;
pub use units::{parse_units, UnitsError};
pub use wallets::execution_addresses;
