//! Text rendering for Soroban contracts.
//!
//! The core is a codec between 256-bit integers, held as 32 bytes with the
//! most significant first, and their decimal or hexadecimal text. It works
//! on fixed buffers alone: [`magnitude`] holds the arithmetic, [`sign`] the
//! two's-complement reading, [`decimal`] and [`hex`] the two notations.
//!
//! Around it stand the helpers that a render contract builds its output
//! with: [`bytes`] for joining, number formatting and JSON escaping,
//! [`markdown`], [`json`] and [`styles`] for the three output formats,
//! [`router`] for paths and [`registry`] for contract aliases. They work on
//! the host types of the Soroban SDK; [`host`] says what they rely on.

pub mod ascii;
pub mod bytes;
pub mod decimal;
pub mod error;
pub mod hex;
pub mod host;
pub mod json;
pub mod magnitude;
pub mod markdown;
pub mod parts;
pub mod prelude;
pub mod registry;
pub mod router;
pub mod sign;
pub mod styles;

pub use crate::decimal::{
    decode_i256_decimal, decode_u256_decimal, encode_i256_decimal, encode_u256_decimal,
};
pub use crate::error::DecodeError;
pub use crate::hex::{decode_i256_hex, decode_u256_hex, encode_i256_hex, encode_u256_hex};
