//! Ciphertext container and decryption dispatch for time-lock encryption
//! over BLS signatures.

pub mod ciphertext;
pub mod codec;
pub mod scheme;
pub mod varint;

pub use ciphertext::{select_signature, TimeCryptCiphertext, TimeCryptPairing};
pub use codec::{decode_fields, encode_fields, DecodeError, WireFields};
pub use scheme::{Signature, SignatureSchemes};
