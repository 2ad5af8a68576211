//! Script interpreter and transaction construction/signing engine for a
//! UTXO wallet: wire codec, hashing, script model, stack machine,
//! transaction model, signature hashing and signing.

pub mod address;
pub mod builder;
pub mod codec;
pub mod error;
pub mod guarantees;
pub mod hash;
pub mod interpreter;
pub mod keys;
pub mod number;
pub mod opcode;
pub mod payment;
pub mod script;
pub mod sighash;
pub mod tx;
