//! Maps a destination address to its locking script and back.

use crate::error::Error;
use crate::script::{pay_to_key_hash_lock, pay_to_key_hash_lock_ops, Script, ScriptOpView};
use vstd::prelude::*;

verus! {

/// The type tag that an address carries.
#[derive(Clone, Copy, Debug, PartialEq, Eq, Structural)]
pub enum AddressType {
    /// Pays to the holder of the key with the given fingerprint.
    PayToKeyHash,
    /// Pays to whoever presents the script with the given fingerprint.
    PayToScriptHash,
}

/// A decoded destination: a type tag and a 20-byte fingerprint.
#[derive(Clone, Copy, Debug, PartialEq, Eq)]
pub struct Address {
    pub kind: AddressType,
    pub hash: [u8; 20],
}

/// The ops of the locking script for an address of the given type and
/// fingerprint; only pay-to-key-hash has one.
pub open spec fn locking_ops_for(kind: AddressType, hash: Seq<u8>) -> Result<
    Seq<ScriptOpView>,
    Error,
> {
    match kind {
        AddressType::PayToKeyHash => Ok(pay_to_key_hash_lock_ops(hash)),
        AddressType::PayToScriptHash => Err(Error::UnsupportedAddressType),
    }
}

/// The locking script that pays to `address`. Fails with
/// `UnsupportedAddressType` exactly when the address is not pay-to-key-hash.
pub fn locking_script_for(address: &Address) -> (r: Result<Script, Error>)
    ensures
        match r {
            Ok(script) => locking_ops_for(address.kind, address.hash@) == Ok::<
                Seq<ScriptOpView>,
                Error,
            >(script@) && script.wf(),
            Err(e) => locking_ops_for(address.kind, address.hash@) == Err::<
                Seq<ScriptOpView>,
                Error,
            >(e),
        },
{
    match address.kind {
        AddressType::PayToKeyHash => Ok(pay_to_key_hash_lock(&address.hash)),
        AddressType::PayToScriptHash => Err(Error::UnsupportedAddressType),
    }
}

/// The address that `script` pays to; `None` exactly when the script is
/// not a pay-to-key-hash lock for a 20-byte fingerprint.
pub fn address_for(script: &Script) -> (r: Option<Address>)
    ensures
        match r {
            Some(address) => address.kind == AddressType::PayToKeyHash && script@
                == pay_to_key_hash_lock_ops(address.hash@),
            None => forall|h: Seq<u8>|
                h.len() == 20 ==> script@ != #[trigger] pay_to_key_hash_lock_ops(h),
        },
{
    match script.as_pay_to_key_hash() {
        Some(hash) => Some(Address { kind: AddressType::PayToKeyHash, hash }),
        None => None,
    }
}

/// The pay-to-key-hash ops name their fingerprint: two of them are equal
/// only for equal fingerprints.
pub proof fn lemma_lock_names_hash(first: Seq<u8>, second: Seq<u8>)
    requires
        pay_to_key_hash_lock_ops(first) == pay_to_key_hash_lock_ops(second),
    ensures
        first == second,
{
    let a = pay_to_key_hash_lock_ops(first);
    let b = pay_to_key_hash_lock_ops(second);
    assert(a[2] == ScriptOpView::PushBytes(first));
    assert(b[2] == ScriptOpView::PushBytes(second));
}

} // verus!
