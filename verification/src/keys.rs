//! Signing keys and ECDSA over secp256k1.

use crate::error::Error;
use crate::hash::{double_hash, double_hash_spec};
use vstd::prelude::*;

verus! {

/// The most bytes a DER signature takes.
pub const MAX_DER_SIGNATURE_SIZE: usize = 72;

/// The bytes of a compressed public key.
pub const PUBLIC_KEY_SIZE: usize = 33;

/// Whether `secret` is accepted by `secp256k1::SecretKey::from_slice`:
/// 32 bytes that form a non-zero scalar below the curve order.
pub uninterp spec fn secret_key_valid(secret: Seq<u8>) -> bool;

/// The compressed serialization of the public key that belongs to `secret`.
pub uninterp spec fn public_key_of(secret: Seq<u8>) -> Seq<u8>;

/// The DER bytes of the deterministic (RFC 6979) ECDSA signature by
/// `secret` over the 32-byte `digest`.
pub uninterp spec fn ecdsa_signature(secret: Seq<u8>, digest: Seq<u8>) -> Seq<u8>;

/// Whether the DER signature `der` verifies for `digest` under the
/// serialized public key `pubkey`; false when either fails to parse.
pub uninterp spec fn ecdsa_verifies(pubkey: Seq<u8>, digest: Seq<u8>, der: Seq<u8>) -> bool;

/// Calls `secp256k1::SecretKey::from_slice`. Trusted: reports whether the
/// bytes were accepted as a secret key.
#[verifier::external_body]
pub(crate) fn check_secret_key(secret: &[u8]) -> (ok: bool)
    ensures
        ok == secret_key_valid(secret@),
{
    secp256k1::SecretKey::from_slice(secret).is_ok()
}

/// Calls `secp256k1::PublicKey::from_secret_key` and serializes the result
/// in compressed form. Trusted: the 33 bytes depend on the secret alone.
#[verifier::external_body]
pub(crate) fn derive_public_key(secret: &[u8; 32]) -> (pubkey: [u8; 33])
    requires
        secret_key_valid(secret@),
    ensures
        pubkey@ == public_key_of(secret@),
{
    let sk = secp256k1::SecretKey::from_slice(secret).unwrap();
    let secp = secp256k1::Secp256k1::signing_only();
    secp256k1::PublicKey::from_secret_key(&secp, &sk).serialize()
}

/// Calls `secp256k1::Secp256k1::sign_ecdsa`, which uses the RFC 6979 nonce
/// and yields a low-S signature, and serializes it as DER. Trusted: the
/// bytes depend on the secret and the digest alone, and are at most the 72
/// that the library's serialized-signature buffer holds.
#[verifier::external_body]
pub(crate) fn ecdsa_sign(secret: &[u8; 32], digest: &[u8; 32]) -> (der: Vec<u8>)
    requires
        secret_key_valid(secret@),
    ensures
        der@ == ecdsa_signature(secret@, digest@),
        der@.len() <= MAX_DER_SIGNATURE_SIZE,
{
    let sk = secp256k1::SecretKey::from_slice(secret).unwrap();
    let msg = secp256k1::Message::from_digest(*digest);
    let secp = secp256k1::Secp256k1::signing_only();
    secp.sign_ecdsa(&msg, &sk).serialize_der().to_vec()
}

/// Calls `secp256k1::Secp256k1::verify_ecdsa` on the parsed key and
/// signature. Trusted: the answer depends on the three byte strings alone,
/// and is false when the key or the signature does not parse.
#[verifier::external_body]
pub(crate) fn ecdsa_verify(pubkey: &[u8], digest: &[u8; 32], der: &[u8]) -> (ok: bool)
    ensures
        ok == ecdsa_verifies(pubkey@, digest@, der@),
{
    let pk = match secp256k1::PublicKey::from_slice(pubkey) {
        Ok(pk) => pk,
        Err(_) => return false,
    };
    let sig = match secp256k1::ecdsa::Signature::from_der(der) {
        Ok(sig) => sig,
        Err(_) => return false,
    };
    let msg = secp256k1::Message::from_digest(*digest);
    secp256k1::Secp256k1::verification_only().verify_ecdsa(&msg, &sig, &pk).is_ok()
}

/// Whether `secret` can serve as a signing key: 32 bytes that the curve
/// library accepts.
pub open spec fn secret_usable(secret: Seq<u8>) -> bool {
    secret.len() == 32 && secret_key_valid(secret)
}

/// Whether signing `digest` with `secret` gives a signature of at most 72
/// bytes that verifies under the 33-byte public key of `secret`.
pub open spec fn signature_sound(secret: Seq<u8>, digest: Seq<u8>) -> bool {
    let pubkey = public_key_of(secret);
    let der = ecdsa_signature(secret, digest);
    pubkey.len() == PUBLIC_KEY_SIZE && der.len() <= MAX_DER_SIGNATURE_SIZE && ecdsa_verifies(
        pubkey,
        digest,
        der,
    )
}

/// A secret key that the curve library has accepted.
pub struct SigningKey {
    secret: [u8; 32],
}

impl View for SigningKey {
    type V = Seq<u8>;

    /// The 32 secret bytes.
    closed spec fn view(&self) -> Seq<u8> {
        self.secret@
    }
}

impl SigningKey {
    #[verifier::type_invariant]
    spec fn accepted(self) -> bool {
        secret_key_valid(self.secret@)
    }

    /// The key of the given secret bytes; `None` exactly when they are not
    /// 32 bytes that the curve library accepts.
    pub fn from_secret(secret: &[u8]) -> (key: Option<SigningKey>)
        ensures
            match key {
                Some(k) => secret_usable(secret@) && k@ == secret@,
                None => !secret_usable(secret@),
            },
    {
        if secret.len() != 32 {
            return None;
        }
        if !check_secret_key(secret) {
            return None;
        }
        let mut bytes = [0u8; 32];
        let mut i: usize = 0;
        while i < 32
            invariant
                i <= 32,
                secret.len() == 32,
                forall|j: int| 0 <= j < i ==> bytes@[j] == secret@[j],
            decreases 32 - i,
        {
            bytes[i] = secret[i];
            i += 1;
        }
        assert(bytes@ =~= secret@);
        Some(SigningKey { secret: bytes })
    }

    /// The compressed public key that belongs to this key.
    pub fn public_key(&self) -> (pubkey: [u8; 33])
        ensures
            pubkey@ == public_key_of(self@),
    {
        proof {
            use_type_invariant(self);
        }
        derive_public_key(&self.secret)
    }

    /// Signs a 32-byte digest and checks the signature against the key's
    /// own public key before handing it out. Fails with
    /// `SignatureInvalid` exactly when that check fails.
    pub fn sign_digest(&self, digest: &[u8; 32]) -> (r: Result<Vec<u8>, Error>)
        ensures
            match r {
                Ok(der) => der@ == ecdsa_signature(self@, digest@) && signature_sound(
                    self@,
                    digest@,
                ),
                Err(e) => e == Error::SignatureInvalid && !signature_sound(self@, digest@),
            },
    {
        proof {
            use_type_invariant(self);
        }
        let der = ecdsa_sign(&self.secret, digest);
        let pubkey = derive_public_key(&self.secret);
        if ecdsa_verify(pubkey.as_slice(), digest, der.as_slice()) {
            Ok(der)
        } else {
            Err(Error::SignatureInvalid)
        }
    }

    /// Signs the double hash of `preimage`.
    pub fn sign(&self, preimage: &[u8]) -> (r: Result<Vec<u8>, Error>)
        ensures
            match r {
                Ok(der) => der@ == ecdsa_signature(self@, double_hash_spec(preimage@))
                    && signature_sound(self@, double_hash_spec(preimage@)),
                Err(e) => e == Error::SignatureInvalid && !signature_sound(
                    self@,
                    double_hash_spec(preimage@),
                ),
            },
    {
        let digest = double_hash(preimage);
        self.sign_digest(&digest)
    }
}

} // verus!
