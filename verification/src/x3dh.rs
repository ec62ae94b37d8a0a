//! Pre-key bundles for the X3DH key agreement.
//!
//! A bundle carries the keys and the signature an enrollee needs: an
//! identity key, a signed prekey, the signature over that prekey, and a
//! one-time prekey. Its byte form is the plain concatenation of the four
//! parts, 160 bytes in all; parsing accepts exactly that length.

use vstd::prelude::*;
use crate::types::clone_bytes;

verus! {

/// The kind of key material a public key belongs to.
#[derive(Clone, Copy, PartialEq, Eq, Structural, Debug)]
pub enum SecretType {
    X25519,
}

/// A public key: its raw bytes and the kind of secret it belongs to.
#[derive(Debug)]
pub struct PublicKey {
    pub data: Vec<u8>,
    pub stype: SecretType,
}

impl PublicKey {
    pub fn new(data: Vec<u8>, stype: SecretType) -> (r: PublicKey)
        ensures
            r.data@ == data@,
            r.stype == stype,
    {
        PublicKey { data, stype }
    }

    /// The raw key bytes.
    pub fn data(&self) -> (r: &Vec<u8>)
        ensures
            r@ == self.data@,
    {
        &self.data
    }
}

/// Represents an (X)EdDSA or ECDSA signature from Ed25519 or P-256.
#[derive(Debug)]
pub struct Signature {
    pub bytes: Vec<u8>,
}

impl Signature {
    /// A signature is 64 bytes.
    pub open spec fn wf(&self) -> bool {
        self.bytes@.len() == 64
    }

    /// Accepts exactly 64 bytes.
    pub fn from_bytes(bytes: Vec<u8>) -> (r: Option<Signature>)
        ensures
            match r {
                Some(s) => bytes@.len() == 64 && s.bytes@ == bytes@ && s.wf(),
                None => bytes@.len() != 64,
            },
    {
        if bytes.len() == 64 {
            Some(Signature { bytes })
        } else {
            None
        }
    }

    /// The raw signature bytes.
    pub fn data(&self) -> (r: &Vec<u8>)
        ensures
            r@ == self.bytes@,
    {
        &self.bytes
    }
}

/// Why bundle bytes were refused.
#[derive(Clone, Copy, PartialEq, Eq, Structural, Debug)]
pub enum X3dhError {
    MessageLenMismatch,
}

/// Represents all the keys and signature to send to an enrollee.
#[derive(Debug)]
pub struct PreKeyBundle {
    pub identity_key: PublicKey,
    pub signed_prekey: PublicKey,
    pub signature_prekey: Signature,
    pub one_time_prekey: PublicKey,
}

/// The byte form of a bundle: the four parts, in order.
pub open spec fn bundle_bytes(b: &PreKeyBundle) -> Seq<u8> {
    b.identity_key.data@ + b.signed_prekey.data@ + b.signature_prekey.bytes@
        + b.one_time_prekey.data@
}

impl PreKeyBundle {
    /// Keys are 32 bytes each and the signature 64, so the byte form is
    /// 160 bytes.
    pub open spec fn wf(&self) -> bool {
        &&& self.identity_key.data@.len() == 32
        &&& self.signed_prekey.data@.len() == 32
        &&& self.signature_prekey.wf()
        &&& self.one_time_prekey.data@.len() == 32
    }

    /// Convert the prekey bundle to a byte array.
    pub fn to_bytes(&self) -> (r: Vec<u8>)
        ensures
            r@ == bundle_bytes(self),
            self.wf() ==> r@.len() == 160,
    {
        let mut output: Vec<u8> = Vec::new();
        output.extend_from_slice(self.identity_key.data.as_slice());
        output.extend_from_slice(self.signed_prekey.data.as_slice());
        output.extend_from_slice(self.signature_prekey.bytes.as_slice());
        output.extend_from_slice(self.one_time_prekey.data.as_slice());
        proof {
            assert(output@ =~= bundle_bytes(self));
        }
        output
    }

    /// Reads a bundle back from its byte form: accepted exactly when the
    /// input is 160 bytes, and then `to_bytes` returns the input.
    pub fn try_from_bytes(data: &Vec<u8>) -> (r: Result<PreKeyBundle, X3dhError>)
        ensures
            match r {
                Ok(b) => {
                    &&& data@.len() == 160
                    &&& b.wf()
                    &&& bundle_bytes(&b) == data@
                },
                Err(e) => data@.len() != 160 && e == X3dhError::MessageLenMismatch,
            },
    {
        if data.len() != 160 {
            return Err(X3dhError::MessageLenMismatch);
        }
        let identity = vstd::slice::slice_to_vec(vstd::slice::slice_subrange(
            data.as_slice(),
            0,
            32,
        ));
        let signed = vstd::slice::slice_to_vec(vstd::slice::slice_subrange(
            data.as_slice(),
            32,
            64,
        ));
        let sig = vstd::slice::slice_to_vec(vstd::slice::slice_subrange(
            data.as_slice(),
            64,
            128,
        ));
        let otp = vstd::slice::slice_to_vec(vstd::slice::slice_subrange(
            data.as_slice(),
            128,
            160,
        ));
        let b = PreKeyBundle {
            identity_key: PublicKey { data: identity, stype: SecretType::X25519 },
            signed_prekey: PublicKey { data: signed, stype: SecretType::X25519 },
            signature_prekey: Signature { bytes: sig },
            one_time_prekey: PublicKey { data: otp, stype: SecretType::X25519 },
        };
        proof {
            assert(bundle_bytes(&b) =~= data@);
        }
        Ok(b)
    }
}

/// The two byte forms are mutually inverse on well-formed bundles.
pub proof fn lemma_bundle_roundtrip(b: &PreKeyBundle)
    requires
        b.wf(),
    ensures
        bundle_bytes(b).len() == 160,
        bundle_bytes(b).subrange(0, 32) == b.identity_key.data@,
        bundle_bytes(b).subrange(32, 64) == b.signed_prekey.data@,
        bundle_bytes(b).subrange(64, 128) == b.signature_prekey.bytes@,
        bundle_bytes(b).subrange(128, 160) == b.one_time_prekey.data@,
{
    assert(bundle_bytes(b).subrange(0, 32) =~= b.identity_key.data@);
    assert(bundle_bytes(b).subrange(32, 64) =~= b.signed_prekey.data@);
    assert(bundle_bytes(b).subrange(64, 128) =~= b.signature_prekey.bytes@);
    assert(bundle_bytes(b).subrange(128, 160) =~= b.one_time_prekey.data@);
}

} // verus!
