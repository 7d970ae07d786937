//! Double-ratchet primitives (Signal): the chain-key and root-key KDFs, message-key derivation,
//! and the AES-256-CBC message cipher.

use vstd::prelude::*;
use vstd::string::StringSliceAdditionalSpecFns;
use crate::bytes::{array16, array32};
use crate::crypto::{hkdf_sha256_spec, hmac_sha256, hmac_sha256_spec, mont_mul, mont_mul_spec};
use crate::pcrypto::{hkdf_sha256, salt_of};
use crate::xeddsa::{clamp, clamp_spec};

pub use crate::crypto::{decrypt_cbc, encrypt_cbc};

verus! {

/// Diffie-Hellman on Curve25519: the clamped secret, reduced modulo the group order, times the
/// public Montgomery point.
pub fn dh(secret: &[u8; 32], public: &[u8; 32]) -> (r: [u8; 32])
    ensures
        r@ == mont_mul_spec(clamp_spec(secret@), public@),
{
    mont_mul(clamp(*secret), *public)
}

/// The HKDF info string `"WhisperMessageKeys"`.
pub open spec fn info_message_keys() -> Seq<u8> {
    seq![87u8, 104u8, 105u8, 115u8, 112u8, 101u8, 114u8, 77u8, 101u8, 115u8, 115u8, 97u8, 103u8, 101u8, 75u8, 101u8, 121u8, 115u8]
}

/// The HKDF info string `"WhisperRatchet"`.
pub open spec fn info_ratchet() -> Seq<u8> {
    seq![87u8, 104u8, 105u8, 115u8, 112u8, 101u8, 114u8, 82u8, 97u8, 116u8, 99u8, 104u8, 101u8, 116u8]
}

/// A chain key: advances one step per message, yielding a message key at each step.
#[derive(Clone, Debug, PartialEq, Eq)]
pub struct ChainKey {
    pub key: [u8; 32],
    pub index: u32,
}

/// The per-message keys derived from a chain key.
#[derive(Clone, Debug, PartialEq, Eq)]
pub struct MessageKeys {
    pub cipher_key: [u8; 32],
    pub mac_key: [u8; 32],
    pub iv: [u8; 16],
    pub counter: u32,
}

/// A root key: evolves on each DH ratchet step, producing a fresh chain key.
#[derive(Clone, Debug, PartialEq, Eq)]
pub struct RootKey {
    pub key: [u8; 32],
}

/// The 80 bytes a chain key expands to: `HKDF(HMAC(ck, 0x01), "WhisperMessageKeys")`.
pub open spec fn message_key_material(ck: Seq<u8>) -> Seq<u8> {
    hkdf_sha256_spec(hmac_sha256_spec(ck, seq![1u8]), None, info_message_keys(), 80)
}

/// The chain key that follows `ck`: `HMAC(ck, 0x02)`.
pub open spec fn next_chain_key(ck: Seq<u8>) -> Seq<u8> {
    hmac_sha256_spec(ck, seq![2u8])
}

/// The 64 bytes a ratchet step expands to: `HKDF(dh_output, salt = root key, "WhisperRatchet")`.
pub open spec fn ratchet_material(root: Seq<u8>, dh_output: Seq<u8>) -> Seq<u8> {
    hkdf_sha256_spec(dh_output, salt_of(root), info_ratchet(), 64)
}

/// The Signal key derivations, over their HMAC and HKDF primitives: a DH ratchet step expands
/// the DH output with HKDF-SHA256, salted with the (32-byte) root key, under the info
/// `"WhisperRatchet"`, to 64 bytes, of which the new root key is the first 32 and the new chain
/// key the last 32; a chain key's message keys are HKDF-SHA256 (no salt, info
/// `"WhisperMessageKeys"`) of `HMAC(chain key, 0x01)`, cut into a 32-byte cipher key, a 32-byte MAC
/// key and a 16-byte IV; the next chain key is `HMAC(chain key, 0x02)`.
pub proof fn lemma_ratchet_kdfs(root: Seq<u8>, dh_output: Seq<u8>, ck: Seq<u8>)
    requires
        root.len() == 32,
    ensures
        ({
            let okm = hkdf_sha256_spec(dh_output, Some(root), "WhisperRatchet".spec_bytes(), 64);
            &&& ratchet_material(root, dh_output).subrange(0, 32) == okm.subrange(0, 32)
            &&& ratchet_material(root, dh_output).subrange(32, 64) == okm.subrange(32, 64)
        }),
        ({
            let okm = hkdf_sha256_spec(hmac_sha256_spec(ck, seq![1u8]), None, "WhisperMessageKeys".spec_bytes(), 80);
            &&& message_key_material(ck).subrange(0, 32) == okm.subrange(0, 32)
            &&& message_key_material(ck).subrange(32, 64) == okm.subrange(32, 64)
            &&& message_key_material(ck).subrange(64, 80) == okm.subrange(64, 80)
        }),
        next_chain_key(ck) == hmac_sha256_spec(ck, seq![2u8]),
{
    reveal_strlit("WhisperRatchet");
    reveal_strlit("WhisperMessageKeys");
    vstd::string::is_ascii_spec_bytes("WhisperRatchet");
    vstd::string::is_ascii_spec_bytes("WhisperMessageKeys");
    assert(info_ratchet() =~= "WhisperRatchet".spec_bytes());
    assert(info_message_keys() =~= "WhisperMessageKeys".spec_bytes());
}

impl ChainKey {
    /// A chain key from its 32 bytes and its message index.
    pub fn new(key: [u8; 32], index: u32) -> (r: ChainKey)
        ensures
            r.key == key,
            r.index == index,
    {
        ChainKey { key, index }
    }

    /// The message keys for the current index: cipher key, MAC key and IV are the three slices
    /// of the chain key's 80 bytes of key material.
    pub fn message_keys(&self) -> (r: MessageKeys)
        ensures
            r.cipher_key@ == message_key_material(self.key@).subrange(0, 32),
            r.mac_key@ == message_key_material(self.key@).subrange(32, 64),
            r.iv@ == message_key_material(self.key@).subrange(64, 80),
            r.counter == self.index,
    {
        let one: [u8; 1] = [1];
        assert(one@ =~= seq![1u8]);
        let seed = hmac_sha256(&self.key, &one);
        let info: [u8; 18] = [87, 104, 105, 115, 112, 101, 114, 77, 101, 115, 115, 97, 103, 101, 75, 101, 121, 115];
        assert(info@ =~= info_message_keys());
        let empty: [u8; 0] = [];
        assert(empty@ =~= Seq::<u8>::empty());
        let okm = hkdf_sha256(&seed, &empty, &info, 80);
        MessageKeys {
            cipher_key: array32(okm.as_slice(), 0),
            mac_key: array32(okm.as_slice(), 32),
            iv: array16(okm.as_slice(), 64),
            counter: self.index,
        }
    }

    /// The next chain key: `HMAC(ck, 0x02)`, at the next index.
    pub fn next(&self) -> (r: ChainKey)
        requires
            self.index < u32::MAX,
        ensures
            r.key@ == next_chain_key(self.key@),
            r.index == self.index + 1,
    {
        let two: [u8; 1] = [2];
        assert(two@ =~= seq![2u8]);
        ChainKey { key: hmac_sha256(&self.key, &two), index: self.index + 1 }
    }
}

impl RootKey {
    /// A root key from its 32 bytes.
    pub fn new(key: [u8; 32]) -> (r: RootKey)
        ensures
            r.key == key,
    {
        RootKey { key }
    }

    /// A DH ratchet step: the new root key and a fresh chain key at index 0, the two halves of
    /// `HKDF(dh_output, salt = root key, "WhisperRatchet")`.
    pub fn create_chain(&self, dh_output: &[u8; 32]) -> (r: (RootKey, ChainKey))
        ensures
            r.0.key@ == ratchet_material(self.key@, dh_output@).subrange(0, 32),
            r.1.key@ == ratchet_material(self.key@, dh_output@).subrange(32, 64),
            r.1.index == 0,
    {
        let info: [u8; 14] = [87, 104, 105, 115, 112, 101, 114, 82, 97, 116, 99, 104, 101, 116];
        assert(info@ =~= info_ratchet());
        let okm = hkdf_sha256(dh_output, &self.key, &info, 64);
        (RootKey { key: array32(okm.as_slice(), 0) }, ChainKey { key: array32(okm.as_slice(), 32), index: 0 })
    }
}

} // verus!
