//! Symmetric primitives of the phone-number linking flow: PBKDF2-HMAC-SHA256, AES-256-CTR,
//! AES-256-GCM and HKDF-SHA256.

use vstd::prelude::*;
use crate::crypto::{
    aes256_ctr_spec, ctr_apply, gcm_open, gcm_open_spec, gcm_seal, gcm_seal_spec, hkdf_expand,
    hkdf_sha256_spec, opt_vec, GCM_MAX,
};

pub use crate::crypto::pbkdf2_sha256;

verus! {

/// AES-256-CTR keystream XOR (128-bit big-endian counter from the IV). Encryption and
/// decryption are the same operation.
pub fn aes256_ctr(key: &[u8; 32], iv: &[u8; 16], data: &[u8]) -> (r: Vec<u8>)
    ensures
        r@ == aes256_ctr_spec(key@, iv@, data@),
        r@.len() == data@.len(),
        aes256_ctr_spec(key@, iv@, r@) == data@,
{
    ctr_apply(key, iv, data)
}

/// The empty associated data.
pub open spec fn no_aad() -> Seq<u8> {
    Seq::empty()
}

/// AES-256-GCM seal with no associated data: `ciphertext || tag`, which opens to the plaintext.
pub fn aes256_gcm_seal(key: &[u8; 32], nonce: &[u8; 12], plaintext: &[u8]) -> (r: Vec<u8>)
    requires
        plaintext@.len() <= GCM_MAX,
    ensures
        r@ == gcm_seal_spec(key@, nonce@, no_aad(), plaintext@),
        r@.len() == plaintext@.len() + 16,
        gcm_open_spec(key@, nonce@, no_aad(), r@) == Some(plaintext@),
{
    let aad: [u8; 0] = [];
    assert(aad@ =~= no_aad());
    match gcm_seal(key, nonce, &aad, plaintext) {
        Some(c) => c,
        None => Vec::new(),
    }
}

/// AES-256-GCM open with no associated data; `None` if the tag does not verify.
pub fn aes256_gcm_open(key: &[u8; 32], nonce: &[u8; 12], ciphertext: &[u8]) -> (r: Option<Vec<u8>>)
    ensures
        opt_vec(r) == gcm_open_spec(key@, nonce@, no_aad(), ciphertext@),
{
    let aad: [u8; 0] = [];
    assert(aad@ =~= no_aad());
    gcm_open(key, nonce, &aad, ciphertext)
}

/// The salt given to HKDF: an empty salt counts as absent.
pub open spec fn salt_of(salt: Seq<u8>) -> Option<Seq<u8>> {
    if salt.len() == 0 { None } else { Some(salt) }
}

/// HKDF-SHA256 (extract, then expand to `out_len` bytes). An empty `salt` is treated as absent.
pub fn hkdf_sha256(ikm: &[u8], salt: &[u8], info: &[u8], out_len: usize) -> (r: Vec<u8>)
    requires
        out_len <= 8160,
    ensures
        r@ == hkdf_sha256_spec(ikm@, salt_of(salt@), info@, out_len as nat),
        r@.len() == out_len,
{
    let s = if salt.len() == 0 { None } else { Some(salt) };
    hkdf_expand(ikm, s, info, out_len)
}

} // verus!
