//! The device identity keystore.
//!
//! A companion (linked) device is defined by a small bundle of long-lived keys and ids, made once
//! on first run, shown to the phone while pairing, and kept so the session survives restarts:
//! - the **noise key**, the X25519 static key of the Noise handshake;
//! - the **identity key**, the Curve25519 Signal identity keypair;
//! - the **signed pre-key**, a Curve25519 prekey and the identity key's signature over it;
//! - the **registration id**, a small random id of this registration;
//! - the **adv secret**, a random 32-byte key authenticating the pairing.

use vstd::prelude::*;
use crate::b64lite::spec_base64;
use crate::bytes::{array32, to_vec};
use crate::client::Error;
use crate::crypto::{base64_decode, base64_decode_spec, base64_encode, random_vec, x25519_spec};
use crate::node::sbytes;
use crate::noise::{basepoint, dh_pair, keypair};
use crate::xeddsa::{sign, xeddsa_sign_spec};

verus! {

/// A Curve25519 / X25519 keypair (raw 32-byte scalar and point).
#[derive(Clone, Debug, PartialEq, Eq)]
pub struct KeyPair {
    pub private: [u8; 32],
    pub public: [u8; 32],
}

/// A signed pre-key: a Curve25519 prekey with an id and the identity key's signature over it.
#[derive(Clone, Debug, PartialEq, Eq)]
pub struct SignedPreKey {
    pub key_id: u32,
    pub key_pair: KeyPair,
    /// XEdDSA signature by the identity key over `0x05 || prekey_public` (64 bytes).
    pub signature: Vec<u8>,
}

/// The full device identity bundle.
#[derive(Clone, Debug, PartialEq, Eq)]
pub struct DeviceIdentity {
    pub noise_key: KeyPair,
    pub identity_key: KeyPair,
    pub signed_pre_key: SignedPreKey,
    pub registration_id: u32,
    pub adv_secret: [u8; 32],
}

/// A keypair whose public key is the X25519 public key of its private key.
pub open spec fn keypair_ok(k: KeyPair) -> bool {
    &&& k.public@ == x25519_spec(k.private@, basepoint())
    &&& dh_pair(k.private@, k.public@)
}

/// What the identity key signs for a pre-key: `0x05 || prekey_public`.
pub open spec fn pre_key_message(pre_key_public: Seq<u8>) -> Seq<u8> {
    seq![5u8] + pre_key_public
}

/// The registration id drawn from four random bytes read big-endian: in `1..=16380`.
pub open spec fn registration_id_of(b: Seq<u8>) -> u32 {
    (((b[0] as nat) * 16777216 + (b[1] as nat) * 65536 + (b[2] as nat) * 256 + b[3] as nat) % 16380 + 1) as u32
}

impl KeyPair {
    /// Generate a fresh keypair (X25519 base-point multiplication, as in the Noise layer).
    pub fn generate() -> (r: KeyPair)
        ensures
            keypair_ok(r),
    {
        let (private, public) = keypair();
        KeyPair { private, public }
    }
}

/// `n` random bytes as an array of 32.
fn random32() -> [u8; 32] {
    let v = random_vec(32);
    array32(v.as_slice(), 0)
}

/// The registration id for four random bytes read as a big-endian number: in `1..=16380`.
pub fn registration_id_from(b: [u8; 4]) -> (r: u32)
    ensures
        r == registration_id_of(b@),
        1 <= r <= 16380,
{
    let x: u32 = (b[0] as u32) * 16777216 + (b[1] as u32) * 65536 + (b[2] as u32) * 256 + (b[3] as u32);
    (x % 16380) + 1
}

/// Generate a registration id in the Signal range `1..=16380`.
fn generate_registration_id() -> (r: u32)
    ensures
        1 <= r <= 16380,
{
    let v = random_vec(4);
    registration_id_from([v[0], v[1], v[2], v[3]])
}

/// Sign a pre-key public key with the identity key: XEdDSA over `0x05 || prekey_public`.
fn sign_pre_key(identity: &KeyPair, pre_key_public: &[u8; 32]) -> (r: Vec<u8>)
    ensures
        r@.len() == 64,
        exists|z: Seq<u8>| z.len() == 64 && r@ == xeddsa_sign_spec(identity.private@, pre_key_message(pre_key_public@), z),
{
    let mut to_sign = Vec::new();
    to_sign.push(5u8);
    crate::bytes::append_bytes(&mut to_sign, pre_key_public);
    assert(to_sign@ =~= pre_key_message(pre_key_public@));
    let sig = sign(&identity.private, to_sign.as_slice());
    to_vec(&sig)
}

impl DeviceIdentity {
    /// Generate a brand-new device identity: every key fresh, the signed pre-key (id 1) signed by
    /// the identity key over `0x05 || prekey_public`.
    pub fn generate() -> (r: DeviceIdentity)
        ensures
            keypair_ok(r.noise_key),
            keypair_ok(r.identity_key),
            keypair_ok(r.signed_pre_key.key_pair),
            r.signed_pre_key.key_id == 1,
            r.signed_pre_key.signature@.len() == 64,
            exists|z: Seq<u8>| z.len() == 64 && r.signed_pre_key.signature@ == xeddsa_sign_spec(
                r.identity_key.private@, pre_key_message(r.signed_pre_key.key_pair.public@), z),
            1 <= r.registration_id <= 16380,
    {
        let identity_key = KeyPair::generate();
        let pre_key = KeyPair::generate();
        let signature = sign_pre_key(&identity_key, &pre_key.public);
        DeviceIdentity {
            noise_key: KeyPair::generate(),
            identity_key,
            signed_pre_key: SignedPreKey { key_id: 1, key_pair: pre_key, signature },
            registration_id: generate_registration_id(),
            adv_secret: random32(),
        }
    }

    /// Whether the signed pre-key carries a signature (64 bytes).
    pub fn is_pre_key_signed(&self) -> (r: bool)
        ensures
            r == (self.signed_pre_key.signature@.len() == 64),
    {
        self.signed_pre_key.signature.len() == 64
    }
}

// ----------------------------------------------------------------------------------------------
// The stored form: base64 strings, stable and human-inspectable
// ----------------------------------------------------------------------------------------------

/// The keystore as stored on disk: every key as standard base64 text.
pub struct StoredIdentity {
    pub version: u8,
    pub noise_private: String,
    pub noise_public: String,
    pub identity_private: String,
    pub identity_public: String,
    pub signed_pre_key_id: u32,
    pub signed_pre_key_private: String,
    pub signed_pre_key_public: String,
    pub signed_pre_key_signature: String,
    pub registration_id: u32,
    pub adv_secret: String,
}

/// Standard base64 text of `data`, as a `String`.
fn b64(data: &[u8]) -> (r: String)
    ensures
        sbytes(r) == spec_base64(data@),
        base64_decode_spec(sbytes(r)) == Some(data@),
{
    base64_encode(data)
}

impl StoredIdentity {
    /// The stored form of a device identity (version 1).
    pub fn from_identity(d: &DeviceIdentity) -> (r: StoredIdentity)
        ensures
            r.version == 1,
            sbytes(r.noise_private) == spec_base64(d.noise_key.private@),
            sbytes(r.noise_public) == spec_base64(d.noise_key.public@),
            sbytes(r.identity_private) == spec_base64(d.identity_key.private@),
            sbytes(r.identity_public) == spec_base64(d.identity_key.public@),
            r.signed_pre_key_id == d.signed_pre_key.key_id,
            sbytes(r.signed_pre_key_private) == spec_base64(d.signed_pre_key.key_pair.private@),
            sbytes(r.signed_pre_key_public) == spec_base64(d.signed_pre_key.key_pair.public@),
            sbytes(r.signed_pre_key_signature) == spec_base64(d.signed_pre_key.signature@),
            r.registration_id == d.registration_id,
            sbytes(r.adv_secret) == spec_base64(d.adv_secret@),
            stored_ok(r),
            key_of(sbytes(r.noise_private)) == Some(d.noise_key.private@),
            key_of(sbytes(r.noise_public)) == Some(d.noise_key.public@),
            key_of(sbytes(r.identity_private)) == Some(d.identity_key.private@),
            key_of(sbytes(r.identity_public)) == Some(d.identity_key.public@),
            key_of(sbytes(r.signed_pre_key_private)) == Some(d.signed_pre_key.key_pair.private@),
            key_of(sbytes(r.signed_pre_key_public)) == Some(d.signed_pre_key.key_pair.public@),
            base64_decode_spec(sbytes(r.signed_pre_key_signature)) == Some(d.signed_pre_key.signature@),
            key_of(sbytes(r.adv_secret)) == Some(d.adv_secret@),
    {
        StoredIdentity {
            version: 1,
            noise_private: b64(&d.noise_key.private),
            noise_public: b64(&d.noise_key.public),
            identity_private: b64(&d.identity_key.private),
            identity_public: b64(&d.identity_key.public),
            signed_pre_key_id: d.signed_pre_key.key_id,
            signed_pre_key_private: b64(&d.signed_pre_key.key_pair.private),
            signed_pre_key_public: b64(&d.signed_pre_key.key_pair.public),
            signed_pre_key_signature: b64(d.signed_pre_key.signature.as_slice()),
            registration_id: d.registration_id,
            adv_secret: b64(&d.adv_secret),
        }
    }
}

/// The bytes base64 text decodes to, as a 32-byte key.
pub open spec fn key_of(text: Seq<u8>) -> Option<Seq<u8>> {
    match base64_decode_spec(text) {
        Some(b) => if b.len() == 32 { Some(b) } else { None },
        None => None,
    }
}

/// Decode a base64 32-byte key.
fn decode32(s: &String) -> (r: Result<[u8; 32], Error>)
    ensures
        key_of(sbytes(*s)) matches Some(k) ==> r matches Ok(a) && a@ == k,
        key_of(sbytes(*s)) is None ==> r matches Err(Error::Store(_)),
{
    let bytes = match base64_decode(s.as_str().as_bytes()) {
        Ok(b) => b,
        Err(msg) => return Err(Error::Store(msg)),
    };
    if bytes.len() != 32 {
        return Err(Error::Store("expected 32-byte key".to_owned()));
    }
    let a = array32(bytes.as_slice(), 0);
    assert(bytes@.subrange(0, 32) =~= bytes@);
    Ok(a)
}

/// The stored identity's keys all decode.
pub open spec fn stored_ok(s: StoredIdentity) -> bool {
    &&& key_of(sbytes(s.noise_private)) is Some
    &&& key_of(sbytes(s.noise_public)) is Some
    &&& key_of(sbytes(s.identity_private)) is Some
    &&& key_of(sbytes(s.identity_public)) is Some
    &&& key_of(sbytes(s.signed_pre_key_private)) is Some
    &&& key_of(sbytes(s.signed_pre_key_public)) is Some
    &&& base64_decode_spec(sbytes(s.signed_pre_key_signature)) is Some
    &&& key_of(sbytes(s.adv_secret)) is Some
}

impl DeviceIdentity {
    /// The device identity a stored form holds, or a keystore error when a key does not decode.
    pub fn try_from_stored(s: StoredIdentity) -> (r: Result<DeviceIdentity, Error>)
        ensures
            stored_ok(s) ==> (r matches Ok(d)
                && Some(d.noise_key.private@) == key_of(sbytes(s.noise_private))
                && Some(d.noise_key.public@) == key_of(sbytes(s.noise_public))
                && Some(d.identity_key.private@) == key_of(sbytes(s.identity_private))
                && Some(d.identity_key.public@) == key_of(sbytes(s.identity_public))
                && d.signed_pre_key.key_id == s.signed_pre_key_id
                && Some(d.signed_pre_key.key_pair.private@) == key_of(sbytes(s.signed_pre_key_private))
                && Some(d.signed_pre_key.key_pair.public@) == key_of(sbytes(s.signed_pre_key_public))
                && Some(d.signed_pre_key.signature@) == base64_decode_spec(sbytes(s.signed_pre_key_signature))
                && d.registration_id == s.registration_id
                && Some(d.adv_secret@) == key_of(sbytes(s.adv_secret))),
            !stored_ok(s) ==> r matches Err(Error::Store(_)),
    {
        let noise_private = decode32(&s.noise_private)?;
        let noise_public = decode32(&s.noise_public)?;
        let identity_private = decode32(&s.identity_private)?;
        let identity_public = decode32(&s.identity_public)?;
        let spk_private = decode32(&s.signed_pre_key_private)?;
        let spk_public = decode32(&s.signed_pre_key_public)?;
        let signature = match base64_decode(s.signed_pre_key_signature.as_str().as_bytes()) {
            Ok(b) => b,
            Err(msg) => return Err(Error::Store(msg)),
        };
        let adv_secret = decode32(&s.adv_secret)?;
        Ok(DeviceIdentity {
            noise_key: KeyPair { private: noise_private, public: noise_public },
            identity_key: KeyPair { private: identity_private, public: identity_public },
            signed_pre_key: SignedPreKey {
                key_id: s.signed_pre_key_id,
                key_pair: KeyPair { private: spk_private, public: spk_public },
                signature,
            },
            registration_id: s.registration_id,
            adv_secret,
        })
    }
}

} // verus!
