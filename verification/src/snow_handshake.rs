//! The XX handshake and transport driven by the `snow` Noise library, as an alternative to the
//! hand-written state machine of [`crate::noise`]: bytes in, bytes out. The `snow` state
//! machines are opaque here; each operation is one call into `snow`.

use vstd::prelude::*;
use crate::frame;

verus! {

#[verifier::external_type_specification]
#[verifier::external_body]
pub struct ExSnowHandshakeState(snow::HandshakeState);

#[verifier::external_type_specification]
#[verifier::external_body]
pub struct ExSnowTransportState(snow::TransportState);

/// The Noise protocol this module runs.
fn noise_params() -> (r: &'static str)
    ensures
        r@ == "Noise_XX_25519_AESGCM_SHA256"@,
{
    "Noise_XX_25519_AESGCM_SHA256"
}

/// The largest Noise message, and so the output buffer of a handshake step.
pub const MSG_BUF: usize = 65535;

/// `snow::Builder::generate_keypair` for `Noise_XX_25519_AESGCM_SHA256`: a random X25519
/// keypair, 32 bytes each. snow's default resolver always yields an RNG and the X25519 engine,
/// so it succeeds.
#[verifier::external_body]
fn snow_keypair(params: &str) -> (r: Result<(Vec<u8>, Vec<u8>), String>)
    requires
        params@ == "Noise_XX_25519_AESGCM_SHA256"@,
    ensures
        r is Ok,
        r matches Ok(k) ==> k.0@.len() == 32 && k.1@.len() == 32,
{
    let params: snow::params::NoiseParams = params.parse().map_err(|e: snow::Error| e.to_string())?;
    let kp = snow::Builder::new(params).generate_keypair().map_err(|e| e.to_string())?;
    Ok((kp.private, kp.public))
}

/// `snow::Builder` with the static private key and prologue, built as initiator. With snow's
/// default resolver every primitive of `Noise_XX_25519_AESGCM_SHA256` resolves and XX has no
/// pre-messages, so the build succeeds; a key of up to 32 bytes is copied into the X25519 key
/// (zero-padded), and a longer one makes snow panic on a slice copy, so it is left out.
#[verifier::external_body]
fn snow_build_initiator(params: &str, static_private: &[u8], prologue: &[u8]) -> (r: Result<snow::HandshakeState, String>)
    requires
        params@ == "Noise_XX_25519_AESGCM_SHA256"@,
        static_private@.len() <= 32,
    ensures
        r is Ok,
{
    let params: snow::params::NoiseParams = params.parse().map_err(|e: snow::Error| e.to_string())?;
    let b = snow::Builder::new(params).local_private_key(static_private).prologue(prologue);
    b.build_initiator().map_err(|e| e.to_string())
}

/// `snow::Builder` with the static private key and prologue, built as responder. With snow's
/// default resolver every primitive of `Noise_XX_25519_AESGCM_SHA256` resolves and XX has no
/// pre-messages, so the build succeeds; a key of up to 32 bytes is copied into the X25519 key
/// (zero-padded), and a longer one makes snow panic on a slice copy, so it is left out.
#[verifier::external_body]
fn snow_build_responder(params: &str, static_private: &[u8], prologue: &[u8]) -> (r: Result<snow::HandshakeState, String>)
    requires
        params@ == "Noise_XX_25519_AESGCM_SHA256"@,
        static_private@.len() <= 32,
    ensures
        r is Ok,
{
    let params: snow::params::NoiseParams = params.parse().map_err(|e: snow::Error| e.to_string())?;
    let b = snow::Builder::new(params).local_private_key(static_private).prologue(prologue);
    b.build_responder().map_err(|e| e.to_string())
}

/// `HandshakeState::write_message` into a buffer of [`MSG_BUF`] bytes, cut to what was written:
/// the message's tokens followed by the payload (encrypted once a key is set), so at least as
/// long as the payload. Which tokens come, and so the exact length, depends on the handshake's
/// position, which the opaque state holds.
#[verifier::external_body]
fn snow_write_handshake(state: &mut snow::HandshakeState, payload: &[u8]) -> (r: Result<Vec<u8>, String>)
    ensures
        r matches Ok(m) ==> payload@.len() <= m@.len() <= MSG_BUF,
{
    let mut buf = vec![0u8; MSG_BUF];
    let n = state.write_message(payload, &mut buf).map_err(|e| e.to_string())?;
    buf.truncate(n);
    Ok(buf)
}

/// `HandshakeState::read_message` into a buffer of [`MSG_BUF`] bytes, cut to the payload.
#[verifier::external_body]
fn snow_read_handshake(state: &mut snow::HandshakeState, message: &[u8]) -> (r: Result<Vec<u8>, String>)
    ensures
        r matches Ok(m) ==> m@.len() <= MSG_BUF,
{
    let mut buf = vec![0u8; MSG_BUF];
    let n = state.read_message(message, &mut buf).map_err(|e| e.to_string())?;
    buf.truncate(n);
    Ok(buf)
}

/// `HandshakeState::is_handshake_finished`.
#[verifier::external_body]
fn snow_finished(state: &snow::HandshakeState) -> (r: bool) {
    state.is_handshake_finished()
}

/// `HandshakeState::get_remote_static`, copied.
#[verifier::external_body]
fn snow_remote_static(state: &snow::HandshakeState) -> (r: Option<Vec<u8>>) {
    state.get_remote_static().map(|k| k.to_vec())
}

/// `HandshakeState::into_transport_mode`.
#[verifier::external_body]
fn snow_into_transport(state: snow::HandshakeState) -> (r: Result<snow::TransportState, String>) {
    state.into_transport_mode().map_err(|e| e.to_string())
}

/// `TransportState::write_message` into a buffer 16 bytes longer than the plaintext (the AEAD
/// tag): the ciphertext is exactly that long. snow refuses only a message longer than the
/// largest Noise message (65535 bytes with the tag); the nonce running out after 2^64 messages
/// is a machine limit.
#[verifier::external_body]
fn snow_encrypt(state: &mut snow::TransportState, plaintext: &[u8]) -> (r: Result<Vec<u8>, String>)
    requires
        plaintext@.len() + 16 <= usize::MAX,
    ensures
        r matches Ok(c) ==> c@.len() == plaintext@.len() + 16,
        plaintext@.len() + 16 <= MSG_BUF <==> r is Ok,
{
    let mut buf = vec![0u8; plaintext.len() + 16];
    let n = state.write_message(plaintext, &mut buf).map_err(|e| e.to_string())?;
    buf.truncate(n);
    Ok(buf)
}

/// `TransportState::read_message` into a buffer as long as the ciphertext, cut to the plaintext:
/// the ciphertext without its 16-byte tag. A ciphertext shorter than the tag or longer than the
/// largest Noise message is refused; whether the tag verifies depends on the opaque key.
#[verifier::external_body]
fn snow_decrypt(state: &mut snow::TransportState, ciphertext: &[u8]) -> (r: Result<Vec<u8>, String>)
    ensures
        r matches Ok(p) ==> p@.len() + 16 == ciphertext@.len(),
        ciphertext@.len() < 16 || ciphertext@.len() > MSG_BUF ==> r is Err,
{
    let mut buf = vec![0u8; ciphertext.len()];
    let n = state.read_message(ciphertext, &mut buf).map_err(|e| e.to_string())?;
    buf.truncate(n);
    Ok(buf)
}

/// An X25519 static identity keypair.
pub struct Keypair {
    /// 32-byte private key.
    pub private: Vec<u8>,
    /// 32-byte public key.
    pub public: Vec<u8>,
}

/// Generate a fresh X25519 static keypair.
pub fn generate_keypair() -> (r: Result<Keypair, frame::Error>)
    ensures
        r is Ok,
        r matches Ok(k) ==> k.private@.len() == 32 && k.public@.len() == 32,
{
    match snow_keypair(noise_params()) {
        Ok((private, public)) => Ok(Keypair { private, public }),
        Err(e) => Err(frame::Error::Noise(e)),
    }
}

/// A Noise XX handshake in progress.
pub struct Handshake {
    state: snow::HandshakeState,
}

impl Handshake {
    /// The initiator (client) side, with our static private key (at most 32 bytes; a shorter
    /// key is zero-padded) and the prologue (the connection header). It is always built.
    pub fn new_initiator(static_private: &[u8], prologue: &[u8]) -> (r: Result<Handshake, frame::Error>)
        requires
            static_private@.len() <= 32,
        ensures
            r is Ok,
    {
        match snow_build_initiator(noise_params(), static_private, prologue) {
            Ok(state) => Ok(Handshake { state }),
            Err(e) => Err(frame::Error::Noise(e)),
        }
    }

    /// The responder (server) side, with its static private key (at most 32 bytes; a shorter
    /// key is zero-padded). It is always built.
    pub fn new_responder(static_private: &[u8], prologue: &[u8]) -> (r: Result<Handshake, frame::Error>)
        requires
            static_private@.len() <= 32,
        ensures
            r is Ok,
    {
        match snow_build_responder(noise_params(), static_private, prologue) {
            Ok(state) => Ok(Handshake { state }),
            Err(e) => Err(frame::Error::Noise(e)),
        }
    }

    /// Write the next handshake message carrying `payload`; returns the bytes to send (the
    /// message's keys, then the payload, encrypted once a key is set).
    pub fn write_message(&mut self, payload: &[u8]) -> (r: Result<Vec<u8>, frame::Error>)
        ensures
            r matches Ok(m) ==> payload@.len() <= m@.len() <= MSG_BUF,
            r matches Err(e) ==> e is Noise,
    {
        match snow_write_handshake(&mut self.state, payload) {
            Ok(m) => Ok(m),
            Err(e) => Err(frame::Error::Noise(e)),
        }
    }

    /// Read an incoming handshake message; returns the payload it carried.
    pub fn read_message(&mut self, message: &[u8]) -> (r: Result<Vec<u8>, frame::Error>)
        ensures
            r matches Ok(m) ==> m@.len() <= MSG_BUF,
            r matches Err(e) ==> e is Noise,
    {
        match snow_read_handshake(&mut self.state, message) {
            Ok(m) => Ok(m),
            Err(e) => Err(frame::Error::Noise(e)),
        }
    }

    /// Whether the handshake has completed.
    pub fn is_handshake_finished(&self) -> bool {
        snow_finished(&self.state)
    }

    /// The remote party's static public key, once received.
    pub fn remote_static(&self) -> Option<Vec<u8>> {
        snow_remote_static(&self.state)
    }

    /// Finish the handshake and switch to the encrypted transport.
    pub fn into_transport(self) -> (r: Result<Transport, frame::Error>)
        ensures
            r matches Err(e) ==> e is Noise,
    {
        match snow_into_transport(self.state) {
            Ok(state) => Ok(Transport { state }),
            Err(e) => Err(frame::Error::Noise(e)),
        }
    }
}

/// The established, encrypted channel. Each call advances the AEAD nonce.
pub struct Transport {
    state: snow::TransportState,
}

impl Transport {
    /// Encrypt an outbound frame payload; the ciphertext is 16 bytes longer. It succeeds exactly
    /// when the ciphertext fits the largest Noise message (65535 bytes).
    pub fn encrypt(&mut self, plaintext: &[u8]) -> (r: Result<Vec<u8>, frame::Error>)
        requires
            plaintext@.len() + 16 <= usize::MAX,
        ensures
            r matches Ok(c) ==> c@.len() == plaintext@.len() + 16,
            plaintext@.len() + 16 <= MSG_BUF <==> r is Ok,
            r matches Err(e) ==> e is Noise,
    {
        match snow_encrypt(&mut self.state, plaintext) {
            Ok(c) => Ok(c),
            Err(e) => Err(frame::Error::Noise(e)),
        }
    }

    /// Decrypt an inbound frame payload: the plaintext is the ciphertext without its 16-byte
    /// tag; a ciphertext shorter than the tag, or longer than the largest Noise message, is
    /// refused.
    pub fn decrypt(&mut self, ciphertext: &[u8]) -> (r: Result<Vec<u8>, frame::Error>)
        ensures
            r matches Ok(p) ==> p@.len() + 16 == ciphertext@.len(),
            ciphertext@.len() < 16 || ciphertext@.len() > MSG_BUF ==> r is Err,
            r matches Err(e) ==> e is Noise,
    {
        match snow_decrypt(&mut self.state, ciphertext) {
            Ok(p) => Ok(p),
            Err(e) => Err(frame::Error::Noise(e)),
        }
    }
}

} // verus!
