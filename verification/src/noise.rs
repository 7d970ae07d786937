//! `Noise_XX_25519_AESGCM_SHA256` as the chatd server speaks it, and the post-handshake
//! transport.
//!
//! - The initial hash and chaining key are the 32-byte protocol name
//!   `"Noise_XX_25519_AESGCM_SHA256\0\0\0\0"`, then `MixHash(prologue)` with the `WA 06 05`
//!   connection header as prologue.
//! - `MixHash(x)`: `h = SHA256(h || x)`.
//! - `MixKey(ikm)`: `counter = 0`; `(ck, k) = HKDF-SHA256(salt = ck, ikm)` split into two halves.
//! - The AEAD is AES-256-GCM with nonce `[0u8; 8] || counter` (big-endian) and the current `h`
//!   as associated data; `Encrypt`/`Decrypt` then `MixHash` the ciphertext.

use vstd::prelude::*;
use crate::bytes::array32;
use crate::client_payload::{be32, be32_bytes};
use crate::crypto::{
    gcm_open, gcm_open_spec, gcm_seal, gcm_seal_spec, hkdf_expand, hkdf_sha256_spec, opt_vec,
    random_vec, sha256_concat, sha256_spec, x25519, x25519_basepoint, x25519_spec, GCM_MAX,
};
use crate::frame::Error;

verus! {

/// The 32-byte Noise protocol name, zero-padded to the hash length: the initial handshake hash.
pub const NOISE_PROTOCOL_NAME: [u8; 32] = [
    78, 111, 105, 115, 101, 95, 88, 88, 95, 50, 53, 53, 49, 57, 95, 65, 69, 83, 71, 67, 77, 95,
    83, 72, 65, 50, 53, 54, 0, 0, 0, 0,
];

/// The X25519 base point (`u = 9`).
pub open spec fn basepoint() -> Seq<u8> {
    x25519_basepoint()
}

/// Whether `public` is the X25519 public key of `private`, in Diffie-Hellman agreement with
/// every 32-byte key `b`: the secret `b` computes from `public` is the one `private` computes
/// from `b`'s public key.
pub open spec fn dh_pair(private: Seq<u8>, public: Seq<u8>) -> bool {
    &&& public == x25519_spec(private, basepoint())
    &&& forall|b: Seq<u8>| b.len() == 32 ==> #[trigger] x25519_spec(b, public) == x25519_spec(private, x25519_spec(b, basepoint()))
}

/// The X25519 base point as bytes.
fn basepoint_bytes() -> (r: [u8; 32])
    ensures
        r@ == basepoint(),
{
    let mut b = [0u8; 32];
    b[0] = 9;
    assert(b@ =~= x25519_basepoint());
    b
}

/// Generate an X25519 keypair `(private, public)`: a random private key and its public key.
pub fn keypair() -> (r: ([u8; 32], [u8; 32]))
    ensures
        r.1@ == x25519_spec(r.0@, basepoint()),
        dh_pair(r.0@, r.1@),
{
    let bytes = random_vec(32);
    let private = array32(bytes.as_slice(), 0);
    let public = x25519(private, basepoint_bytes());
    (private, public)
}

/// X25519 Diffie-Hellman (the scalar is clamped internally, as in [`keypair`]).
pub fn dh(secret: &[u8; 32], public: &[u8; 32]) -> (r: [u8; 32])
    ensures
        r@ == x25519_spec(secret@, public@),
{
    x25519(*secret, *public)
}

/// The two 32-byte halves of `HKDF-SHA256(salt, ikm)` expanded to 64 bytes with no info.
pub open spec fn hkdf_two_spec(salt: Seq<u8>, ikm: Seq<u8>) -> (Seq<u8>, Seq<u8>) {
    let okm = hkdf_sha256_spec(ikm, Some(salt), Seq::empty(), 64);
    (okm.subrange(0, 32), okm.subrange(32, 64))
}

/// `HKDF-SHA256(salt, ikm)` expanded to 64 bytes and split into two 32-byte halves.
fn hkdf_two(salt: &[u8; 32], ikm: &[u8]) -> (r: ([u8; 32], [u8; 32]))
    ensures
        (r.0@, r.1@) == hkdf_two_spec(salt@, ikm@),
{
    let info: [u8; 0] = [];
    assert(info@ =~= Seq::<u8>::empty());
    let okm = hkdf_expand(ikm, Some(salt.as_slice()), &info, 64);
    (array32(okm.as_slice(), 0), array32(okm.as_slice(), 32))
}

/// Check that a key or field is 32 bytes long.
pub fn to_array32(bytes: &[u8]) -> (r: Result<[u8; 32], Error>)
    ensures
        bytes@.len() == 32 ==> (r matches Ok(a) && a@ == bytes@),
        bytes@.len() != 32 ==> r matches Err(Error::BadLength(_)),
{
    if bytes.len() != 32 {
        return Err(Error::BadLength("expected 32-byte key"));
    }
    let a = array32(bytes, 0);
    assert(bytes@.subrange(0, 32) =~= bytes@);
    Ok(a)
}

/// The AEAD nonce for a counter: eight zero bytes, then the counter big-endian.
pub open spec fn nonce_spec(n: u32) -> Seq<u8> {
    Seq::new(8, |i: int| 0u8) + be32(n)
}

/// The AEAD nonce for a counter.
pub fn nonce(counter: u32) -> (r: [u8; 12])
    ensures
        r@ == nonce_spec(counter),
{
    let be = be32_bytes(counter);
    let mut iv = [0u8; 12];
    iv[8] = be[0];
    iv[9] = be[1];
    iv[10] = be[2];
    iv[11] = be[3];
    assert(iv@ =~= nonce_spec(counter));
    iv
}

/// The model of the Noise symmetric state.
pub struct NoiseV {
    pub hash: Seq<u8>,
    pub ck: Seq<u8>,
    pub key: Option<Seq<u8>>,
    pub counter: nat,
}

/// The model of a Noise error.
pub enum NoiseErr {
    Uninitialized,
    Crypto,
    BadLength,
}

/// The modelled error an error value stands for.
pub open spec fn noise_err(e: Error) -> NoiseErr {
    match e {
        Error::NoiseUninitialized => NoiseErr::Uninitialized,
        Error::BadLength(_) => NoiseErr::BadLength,
        _ => NoiseErr::Crypto,
    }
}

/// An executable result agrees with its modelled result.
pub open spec fn noise_agrees(r: Result<Vec<u8>, Error>, m: Result<Seq<u8>, NoiseErr>) -> bool {
    match m {
        Ok(v) => r matches Ok(x) && x@ == v,
        Err(e) => r matches Err(x) && noise_err(x) == e,
    }
}

/// The state right after initialization, before the prologue.
pub open spec fn initial_state() -> NoiseV {
    NoiseV { hash: NOISE_PROTOCOL_NAME@, ck: NOISE_PROTOCOL_NAME@, key: None, counter: 0 }
}

/// `MixHash(data)`.
pub open spec fn sp_mix_hash(st: NoiseV, data: Seq<u8>) -> NoiseV {
    NoiseV { hash: sha256_spec(st.hash + data), ..st }
}

/// `MixKey(ikm)`.
pub open spec fn sp_mix_key(st: NoiseV, ikm: Seq<u8>) -> NoiseV {
    let (ck, k) = hkdf_two_spec(st.ck, ikm);
    NoiseV { hash: st.hash, ck, key: Some(k), counter: 0 }
}

/// `EncryptAndHash(plaintext)`: the ciphertext (or error) and the state after it.
pub open spec fn sp_encrypt(st: NoiseV, pt: Seq<u8>) -> (Result<Seq<u8>, NoiseErr>, NoiseV) {
    match st.key {
        None => (Err(NoiseErr::Uninitialized), st),
        Some(k) => {
            let st1 = NoiseV { counter: st.counter + 1, ..st };
            if pt.len() > GCM_MAX {
                (Err(NoiseErr::Crypto), st1)
            } else {
                let c = gcm_seal_spec(k, nonce_spec(st.counter as u32), st.hash, pt);
                (Ok(c), sp_mix_hash(st1, c))
            }
        },
    }
}

/// `DecryptAndHash(ciphertext)`: the plaintext (or error) and the state after it.
pub open spec fn sp_decrypt(st: NoiseV, ct: Seq<u8>) -> (Result<Seq<u8>, NoiseErr>, NoiseV) {
    match st.key {
        None => (Err(NoiseErr::Uninitialized), st),
        Some(k) => {
            let st1 = NoiseV { counter: st.counter + 1, ..st };
            match gcm_open_spec(k, nonce_spec(st.counter as u32), st.hash, ct) {
                None => (Err(NoiseErr::Crypto), st1),
                Some(p) => (Ok(p), sp_mix_hash(st1, ct)),
            }
        },
    }
}

/// The Noise symmetric state: transcript hash, chaining key, current AEAD key, nonce counter.
pub struct NoiseState {
    hash: [u8; 32],
    chaining_key: [u8; 32],
    key: Option<[u8; 32]>,
    counter: u32,
}

impl View for NoiseState {
    type V = NoiseV;

    closed spec fn view(&self) -> NoiseV {
        NoiseV {
            hash: self.hash@,
            ck: self.chaining_key@,
            key: match self.key {
                Some(k) => Some(k@),
                None => None,
            },
            counter: self.counter as nat,
        }
    }
}

impl NoiseState {
    /// Initialize with the given prologue (the connection header).
    pub fn new(prologue: &[u8]) -> (r: NoiseState)
        ensures
            r@ == sp_mix_hash(initial_state(), prologue@),
    {
        let mut state = NoiseState {
            hash: NOISE_PROTOCOL_NAME,
            chaining_key: NOISE_PROTOCOL_NAME,
            key: None,
            counter: 0,
        };
        state.mix_hash(prologue);
        state
    }

    /// `MixHash`: fold `data` into the running transcript hash.
    pub fn mix_hash(&mut self, data: &[u8])
        ensures
            final(self)@ == sp_mix_hash(old(self)@, data@),
    {
        self.hash = sha256_concat(&self.hash, data);
    }

    /// `MixKey`: derive a fresh chaining key and AEAD key from `ikm`, resetting the counter.
    pub fn mix_key(&mut self, ikm: &[u8])
        ensures
            final(self)@ == sp_mix_key(old(self)@, ikm@),
    {
        self.counter = 0;
        let (ck, k) = hkdf_two(&self.chaining_key, ikm);
        self.chaining_key = ck;
        self.key = Some(k);
    }

    /// `MixKey(DH(secret, public))`.
    pub fn mix_dh(&mut self, secret: &[u8; 32], public: &[u8; 32])
        ensures
            final(self)@ == sp_mix_key(old(self)@, x25519_spec(secret@, public@)),
    {
        let shared = dh(secret, public);
        self.mix_key(&shared);
    }

    /// `EncryptAndHash`: AEAD-seal `plaintext` (associated data: the current hash), then
    /// `MixHash` the ciphertext. A peer in the same state decrypts the ciphertext to the
    /// plaintext and ends in the same state.
    pub fn encrypt(&mut self, plaintext: &[u8]) -> (r: Result<Vec<u8>, Error>)
        requires
            old(self)@.key is Some ==> old(self)@.counter < u32::MAX,
        ensures
            noise_agrees(r, sp_encrypt(old(self)@, plaintext@).0),
            final(self)@ == sp_encrypt(old(self)@, plaintext@).1,
            r matches Ok(c) ==> c@.len() == plaintext@.len() + 16,
            r matches Ok(c) ==> sp_decrypt(old(self)@, c@) == (Ok::<Seq<u8>, NoiseErr>(plaintext@), final(self)@),
    {
        let key = match self.key {
            Some(k) => k,
            None => return Err(Error::NoiseUninitialized),
        };
        let ad = self.hash;
        let n = self.counter;
        self.counter = self.counter + 1;
        let ciphertext = match gcm_seal(&key, &nonce(n), &ad, plaintext) {
            Some(c) => c,
            None => return Err(Error::Crypto("aead encrypt failed")),
        };
        self.mix_hash(&ciphertext);
        Ok(ciphertext)
    }

    /// `DecryptAndHash`: AEAD-open `ciphertext` (associated data: the current hash), then
    /// `MixHash` the ciphertext.
    pub fn decrypt(&mut self, ciphertext: &[u8]) -> (r: Result<Vec<u8>, Error>)
        requires
            old(self)@.key is Some ==> old(self)@.counter < u32::MAX,
        ensures
            noise_agrees(r, sp_decrypt(old(self)@, ciphertext@).0),
            final(self)@ == sp_decrypt(old(self)@, ciphertext@).1,
    {
        let key = match self.key {
            Some(k) => k,
            None => return Err(Error::NoiseUninitialized),
        };
        let ad = self.hash;
        let n = self.counter;
        self.counter = self.counter + 1;
        let plaintext = match gcm_open(&key, &nonce(n), &ad, ciphertext) {
            Some(p) => p,
            None => return Err(Error::Crypto("aead decrypt/verify failed")),
        };
        self.mix_hash(ciphertext);
        Ok(plaintext)
    }

    /// The current transcript hash (the channel binding once the handshake completes).
    pub fn handshake_hash(&self) -> (r: [u8; 32])
        ensures
            r@ == self@.hash,
    {
        self.hash
    }

    /// `Split`: the two directional transport keys, `(send, recv)` for the initiator.
    pub fn split(&self) -> (r: ([u8; 32], [u8; 32]))
        ensures
            (r.0@, r.1@) == hkdf_two_spec(self@.ck, Seq::empty()),
    {
        let none: [u8; 0] = [];
        assert(none@ =~= Seq::<u8>::empty());
        hkdf_two(&self.chaining_key, &none)
    }
}

/// MixKey and Split take the 64 HKDF bytes in order. After `MixKey(ikm)` the chaining key is
/// the first 32 bytes and the AEAD key the last 32 of HKDF-SHA256 of `ikm` salted with the old
/// chaining key (no info), and the nonce counter restarts; the hash is kept. `Split` gives, as
/// the initiator's send then receive key, the first then last 32 bytes of HKDF-SHA256 of an
/// empty input salted with the chaining key.
pub proof fn lemma_hkdf_halves(st: NoiseV, ikm: Seq<u8>)
    ensures
        ({
            let okm = hkdf_sha256_spec(ikm, Some(st.ck), Seq::empty(), 64);
            let after = sp_mix_key(st, ikm);
            &&& after.ck == okm.subrange(0, 32)
            &&& after.key == Some(okm.subrange(32, 64))
            &&& after.counter == 0
            &&& after.hash == st.hash
        }),
        ({
            let okm = hkdf_sha256_spec(Seq::empty(), Some(st.ck), Seq::empty(), 64);
            &&& hkdf_two_spec(st.ck, Seq::empty()).0 == okm.subrange(0, 32)
            &&& hkdf_two_spec(st.ck, Seq::empty()).1 == okm.subrange(32, 64)
        }),
{
}

/// The AEAD nonce for counter `n` is twelve bytes: eight zero bytes, then four bytes whose
/// big-endian value is `n`.
pub proof fn lemma_nonce_layout(n: u32)
    ensures
        nonce_spec(n).len() == 12,
        forall|i: int| 0 <= i < 8 ==> nonce_spec(n)[i] == 0,
        nonce_spec(n)[8] * 16777216 + nonce_spec(n)[9] * 65536 + nonce_spec(n)[10] * 256 + nonce_spec(n)[11] == n,
{
    crate::client_payload::lemma_be32_value(n);
}

/// One step that both peers of a handshake take on their symmetric state.
pub enum NoiseStep {
    MixHash(Seq<u8>),
    MixKey(Seq<u8>),
}

/// The state after taking `steps` from `st`.
pub open spec fn sp_run(st: NoiseV, steps: Seq<NoiseStep>) -> NoiseV
    decreases steps.len(),
{
    if steps.len() == 0 {
        st
    } else {
        let next = match steps[0] {
            NoiseStep::MixHash(data) => sp_mix_hash(st, data),
            NoiseStep::MixKey(ikm) => sp_mix_key(st, ikm),
        };
        sp_run(next, steps.subrange(1, steps.len() as int))
    }
}

/// Two peers that start from the same prologue and take the same steps hold the same state, so
/// each opens what the other seals: when the sender's [`NoiseState::encrypt`] turns `pt` into `ct`
/// (which, as it promises, opens under the state it was sealed in), the receiver's
/// [`NoiseState::decrypt`] of `ct` gives `pt` and leaves the receiver in the sender's new state,
/// with the same handshake hash and the same split keys.
pub proof fn lemma_peers_agree(
    prologue: Seq<u8>,
    sender_steps: Seq<NoiseStep>,
    receiver_steps: Seq<NoiseStep>,
    pt: Seq<u8>,
    ct: Seq<u8>,
)
    requires
        receiver_steps == sender_steps,
        sp_encrypt(sp_run(sp_mix_hash(initial_state(), prologue), sender_steps), pt).0 == Ok::<Seq<u8>, NoiseErr>(ct),
        sp_decrypt(sp_run(sp_mix_hash(initial_state(), prologue), sender_steps), ct) == (Ok::<Seq<u8>, NoiseErr>(pt),
            sp_encrypt(sp_run(sp_mix_hash(initial_state(), prologue), sender_steps), pt).1),
    ensures
        ({
            let sender = sp_encrypt(sp_run(sp_mix_hash(initial_state(), prologue), sender_steps), pt).1;
            let receiver = sp_decrypt(sp_run(sp_mix_hash(initial_state(), prologue), receiver_steps), ct);
            &&& receiver.0 == Ok::<Seq<u8>, NoiseErr>(pt)
            &&& receiver.1 == sender
            &&& receiver.1.hash == sender.hash
            &&& hkdf_two_spec(receiver.1.ck, Seq::empty()) == hkdf_two_spec(sender.ck, Seq::empty())
        }),
{
}

// ----------------------------------------------------------------------------------------------
// The initiator
// ----------------------------------------------------------------------------------------------

/// The model of the initiator.
pub struct XxV {
    pub state: NoiseV,
    pub ephemeral_private: Seq<u8>,
    pub ephemeral_public: Seq<u8>,
    pub server_ephemeral: Option<Seq<u8>>,
}

/// The model of a transport.
pub struct TransportV {
    pub send_key: Seq<u8>,
    pub send_counter: nat,
    pub recv_key: Seq<u8>,
    pub recv_counter: nat,
}

/// Reading the server hello `<- e, ee, s, es`: the server's static key and payload (or the error)
/// and the initiator after it.
pub open spec fn sp_read_server_hello(x: XxV, se: Seq<u8>, es: Seq<u8>, ep: Seq<u8>)
    -> (Result<(Seq<u8>, Seq<u8>), NoiseErr>, XxV)
{
    if se.len() != 32 {
        (Err(NoiseErr::BadLength), x)
    } else {
        let st1 = sp_mix_key(sp_mix_hash(x.state, se), x25519_spec(x.ephemeral_private, se));
        let (r1, st2) = sp_decrypt(st1, es);
        match r1 {
            Err(e) => (Err(e), XxV { state: st2, ..x }),
            Ok(server_static) => if server_static.len() != 32 {
                (Err(NoiseErr::BadLength), XxV { state: st2, ..x })
            } else {
                let st3 = sp_mix_key(st2, x25519_spec(x.ephemeral_private, server_static));
                let (r2, st4) = sp_decrypt(st3, ep);
                match r2 {
                    Err(e) => (Err(e), XxV { state: st4, ..x }),
                    Ok(payload) => (
                        Ok((server_static, payload)),
                        XxV { state: st4, server_ephemeral: Some(se), ..x },
                    ),
                }
            },
        }
    }
}

/// Finishing `-> s, se`: the encrypted static key and payload and the transport keys (or the
/// error), and the initiator after it.
pub open spec fn sp_finish(x: XxV, s_priv: Seq<u8>, s_pub: Seq<u8>, payload: Seq<u8>)
    -> (Result<(Seq<u8>, Seq<u8>, TransportV), NoiseErr>, XxV)
{
    match x.server_ephemeral {
        None => (Err(NoiseErr::Crypto), x),
        Some(server_e) => {
            let (r1, st1) = sp_encrypt(x.state, s_pub);
            match r1 {
                Err(e) => (Err(e), XxV { state: st1, ..x }),
                Ok(enc_static) => {
                    let st2 = sp_mix_key(st1, x25519_spec(s_priv, server_e));
                    let (r2, st3) = sp_encrypt(st2, payload);
                    match r2 {
                        Err(e) => (Err(e), XxV { state: st3, ..x }),
                        Ok(enc_payload) => {
                            let (send, recv) = hkdf_two_spec(st3.ck, Seq::empty());
                            (
                                Ok((enc_static, enc_payload, TransportV { send_key: send, send_counter: 0, recv_key: recv, recv_counter: 0 })),
                                XxV { state: st3, ..x },
                            )
                        },
                    }
                },
            }
        },
    }
}

/// The client (initiator) side of the XX handshake, through reading the server hello and
/// finishing.
pub struct XxInitiator {
    state: NoiseState,
    ephemeral_private: [u8; 32],
    ephemeral_public: [u8; 32],
    server_ephemeral: Option<[u8; 32]>,
}

impl View for XxInitiator {
    type V = XxV;

    closed spec fn view(&self) -> XxV {
        XxV {
            state: self.state@,
            ephemeral_private: self.ephemeral_private@,
            ephemeral_public: self.ephemeral_public@,
            server_ephemeral: match self.server_ephemeral {
                Some(e) => Some(e@),
                None => None,
            },
        }
    }
}

impl XxInitiator {
    /// Begin the handshake: generate the ephemeral keypair and `MixHash` its public key
    /// (`-> e`).
    pub fn new(prologue: &[u8]) -> (r: XxInitiator)
        ensures
            r@.state == sp_mix_hash(sp_mix_hash(initial_state(), prologue@), r@.ephemeral_public),
            r@.ephemeral_public == x25519_spec(r@.ephemeral_private, basepoint()),
            r@.server_ephemeral is None,
    {
        let mut state = NoiseState::new(prologue);
        let (ephemeral_private, ephemeral_public) = keypair();
        state.mix_hash(&ephemeral_public);
        XxInitiator { state, ephemeral_private, ephemeral_public, server_ephemeral: None }
    }

    /// The ephemeral public key to place in the client hello.
    pub fn ephemeral(&self) -> (r: [u8; 32])
        ensures
            r@ == self@.ephemeral_public,
    {
        self.ephemeral_public
    }

    /// Process the server hello (`<- e, ee, s, es`): `MixHash` the server ephemeral, mix `ee`,
    /// decrypt the server's static key, mix `es`, decrypt the server payload (its certificate
    /// chain). Returns `(server_static_key, server_payload)`.
    pub fn read_server_hello(&mut self, server_ephemeral: &[u8], encrypted_static: &[u8], encrypted_payload: &[u8])
        -> (r: Result<(Vec<u8>, Vec<u8>), Error>)
        ensures
            ({
                let (m, x) = sp_read_server_hello(old(self)@, server_ephemeral@, encrypted_static@, encrypted_payload@);
                &&& final(self)@ == x
                &&& m matches Ok(v) ==> r matches Ok(p) && p.0@ == v.0 && p.1@ == v.1
                &&& m matches Err(e) ==> r matches Err(p) && noise_err(p) == e
            }),
    {
        let server_eph = to_array32(server_ephemeral)?;
        self.state.mix_hash(&server_eph);
        self.state.mix_dh(&self.ephemeral_private, &server_eph);
        let server_static = self.state.decrypt(encrypted_static)?;
        let server_static_arr = to_array32(&server_static)?;
        self.state.mix_dh(&self.ephemeral_private, &server_static_arr);
        let payload = self.state.decrypt(encrypted_payload)?;
        self.server_ephemeral = Some(server_eph);
        Ok((server_static, payload))
    }

    /// Complete the handshake (`-> s, se`): encrypt our static public key, mix `se`, encrypt the
    /// client payload, and split into the transport. Returns the encrypted static key and payload
    /// for the client finish, and the transport. Fails if the server hello was not read.
    pub fn finish(&mut self, static_private: &[u8; 32], static_public: &[u8; 32], client_payload: &[u8])
        -> (r: Result<(Vec<u8>, Vec<u8>, NoiseTransport), Error>)
        requires
            old(self)@.state.key is Some ==> old(self)@.state.counter < u32::MAX,
        ensures
            ({
                let (m, x) = sp_finish(old(self)@, static_private@, static_public@, client_payload@);
                &&& final(self)@ == x
                &&& m matches Ok(v) ==> r matches Ok(p) && p.0@ == v.0 && p.1@ == v.1 && p.2@ == v.2
                &&& m matches Err(e) ==> r matches Err(p) && noise_err(p) == e
            }),
    {
        let server_eph = match self.server_ephemeral {
            Some(e) => e,
            None => return Err(Error::Crypto("server hello not read yet")),
        };
        let encrypted_static = self.state.encrypt(static_public)?;
        self.state.mix_dh(static_private, &server_eph);
        let encrypted_payload = self.state.encrypt(client_payload)?;
        let (send, recv) = self.state.split();
        Ok((encrypted_static, encrypted_payload, NoiseTransport::new(send, recv)))
    }
}

// ----------------------------------------------------------------------------------------------
// The responder
// ----------------------------------------------------------------------------------------------

/// What the responder of the XX handshake sends in message 2 (`-> e, ee, s, es`) once it has
/// read the client's ephemeral key: its static public key and `payload`, each encrypted (its
/// ephemeral public key goes in the clear), or the error that stops it.
pub open spec fn sp_respond(
    prologue: Seq<u8>,
    client_ephemeral: Seq<u8>,
    static_private: Seq<u8>,
    static_public: Seq<u8>,
    ephemeral_private: Seq<u8>,
    ephemeral_public: Seq<u8>,
    payload: Seq<u8>,
) -> Result<(Seq<u8>, Seq<u8>), NoiseErr> {
    let st0 = sp_mix_hash(sp_mix_hash(sp_mix_hash(initial_state(), prologue), client_ephemeral), ephemeral_public);
    let st1 = sp_mix_key(st0, x25519_spec(ephemeral_private, client_ephemeral));
    let (r1, st2) = sp_encrypt(st1, static_public);
    match r1 {
        Err(e) => Err(e),
        Ok(enc_static) => {
            let st3 = sp_mix_key(st2, x25519_spec(static_private, client_ephemeral));
            match sp_encrypt(st3, payload).0 {
                Err(e) => Err(e),
                Ok(enc_payload) => Ok((enc_static, enc_payload)),
            }
        },
    }
}

/// The responder's message 2 for a client's ephemeral key: the encrypted static public key and
/// the encrypted payload (the server certificate, for the chat gateway).
///
/// Handshake agreement: when the responder's two keypairs are X25519 keypairs, an initiator that
/// started from the same prologue with the ephemeral key the responder read recovers, from this
/// message, exactly the responder's static public key and the payload.
pub fn respond_server_hello(
    prologue: &[u8],
    client_ephemeral: &[u8; 32],
    static_private: &[u8; 32],
    static_public: &[u8; 32],
    ephemeral_private: &[u8; 32],
    ephemeral_public: &[u8; 32],
    payload: &[u8],
) -> (r: Result<(Vec<u8>, Vec<u8>), Error>)
    ensures
        sp_respond(prologue@, client_ephemeral@, static_private@, static_public@, ephemeral_private@,
            ephemeral_public@, payload@) matches Ok(v) ==> r matches Ok(p) && p.0@ == v.0 && p.1@ == v.1,
        sp_respond(prologue@, client_ephemeral@, static_private@, static_public@, ephemeral_private@,
            ephemeral_public@, payload@) matches Err(e) ==> r matches Err(x) && noise_err(x) == e,
        r is Ok && dh_pair(ephemeral_private@, ephemeral_public@) && dh_pair(static_private@, static_public@)
            ==> forall|x: XxV| x.state == sp_mix_hash(sp_mix_hash(initial_state(), prologue@), client_ephemeral@)
                && x.ephemeral_private.len() == 32 && client_ephemeral@ == x25519_spec(x.ephemeral_private, basepoint())
                ==> #[trigger] sp_read_server_hello(x, ephemeral_public@, r->Ok_0.0@, r->Ok_0.1@).0
                    == Ok::<(Seq<u8>, Seq<u8>), NoiseErr>((static_public@, payload@)),
{
    let mut st = NoiseState::new(prologue);
    st.mix_hash(client_ephemeral);
    st.mix_hash(ephemeral_public);
    st.mix_dh(ephemeral_private, client_ephemeral);
    let ghost st1 = st@;
    let enc_static = match st.encrypt(static_public) {
        Ok(c) => c,
        Err(e) => return Err(e),
    };
    let ghost st2 = st@;
    st.mix_dh(static_private, client_ephemeral);
    let ghost st3 = st@;
    let enc_payload = match st.encrypt(payload) {
        Ok(c) => c,
        Err(e) => return Err(e),
    };
    proof {
        assert(sp_decrypt(st1, enc_static@) == (Ok::<Seq<u8>, NoiseErr>(static_public@), st2));
        assert(sp_decrypt(st3, enc_payload@).0 == Ok::<Seq<u8>, NoiseErr>(payload@));
        if dh_pair(ephemeral_private@, ephemeral_public@) && dh_pair(static_private@, static_public@) {
            assert forall|x: XxV| x.state == sp_mix_hash(sp_mix_hash(initial_state(), prologue@), client_ephemeral@)
                && x.ephemeral_private.len() == 32 && client_ephemeral@ == x25519_spec(x.ephemeral_private, basepoint())
                implies #[trigger] sp_read_server_hello(x, ephemeral_public@, enc_static@, enc_payload@).0
                    == Ok::<(Seq<u8>, Seq<u8>), NoiseErr>((static_public@, payload@)) by {
                assert(x25519_spec(x.ephemeral_private, ephemeral_public@) == x25519_spec(ephemeral_private@, client_ephemeral@));
                assert(x25519_spec(x.ephemeral_private, static_public@) == x25519_spec(static_private@, client_ephemeral@));
                assert(sp_mix_key(sp_mix_hash(x.state, ephemeral_public@), x25519_spec(x.ephemeral_private, ephemeral_public@)) == st1);
                assert(sp_mix_key(st2, x25519_spec(x.ephemeral_private, static_public@)) == st3);
            }
        }
    }
    Ok((enc_static, enc_payload))
}

// ----------------------------------------------------------------------------------------------
// The transport
// ----------------------------------------------------------------------------------------------

/// An established channel: AES-256-GCM with independent send and receive counters and no
/// associated data.
pub struct NoiseTransport {
    send_key: [u8; 32],
    send_counter: u32,
    recv_key: [u8; 32],
    recv_counter: u32,
}

impl View for NoiseTransport {
    type V = TransportV;

    closed spec fn view(&self) -> TransportV {
        TransportV {
            send_key: self.send_key@,
            send_counter: self.send_counter as nat,
            recv_key: self.recv_key@,
            recv_counter: self.recv_counter as nat,
        }
    }
}

/// What a transport decrypts `ct` to under `key` at counter `n`.
pub open spec fn transport_open(key: Seq<u8>, n: nat, ct: Seq<u8>) -> Option<Seq<u8>> {
    gcm_open_spec(key, nonce_spec(n as u32), Seq::empty(), ct)
}

impl NoiseTransport {
    /// Build from the two directional keys of a split.
    pub fn new(send_key: [u8; 32], recv_key: [u8; 32]) -> (r: NoiseTransport)
        ensures
            r@ == (TransportV { send_key: send_key@, send_counter: 0, recv_key: recv_key@, recv_counter: 0 }),
    {
        NoiseTransport { send_key, send_counter: 0, recv_key, recv_counter: 0 }
    }

    /// Encrypt an outbound frame payload. The ciphertext decrypts to the plaintext under a
    /// transport whose receiving key and counter are this one's sending key and counter.
    pub fn encrypt(&mut self, plaintext: &[u8]) -> (r: Result<Vec<u8>, Error>)
        requires
            old(self)@.send_counter < u32::MAX,
        ensures
            final(self)@ == (TransportV { send_counter: old(self)@.send_counter + 1, ..old(self)@ }),
            plaintext@.len() <= GCM_MAX ==> (r matches Ok(c)
                && c@ == gcm_seal_spec(old(self)@.send_key, nonce_spec(old(self)@.send_counter as u32), Seq::empty(), plaintext@)
                && c@.len() == plaintext@.len() + 16
                && transport_open(old(self)@.send_key, old(self)@.send_counter, c@) == Some(plaintext@)),
            plaintext@.len() > GCM_MAX ==> r matches Err(Error::Crypto(_)),
    {
        let n = self.send_counter;
        self.send_counter = self.send_counter + 1;
        let none: [u8; 0] = [];
        assert(none@ =~= Seq::<u8>::empty());
        match gcm_seal(&self.send_key, &nonce(n), &none, plaintext) {
            Some(c) => Ok(c),
            None => Err(Error::Crypto("transport encrypt failed")),
        }
    }

    /// Decrypt an inbound frame payload.
    pub fn decrypt(&mut self, ciphertext: &[u8]) -> (r: Result<Vec<u8>, Error>)
        requires
            old(self)@.recv_counter < u32::MAX,
        ensures
            final(self)@ == (TransportV { recv_counter: old(self)@.recv_counter + 1, ..old(self)@ }),
            transport_open(old(self)@.recv_key, old(self)@.recv_counter, ciphertext@) matches Some(p)
                ==> r matches Ok(x) && x@ == p,
            transport_open(old(self)@.recv_key, old(self)@.recv_counter, ciphertext@) is None
                ==> r matches Err(Error::Crypto(_)),
    {
        let n = self.recv_counter;
        self.recv_counter = self.recv_counter + 1;
        let none: [u8; 0] = [];
        assert(none@ =~= Seq::<u8>::empty());
        match gcm_open(&self.recv_key, &nonce(n), &none, ciphertext) {
            Some(p) => Ok(p),
            None => Err(Error::Crypto("transport decrypt failed")),
        }
    }
}

} // verus!
