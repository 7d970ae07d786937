//! The cryptographic primitives this library calls, each behind a small trusted wrapper.
//!
//! Every wrapper makes one call into a RustCrypto / dalek / base64 / flate2 crate and converts
//! its arguments and result. What a primitive computes is given a name (an uninterpreted spec
//! function of the wrapper's arguments); the contracts say that the result is that name applied
//! to the arguments, plus the few facts the crates document (lengths, that decryption undoes
//! encryption). Randomness gets no name: only its length is stated.

use vstd::prelude::*;
use aes::Aes256;
use aes_gcm::aead::{Aead, KeyInit, Payload};
use aes_gcm::{Aes256Gcm, Key, Nonce};
use base64::engine::general_purpose::STANDARD;
use base64::Engine;
use cbc::cipher::block_padding::Pkcs7;
use cbc::cipher::{BlockDecryptMut, BlockEncryptMut, KeyIvInit, StreamCipher};
use curve25519_dalek::constants::ED25519_BASEPOINT_POINT;
use curve25519_dalek::edwards::CompressedEdwardsY;
use curve25519_dalek::montgomery::MontgomeryPoint;
use curve25519_dalek::scalar::Scalar;
use hkdf::Hkdf;
use hmac::{Hmac, Mac};
use md5::Md5;
use sha2::{Digest, Sha256, Sha512};
use std::io::Read;
use crate::b64lite::spec_base64;
use crate::node::sbytes;
use crate::xeddsa::signing_point;
use vstd::arithmetic::div_mod::{lemma_div_denominator, lemma_mod_breakdown, lemma_small_mod};

verus! {

// ----------------------------------------------------------------------------------------------
// Names for what the primitives compute
// ----------------------------------------------------------------------------------------------

/// SHA-256 of a byte string.
pub uninterp spec fn sha256_spec(data: Seq<u8>) -> Seq<u8>;

/// SHA-512 of a byte string.
pub uninterp spec fn sha512_spec(data: Seq<u8>) -> Seq<u8>;

/// MD5 of a byte string.
pub uninterp spec fn md5_spec(data: Seq<u8>) -> Seq<u8>;

/// HMAC-SHA256 of `data` under `key`.
pub uninterp spec fn hmac_sha256_spec(key: Seq<u8>, data: Seq<u8>) -> Seq<u8>;

/// PBKDF2-HMAC-SHA256 output of `len` bytes.
pub uninterp spec fn pbkdf2_sha256_spec(password: Seq<u8>, salt: Seq<u8>, rounds: u32, len: nat) -> Seq<u8>;

/// HKDF-SHA256 (extract, then expand to `len` bytes); `None` is an absent salt.
pub uninterp spec fn hkdf_sha256_spec(ikm: Seq<u8>, salt: Option<Seq<u8>>, info: Seq<u8>, len: nat) -> Seq<u8>;

/// AES-256-CTR keystream (128-bit big-endian counter from the IV) XORed over `data`.
pub uninterp spec fn aes256_ctr_spec(key: Seq<u8>, iv: Seq<u8>, data: Seq<u8>) -> Seq<u8>;

/// AES-256-GCM sealing: `ciphertext || tag`.
pub uninterp spec fn gcm_seal_spec(key: Seq<u8>, nonce: Seq<u8>, aad: Seq<u8>, msg: Seq<u8>) -> Seq<u8>;

/// AES-256-GCM opening: the plaintext when the tag verifies.
pub uninterp spec fn gcm_open_spec(key: Seq<u8>, nonce: Seq<u8>, aad: Seq<u8>, ct: Seq<u8>) -> Option<Seq<u8>>;

/// AES-256-CBC encryption with PKCS#7 padding.
pub uninterp spec fn cbc_encrypt_spec(key: Seq<u8>, iv: Seq<u8>, msg: Seq<u8>) -> Seq<u8>;

/// AES-256-CBC decryption with PKCS#7 unpadding, when the padding is valid.
pub uninterp spec fn cbc_decrypt_spec(key: Seq<u8>, iv: Seq<u8>, ct: Seq<u8>) -> Option<Seq<u8>>;

/// The X25519 function (the scalar clamped internally).
pub uninterp spec fn x25519_spec(k: Seq<u8>, u: Seq<u8>) -> Seq<u8>;

/// The X25519 base point (`u = 9`).
pub open spec fn x25519_basepoint() -> Seq<u8> {
    seq![9u8] + Seq::new(31, |i: int| 0u8)
}

/// Multiplication of a Montgomery point by the scalar `s` reduced modulo the group order.
pub uninterp spec fn mont_mul_spec(s: Seq<u8>, u: Seq<u8>) -> Seq<u8>;

/// The order `L = 2^252 + 27742317777372353535851937790883648493` of the Ed25519 base point.
pub open spec fn group_order() -> nat {
    7237005577332262213973186563042994240857116359379907606001950938285454250989nat
}

/// The number that bytes spell little-endian.
pub open spec fn le_value(b: Seq<u8>) -> nat
    decreases b.len(),
{
    if b.len() == 0 { 0 } else { b[0] as nat + 256 * le_value(b.subrange(1, b.len() as int)) }
}

/// `256^i`.
pub open spec fn pow256(i: nat) -> nat
    decreases i,
{
    if i == 0 { 1 } else { 256 * pow256((i - 1) as nat) }
}

/// The 32 little-endian bytes of a number (below `2^256`).
pub open spec fn le_bytes32(n: nat) -> Seq<u8> {
    Seq::new(32, |i: int| ((n / pow256(i as nat)) % 256) as u8)
}

/// The scalar (the 32 bytes of a number below `L`) for the number `n`: `n` modulo `L`.
pub open spec fn scalar_of(n: nat) -> Seq<u8> {
    le_bytes32(n % group_order())
}

/// A 32-byte value reduced modulo the group order.
pub open spec fn scalar_reduce_spec(b: Seq<u8>) -> Seq<u8> {
    scalar_of(le_value(b))
}

/// A 64-byte value reduced modulo the group order.
pub open spec fn scalar_wide_spec(b: Seq<u8>) -> Seq<u8> {
    scalar_of(le_value(b))
}

/// The negation of a scalar modulo the group order.
pub open spec fn scalar_neg_spec(s: Seq<u8>) -> Seq<u8> {
    scalar_of((group_order() - le_value(s) % group_order()) as nat)
}

/// The sum of two scalars modulo the group order.
pub open spec fn scalar_add_spec(a: Seq<u8>, b: Seq<u8>) -> Seq<u8> {
    scalar_of(le_value(a) + le_value(b))
}

/// The product of two scalars modulo the group order.
pub open spec fn scalar_mul_spec(a: Seq<u8>, b: Seq<u8>) -> Seq<u8> {
    scalar_of(le_value(a) * le_value(b))
}

/// Whether 32 bytes are the canonical encoding of a scalar: the number they spell is below `L`.
pub open spec fn scalar_canonical_spec(s: Seq<u8>) -> bool {
    le_value(s) < group_order()
}

/// The first `j` little-endian base-256 digits of `n`.
pub open spec fn le_digits(n: nat, j: nat) -> Seq<u8> {
    Seq::new(j, |i: int| ((n / pow256(i as nat)) % 256) as u8)
}

/// `256^i` is positive.
pub proof fn lemma_pow256_pos(i: nat)
    ensures
        pow256(i) > 0,
    decreases i,
{
    if i > 0 {
        lemma_pow256_pos((i - 1) as nat);
    }
}

/// The first `j` digits of `n` spell `n` modulo `256^j`.
pub proof fn lemma_le_digits(n: nat, j: nat)
    ensures
        le_value(le_digits(n, j)) == n % pow256(j),
    decreases j,
{
    lemma_pow256_pos(j);
    let s = le_digits(n, j);
    if j == 0 {
        assert(n % 1 == 0);
    } else {
        let m = n / 256;
        let j1 = (j - 1) as nat;
        lemma_le_digits(m, j1);
        lemma_pow256_pos(j1);
        assert forall|i: int| 0 <= i < j1 implies #[trigger] s.subrange(1, j as int)[i] == le_digits(m, j1)[i] by {
            lemma_pow256_pos(i as nat);
            lemma_div_denominator(n as int, 256, pow256(i as nat) as int);
            assert(pow256((i + 1) as nat) == 256 * pow256(i as nat));
        }
        assert(s.subrange(1, j as int) =~= le_digits(m, j1));
        assert(pow256(0) == 1);
        assert(n / pow256(0) == n);
        assert(s[0] as nat == n % 256);
        lemma_mod_breakdown(n as int, 256, pow256(j1) as int);
        assert(pow256(j) == 256 * pow256(j1));
    }
}

/// `256^32 = 2^256` exceeds the group order.
pub proof fn lemma_pow256_32()
    ensures
        pow256(32) > group_order(),
{
    reveal_with_fuel(pow256, 33);
}

/// A scalar is 32 bytes spelling its number modulo the group order.
pub proof fn lemma_scalar_of(n: nat)
    ensures
        scalar_of(n).len() == 32,
        le_value(scalar_of(n)) == n % group_order(),
{
    let v = n % group_order();
    assert(le_bytes32(v) =~= le_digits(v, 32));
    lemma_le_digits(v, 32);
    lemma_pow256_32();
    lemma_small_mod(v, pow256(32));
}

/// The compressed Edwards point `s * B` for the Ed25519 base point `B`.
pub uninterp spec fn ed_base_mul_spec(s: Seq<u8>) -> Seq<u8>;

/// The compressed Edwards point with sign bit 0 that the Montgomery `u`-coordinate maps to.
pub uninterp spec fn mont_to_ed_spec(u: Seq<u8>) -> Option<Seq<u8>>;

/// The compressed Edwards point `s * P` for the compressed point `p`, when `p` decompresses.
pub uninterp spec fn ed_mul_spec(s: Seq<u8>, p: Seq<u8>) -> Option<Seq<u8>>;

/// The compressed Edwards point `P - Q` for the compressed points `p` and `q`, when both
/// decompress.
pub uninterp spec fn ed_sub_spec(p: Seq<u8>, q: Seq<u8>) -> Option<Seq<u8>>;

/// Standard base64 decoding of ASCII text, when the text is valid.
pub uninterp spec fn base64_decode_spec(text: Seq<u8>) -> Option<Seq<u8>>;

/// zlib inflation, when the stream is valid.
pub uninterp spec fn zlib_inflate_spec(data: Seq<u8>) -> Option<Seq<u8>>;

/// The bytes of an optional slice.
pub open spec fn opt_bytes(o: Option<&[u8]>) -> Option<Seq<u8>> {
    match o {
        Some(b) => Some(b@),
        None => None,
    }
}

/// The bytes of an optional vector.
pub open spec fn opt_vec(o: Option<Vec<u8>>) -> Option<Seq<u8>> {
    match o {
        Some(b) => Some(b@),
        None => None,
    }
}

/// The largest message and associated data that AES-GCM accepts (2^36 bytes).
pub const GCM_MAX: u64 = 0x10_0000_0000;

// ----------------------------------------------------------------------------------------------
// Hashes and MACs
// ----------------------------------------------------------------------------------------------

/// `sha2::Sha256` fed `a` then `b`: the SHA-256 of their concatenation.
#[verifier::external_body]
pub(crate) fn sha256_concat(a: &[u8], b: &[u8]) -> (r: [u8; 32])
    ensures
        r@ == sha256_spec(a@ + b@),
{
    let mut h = Sha256::new();
    h.update(a);
    h.update(b);
    h.finalize().into()
}

/// `sha2::Sha512::digest`: the SHA-512 of `data`.
#[verifier::external_body]
pub(crate) fn sha512(data: &[u8]) -> (r: [u8; 64])
    ensures
        r@ == sha512_spec(data@),
{
    Sha512::digest(data).into()
}

/// `md5::Md5::digest`: the MD5 of `data`.
#[verifier::external_body]
pub(crate) fn md5(data: &[u8]) -> (r: [u8; 16])
    ensures
        r@ == md5_spec(data@),
{
    Md5::digest(data).into()
}

/// HMAC-SHA256 of `data` under `key` (`hmac::Hmac<Sha256>`, which accepts a key of any length).
/// Returns the 32-byte tag.
#[verifier::external_body]
pub fn hmac_sha256(key: &[u8], data: &[u8]) -> (r: [u8; 32])
    ensures
        r@ == hmac_sha256_spec(key@, data@),
{
    let mut mac = <Hmac<Sha256> as Mac>::new_from_slice(key).expect("HMAC accepts any key length");
    mac.update(data);
    mac.finalize().into_bytes().into()
}

/// PBKDF2-HMAC-SHA256 (`pbkdf2::pbkdf2_hmac`) into `out_len` bytes.
#[verifier::external_body]
pub fn pbkdf2_sha256(password: &[u8], salt: &[u8], iterations: u32, out_len: usize) -> (r: Vec<u8>)
    requires
        out_len <= 0xffff_ffff,
    ensures
        r@ == pbkdf2_sha256_spec(password@, salt@, iterations, out_len as nat),
        r@.len() == out_len,
{
    let mut out = vec![0u8; out_len];
    pbkdf2::pbkdf2_hmac::<Sha256>(password, salt, iterations, &mut out);
    out
}

/// `hkdf::Hkdf::<Sha256>::new(salt, ikm)` expanded with `info` into `out_len` bytes (at most
/// 255 blocks of 32 bytes, the limit of `expand`).
#[verifier::external_body]
pub(crate) fn hkdf_expand(ikm: &[u8], salt: Option<&[u8]>, info: &[u8], out_len: usize) -> (r: Vec<u8>)
    requires
        out_len <= 8160,
    ensures
        r@ == hkdf_sha256_spec(ikm@, opt_bytes(salt), info@, out_len as nat),
        r@.len() == out_len,
{
    let hk = Hkdf::<Sha256>::new(salt, ikm);
    let mut out = vec![0u8; out_len];
    hk.expand(info, &mut out).expect("hkdf expand");
    out
}

// ----------------------------------------------------------------------------------------------
// Ciphers
// ----------------------------------------------------------------------------------------------

/// AES-256-CTR (`ctr::Ctr128BE<Aes256>`) keystream XOR. The output is as long as the input, and
/// applying the same keystream again gives the input back.
#[verifier::external_body]
pub(crate) fn ctr_apply(key: &[u8; 32], iv: &[u8; 16], data: &[u8]) -> (r: Vec<u8>)
    ensures
        r@ == aes256_ctr_spec(key@, iv@, data@),
        r@.len() == data@.len(),
        aes256_ctr_spec(key@, iv@, r@) == data@,
{
    let mut buf = data.to_vec();
    let mut cipher = ctr::Ctr128BE::<Aes256>::new(key.into(), iv.into());
    cipher.apply_keystream(&mut buf);
    buf
}

/// AES-256-GCM sealing (`Aead::encrypt` with associated data). It fails only when the message or
/// the associated data is longer than 2^36 bytes. The result is 16 bytes longer than the message
/// and opens, under the same key, nonce and associated data, to the message.
#[verifier::external_body]
pub(crate) fn gcm_seal(key: &[u8; 32], nonce: &[u8; 12], aad: &[u8], msg: &[u8]) -> (r: Option<Vec<u8>>)
    ensures
        r is Some <==> (msg@.len() <= GCM_MAX && aad@.len() <= GCM_MAX),
        r matches Some(c) ==> c@ == gcm_seal_spec(key@, nonce@, aad@, msg@)
            && c@.len() == msg@.len() + 16
            && gcm_open_spec(key@, nonce@, aad@, c@) == Some(msg@),
{
    let cipher = Aes256Gcm::new(Key::<Aes256Gcm>::from_slice(key));
    cipher.encrypt(Nonce::from_slice(nonce), Payload { msg, aad }).ok()
}

/// AES-256-GCM opening (`Aead::decrypt` with associated data): the plaintext when the tag
/// verifies.
#[verifier::external_body]
pub(crate) fn gcm_open(key: &[u8; 32], nonce: &[u8; 12], aad: &[u8], ct: &[u8]) -> (r: Option<Vec<u8>>)
    ensures
        opt_vec(r) == gcm_open_spec(key@, nonce@, aad@, ct@),
{
    let cipher = Aes256Gcm::new(Key::<Aes256Gcm>::from_slice(key));
    cipher.decrypt(Nonce::from_slice(nonce), Payload { msg: ct, aad }).ok()
}

/// AES-256-CBC encryption with PKCS#7 padding (`cbc::Encryptor<Aes256>`). The result is the
/// message padded to the next multiple of 16 bytes (a whole block of padding when it already is
/// one), and it decrypts to the message.
#[verifier::external_body]
pub fn encrypt_cbc(cipher_key: &[u8; 32], iv: &[u8; 16], plaintext: &[u8]) -> (r: Vec<u8>)
    ensures
        r@ == cbc_encrypt_spec(cipher_key@, iv@, plaintext@),
        r@.len() == (plaintext@.len() / 16 + 1) * 16,
        cbc_decrypt_spec(cipher_key@, iv@, r@) == Some(plaintext@),
{
    cbc::Encryptor::<Aes256>::new(cipher_key.into(), iv.into()).encrypt_padded_vec_mut::<Pkcs7>(plaintext)
}

/// AES-256-CBC decryption with PKCS#7 unpadding (`cbc::Decryptor<Aes256>`); `None` when the
/// padding is invalid.
#[verifier::external_body]
pub fn decrypt_cbc(cipher_key: &[u8; 32], iv: &[u8; 16], ciphertext: &[u8]) -> (r: Option<Vec<u8>>)
    ensures
        opt_vec(r) == cbc_decrypt_spec(cipher_key@, iv@, ciphertext@),
{
    cbc::Decryptor::<Aes256>::new(cipher_key.into(), iv.into()).decrypt_padded_vec_mut::<Pkcs7>(ciphertext).ok()
}

// ----------------------------------------------------------------------------------------------
// Curve25519
// ----------------------------------------------------------------------------------------------

/// `x25519_dalek::x25519`: the X25519 function of a scalar (clamped internally) and a
/// `u`-coordinate, as RFC 7748 specifies it. When `u` is the base point, `r` is the public key
/// of `k`, and Diffie-Hellman agreement holds for it: any 32-byte key `b` computes from `r` the
/// same shared secret that `k` computes from `b`'s public key.
#[verifier::external_body]
pub(crate) fn x25519(k: [u8; 32], u: [u8; 32]) -> (r: [u8; 32])
    ensures
        r@ == x25519_spec(k@, u@),
        u@ == x25519_basepoint() ==> forall|b: Seq<u8>| b.len() == 32
            ==> #[trigger] x25519_spec(b, r@) == x25519_spec(k@, x25519_spec(b, x25519_basepoint())),
{
    x25519_dalek::x25519(k, u)
}

/// `Scalar::from_bytes_mod_order(s) * MontgomeryPoint(u)`, as bytes.
#[verifier::external_body]
pub(crate) fn mont_mul(s: [u8; 32], u: [u8; 32]) -> (r: [u8; 32])
    ensures
        r@ == mont_mul_spec(s@, u@),
{
    (Scalar::from_bytes_mod_order(s) * MontgomeryPoint(u)).to_bytes()
}

/// `Scalar::from_bytes_mod_order`, as bytes: the little-endian number of `b` modulo `L`.
#[verifier::external_body]
pub(crate) fn scalar_reduce(b: [u8; 32]) -> (r: [u8; 32])
    ensures
        r@ == scalar_reduce_spec(b@),
{
    Scalar::from_bytes_mod_order(b).to_bytes()
}

/// `Scalar::from_bytes_mod_order_wide`, as bytes: the little-endian number of `b` modulo `L`.
#[verifier::external_body]
pub(crate) fn scalar_from_wide(b: [u8; 64]) -> (r: [u8; 32])
    ensures
        r@ == scalar_wide_spec(b@),
{
    Scalar::from_bytes_mod_order_wide(&b).to_bytes()
}

/// The negation (`-Scalar`) of `s` read with `Scalar::from_bytes_mod_order`, as bytes: `L` minus
/// the number of `s` modulo `L`, modulo `L`.
#[verifier::external_body]
pub(crate) fn scalar_neg(s: [u8; 32]) -> (r: [u8; 32])
    ensures
        r@ == scalar_neg_spec(s@),
{
    (-Scalar::from_bytes_mod_order(s)).to_bytes()
}

/// `Scalar + Scalar` (each read with `Scalar::from_bytes_mod_order`), as bytes: the sum of the
/// two little-endian numbers modulo `L`.
#[verifier::external_body]
pub(crate) fn scalar_add(a: [u8; 32], b: [u8; 32]) -> (r: [u8; 32])
    ensures
        r@ == scalar_add_spec(a@, b@),
{
    (Scalar::from_bytes_mod_order(a) + Scalar::from_bytes_mod_order(b)).to_bytes()
}

/// `Scalar * Scalar` (each read with `Scalar::from_bytes_mod_order`), as bytes: the product of
/// the two little-endian numbers modulo `L`.
#[verifier::external_body]
pub(crate) fn scalar_mul(a: [u8; 32], b: [u8; 32]) -> (r: [u8; 32])
    ensures
        r@ == scalar_mul_spec(a@, b@),
{
    (Scalar::from_bytes_mod_order(a) * Scalar::from_bytes_mod_order(b)).to_bytes()
}

/// The number bytes spell splits at byte `i`: the low `i` bytes, plus `256^i` times the rest.
proof fn lemma_le_split(x: Seq<u8>, i: int)
    requires
        0 <= i <= x.len(),
    ensures
        le_value(x) == le_value(x.take(i)) + pow256(i as nat) * le_value(x.skip(i)),
    decreases i,
{
    if i == 0 {
        assert(x.take(0) =~= Seq::<u8>::empty());
        assert(x.skip(0) =~= x);
        assert(pow256(0) == 1);
        assert(le_value(x.take(0)) == 0);
        assert(pow256(0) * le_value(x.skip(0)) == le_value(x));
    } else {
        let rest = x.subrange(1, x.len() as int);
        lemma_le_split(rest, i - 1);
        assert(x.take(i).subrange(1, i) =~= rest.take(i - 1));
        assert(rest.skip(i - 1) =~= x.skip(i));
        assert(pow256(i as nat) == 256 * pow256((i - 1) as nat));
        let a = le_value(rest.take(i - 1));
        let p = pow256((i - 1) as nat);
        let b = le_value(x.skip(i));
        assert(le_value(x) == x[0] as nat + 256 * le_value(rest));
        assert(x.take(i)[0] == x[0]);
        assert(le_value(x.take(i)) == x[0] as nat + 256 * a);
        assert(le_value(rest) == a + p * b);
        let q = pow256(i as nat);
        assert(x[0] as nat + 256 * (a + p * b) == (x[0] as nat + 256 * a) + q * b) by (nonlinear_arith)
            requires
                q == 256 * p,
        ;
        assert(le_value(x) == le_value(x.take(i)) + q * b);
    }
}

/// The number `n` bytes spell is below `256^n`.
proof fn lemma_le_bound(x: Seq<u8>)
    ensures
        le_value(x) < pow256(x.len()),
    decreases x.len(),
{
    if x.len() > 0 {
        let rest = x.subrange(1, x.len() as int);
        lemma_le_bound(rest);
        let v = le_value(rest);
        let p = pow256(rest.len());
        assert(x[0] as nat + 256 * v < 256 * p) by (nonlinear_arith)
            requires
                x[0] < 256,
                v < p,
        ;
    }
}

/// Two byte strings of one length that agree above byte `i` and differ at it compare as their
/// bytes at `i` do.
proof fn lemma_le_compare(a: Seq<u8>, b: Seq<u8>, i: int)
    requires
        a.len() == b.len(),
        0 <= i < a.len(),
        a.skip(i + 1) == b.skip(i + 1),
        a[i] != b[i],
    ensures
        le_value(a) < le_value(b) <==> a[i] < b[i],
{
    lemma_le_split(a, i);
    lemma_le_split(b, i);
    lemma_le_bound(a.take(i));
    lemma_le_bound(b.take(i));
    assert(a.skip(i).subrange(1, a.skip(i).len() as int) =~= a.skip(i + 1));
    assert(b.skip(i).subrange(1, b.skip(i).len() as int) =~= b.skip(i + 1));
    let h = le_value(a.skip(i + 1));
    let p = pow256(i as nat);
    let la = le_value(a.take(i));
    let lb = le_value(b.take(i));
    let ai = a[i] as int;
    let bi = b[i] as int;
    assert(le_value(a) == la + p * (ai + 256 * h));
    assert(le_value(b) == lb + p * (bi + 256 * h));
    assert(ai < bi ==> la + p * (ai + 256 * h) < lb + p * (bi + 256 * h)) by (nonlinear_arith)
        requires
            0 <= la < p,
            0 <= lb,
            0 <= h,
            0 <= ai,
    ;
    assert(bi < ai ==> lb + p * (bi + 256 * h) < la + p * (ai + 256 * h)) by (nonlinear_arith)
        requires
            0 <= lb < p,
            0 <= la,
            0 <= h,
            0 <= bi,
    ;
}

/// The group order's 32 little-endian bytes.
fn group_order_bytes() -> (r: [u8; 32])
    ensures
        r@ == le_bytes32(group_order()),
{
    let l: [u8; 32] = [
        0xed, 0xd3, 0xf5, 0x5c, 0x1a, 0x63, 0x12, 0x58, 0xd6, 0x9c, 0xf7, 0xa2, 0xde, 0xf9, 0xde, 0x14,
        0, 0, 0, 0, 0, 0, 0, 0, 0, 0, 0, 0, 0, 0, 0, 0x10,
    ];
    proof {
        assert(pow256(0) == 1nat);
        assert(pow256(1) == 256nat);
        assert(pow256(2) == 65536nat);
        assert(pow256(3) == 16777216nat);
        assert(pow256(4) == 4294967296nat);
        assert(pow256(5) == 1099511627776nat);
        assert(pow256(6) == 281474976710656nat);
        assert(pow256(7) == 72057594037927936nat);
        assert(pow256(8) == 18446744073709551616nat);
        assert(pow256(9) == 4722366482869645213696nat);
        assert(pow256(10) == 1208925819614629174706176nat);
        assert(pow256(11) == 309485009821345068724781056nat);
        assert(pow256(12) == 79228162514264337593543950336nat);
        assert(pow256(13) == 20282409603651670423947251286016nat);
        assert(pow256(14) == 5192296858534827628530496329220096nat);
        assert(pow256(15) == 1329227995784915872903807060280344576nat);
        assert(pow256(16) == 340282366920938463463374607431768211456nat);
        assert(pow256(17) == 87112285931760246646623899502532662132736nat);
        assert(pow256(18) == 22300745198530623141535718272648361505980416nat);
        assert(pow256(19) == 5708990770823839524233143877797980545530986496nat);
        assert(pow256(20) == 1461501637330902918203684832716283019655932542976nat);
        assert(pow256(21) == 374144419156711147060143317175368453031918731001856nat);
        assert(pow256(22) == 95780971304118053647396689196894323976171195136475136nat);
        assert(pow256(23) == 24519928653854221733733552434404946937899825954937634816nat);
        assert(pow256(24) == 6277101735386680763835789423207666416102355444464034512896nat);
        assert(pow256(25) == 1606938044258990275541962092341162602522202993782792835301376nat);
        assert(pow256(26) == 411376139330301510538742295639337626245683966408394965837152256nat);
        assert(pow256(27) == 105312291668557186697918027683670432318895095400549111254310977536nat);
        assert(pow256(28) == 26959946667150639794667015087019630673637144422540572481103610249216nat);
        assert(pow256(29) == 6901746346790563787434755862277025452451108972170386555162524223799296nat);
        assert(pow256(30) == 1766847064778384329583297500742918515827483896875618958121606201292619776nat);
        assert(pow256(31) == 452312848583266388373324160190187140051835877600158453279131187530910662656nat);
        assert(le_bytes32(group_order())[0] == 237);
        assert(le_bytes32(group_order())[1] == 211);
        assert(le_bytes32(group_order())[2] == 245);
        assert(le_bytes32(group_order())[3] == 92);
        assert(le_bytes32(group_order())[4] == 26);
        assert(le_bytes32(group_order())[5] == 99);
        assert(le_bytes32(group_order())[6] == 18);
        assert(le_bytes32(group_order())[7] == 88);
        assert(le_bytes32(group_order())[8] == 214);
        assert(le_bytes32(group_order())[9] == 156);
        assert(le_bytes32(group_order())[10] == 247);
        assert(le_bytes32(group_order())[11] == 162);
        assert(le_bytes32(group_order())[12] == 222);
        assert(le_bytes32(group_order())[13] == 249);
        assert(le_bytes32(group_order())[14] == 222);
        assert(le_bytes32(group_order())[15] == 20);
        assert(le_bytes32(group_order())[16] == 0);
        assert(le_bytes32(group_order())[17] == 0);
        assert(le_bytes32(group_order())[18] == 0);
        assert(le_bytes32(group_order())[19] == 0);
        assert(le_bytes32(group_order())[20] == 0);
        assert(le_bytes32(group_order())[21] == 0);
        assert(le_bytes32(group_order())[22] == 0);
        assert(le_bytes32(group_order())[23] == 0);
        assert(le_bytes32(group_order())[24] == 0);
        assert(le_bytes32(group_order())[25] == 0);
        assert(le_bytes32(group_order())[26] == 0);
        assert(le_bytes32(group_order())[27] == 0);
        assert(le_bytes32(group_order())[28] == 0);
        assert(le_bytes32(group_order())[29] == 0);
        assert(le_bytes32(group_order())[30] == 0);
        assert(group_order() / pow256(31) == 16) by (nonlinear_arith)
            requires
                pow256(31) == 452312848583266388373324160190187140051835877600158453279131187530910662656nat,
        ;
        assert(le_bytes32(group_order())[31] == 16);
        assert(l@ =~= le_bytes32(group_order()));
    }
    l
}

/// Whether 32 bytes are the canonical encoding of a scalar (what `Scalar::from_canonical_bytes`
/// accepts): compared from the most significant byte down, they spell a number below `L`.
pub fn scalar_is_canonical(s: [u8; 32]) -> (r: bool)
    ensures
        r == scalar_canonical_spec(s@),
{
    let l = group_order_bytes();
    proof {
        assert(le_bytes32(group_order()) =~= le_digits(group_order(), 32));
        lemma_le_digits(group_order(), 32);
        lemma_pow256_32();
        lemma_small_mod(group_order(), pow256(32));
    }
    let mut i: usize = 32;
    while i > 0
        invariant
            i <= 32,
            s@.skip(i as int) == l@.skip(i as int),
            le_value(l@) == group_order(),
        decreases i,
    {
        i -= 1;
        if s[i] != l[i] {
            proof {
                lemma_le_compare(s@, l@, i as int);
            }
            return s[i] < l[i];
        }
        assert(s@.skip(i as int) =~= seq![s[i as int]] + s@.skip(i + 1));
        assert(l@.skip(i as int) =~= seq![l[i as int]] + l@.skip(i + 1));
    }
    assert(s@ =~= l@) by {
        assert(s@.skip(0) =~= s@);
        assert(l@.skip(0) =~= l@);
    }
    false
}

/// `ED25519_BASEPOINT_POINT * Scalar::from_bytes_mod_order(s)`, compressed.
#[verifier::external_body]
pub(crate) fn ed_base_mul(s: [u8; 32]) -> (r: [u8; 32])
    ensures
        r@ == ed_base_mul_spec(s@),
{
    (ED25519_BASEPOINT_POINT * Scalar::from_bytes_mod_order(s)).compress().to_bytes()
}

/// `MontgomeryPoint(u).to_edwards(0)`, compressed. When `u` is the X25519 public key of a
/// 32-byte key `k` (the `u`-coordinate of `clamp(k) * B`, with `B` of prime order `L`), the
/// birational map gives back the Edwards point with that `y`-coordinate and sign bit 0: of
/// `(clamp(k) mod L) * B` and its negation, the one whose compressed form has the top bit clear,
/// which is the XEdDSA signing point of `k`.
#[verifier::external_body]
pub(crate) fn mont_to_ed(u: [u8; 32]) -> (r: Option<[u8; 32]>)
    ensures
        r matches Some(a) ==> mont_to_ed_spec(u@) == Some(a@),
        r is None ==> mont_to_ed_spec(u@) is None,
        r is None ==> forall|k: Seq<u8>| k.len() == 32 ==> u@ != #[trigger] x25519_spec(k, x25519_basepoint()),
        r matches Some(a) ==> forall|k: Seq<u8>|
            k.len() == 32 && u@ == #[trigger] x25519_spec(k, x25519_basepoint()) ==> a@ == signing_point(k),
{
    match MontgomeryPoint(u).to_edwards(0) {
        Some(p) => Some(p.compress().to_bytes()),
        None => None,
    }
}

/// `EdwardsPoint * Scalar` for the compressed point `p` (decompressed first; `None` when it
/// does not decompress) and the scalar read with `Scalar::from_bytes_mod_order`, compressed.
/// A point compressed from `x * B` decompresses to it, and `s * (x * B) = (s x mod L) * B`.
#[verifier::external_body]
pub(crate) fn ed_mul(s: [u8; 32], p: [u8; 32]) -> (r: Option<[u8; 32]>)
    ensures
        r matches Some(c) ==> ed_mul_spec(s@, p@) == Some(c@),
        r is None ==> ed_mul_spec(s@, p@) is None,
        r is None ==> forall|x: Seq<u8>| x.len() == 32 ==> p@ != #[trigger] ed_base_mul_spec(x),
        r matches Some(c) ==> forall|x: Seq<u8>|
            #![trigger ed_base_mul_spec(x), scalar_mul_spec(s@, x)]
            x.len() == 32 && p@ == ed_base_mul_spec(x) ==> c@ == ed_base_mul_spec(scalar_mul_spec(s@, x)),
{
    match CompressedEdwardsY(p).decompress() {
        Some(point) => Some((point * Scalar::from_bytes_mod_order(s)).compress().to_bytes()),
        None => None,
    }
}

/// `EdwardsPoint - EdwardsPoint` for the compressed points `p` and `q` (decompressed first;
/// `None` when either does not decompress), compressed. Points compressed from `x * B` and
/// `y * B` decompress to them, and `x * B - y * B = (x + (L - y mod L)) mod L * B`.
#[verifier::external_body]
pub(crate) fn ed_sub(p: [u8; 32], q: [u8; 32]) -> (r: Option<[u8; 32]>)
    ensures
        r matches Some(c) ==> ed_sub_spec(p@, q@) == Some(c@),
        r is None ==> ed_sub_spec(p@, q@) is None,
        r is None ==> forall|x: Seq<u8>, y: Seq<u8>|
            #![trigger ed_base_mul_spec(x), ed_base_mul_spec(y)]
            x.len() == 32 && y.len() == 32 ==> !(p@ == ed_base_mul_spec(x) && q@ == ed_base_mul_spec(y)),
        r matches Some(c) ==> forall|x: Seq<u8>, y: Seq<u8>|
            #![trigger scalar_add_spec(x, scalar_neg_spec(y))]
            x.len() == 32 && y.len() == 32 && p@ == ed_base_mul_spec(x) && q@ == ed_base_mul_spec(y)
                ==> c@ == ed_base_mul_spec(scalar_add_spec(x, scalar_neg_spec(y))),
{
    match (CompressedEdwardsY(p).decompress(), CompressedEdwardsY(q).decompress()) {
        (Some(a), Some(b)) => Some((a - b).compress().to_bytes()),
        _ => None,
    }
}

// ----------------------------------------------------------------------------------------------
// Encodings
// ----------------------------------------------------------------------------------------------

/// Standard (RFC 4648, padded) base64 encoding with the `base64` crate's `STANDARD` engine; it
/// decodes back to the input.
#[verifier::external_body]
pub(crate) fn base64_encode(data: &[u8]) -> (r: String)
    ensures
        sbytes(r) == spec_base64(data@),
        base64_decode_spec(sbytes(r)) == Some(data@),
{
    STANDARD.encode(data)
}

/// Standard base64 decoding with the `base64` crate's `STANDARD` engine; on invalid text, the
/// error message `base64: <reason>`.
#[verifier::external_body]
pub(crate) fn base64_decode(text: &[u8]) -> (r: Result<Vec<u8>, String>)
    ensures
        r matches Ok(b) ==> base64_decode_spec(text@) == Some(b@),
        r is Err ==> base64_decode_spec(text@) is None,
{
    match STANDARD.decode(text) {
        Ok(b) => Ok(b),
        Err(e) => Err(format!("base64: {e}")),
    }
}

/// `flate2::read::ZlibDecoder` read to the end; on an invalid stream, the error message
/// `zlib inflate: <reason>`.
#[verifier::external_body]
pub(crate) fn zlib_inflate(data: &[u8]) -> (r: Result<Vec<u8>, String>)
    ensures
        r matches Ok(b) ==> zlib_inflate_spec(data@) == Some(b@),
        r is Err ==> zlib_inflate_spec(data@) is None,
{
    let mut out = Vec::new();
    match flate2::read::ZlibDecoder::new(data).read_to_end(&mut out) {
        Ok(_) => Ok(out),
        Err(e) => Err(format!("zlib inflate: {e}")),
    }
}

// ----------------------------------------------------------------------------------------------
// Randomness
// ----------------------------------------------------------------------------------------------

/// `n` bytes from the system random source (`getrandom::getrandom`). Only the length is known.
#[verifier::external_body]
pub(crate) fn random_vec(n: usize) -> (r: Vec<u8>)
    ensures
        r@.len() == n,
{
    let mut b = vec![0u8; n];
    getrandom::getrandom(&mut b).expect("system RNG unavailable");
    b
}

} // verus!
