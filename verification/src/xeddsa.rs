//! XEdDSA signatures over Curve25519: signing with an X25519 (Montgomery) key, as Signal and
//! WhatsApp do for the signed pre-key and the pairing device identity.
//!
//! Signing maps the Montgomery private scalar onto the Edwards curve, signs Ed25519-style with a
//! domain-separated nonce, and makes the public key's sign bit 0 (so a verifier can recover it from
//! the Montgomery `u`-coordinate alone). A signature is 64 bytes, `R || s`.

use vstd::prelude::*;
use crate::bytes::{append_bytes, array32, array64};
use crate::crypto::{
    ed_base_mul, ed_base_mul_spec, ed_mul, ed_mul_spec, ed_sub, ed_sub_spec, group_order, lemma_scalar_of,
    le_value, mont_to_ed, mont_to_ed_spec, random_vec, scalar_add, scalar_add_spec, scalar_canonical_spec,
    scalar_from_wide, scalar_is_canonical, scalar_mul, scalar_mul_spec, scalar_neg, scalar_neg_spec,
    scalar_of, scalar_reduce, scalar_reduce_spec, scalar_wide_spec, sha512, sha512_spec, x25519_basepoint,
    x25519_spec,
};
use vstd::arithmetic::div_mod::{lemma_add_mod_noop, lemma_mod_add_multiples_vanish, lemma_small_mod};
use crate::token::bytes_eq;

verus! {

/// A 32-byte value clamped into an X25519 scalar: the low three bits cleared, the top bit cleared
/// and the second-highest bit set.
pub open spec fn clamp_spec(k: Seq<u8>) -> Seq<u8> {
    k.update(0, k[0] & 248u8).update(31, (k[31] & 127u8) | 64u8)
}

/// Clamp a 32-byte value into a valid X25519 scalar (what X25519 does internally, so the clamped
/// scalar's public key is the stored Montgomery public key).
pub fn clamp(k: [u8; 32]) -> (r: [u8; 32])
    ensures
        r@ == clamp_spec(k@),
{
    let mut x = k;
    x[0] = x[0] & 248;
    x[31] = x[31] & 127;
    x[31] = x[31] | 64;
    assert(x@ =~= clamp_spec(k@));
    x
}

/// The XEdDSA `hash_1` domain prefix: `2^256 - 2` little-endian, `0xFE` then thirty-one `0xFF`.
pub open spec fn hash1_prefix_spec() -> Seq<u8> {
    seq![0xFEu8] + Seq::new(31, |i: int| 0xFFu8)
}

/// The XEdDSA `hash_1` domain prefix.
pub fn hash1_prefix() -> (r: [u8; 32])
    ensures
        r@ == hash1_prefix_spec(),
{
    let mut p = [0xFFu8; 32];
    p[0] = 0xFE;
    assert(p@ =~= hash1_prefix_spec());
    p
}

/// Whether a compressed Edwards point has its sign bit set.
pub open spec fn sign_bit_set(e: Seq<u8>) -> bool {
    (e[31] >> 7u8) & 1u8 == 1u8
}

/// The private scalar actually signed with: the clamped key reduced, negated when its public
/// point has the sign bit set.
pub open spec fn signing_scalar(k: Seq<u8>) -> Seq<u8> {
    let scalar = scalar_reduce_spec(clamp_spec(k));
    if sign_bit_set(ed_base_mul_spec(scalar)) { scalar_neg_spec(scalar) } else { scalar }
}

/// The signing public point (sign bit 0).
pub open spec fn signing_point(k: Seq<u8>) -> Seq<u8> {
    let scalar = scalar_reduce_spec(clamp_spec(k));
    let e = ed_base_mul_spec(scalar);
    if sign_bit_set(e) { ed_base_mul_spec(scalar_neg_spec(scalar)) } else { e }
}

/// The XEdDSA signature of `m` under the private key `k` with the 64-byte nonce `z`:
/// `r = hash_1(a || M || Z)`, `R = rB`, `h = SHA512(R || A || M)`, `s = r + h a`; the signature
/// is `R || s`.
pub open spec fn xeddsa_sign_spec(k: Seq<u8>, m: Seq<u8>, z: Seq<u8>) -> Seq<u8> {
    let a = signing_scalar(k);
    let big_a = signing_point(k);
    let r = scalar_wide_spec(sha512_spec(hash1_prefix_spec() + a + m + z));
    let big_r = ed_base_mul_spec(r);
    let hs = scalar_wide_spec(sha512_spec(big_r + big_a + m));
    big_r + scalar_add_spec(r, scalar_mul_spec(hs, a))
}

/// Whether `sig` is an XEdDSA signature of `m` under the Montgomery public key `pk`: `pk` maps to
/// an Edwards point `A`, the `s` half is canonical, and `sB - hA` compresses to the `R` half.
pub open spec fn xeddsa_verify_spec(pk: Seq<u8>, m: Seq<u8>, sig: Seq<u8>) -> bool {
    match mont_to_ed_spec(pk) {
        None => false,
        Some(big_a) => {
            let r = sig.subrange(0, 32);
            let s = sig.subrange(32, 64);
            if !scalar_canonical_spec(s) {
                false
            } else {
                let hs = scalar_wide_spec(sha512_spec(r + big_a + m));
                match ed_mul_spec(hs, big_a) {
                    None => false,
                    Some(h_a) => match ed_sub_spec(ed_base_mul_spec(s), h_a) {
                        Some(c) => c == r,
                        None => false,
                    },
                }
            }
        },
    }
}

/// Whether `sig` is the XEdDSA signature of `m` made with the nonce `z` under a 32-byte private
/// key `k` whose X25519 public key is `pk`.
pub open spec fn signed_by(pk: Seq<u8>, m: Seq<u8>, sig: Seq<u8>, k: Seq<u8>, z: Seq<u8>) -> bool {
    &&& k.len() == 32
    &&& z.len() == 64
    &&& pk == x25519_spec(k, x25519_basepoint())
    &&& sig == xeddsa_sign_spec(k, m, z)
}

/// Adding `h` to a scalar and then adding `-h` gives the scalar back.
proof fn lemma_add_then_sub(n1: nat, n2: nat)
    ensures
        scalar_add_spec(scalar_add_spec(scalar_of(n1), scalar_of(n2)), scalar_neg_spec(scalar_of(n2)))
            == scalar_of(n1),
{
    let l = group_order();
    let rho = n1 % l;
    let eta = n2 % l;
    lemma_scalar_of(n1);
    lemma_scalar_of(n2);
    lemma_scalar_of(rho + eta);
    lemma_small_mod(eta, l);
    lemma_scalar_of((l - eta) as nat);
    let li = l as int;
    lemma_add_mod_noop((rho + eta) as int, li - eta, li);
    assert(rho + eta + (li - eta) == li + rho);
    lemma_mod_add_multiples_vanish(rho as int, li);
    lemma_small_mod(rho, l);
    let x = ((rho + eta) % l + ((l - eta) as nat) % l) as nat;
    assert(x % l == rho);
}

/// The parts of a signature made by [`xeddsa_sign_spec`]: `R = rB`, `s = r + h a` canonical, the
/// signing point `aB`, and `s - h a = r`.
proof fn lemma_signature_parts(k: Seq<u8>, m: Seq<u8>, z: Seq<u8>, sig: Seq<u8>)
    requires
        sig.len() == 64,
        sig == xeddsa_sign_spec(k, m, z),
    ensures
        ({
            let a = signing_scalar(k);
            let r = scalar_wide_spec(sha512_spec(hash1_prefix_spec() + a + m + z));
            let hs = scalar_wide_spec(sha512_spec(sig.subrange(0, 32) + signing_point(k) + m));
            let h = scalar_mul_spec(hs, a);
            &&& a.len() == 32
            &&& h.len() == 32
            &&& signing_point(k) == ed_base_mul_spec(a)
            &&& sig.subrange(0, 32) == ed_base_mul_spec(r)
            &&& sig.subrange(32, 64) == scalar_add_spec(r, h)
            &&& sig.subrange(32, 64).len() == 32
            &&& scalar_canonical_spec(sig.subrange(32, 64))
            &&& scalar_add_spec(sig.subrange(32, 64), scalar_neg_spec(h)) == r
        }),
{
    let a = signing_scalar(k);
    let c = scalar_reduce_spec(clamp_spec(k));
    lemma_scalar_of(le_value(clamp_spec(k)));
    lemma_scalar_of((group_order() - le_value(c) % group_order()) as nat);
    assert(a.len() == 32);
    let n1 = le_value(sha512_spec(hash1_prefix_spec() + a + m + z));
    let r = scalar_wide_spec(sha512_spec(hash1_prefix_spec() + a + m + z));
    lemma_scalar_of(n1);
    let big_r = ed_base_mul_spec(r);
    let hs = scalar_wide_spec(sha512_spec(big_r + signing_point(k) + m));
    let n2 = le_value(hs) * le_value(a);
    let h = scalar_mul_spec(hs, a);
    lemma_scalar_of(n2);
    let s = scalar_add_spec(r, h);
    lemma_scalar_of(le_value(r) + le_value(h));
    assert(sig == big_r + s);
    assert(sig.subrange(0, 32) =~= big_r);
    assert(sig.subrange(32, 64) =~= s);
    lemma_add_then_sub(n1, n2);
}

/// Sign `message` with the X25519 private key, drawing a random 64-byte nonce.
pub fn sign(private_key: &[u8; 32], message: &[u8]) -> (r: [u8; 64])
    ensures
        exists|z: Seq<u8>| z.len() == 64 && r@ == xeddsa_sign_spec(private_key@, message@, z),
{
    let nonce_bytes = random_vec(64);
    let nonce = array64(nonce_bytes.as_slice(), 0);
    sign_with_nonce(private_key, message, &nonce)
}

/// Sign with a caller-supplied 64-byte nonce `Z` (deterministic).
pub fn sign_with_nonce(private_key: &[u8; 32], message: &[u8], nonce: &[u8; 64]) -> (r: [u8; 64])
    ensures
        r@ == xeddsa_sign_spec(private_key@, message@, nonce@),
{
    let scalar = scalar_reduce(clamp(*private_key));
    // E = kB; make the public key's sign bit 0, negating the private scalar to match.
    let e = ed_base_mul(scalar);
    let sign_bit = (e[31] >> 7) & 1;
    let (a, big_a) = if sign_bit == 1 {
        let neg = scalar_neg(scalar);
        (neg, ed_base_mul(neg))
    } else {
        (scalar, e)
    };
    // r = hash_1(prefix || a || M || Z)
    let mut h1 = Vec::new();
    append_bytes(&mut h1, &hash1_prefix());
    append_bytes(&mut h1, &a);
    append_bytes(&mut h1, message);
    append_bytes(&mut h1, nonce);
    let r = scalar_from_wide(sha512(h1.as_slice()));
    let big_r = ed_base_mul(r);
    // h = SHA512(R || A || M)
    let mut h2 = Vec::new();
    append_bytes(&mut h2, &big_r);
    append_bytes(&mut h2, &big_a);
    append_bytes(&mut h2, message);
    let hs = scalar_from_wide(sha512(h2.as_slice()));
    // s = r + h a
    let s = scalar_add(r, scalar_mul(hs, a));
    let mut sig = [0u8; 64];
    let mut i: usize = 0;
    while i < 32
        invariant
            i <= 32,
            forall|j: int| 0 <= j < i ==> sig@[j] == big_r@[j] && sig@[j + 32] == s@[j],
        decreases 32 - i,
    {
        sig[i] = big_r[i];
        sig[i + 32] = s[i];
        i += 1;
    }
    assert(sig@ =~= big_r@ + s@);
    sig
}

/// Verify a 64-byte XEdDSA signature against an X25519 (Montgomery) public key. A signature made
/// by signing (with any nonce) under a private key is accepted with that key's public key.
pub fn verify(public_key: &[u8; 32], message: &[u8], signature: &[u8; 64]) -> (r: bool)
    ensures
        r == xeddsa_verify_spec(public_key@, message@, signature@),
        (exists|k: Seq<u8>, z: Seq<u8>| signed_by(public_key@, message@, signature@, k, z)) ==> r,
{
    let ghost genuine = exists|k: Seq<u8>, z: Seq<u8>| signed_by(public_key@, message@, signature@, k, z);
    let ghost kz = choose|k: Seq<u8>, z: Seq<u8>| signed_by(public_key@, message@, signature@, k, z);
    let ghost a = signing_scalar(kz.0);
    let ghost nonce = scalar_wide_spec(sha512_spec(hash1_prefix_spec() + a + message@ + kz.1));
    proof {
        if genuine {
            lemma_signature_parts(kz.0, message@, kz.1, signature@);
            assert(public_key@ == x25519_spec(kz.0, x25519_basepoint()));
        }
    }
    let big_a = match mont_to_ed(*public_key) {
        Some(p) => p,
        None => return false,
    };
    let r_bytes = array32(signature, 0);
    let s_bytes = array32(signature, 32);
    if !scalar_is_canonical(s_bytes) {
        return false;
    }
    let mut h = Vec::new();
    append_bytes(&mut h, &r_bytes);
    append_bytes(&mut h, &big_a);
    append_bytes(&mut h, message);
    let hs = scalar_from_wide(sha512(h.as_slice()));
    let ghost h_a_scalar = scalar_mul_spec(hs@, a);
    // sB - hA must compress to R.
    let h_a = match ed_mul(hs, big_a) {
        Some(p) => p,
        None => return false,
    };
    let s_point = ed_base_mul(s_bytes);
    proof {
        if genuine {
            assert(scalar_add_spec(s_bytes@, scalar_neg_spec(h_a_scalar)) == nonce);
        }
    }
    match ed_sub(s_point, h_a) {
        Some(check) => bytes_eq(&check, &r_bytes),
        None => false,
    }
}

} // verus!
