use whatsapp_rs::crypto::{hmac_sha256, scalar_is_canonical};
use whatsapp_rs::pcrypto::{aes256_ctr, aes256_gcm_open, aes256_gcm_seal, hkdf_sha256, pbkdf2_sha256};
use whatsapp_rs::ratchet::{decrypt_cbc, dh, encrypt_cbc, ChainKey, RootKey};
use whatsapp_rs::xeddsa::{clamp, hash1_prefix, sign, sign_with_nonce, verify};

fn base() -> [u8; 32] {
    let mut b = [0u8; 32];
    b[0] = 9;
    b
}

/// The Montgomery public key of a private key (clamped scalar times the base point).
fn public_of(private: &[u8; 32]) -> [u8; 32] {
    dh(private, &base())
}

#[test]
fn hmac_is_deterministic_and_key_sensitive() {
    let a = hmac_sha256(b"secret-key", b"message");
    assert_eq!(a, hmac_sha256(b"secret-key", b"message"));
    assert_ne!(a, hmac_sha256(b"other-key", b"message"));
    assert_eq!(a.len(), 32);
}

#[test]
fn hmac_known_answer() {
    // RFC 4231 test case 2.
    let tag = hmac_sha256(b"Jefe", b"what do ya want for nothing?");
    assert_eq!(tag[..4], [0x5b, 0xdc, 0xc1, 0x46]);
}

#[test]
fn aes_ctr_round_trips() {
    let key = [7u8; 32];
    let iv = [3u8; 16];
    let msg = b"the quick brown fox jumps over the lazy companion key";
    let ct = aes256_ctr(&key, &iv, msg);
    assert_ne!(ct, msg);
    assert_eq!(aes256_ctr(&key, &iv, &ct), msg);
}

#[test]
fn aes_gcm_round_trips_and_detects_tamper() {
    let key = [9u8; 32];
    let nonce = [1u8; 12];
    let pt = b"identity || primary || advRandom";
    let mut ct = aes256_gcm_seal(&key, &nonce, pt);
    assert_eq!(aes256_gcm_open(&key, &nonce, &ct).unwrap(), pt);
    ct[0] ^= 1;
    assert!(aes256_gcm_open(&key, &nonce, &ct).is_none());
}

#[test]
fn aes_gcm_adds_a_sixteen_byte_tag() {
    let ct = aes256_gcm_seal(&[1u8; 32], &[2u8; 12], b"abc");
    assert_eq!(ct.len(), 3 + 16);
}

#[test]
fn pbkdf2_and_hkdf_are_deterministic() {
    let a = pbkdf2_sha256(b"ABCD2345", b"salt-salt", 1000, 32);
    assert_eq!(a, pbkdf2_sha256(b"ABCD2345", b"salt-salt", 1000, 32));
    assert_eq!(a.len(), 32);
    let h = hkdf_sha256(b"shared-secret", b"", b"adv_secret", 32);
    assert_eq!(h, hkdf_sha256(b"shared-secret", b"", b"adv_secret", 32));
    assert_eq!(h.len(), 32);
    assert_ne!(h, hkdf_sha256(b"shared-secret", b"", b"other_info", 32));
}

#[test]
fn hkdf_salt_changes_output() {
    let a = hkdf_sha256(b"ikm", b"salt-a", b"info", 32);
    let b = hkdf_sha256(b"ikm", b"salt-b", b"info", 32);
    assert_ne!(a, b);
    assert_eq!(hkdf_sha256(b"ikm", b"", b"info", 80).len(), 80);
}

#[test]
fn ratchet_dh_is_symmetric() {
    let a = [11u8; 32];
    let a_pub = dh(&a, &base());
    let b = [22u8; 32];
    let b_pub = dh(&b, &base());
    assert_eq!(dh(&a, &b_pub), dh(&b, &a_pub));
}

#[test]
fn chain_key_advances_and_message_keys_differ() {
    let ck0 = ChainKey::new([7u8; 32], 0);
    let mk0 = ck0.message_keys();
    assert_eq!(mk0.counter, 0);
    let ck1 = ck0.next();
    assert_eq!(ck1.index, 1);
    assert_ne!(ck0.key, ck1.key);
    assert_ne!(ck0.message_keys().cipher_key, ck1.message_keys().cipher_key);
    assert_eq!(ck0.message_keys(), mk0);
}

#[test]
fn two_chains_from_same_root_stay_in_lockstep() {
    let root = RootKey::new([1u8; 32]);
    let dh_out = [2u8; 32];
    let (r_a, mut ck_a) = root.create_chain(&dh_out);
    let (r_b, mut ck_b) = root.create_chain(&dh_out);
    assert_eq!(r_a, r_b);
    for _ in 0..5 {
        assert_eq!(ck_a.message_keys(), ck_b.message_keys());
        ck_a = ck_a.next();
        ck_b = ck_b.next();
    }
}

#[test]
fn create_chain_starts_at_index_zero_with_a_new_root() {
    let root = RootKey::new([1u8; 32]);
    let (next_root, ck) = root.create_chain(&[2u8; 32]);
    assert_eq!(ck.index, 0);
    assert_ne!(next_root.key, root.key);
    assert_ne!(next_root.key, ck.key);
}

#[test]
fn aes_cbc_round_trips() {
    let key = [9u8; 32];
    let iv = [3u8; 16];
    let msg = b"the plaintext WhatsApp Message protobuf, padded";
    let ct = encrypt_cbc(&key, &iv, msg);
    assert_ne!(ct, msg);
    assert_eq!(decrypt_cbc(&key, &iv, &ct).unwrap(), msg);
}

#[test]
fn aes_cbc_pads_to_whole_blocks() {
    assert_eq!(encrypt_cbc(&[0u8; 32], &[0u8; 16], &[0u8; 16]).len(), 32);
    assert_eq!(encrypt_cbc(&[0u8; 32], &[0u8; 16], &[0u8; 5]).len(), 16);
    assert!(decrypt_cbc(&[0u8; 32], &[0u8; 16], &[1u8; 15]).is_none());
}

#[test]
fn message_key_encrypts_a_message() {
    let ck = ChainKey::new([5u8; 32], 0);
    let mk = ck.message_keys();
    let pt = b"hello";
    let ct = encrypt_cbc(&mk.cipher_key, &mk.iv, pt);
    assert_eq!(decrypt_cbc(&mk.cipher_key, &mk.iv, &ct).unwrap(), pt);
}

#[test]
fn clamp_and_prefix_bytes() {
    let c = clamp([0xFFu8; 32]);
    assert_eq!(c[0], 0xF8);
    assert_eq!(c[31], 0x7F);
    assert_eq!(clamp([0u8; 32])[31], 0x40);
    let p = hash1_prefix();
    assert_eq!(p[0], 0xFE);
    assert!(p[1..].iter().all(|b| *b == 0xFF));
}

#[test]
fn sign_then_verify() {
    let mut priv_key = [0u8; 32];
    getrandom::getrandom(&mut priv_key).unwrap();
    let pub_key = public_of(&priv_key);
    let msg = b"\x05signed-pre-key-public-key-goes-here!!";
    let sig = sign(&priv_key, msg);
    assert!(verify(&pub_key, msg, &sig));
}

#[test]
fn tampered_message_fails() {
    let priv_key = [7u8; 32];
    let pub_key = public_of(&priv_key);
    let sig = sign(&priv_key, b"original message");
    assert!(!verify(&pub_key, b"different message", &sig));
}

#[test]
fn tampered_signature_fails() {
    let priv_key = [9u8; 32];
    let pub_key = public_of(&priv_key);
    let mut sig = sign(&priv_key, b"msg");
    sig[0] ^= 0x01;
    assert!(!verify(&pub_key, b"msg", &sig));
}

#[test]
fn wrong_key_fails() {
    let sig = sign(&[1u8; 32], b"msg");
    let other_pub = public_of(&[2u8; 32]);
    assert!(!verify(&other_pub, b"msg", &sig));
}

#[test]
fn deterministic_nonce_is_stable_and_valid() {
    let priv_key = [3u8; 32];
    let pub_key = public_of(&priv_key);
    let z = [42u8; 64];
    let a = sign_with_nonce(&priv_key, b"x", &z);
    let b = sign_with_nonce(&priv_key, b"x", &z);
    assert_eq!(a, b, "same nonce -> same signature");
    assert!(verify(&pub_key, b"x", &a));
}

#[test]
fn non_canonical_s_is_rejected() {
    let priv_key = [3u8; 32];
    let pub_key = public_of(&priv_key);
    let mut sig = sign_with_nonce(&priv_key, b"x", &[1u8; 64]);
    for b in sig[32..].iter_mut() {
        *b = 0xFF;
    }
    assert!(!verify(&pub_key, b"x", &sig));
}

#[test]
fn signatures_of_many_keys_verify_under_their_public_keys() {
    for i in 0..16u8 {
        let mut priv_key = [0u8; 32];
        for (j, b) in priv_key.iter_mut().enumerate() {
            *b = i.wrapping_mul(31).wrapping_add(j as u8);
        }
        let pub_key = public_of(&priv_key);
        let msg = vec![i; i as usize * 3];
        let sig = sign(&priv_key, &msg);
        assert!(verify(&pub_key, &msg, &sig), "key {i}");
        let z = [i; 64];
        assert!(verify(&pub_key, &msg, &sign_with_nonce(&priv_key, &msg, &z)), "key {i} with a fixed nonce");
    }
}

#[test]
fn scalar_canonical_boundary_is_the_group_order() {
    let order: [u8; 32] = [
        0xed, 0xd3, 0xf5, 0x5c, 0x1a, 0x63, 0x12, 0x58, 0xd6, 0x9c, 0xf7, 0xa2, 0xde, 0xf9, 0xde, 0x14,
        0, 0, 0, 0, 0, 0, 0, 0, 0, 0, 0, 0, 0, 0, 0, 0x10,
    ];
    assert!(!scalar_is_canonical(order));
    let mut below = order;
    below[0] -= 1;
    assert!(scalar_is_canonical(below));
    let mut above = order;
    above[16] = 1;
    assert!(!scalar_is_canonical(above));
    assert!(scalar_is_canonical([0u8; 32]));
    assert!(!scalar_is_canonical([0xff; 32]));
}
