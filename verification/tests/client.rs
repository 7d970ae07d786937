use base64::engine::general_purpose::STANDARD as B64;
use base64::Engine;
use whatsapp_rs::adv::{AdvDeviceIdentity, AdvSignedDeviceIdentity, AdvSignedDeviceIdentityHmac};
use whatsapp_rs::client::Error;
use whatsapp_rs::crypto::hmac_sha256;
use whatsapp_rs::device::{registration_id_from, DeviceIdentity, KeyPair, StoredIdentity};
use whatsapp_rs::jid::parse_jid;
use whatsapp_rs::noise::keypair;
use whatsapp_rs::pairing::{complete_pair_success, qr_payload, RefQueue};
use whatsapp_rs::pcrypto::{aes256_ctr, aes256_gcm_open, hkdf_sha256, pbkdf2_sha256};
use whatsapp_rs::phone::{base32_encode_5, begin_phone_pairing, finish_phone_pairing, PBKDF2_ITERATIONS};
use whatsapp_rs::session::{Account, Session};
use whatsapp_rs::xeddsa::{sign, verify};

const LINKING_ALPHABET: &[u8; 32] = b"123456789ABCDEFGHJKLMNPQRSTVWXYZ";

#[test]
fn parses_user_device() {
    let j = parse_jid("447700900123:23@s.whatsapp.net").unwrap();
    assert_eq!(j.user, 447_700_900_123);
    assert_eq!(j.device, 23);
    assert_eq!(j.server, "s.whatsapp.net");
}

#[test]
fn parses_user_agent_device() {
    let j = parse_jid("12345.0:5@s.whatsapp.net").unwrap();
    assert_eq!((j.user, j.agent, j.device), (12345, 0, 5));
}

#[test]
fn parses_bare_user() {
    let j = parse_jid("999@s.whatsapp.net").unwrap();
    assert_eq!((j.user, j.device), (999, 0));
}

#[test]
fn rejects_non_numeric_user() {
    assert!(parse_jid("abc@s.whatsapp.net").is_err());
}

#[test]
fn jid_errors_name_the_problem() {
    assert!(matches!(parse_jid("12345"), Err(Error::Pairing("jid missing '@'"))));
    assert!(matches!(parse_jid("1:x@s"), Err(Error::Pairing("jid device not numeric"))));
    assert!(matches!(parse_jid("1:70000@s"), Err(Error::Pairing("jid device not numeric"))));
    assert!(matches!(parse_jid("@s"), Err(Error::Pairing("jid user not numeric"))));
    let j = parse_jid("+7.x:1@lid").unwrap();
    assert_eq!((j.user, j.agent, j.device, j.server.as_str()), (7, 0, 1, "lid"));
    let j = parse_jid("5.300@a@b").unwrap();
    assert_eq!((j.user, j.agent, j.server.as_str()), (5, 0, "a@b"));
}

#[test]
fn ref_queue_drains_in_order() {
    let mut q = RefQueue::new(vec!["a".into(), "b".into(), "c".into()]);
    assert_eq!(q.remaining(), 3);
    assert_eq!(q.next_ref().as_deref(), Some("a"));
    assert_eq!(q.next_ref().as_deref(), Some("b"));
    assert_eq!(q.next_ref().as_deref(), Some("c"));
    assert_eq!(q.next_ref(), None);
    assert_eq!(q.remaining(), 0);
}

#[test]
fn qr_payload_has_four_comma_fields_in_order() {
    let d = DeviceIdentity::generate();
    let s = qr_payload("REF123", &d);
    let parts: Vec<&str> = s.split(',').collect();
    assert_eq!(parts.len(), 4);
    assert_eq!(parts[0], "REF123");
    assert_eq!(parts[1], B64.encode(d.noise_key.public));
    assert_eq!(parts[2], B64.encode(d.identity_key.public));
    assert_eq!(parts[3], B64.encode(d.adv_secret));
    assert_eq!(parts[1].len(), 44);
}

#[test]
fn generated_identity_is_well_formed() {
    let d = DeviceIdentity::generate();
    assert_ne!(d.noise_key.public, [0u8; 32]);
    assert_ne!(d.identity_key.public, [0u8; 32]);
    assert_ne!(d.adv_secret, [0u8; 32]);
    assert!((1..=16380).contains(&d.registration_id));
    assert_ne!(d.noise_key.private, d.identity_key.private);
    assert!(d.is_pre_key_signed());
    let mut signed = vec![0x05u8];
    signed.extend_from_slice(&d.signed_pre_key.key_pair.public);
    let sig: [u8; 64] = d.signed_pre_key.signature.clone().try_into().unwrap();
    assert!(verify(&d.identity_key.public, &signed, &sig));
}

#[test]
fn keypair_generate_matches_dh_with_base_point() {
    let k = KeyPair::generate();
    let mut base = [0u8; 32];
    base[0] = 9;
    assert_eq!(whatsapp_rs::noise::dh(&k.private, &base), k.public);
}

#[test]
fn registration_id_range() {
    assert_eq!(registration_id_from([0, 0, 0, 0]), 1);
    assert_eq!(registration_id_from([0, 0, 0x3F, 0xFB]), 16380);
    assert_eq!(registration_id_from([0, 0, 0x3F, 0xFC]), 1);
    assert_eq!(registration_id_from([0xFF, 0xFF, 0xFF, 0xFF]), 4_294_967_295 % 16380 + 1);
}

#[test]
fn stored_identity_round_trips() {
    let d = DeviceIdentity::generate();
    let s = StoredIdentity::from_identity(&d);
    assert_eq!(s.version, 1);
    assert_eq!(s.noise_public, B64.encode(d.noise_key.public));
    let back = DeviceIdentity::try_from_stored(s).unwrap();
    assert_eq!(back, d);
}

#[test]
fn stored_identity_rejects_bad_keys() {
    let d = DeviceIdentity::generate();
    let mut s = StoredIdentity::from_identity(&d);
    s.adv_secret = B64.encode([1u8; 31]);
    assert!(matches!(DeviceIdentity::try_from_stored(s), Err(Error::Store(_))));
    let mut s = StoredIdentity::from_identity(&d);
    s.noise_private = "not base64!".to_string();
    assert!(matches!(DeviceIdentity::try_from_stored(s), Err(Error::Store(_))));
}

#[test]
fn session_pairing_state() {
    let mut s = Session::new(DeviceIdentity::generate());
    assert!(!s.is_paired());
    s.account = Some(Account {
        jid: "447700900123:23@s.whatsapp.net".into(),
        lid: None,
        account_signature_key: vec![1u8; 32],
        signed_device_identity: vec![2u8; 120],
        push_name: None,
        platform: None,
        business_name: None,
    });
    assert!(s.is_paired());
}

#[test]
fn concat_joins_in_order() {
    let a: &[u8] = &[1, 2];
    let b: &[u8] = &[];
    let c: &[u8] = &[3];
    assert_eq!(whatsapp_rs::pairing::concat(&[a, b, c]), vec![1, 2, 3]);
}

/// Build a valid `pair-success` device identity the way the phone and server would.
fn build_server_device_identity(device: &DeviceIdentity) -> (Vec<u8>, [u8; 32], Vec<u8>) {
    let (account_priv, account_pub) = keypair();
    let inner = AdvDeviceIdentity { raw_id: 42, timestamp: 1_700_000_000, key_index: 3, account_type: 0, device_type: 0 };
    let inner_bytes = inner.encode();
    let mut account_msg = vec![6u8, 0];
    account_msg.extend_from_slice(&inner_bytes);
    account_msg.extend_from_slice(&device.identity_key.public);
    let account_sig = sign(&account_priv, &account_msg);
    let signed = AdvSignedDeviceIdentity {
        details: inner_bytes.clone(),
        account_signature_key: account_pub.to_vec(),
        account_signature: account_sig.to_vec(),
        device_signature: Vec::new(),
    };
    let signed_bytes = signed.encode();
    let hmac = hmac_sha256(&device.adv_secret, &signed_bytes);
    let container = AdvSignedDeviceIdentityHmac { details: signed_bytes, hmac: hmac.to_vec(), account_type: 0 };
    (container.encode(), account_pub, inner_bytes)
}

#[test]
fn pair_success_full_pipeline() {
    let device = DeviceIdentity::generate();
    let (container_bytes, account_pub, inner_bytes) = build_server_device_identity(&device);

    let result = complete_pair_success(&container_bytes, &device).unwrap();
    assert_eq!(result.key_index, 3);

    let out = AdvSignedDeviceIdentity::decode(&result.self_signed_identity).unwrap();
    assert!(out.account_signature_key.is_empty(), "account key must be nulled");
    assert_eq!(out.device_signature.len(), 64);

    let mut device_msg = vec![6u8, 1];
    device_msg.extend_from_slice(&inner_bytes);
    device_msg.extend_from_slice(&device.identity_key.public);
    device_msg.extend_from_slice(&account_pub);
    let sig: [u8; 64] = out.device_signature.as_slice().try_into().unwrap();
    assert!(verify(&device.identity_key.public, &device_msg, &sig));
}

#[test]
fn pair_success_rejects_tampered_hmac() {
    let device = DeviceIdentity::generate();
    let (mut container_bytes, _, _) = build_server_device_identity(&device);
    let n = container_bytes.len();
    container_bytes[n - 1] ^= 0x01;
    assert!(complete_pair_success(&container_bytes, &device).is_err());
}

#[test]
fn pair_success_rejects_bad_account_signature() {
    let device = DeviceIdentity::generate();
    let (account_priv, account_pub) = keypair();
    let inner_bytes = AdvDeviceIdentity { raw_id: 1, timestamp: 2, key_index: 4, account_type: 0, device_type: 0 }.encode();
    let sig = sign(&account_priv, b"some other message");
    let signed = AdvSignedDeviceIdentity {
        details: inner_bytes,
        account_signature_key: account_pub.to_vec(),
        account_signature: sig.to_vec(),
        device_signature: Vec::new(),
    }
    .encode();
    let hmac = hmac_sha256(&device.adv_secret, &signed);
    let container = AdvSignedDeviceIdentityHmac { details: signed, hmac: hmac.to_vec(), account_type: 0 }.encode();
    assert!(matches!(
        complete_pair_success(&container, &device),
        Err(Error::Pairing("account signature verification failed"))
    ));
}

#[test]
fn pair_success_rejects_short_account_key() {
    let device = DeviceIdentity::generate();
    let signed = AdvSignedDeviceIdentity {
        details: vec![],
        account_signature_key: vec![1u8; 31],
        account_signature: vec![2u8; 64],
        device_signature: Vec::new(),
    }
    .encode();
    let hmac = hmac_sha256(&device.adv_secret, &signed);
    let container = AdvSignedDeviceIdentityHmac { details: signed, hmac: hmac.to_vec(), account_type: 0 }.encode();
    assert!(matches!(
        complete_pair_success(&container, &device),
        Err(Error::Pairing("bad accountSignatureKey length"))
    ));
}

#[test]
fn linking_code_is_8_uppercase_base32_chars() {
    let (_, _, formatted) = begin_phone_pairing(&DeviceIdentity::generate(), "1", "Chrome (Windows)");
    assert_eq!(formatted.len(), 9);
    assert_eq!(formatted.chars().nth(4), Some('-'));
    let raw: String = formatted.chars().filter(|c| *c != '-').collect();
    assert!(raw.bytes().all(|b| LINKING_ALPHABET.contains(&b)));
}

#[test]
fn base32_of_known_bytes() {
    assert_eq!(base32_encode_5(&[0, 0, 0, 0, 0]), "11111111");
    assert_eq!(base32_encode_5(&[0xFF; 5]), "ZZZZZZZZ");
    assert_eq!(base32_encode_5(&[0, 0, 0, 0, 1]), "11111112");
}

#[test]
fn phone_pairing_derives_matching_adv_secret() {
    let device = DeviceIdentity::generate();
    let (mut state, hello, _code) = begin_phone_pairing(&device, "1", "Chrome (Windows)");
    assert_eq!(hello.len(), 5);
    state.pairing_ref = Some("ref-123".into());

    let (primary_eph_priv, primary_eph_pub) = keypair();
    let (primary_id_priv, primary_id_pub) = keypair();
    let p_salt: [u8; 32] = [5u8; 32];
    let p_iv: [u8; 16] = [6u8; 16];
    let p_key: [u8; 32] = pbkdf2_sha256(state.linking_code.as_bytes(), &p_salt, PBKDF2_ITERATIONS, 32).try_into().unwrap();
    let p_enc = aes256_ctr(&p_key, &p_iv, &primary_eph_pub);
    let mut wrapped_primary = Vec::new();
    wrapped_primary.extend_from_slice(&p_salt);
    wrapped_primary.extend_from_slice(&p_iv);
    wrapped_primary.extend_from_slice(&p_enc);

    let (our_adv, children) = finish_phone_pairing(&device, &state, &wrapped_primary, &primary_id_pub).unwrap();

    let primary_ephemeral_shared = whatsapp_rs::noise::dh(&primary_eph_priv, &state.ephemeral_public);
    let bundle = children
        .iter()
        .find(|n| n.tag == "link_code_pairing_wrapped_key_bundle")
        .and_then(|n| n.content_bytes())
        .unwrap();
    let b_salt = &bundle[0..32];
    let b_nonce: [u8; 12] = bundle[32..44].try_into().unwrap();
    let b_ct = &bundle[44..];
    let b_key: [u8; 32] =
        hkdf_sha256(&primary_ephemeral_shared, b_salt, b"link_code_pairing_key_bundle_encryption_key", 32).try_into().unwrap();
    let recovered = aes256_gcm_open(&b_key, &b_nonce, b_ct).unwrap();
    let adv_random = &recovered[64..96];
    let primary_identity_shared = whatsapp_rs::noise::dh(&primary_id_priv, &device.identity_key.public);
    let mut adv_input = Vec::new();
    adv_input.extend_from_slice(&primary_ephemeral_shared);
    adv_input.extend_from_slice(&primary_identity_shared);
    adv_input.extend_from_slice(adv_random);
    let primary_adv: [u8; 32] = hkdf_sha256(&adv_input, b"", b"adv_secret", 32).try_into().unwrap();

    assert_eq!(our_adv, primary_adv, "both sides must derive the same adv secret");
    assert_eq!(&recovered[0..32], &device.identity_key.public);
    assert_eq!(&recovered[32..64], &primary_id_pub);
}

#[test]
fn finish_phone_pairing_checks_lengths() {
    let device = DeviceIdentity::generate();
    let (state, _, _) = begin_phone_pairing(&device, "1", "x");
    assert!(matches!(
        finish_phone_pairing(&device, &state, &[0u8; 79], &[0u8; 32]),
        Err(Error::Pairing("wrapped primary ephemeral pub too short"))
    ));
    assert!(matches!(
        finish_phone_pairing(&device, &state, &[0u8; 80], &[0u8; 31]),
        Err(Error::Pairing("bad primary identity pub length"))
    ));
}
