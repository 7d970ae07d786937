use whatsapp_rs::frame::{wa_conn_header, Error};
use whatsapp_rs::noise::{dh, keypair, nonce, respond_server_hello, NoiseState, NoiseTransport, XxInitiator, NOISE_PROTOCOL_NAME};

#[test]
fn protocol_name_is_exactly_32_bytes() {
    assert_eq!(NOISE_PROTOCOL_NAME.len(), 32);
    assert_eq!(&NOISE_PROTOCOL_NAME[..28], b"Noise_XX_25519_AESGCM_SHA256");
}

#[test]
fn noise_dh_is_symmetric() {
    let (a_priv, a_pub) = keypair();
    let (b_priv, b_pub) = keypair();
    assert_eq!(dh(&a_priv, &b_pub), dh(&b_priv, &a_pub));
}

#[test]
fn nonce_layout() {
    assert_eq!(nonce(0x0102_0304), [0, 0, 0, 0, 0, 0, 0, 0, 1, 2, 3, 4]);
}

#[test]
fn full_xx_handshake_matches_and_transports() {
    let prologue = [b'W', b'A', 6, 3];
    let (i_s_priv, i_s_pub) = keypair();
    let (r_s_priv, r_s_pub) = keypair();

    let mut i = NoiseState::new(&prologue);
    let mut r = NoiseState::new(&prologue);

    let (i_e_priv, i_e_pub) = keypair();
    i.mix_hash(&i_e_pub);
    r.mix_hash(&i_e_pub);

    let (r_e_priv, r_e_pub) = keypair();
    r.mix_hash(&r_e_pub);
    r.mix_dh(&r_e_priv, &i_e_pub);
    let enc_static = r.encrypt(&r_s_pub).unwrap();
    r.mix_dh(&r_s_priv, &i_e_pub);
    let server_payload = b"<server certificate>";
    let enc_payload = r.encrypt(server_payload).unwrap();

    i.mix_hash(&r_e_pub);
    i.mix_dh(&i_e_priv, &r_e_pub);
    let got_static = i.decrypt(&enc_static).unwrap();
    assert_eq!(got_static, r_s_pub, "initiator recovers server static");
    let r_s_pub_arr: [u8; 32] = got_static.clone().try_into().unwrap();
    i.mix_dh(&i_e_priv, &r_s_pub_arr);
    let got_payload = i.decrypt(&enc_payload).unwrap();
    assert_eq!(got_payload, server_payload);

    let enc_client_static = i.encrypt(&i_s_pub).unwrap();
    i.mix_dh(&i_s_priv, &r_e_pub);
    let client_payload = b"<ClientPayload>";
    let enc_client_payload = i.encrypt(client_payload).unwrap();

    let got_client_static = r.decrypt(&enc_client_static).unwrap();
    assert_eq!(got_client_static, i_s_pub);
    let i_s_pub_arr: [u8; 32] = got_client_static.try_into().unwrap();
    r.mix_dh(&r_e_priv, &i_s_pub_arr);
    let got_client_payload = r.decrypt(&enc_client_payload).unwrap();
    assert_eq!(got_client_payload, client_payload);

    assert_eq!(i.handshake_hash(), r.handshake_hash());

    let (i_send, i_recv) = i.split();
    let (r_send, r_recv) = r.split();
    assert_eq!(i_send, r_send);
    assert_eq!(i_recv, r_recv);

    let mut client = NoiseTransport::new(i_send, i_recv);
    let mut server = NoiseTransport::new(r_recv, r_send);
    let ct = client.encrypt(b"first stanza").unwrap();
    assert_eq!(server.decrypt(&ct).unwrap(), b"first stanza");
    let reply = server.encrypt(b"server ack").unwrap();
    assert_eq!(client.decrypt(&reply).unwrap(), b"server ack");
}

#[test]
fn xx_initiator_helper_drives_client_side() {
    let prologue = [b'W', b'A', 6, 3];
    let (r_s_priv, r_s_pub) = keypair();
    let mut i = XxInitiator::new(&prologue);
    let i_e_pub = i.ephemeral();

    let mut r = NoiseState::new(&prologue);
    r.mix_hash(&i_e_pub);
    let (r_e_priv, r_e_pub) = keypair();
    r.mix_hash(&r_e_pub);
    r.mix_dh(&r_e_priv, &i_e_pub);
    let enc_static = r.encrypt(&r_s_pub).unwrap();
    r.mix_dh(&r_s_priv, &i_e_pub);
    let enc_payload = r.encrypt(b"cert").unwrap();

    let (server_static, payload) = i.read_server_hello(&r_e_pub, &enc_static, &enc_payload).unwrap();
    assert_eq!(server_static, r_s_pub);
    assert_eq!(payload, b"cert");
}

#[test]
fn xx_initiator_finish_produces_working_transport() {
    let prologue = [b'W', b'A', 6, 3];
    let (r_s_priv, r_s_pub) = keypair();
    let (c_s_priv, c_s_pub) = keypair();

    let mut i = XxInitiator::new(&prologue);
    let i_e = i.ephemeral();

    let mut r = NoiseState::new(&prologue);
    r.mix_hash(&i_e);
    let (r_e_priv, r_e_pub) = keypair();
    r.mix_hash(&r_e_pub);
    r.mix_dh(&r_e_priv, &i_e);
    let enc_static = r.encrypt(&r_s_pub).unwrap();
    r.mix_dh(&r_s_priv, &i_e);
    let enc_payload = r.encrypt(b"cert").unwrap();
    i.read_server_hello(&r_e_pub, &enc_static, &enc_payload).unwrap();

    let (c_enc_static, c_enc_payload, mut client_tp) = i.finish(&c_s_priv, &c_s_pub, b"<ClientPayload>").unwrap();

    let got = r.decrypt(&c_enc_static).unwrap();
    assert_eq!(got, c_s_pub, "server recovers client static");
    let cs: [u8; 32] = got.try_into().unwrap();
    r.mix_dh(&r_e_priv, &cs);
    assert_eq!(r.decrypt(&c_enc_payload).unwrap(), b"<ClientPayload>");

    let (rs_out1, rs_out2) = r.split();
    let mut server_tp = NoiseTransport::new(rs_out2, rs_out1);
    let ct = client_tp.encrypt(b"first stanza").unwrap();
    assert_eq!(server_tp.decrypt(&ct).unwrap(), b"first stanza");
}

#[test]
fn encrypt_before_any_key_is_uninitialized() {
    let mut s = NoiseState::new(b"WA");
    let h = s.handshake_hash();
    assert!(matches!(s.encrypt(b"x"), Err(Error::NoiseUninitialized)));
    assert!(matches!(s.decrypt(b"x"), Err(Error::NoiseUninitialized)));
    assert_eq!(s.handshake_hash(), h);
}

#[test]
fn tampered_handshake_ciphertext_is_refused() {
    let mut a = NoiseState::new(b"WA");
    let mut b = NoiseState::new(b"WA");
    a.mix_key(b"shared");
    b.mix_key(b"shared");
    let mut ct = a.encrypt(b"secret").unwrap();
    ct[0] ^= 1;
    assert!(matches!(b.decrypt(&ct), Err(Error::Crypto(_))));
}

#[test]
fn read_server_hello_checks_key_lengths_and_finish_needs_it() {
    let mut i = XxInitiator::new(b"WA");
    assert!(matches!(i.read_server_hello(&[1u8; 31], &[], &[]), Err(Error::BadLength(_))));
    let mut j = XxInitiator::new(b"WA");
    assert!(matches!(j.finish(&[1u8; 32], &[2u8; 32], b"p"), Err(Error::Crypto(_))));
}

#[test]
fn transport_counters_must_match() {
    let mut a = NoiseTransport::new([1u8; 32], [2u8; 32]);
    let mut b = NoiseTransport::new([2u8; 32], [1u8; 32]);
    let c1 = a.encrypt(b"one").unwrap();
    let c2 = a.encrypt(b"two").unwrap();
    assert!(b.decrypt(&c2).is_err());
    assert!(b.decrypt(&c1).is_err());
    let mut fresh = NoiseTransport::new([2u8; 32], [1u8; 32]);
    assert_eq!(fresh.decrypt(&c1).unwrap(), b"one");
    assert_eq!(fresh.decrypt(&c2).unwrap(), b"two");
}

#[test]
fn responder_message_two_is_read_by_the_initiator() {
    let prologue = wa_conn_header();
    let (s_priv, s_pub) = keypair();
    let (e_priv, e_pub) = keypair();
    let mut client = XxInitiator::new(&prologue);
    let client_eph = client.ephemeral();
    let (enc_static, enc_payload) =
        respond_server_hello(&prologue, &client_eph, &s_priv, &s_pub, &e_priv, &e_pub, b"certificate").unwrap();
    assert_eq!(enc_static.len(), 32 + 16);
    assert_eq!(enc_payload.len(), b"certificate".len() + 16);
    let (server_static, payload) = client.read_server_hello(&e_pub, &enc_static, &enc_payload).unwrap();
    assert_eq!(server_static, s_pub.to_vec());
    assert_eq!(payload, b"certificate".to_vec());
}

#[test]
fn responder_for_another_client_is_refused() {
    let prologue = wa_conn_header();
    let (s_priv, s_pub) = keypair();
    let (e_priv, e_pub) = keypair();
    let mut client = XxInitiator::new(&prologue);
    let other = XxInitiator::new(&prologue);
    let (enc_static, enc_payload) =
        respond_server_hello(&prologue, &other.ephemeral(), &s_priv, &s_pub, &e_priv, &e_pub, b"c").unwrap();
    assert!(client.read_server_hello(&e_pub, &enc_static, &enc_payload).is_err());
}
