use whatsapp_rs::frame::wa_conn_header;
use whatsapp_rs::snow_handshake::{generate_keypair, Handshake};

#[test]
fn full_xx_handshake_and_transport() {
    let prologue = wa_conn_header();
    let client = generate_keypair().unwrap();
    let server = generate_keypair().unwrap();

    let mut initiator = Handshake::new_initiator(&client.private, &prologue).unwrap();
    let mut responder = Handshake::new_responder(&server.private, &prologue).unwrap();

    let m1 = initiator.write_message(&[]).unwrap();
    assert!(responder.read_message(&m1).unwrap().is_empty());

    let m2 = responder.write_message(&[]).unwrap();
    assert!(initiator.read_message(&m2).unwrap().is_empty());

    assert_eq!(initiator.remote_static().unwrap(), server.public);

    let client_payload = b"<ClientPayload protobuf bytes>";
    let m3 = initiator.write_message(client_payload).unwrap();
    let got = responder.read_message(&m3).unwrap();
    assert_eq!(got, client_payload, "server must recover the client payload");

    assert!(initiator.is_handshake_finished());
    assert!(responder.is_handshake_finished());

    let mut c_tx = initiator.into_transport().unwrap();
    let mut s_rx = responder.into_transport().unwrap();

    let ct = c_tx.encrypt(b"first stanza").unwrap();
    assert_ne!(ct, b"first stanza", "payload must actually be encrypted");
    assert_eq!(s_rx.decrypt(&ct).unwrap(), b"first stanza");

    let reply = s_rx.encrypt(b"server ack").unwrap();
    assert_eq!(c_tx.decrypt(&reply).unwrap(), b"server ack");
}

#[test]
fn keypair_is_x25519_sized() {
    let kp = generate_keypair().unwrap();
    assert_eq!(kp.private.len(), 32);
    assert_eq!(kp.public.len(), 32);
}

#[test]
fn snow_transport_adds_a_tag_and_rejects_garbage() {
    let prologue = wa_conn_header();
    let client = generate_keypair().unwrap();
    let server = generate_keypair().unwrap();
    let mut i = Handshake::new_initiator(&client.private, &prologue).unwrap();
    let mut r = Handshake::new_responder(&server.private, &prologue).unwrap();
    let m1 = i.write_message(&[]).unwrap();
    r.read_message(&m1).unwrap();
    let m2 = r.write_message(&[]).unwrap();
    i.read_message(&m2).unwrap();
    let m3 = i.write_message(&[]).unwrap();
    r.read_message(&m3).unwrap();
    let mut c = i.into_transport().unwrap();
    let mut s = r.into_transport().unwrap();
    let ct = c.encrypt(b"abc").unwrap();
    assert_eq!(ct.len(), 3 + 16);
    assert!(s.decrypt(&[0u8; 20]).is_err());
}

#[test]
fn snow_handshake_builds_with_short_keys_and_messages_carry_payloads() {
    let prologue = wa_conn_header();
    // A key shorter than 32 bytes is zero-padded and still builds.
    assert!(Handshake::new_initiator(&[7u8; 16], &prologue).is_ok());
    let client = generate_keypair().unwrap();
    let server = generate_keypair().unwrap();
    let mut i = Handshake::new_initiator(&client.private, &prologue).unwrap();
    let mut r = Handshake::new_responder(&server.private, &prologue).unwrap();
    let m1 = i.write_message(b"hello").unwrap();
    assert_eq!(m1.len(), 32 + 5);
    assert_eq!(r.read_message(&m1).unwrap(), b"hello".to_vec());
    let m2 = r.write_message(b"cert").unwrap();
    assert_eq!(m2.len(), 32 + 48 + 4 + 16);
    assert_eq!(i.read_message(&m2).unwrap(), b"cert".to_vec());
    let m3 = i.write_message(b"payload").unwrap();
    r.read_message(&m3).unwrap();
    let mut c = i.into_transport().unwrap();
    let mut s = r.into_transport().unwrap();
    let ct = c.encrypt(b"stanza").unwrap();
    let pt = s.decrypt(&ct).unwrap();
    assert_eq!(pt.len() + 16, ct.len());
    assert_eq!(pt, b"stanza".to_vec());
    assert!(s.decrypt(&[0u8; 10]).is_err());
}

#[test]
fn snow_transport_encrypts_up_to_the_message_limit() {
    let prologue = wa_conn_header();
    let client = generate_keypair().unwrap();
    let server = generate_keypair().unwrap();
    let mut i = Handshake::new_initiator(&client.private, &prologue).unwrap();
    let mut r = Handshake::new_responder(&server.private, &prologue).unwrap();
    let m1 = i.write_message(&[]).unwrap();
    r.read_message(&m1).unwrap();
    let m2 = r.write_message(&[]).unwrap();
    i.read_message(&m2).unwrap();
    let m3 = i.write_message(&[]).unwrap();
    r.read_message(&m3).unwrap();
    let mut c = i.into_transport().unwrap();
    let mut s = r.into_transport().unwrap();
    let largest = vec![7u8; 65535 - 16];
    let ct = c.encrypt(&largest).unwrap();
    assert_eq!(ct.len(), 65535);
    assert_eq!(s.decrypt(&ct).unwrap(), largest);
    assert!(c.encrypt(&vec![7u8; 65535 - 15]).is_err());
}
