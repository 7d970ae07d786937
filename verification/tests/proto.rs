use whatsapp_rs::adv::{AdvDeviceIdentity, AdvSignedDeviceIdentity, AdvSignedDeviceIdentityHmac};
use whatsapp_rs::client_payload::{RegistrationPayload, WA_PLATFORM, WA_VERSION};
use whatsapp_rs::handshake::{ClientFinish, ClientHello, HandshakeMessage, ServerHello, F_EPHEMERAL, F_SERVER_HELLO};
use whatsapp_rs::message::Message;
use whatsapp_rs::pb::{
    first_bytes, first_varint, get_field, iter_len_fields, parse, put_len_field, put_varint,
    put_varint_field, read_varint, Error, Value,
};

#[test]
fn varint_round_trips() {
    for v in [0u64, 1, 127, 128, 300, 16384, u32::MAX as u64, u64::MAX] {
        let mut buf = Vec::new();
        put_varint(&mut buf, v);
        let mut pos = 0;
        assert_eq!(read_varint(&buf, &mut pos).unwrap(), v);
        assert_eq!(pos, buf.len());
    }
}

#[test]
fn len_fields_round_trip() {
    let mut buf = Vec::new();
    put_len_field(&mut buf, 1, b"abc");
    put_len_field(&mut buf, 3, b"defgh");
    let fields = iter_len_fields(&buf).unwrap();
    assert_eq!(get_field(&fields, 1), Some(&b"abc"[..]));
    assert_eq!(get_field(&fields, 3), Some(&b"defgh"[..]));
    assert_eq!(get_field(&fields, 2), None);
}

#[test]
fn varint_exact_bytes() {
    let mut buf = Vec::new();
    put_varint(&mut buf, 300);
    assert_eq!(buf, vec![0xAC, 0x02]);
    let mut buf = Vec::new();
    put_varint(&mut buf, u64::MAX);
    assert_eq!(buf.len(), 10);
    assert_eq!(buf[9], 1);
}

#[test]
fn varint_errors() {
    let mut pos = 0;
    assert!(matches!(read_varint(&[0x80, 0x80], &mut pos), Err(Error::Eof)));
    assert_eq!(pos, 2);
    let long = [0xFFu8; 11];
    let mut pos = 0;
    assert!(matches!(read_varint(&long, &mut pos), Err(Error::Malformed(_))));
    assert_eq!(pos, 10);
}

#[test]
fn field_key_layout() {
    let mut buf = Vec::new();
    put_varint_field(&mut buf, 3, 7);
    assert_eq!(buf, vec![0x18, 7]);
    let mut buf = Vec::new();
    put_len_field(&mut buf, 2, &[9, 9]);
    assert_eq!(buf, vec![0x12, 2, 9, 9]);
}

#[test]
fn parse_reads_varints_and_skips_fixed_width() {
    let mut buf = Vec::new();
    put_varint_field(&mut buf, 1, 42);
    buf.extend_from_slice(&[0x11, 1, 2, 3, 4, 5, 6, 7, 8]); // field 2, wire type 1 (8 bytes)
    put_len_field(&mut buf, 3, b"x");
    let fields = parse(&buf).unwrap();
    assert_eq!(fields.len(), 2);
    assert_eq!(first_varint(&fields, 1), Some(42));
    assert_eq!(first_bytes(&fields, 3), Some(&b"x"[..]));
    assert!(matches!(fields[0].1, Value::Varint(42)));
}

#[test]
fn parse_rejects_unknown_wire_type_and_short_fields() {
    assert!(matches!(parse(&[0x0B]), Err(Error::UnsupportedWireType(3))));
    assert!(matches!(parse(&[0x0A, 5, 1]), Err(Error::Eof)));
    assert_eq!(iter_len_fields(&[]).unwrap().len(), 0);
}

#[test]
fn device_identity_round_trips() {
    let d = AdvDeviceIdentity { raw_id: 12345, timestamp: 1_700_000_000, key_index: 7, account_type: 0, device_type: 0 };
    assert_eq!(AdvDeviceIdentity::decode(&d.encode()).unwrap(), d);
}

#[test]
fn signed_identity_round_trips_and_omits_empty() {
    let s = AdvSignedDeviceIdentity {
        details: vec![1, 2, 3],
        account_signature_key: vec![4; 32],
        account_signature: vec![5; 64],
        device_signature: Vec::new(),
    };
    let decoded = AdvSignedDeviceIdentity::decode(&s.encode()).unwrap();
    assert_eq!(decoded, s);
    assert!(decoded.device_signature.is_empty());
}

#[test]
fn hmac_container_round_trips() {
    let h = AdvSignedDeviceIdentityHmac { details: vec![9; 50], hmac: vec![8; 32], account_type: 0 };
    assert_eq!(AdvSignedDeviceIdentityHmac::decode(&h.encode()).unwrap(), h);
}

#[test]
fn hosted_fields_round_trip() {
    let h = AdvSignedDeviceIdentityHmac { details: vec![1], hmac: vec![2], account_type: 1 };
    assert_eq!(AdvSignedDeviceIdentityHmac::decode(&h.encode()).unwrap(), h);
    let d = AdvDeviceIdentity { raw_id: 1, timestamp: 2, key_index: 3, account_type: 1, device_type: 1 };
    assert_eq!(AdvDeviceIdentity::decode(&d.encode()).unwrap(), d);
}

#[test]
fn plain_text_round_trips() {
    let m = Message::text("hello from whatsapp-rs");
    let decoded = Message::decode(&m.encode()).unwrap();
    assert_eq!(decoded, m);
    assert_eq!(decoded.text_content(), Some("hello from whatsapp-rs"));
}

#[test]
fn extended_text_round_trips() {
    let m = Message { conversation: None, extended_text: Some("rich text".into()) };
    let decoded = Message::decode(&m.encode()).unwrap();
    assert_eq!(decoded, m);
    assert_eq!(decoded.text_content(), Some("rich text"));
}

#[test]
fn empty_message_decodes() {
    let m = Message::decode(&[]).unwrap();
    assert_eq!(m.text_content(), None);
}

#[test]
fn non_utf8_text_is_malformed() {
    let mut buf = Vec::new();
    put_len_field(&mut buf, 1, &[0xFF, 0xFE]);
    assert!(matches!(Message::decode(&buf), Err(Error::Malformed(_))));
}

#[test]
fn client_hello_round_trips_through_handshake_message() {
    let ch = ClientHello::with_ephemeral(vec![7u8; 32]);
    let decoded = HandshakeMessage::decode(&ch.encode()).unwrap();
    assert_eq!(decoded, HandshakeMessage::ClientHello(ch));
}

#[test]
fn server_hello_round_trips_and_reassembles_noise_message() {
    let sh = ServerHello { ephemeral: vec![1u8; 32], static_key: vec![2u8; 48], payload: vec![3u8; 90] };
    let decoded = HandshakeMessage::decode(&sh.encode()).unwrap().into_server_hello().unwrap();
    assert_eq!(decoded, sh);
    let raw = decoded.noise_message();
    assert_eq!(raw.len(), 32 + 48 + 90);
    assert_eq!(&raw[..32], &[1u8; 32]);
    assert_eq!(&raw[32..80], &[2u8; 48]);
}

#[test]
fn client_finish_round_trips() {
    let cf = ClientFinish::new(vec![9u8; 48], vec![5u8; 120]);
    let decoded = HandshakeMessage::decode(&cf.encode()).unwrap();
    assert_eq!(decoded, HandshakeMessage::ClientFinish(cf));
}

#[test]
fn server_hello_requires_static() {
    let mut inner = Vec::new();
    put_len_field(&mut inner, F_EPHEMERAL, &[0u8; 32]);
    let mut msg = Vec::new();
    put_len_field(&mut msg, F_SERVER_HELLO, &inner);
    assert!(HandshakeMessage::decode(&msg).is_err());
}

#[test]
fn handshake_message_without_stage_is_malformed() {
    let mut msg = Vec::new();
    put_len_field(&mut msg, 9, b"zz");
    assert!(matches!(HandshakeMessage::decode(&msg), Err(Error::Malformed(_))));
    let ch = HandshakeMessage::ClientHello(ClientHello::with_ephemeral(vec![1]));
    assert!(ch.into_server_hello().is_err());
}

fn sample() -> RegistrationPayload {
    RegistrationPayload {
        registration_id: 0x0102_0304,
        signed_pre_key_id: 1,
        identity_public: [0x11; 32],
        signed_pre_key_public: [0x22; 32],
        signed_pre_key_signature: vec![0x33; 64],
        build_hash: [0x44; 16],
        device_os: "whatsapp-rs".into(),
        app_version: WA_VERSION,
        platform: WA_PLATFORM,
    }
}

#[test]
fn encodes_expected_top_level_fields() {
    let bytes = sample().encode();
    let fields = iter_len_fields(&bytes).unwrap();
    assert!(get_field(&fields, 5).is_some(), "userAgent present");
    assert!(get_field(&fields, 6).is_some(), "webInfo present");
    assert!(get_field(&fields, 19).is_some(), "devicePairingData present");
}

#[test]
fn registration_data_carries_correct_keys_and_sizes() {
    let p = sample();
    let bytes = p.encode();
    let top = iter_len_fields(&bytes).unwrap();
    let reg = get_field(&top, 19).unwrap();
    let reg_fields = iter_len_fields(reg).unwrap();

    assert_eq!(get_field(&reg_fields, 1), Some(&[1, 2, 3, 4][..]), "eRegid 4-byte BE");
    assert_eq!(get_field(&reg_fields, 2), Some(&[0x05][..]), "eKeytype DJB");
    assert_eq!(get_field(&reg_fields, 3), Some(&[0x11; 32][..]), "eIdent");
    assert_eq!(get_field(&reg_fields, 4), Some(&[0, 0, 1][..]), "eSkeyId 3-byte BE");
    assert_eq!(get_field(&reg_fields, 5).unwrap().len(), 32, "eSkeyVal");
    assert_eq!(get_field(&reg_fields, 6).unwrap().len(), 64, "eSkeySig");
    assert_eq!(get_field(&reg_fields, 7).unwrap().len(), 16, "buildHash");
    assert!(get_field(&reg_fields, 8).is_some(), "deviceProps");
}

#[test]
fn user_agent_carries_version_and_platform() {
    let bytes = sample().encode();
    let top = parse(&bytes).unwrap();
    let ua = parse(first_bytes(&top, 5).unwrap()).unwrap();
    assert_eq!(first_varint(&ua, 1), Some(WA_PLATFORM));
    let av = parse(first_bytes(&ua, 2).unwrap()).unwrap();
    assert_eq!(first_varint(&av, 1), Some(2));
    assert_eq!(first_varint(&av, 2), Some(3000));
    assert_eq!(first_varint(&av, 3), Some(1_041_871_181));
    assert_eq!(first_bytes(&ua, 7), Some(&b"Desktop"[..]));
    assert_eq!(first_varint(&top, 12), Some(1));
    assert_eq!(first_varint(&top, 33), Some(0));
}

#[test]
fn cut_short_fixed_width_field_is_eof() {
    assert!(matches!(iter_len_fields(&[0x09]), Err(Error::Eof)));
    assert!(matches!(parse(&[0x0D, 1, 2]), Err(Error::Eof)));
    assert!(matches!(parse(&[0x0D, 1, 2, 3, 4]), Ok(ref v) if v.is_empty()));
}

#[test]
fn overlong_varint_is_malformed_with_its_message() {
    let mut pos = 0usize;
    assert!(matches!(read_varint(&[0xFF; 10], &mut pos), Err(Error::Malformed("varint exceeds 64 bits"))));
    let mut pos = 0usize;
    assert!(matches!(read_varint(&[0x80], &mut pos), Err(Error::Eof)));
}
