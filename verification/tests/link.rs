use whatsapp_rs::adv::{AdvDeviceIdentity, AdvSignedDeviceIdentity, AdvSignedDeviceIdentityHmac};
use whatsapp_rs::client::Error;
use whatsapp_rs::codec::unmarshal;
use whatsapp_rs::crypto::hmac_sha256;
use whatsapp_rs::device::DeviceIdentity;
use whatsapp_rs::frame::{wa_conn_header, FrameReader};
use whatsapp_rs::handshake::ClientHello;
use whatsapp_rs::link::{
    accept_server_hello, failure_detail, finish_message, hello_message, open_stanza, seal_stanza, HelloError,
    LinkAction, LinkState, OpenError, Opened,
};
use whatsapp_rs::node::{Node, NodeContent};
use whatsapp_rs::noise::{keypair, NoiseTransport, XxInitiator};
use whatsapp_rs::pairing::{qr_payload, qr_url};
use whatsapp_rs::xeddsa::{sign, verify};

fn pair_device_iq(refs: &[&str]) -> Node {
    let kids: Vec<Node> = refs.iter().map(|r| Node::new("ref").bytes(r.as_bytes().to_vec())).collect();
    Node::new("iq")
        .attr("from", "s.whatsapp.net")
        .attr("id", "17")
        .attr("type", "set")
        .children(vec![Node::new("pair-device").children(kids)])
}

/// A valid `pair-success` device identity, made the way the phone and server make it.
fn server_device_identity(device: &DeviceIdentity) -> Vec<u8> {
    let (account_priv, account_pub) = keypair();
    let inner = AdvDeviceIdentity { raw_id: 7, timestamp: 1_700_000_000, key_index: 5, account_type: 0, device_type: 0 };
    let inner_bytes = inner.encode();
    let mut account_msg = vec![6u8, 0];
    account_msg.extend_from_slice(&inner_bytes);
    account_msg.extend_from_slice(&device.identity_key.public);
    let account_sig = sign(&account_priv, &account_msg);
    let signed = AdvSignedDeviceIdentity {
        details: inner_bytes,
        account_signature_key: account_pub.to_vec(),
        account_signature: account_sig.to_vec(),
        device_signature: Vec::new(),
    };
    let signed_bytes = signed.encode();
    let hmac = hmac_sha256(&device.adv_secret, &signed_bytes);
    AdvSignedDeviceIdentityHmac { details: signed_bytes, hmac: hmac.to_vec(), account_type: 0 }.encode()
}

fn pair_success_iq(identity: Option<Vec<u8>>) -> Node {
    let mut kids = vec![Node::new("device").attr("jid", "447700900123:4@s.whatsapp.net")];
    if let Some(body) = identity {
        kids.push(Node::new("device-identity").bytes(body));
    }
    Node::new("iq")
        .attr("from", "s.whatsapp.net")
        .attr("id", "99")
        .children(vec![Node::new("pair-success").children(kids)])
}

fn attrs_of(n: &Node) -> Vec<(&str, &str)> {
    n.attrs.iter().map(|(k, v)| (k.as_str(), v.as_str())).collect()
}

#[test]
fn failure_reasons_are_explained() {
    assert_eq!(failure_detail("405"), "client out of date - advertised WhatsApp version too old");
    assert_eq!(failure_detail("401"), "logged out / not authorized");
    assert_eq!(failure_detail("403"), "logged out / not authorized");
    assert_eq!(failure_detail("402"), "temporarily banned");
    assert_eq!(failure_detail("409"), "user agent rejected");
    assert_eq!(failure_detail("500"), "connection rejected");
}

#[test]
fn failure_stanza_is_refused_with_reason() {
    let device = DeviceIdentity::generate();
    let mut state = LinkState::new();
    match state.step(&Node::new("failure").attr("reason", "405"), &device) {
        LinkAction::Refused { reason, detail } => {
            assert_eq!(reason, "405");
            assert_eq!(detail, "client out of date - advertised WhatsApp version too old");
        }
        other => panic!("unexpected {other:?}"),
    }
    match state.step(&Node::new("failure"), &device) {
        LinkAction::Refused { reason, detail } => {
            assert_eq!(reason, "?");
            assert_eq!(detail, "connection rejected");
        }
        other => panic!("unexpected {other:?}"),
    }
}

#[test]
fn success_stanza_ends_linking() {
    let device = DeviceIdentity::generate();
    let mut state = LinkState::new();
    assert!(matches!(state.step(&Node::new("success"), &device), LinkAction::Linked));
}

#[test]
fn pair_device_is_acked_and_shows_first_ref() {
    let device = DeviceIdentity::generate();
    let mut state = LinkState::new();
    match state.step(&pair_device_iq(&["ref-one", "ref-two"]), &device) {
        LinkAction::ShowCode { ack, ref_count, url, hint } => {
            assert_eq!(ack.tag, "iq");
            assert_eq!(attrs_of(&ack), vec![("to", "s.whatsapp.net"), ("id", "17"), ("type", "result")]);
            assert!(matches!(ack.content, NodeContent::Empty));
            assert_eq!(ref_count, 2);
            let expected = format!("https://wa.me/settings/linked_devices#{},9", qr_payload("ref-one", &device));
            assert_eq!(url.as_deref(), Some(expected.as_str()));
            assert!(hint);
        }
        other => panic!("unexpected {other:?}"),
    }
    assert!(state.hint_shown);
    // The scanning hint is only asked for once.
    match state.step(&pair_device_iq(&["ref-three"]), &device) {
        LinkAction::ShowCode { ref_count, url, hint, .. } => {
            assert_eq!(ref_count, 1);
            assert!(url.unwrap().contains("#ref-three,"));
            assert!(!hint);
        }
        other => panic!("unexpected {other:?}"),
    }
}

#[test]
fn pair_device_without_refs_shows_nothing() {
    let device = DeviceIdentity::generate();
    let mut state = LinkState::new();
    match state.step(&pair_device_iq(&[]), &device) {
        LinkAction::ShowCode { ref_count, url, hint, .. } => {
            assert_eq!(ref_count, 0);
            assert!(url.is_none());
            assert!(!hint);
        }
        other => panic!("unexpected {other:?}"),
    }
    assert!(!state.hint_shown);
}

#[test]
fn pair_success_is_countersigned() {
    let device = DeviceIdentity::generate();
    let mut state = LinkState::new();
    let identity = server_device_identity(&device);
    match state.step(&pair_success_iq(Some(identity)), &device) {
        LinkAction::Sign { reply, jid } => {
            assert_eq!(jid, "447700900123:4@s.whatsapp.net");
            assert_eq!(attrs_of(&reply), vec![("to", "s.whatsapp.net"), ("type", "result"), ("id", "99")]);
            let sign_node = &reply.child_nodes()[0];
            assert_eq!(sign_node.tag, "pair-device-sign");
            let di = &sign_node.child_nodes()[0];
            assert_eq!(di.tag, "device-identity");
            assert_eq!(di.get_attr("key-index"), Some("5"));
            let signed = AdvSignedDeviceIdentity::decode(di.content_bytes().unwrap()).unwrap();
            assert!(signed.account_signature_key.is_empty());
            assert_eq!(signed.device_signature.len(), 64);
        }
        other => panic!("unexpected {other:?}"),
    }
}

#[test]
fn pair_success_signature_verifies_under_identity_key() {
    let device = DeviceIdentity::generate();
    let identity = server_device_identity(&device);
    let container = AdvSignedDeviceIdentityHmac::decode(&identity).unwrap();
    let received = AdvSignedDeviceIdentity::decode(&container.details).unwrap();
    let mut state = LinkState::new();
    if let LinkAction::Sign { reply, .. } = state.step(&pair_success_iq(Some(identity)), &device) {
        let di = &reply.child_nodes()[0].child_nodes()[0];
        let signed = AdvSignedDeviceIdentity::decode(di.content_bytes().unwrap()).unwrap();
        let mut msg = vec![6u8, 1];
        msg.extend_from_slice(&received.details);
        msg.extend_from_slice(&device.identity_key.public);
        msg.extend_from_slice(&received.account_signature_key);
        let sig: [u8; 64] = signed.device_signature.as_slice().try_into().unwrap();
        assert!(verify(&device.identity_key.public, &msg, &sig));
    } else {
        panic!("expected a signed reply");
    }
}

#[test]
fn pair_success_without_identity_is_reported() {
    let device = DeviceIdentity::generate();
    let mut state = LinkState::new();
    assert!(matches!(state.step(&pair_success_iq(None), &device), LinkAction::MissingIdentity));
}

#[test]
fn pair_success_with_bad_hmac_fails() {
    let device = DeviceIdentity::generate();
    let other = DeviceIdentity::generate();
    let identity = server_device_identity(&other);
    let mut state = LinkState::new();
    match state.step(&pair_success_iq(Some(identity)), &device) {
        LinkAction::PairFailed(Error::Pairing(m)) => assert_eq!(m, "device-identity HMAC mismatch"),
        other => panic!("unexpected {other:?}"),
    }
}

#[test]
fn other_stanzas_are_ignored_or_logged() {
    let device = DeviceIdentity::generate();
    let mut state = LinkState::new();
    let plain_iq = Node::new("iq").attr("id", "1").children(vec![Node::new("ping")]);
    assert!(matches!(state.step(&plain_iq, &device), LinkAction::Ignore));
    match state.step(&Node::new("ib"), &device) {
        LinkAction::Other(tag) => assert_eq!(tag, "ib"),
        other => panic!("unexpected {other:?}"),
    }
}

#[test]
fn sealed_stanza_opens_to_the_same_node() {
    let (k1, k2) = (keypair().0, keypair().0);
    let mut alice = NoiseTransport::new(k1, k2);
    let mut bob = NoiseTransport::new(k2, k1);
    let node = Node::new("message")
        .attr("to", "447700900123@s.whatsapp.net")
        .attr("id", "3EB0ABCD1234")
        .children(vec![Node::new("body").bytes(b"hello".to_vec())]);
    for _ in 0..3 {
        let frame = seal_stanza(&mut alice, &node).unwrap();
        let mut reader = FrameReader::new();
        reader.push(&frame);
        let payload = reader.next_frame().unwrap();
        assert_eq!(reader.buffered(), 0);
        match open_stanza(&mut bob, &payload).unwrap() {
            Opened::Stanza(n) => assert_eq!(n, node),
            Opened::Unparsable(e) => panic!("unparsable: {e:?}"),
        }
    }
}

#[test]
fn sealed_stanza_carries_the_uncompressed_flag() {
    let (k1, k2) = (keypair().0, keypair().0);
    let mut alice = NoiseTransport::new(k1, k2);
    let mut bob = NoiseTransport::new(k2, k1);
    let node = Node::new("presence").attr("type", "available");
    let frame = seal_stanza(&mut alice, &node).unwrap();
    let len = ((frame[0] as usize) << 16) | ((frame[1] as usize) << 8) | frame[2] as usize;
    assert_eq!(len, frame.len() - 3);
    let plain = bob.decrypt(&frame[3..]).unwrap();
    assert_eq!(plain[0], 0);
    assert_eq!(unmarshal(&plain[1..]).unwrap(), node);
}

#[test]
fn stanza_under_wrong_key_does_not_open() {
    let (k1, k2, k3) = (keypair().0, keypair().0, keypair().0);
    let mut alice = NoiseTransport::new(k1, k2);
    let mut eve = NoiseTransport::new(k2, k3);
    let frame = seal_stanza(&mut alice, &Node::new("iq")).unwrap();
    assert!(matches!(open_stanza(&mut eve, &frame[3..]), Err(OpenError::Decrypt(_))));
}

#[test]
fn hello_message_is_header_then_framed_client_hello() {
    let hs = XxInitiator::new(&wa_conn_header());
    let msg = hello_message(&hs).unwrap();
    assert_eq!(&msg[..4], &[b'W', b'A', 6, 3]);
    let body = ClientHello::with_ephemeral(hs.ephemeral().to_vec()).encode();
    let len = ((msg[4] as usize) << 16) | ((msg[5] as usize) << 8) | msg[6] as usize;
    assert_eq!(len, body.len());
    assert_eq!(&msg[7..], &body[..]);
}

#[test]
fn server_hello_must_be_a_server_hello() {
    let mut hs = XxInitiator::new(&wa_conn_header());
    let client_hello = ClientHello::with_ephemeral(vec![1u8; 32]).encode();
    assert!(matches!(accept_server_hello(&mut hs, &client_hello), Err(HelloError::NotServerHello(_))));
    assert!(matches!(accept_server_hello(&mut hs, &[0xff, 0xff]), Err(HelloError::Decode(_))));
}

#[test]
fn finish_needs_a_server_hello_first() {
    let device = DeviceIdentity::generate();
    let mut hs = XxInitiator::new(&wa_conn_header());
    assert!(finish_message(&mut hs, &device, b"payload").is_err());
}

#[test]
fn qr_url_wraps_the_qr_payload() {
    let device = DeviceIdentity::generate();
    let url = qr_url("2@abc", &device);
    assert_eq!(url, format!("https://wa.me/settings/linked_devices#{},9", qr_payload("2@abc", &device)));
}

#[test]
fn empty_stanza_cannot_be_unpacked() {
    let (k1, k2) = (keypair().0, keypair().0);
    let mut alice = NoiseTransport::new(k1, k2);
    let mut bob = NoiseTransport::new(k2, k1);
    let ct = alice.encrypt(&[]).unwrap();
    match open_stanza(&mut bob, &ct) {
        Err(OpenError::Unpack(m)) => assert_eq!(m, "empty stanza"),
        other => panic!("unexpected {other:?}"),
    }
}

#[test]
fn undecodable_stanza_is_reported_and_counted() {
    let (k1, k2) = (keypair().0, keypair().0);
    let mut alice = NoiseTransport::new(k1, k2);
    let mut bob = NoiseTransport::new(k2, k1);
    let ct = alice.encrypt(&[0u8]).unwrap();
    assert!(matches!(open_stanza(&mut bob, &ct), Ok(Opened::Unparsable(_))));
    // The receiving counter moved on: the next stanza still opens.
    let frame = seal_stanza(&mut alice, &Node::new("success")).unwrap();
    match open_stanza(&mut bob, &frame[3..]).unwrap() {
        Opened::Stanza(n) => assert_eq!(n.tag, "success"),
        Opened::Unparsable(e) => panic!("unparsable: {e:?}"),
    }
}
