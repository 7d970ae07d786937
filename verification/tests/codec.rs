use whatsapp_rs::codec::{marshal, unmarshal};
use whatsapp_rs::node::{Error, Node, NodeContent};
use whatsapp_rs::tag;
use whatsapp_rs::token::{token_index, token_str};

fn round_trip(node: &Node) -> Node {
    let bytes = marshal(node).expect("marshal");
    unmarshal(&bytes).expect("unmarshal")
}

#[test]
fn message_stanza_round_trips() {
    let node = Node::new("message")
        .attr("to", "12345@s.whatsapp.net")
        .attr("type", "text")
        .attr("id", "ABCD1234")
        .children(vec![Node::new("body").bytes(b"hello world".to_vec())]);
    assert_eq!(round_trip(&node), node);
}

#[test]
fn tokens_are_compressed() {
    // "message"=11, "to"=14, "type"=4, "id"=8 are dictionary tokens; "s.whatsapp.net"=3.
    let node = Node::new("message").attr("to", "1@s.whatsapp.net").attr("type", "text");
    let bytes = marshal(&node).unwrap();
    // list8 tag + size, then the description token must be the single byte 11.
    assert_eq!(bytes[0], tag::LIST_8);
    assert_eq!(bytes[2], 11, "description should encode as token 11 (message)");
    assert_eq!(round_trip(&node), node);
}

#[test]
fn nibble_and_hex_packing_round_trip() {
    let node = Node::new("test")
        .attr("phone", "1234567890")
        .attr("odd", "12345")
        .attr("dashed", "123-456.7")
        .attr("hex", "DEADBEEF");
    assert_eq!(round_trip(&node), node);
}

#[test]
fn jid_pair_round_trips() {
    let node = Node::new("iq")
        .attr("from", "9876543210@s.whatsapp.net")
        .attr("group", "12345-67890@g.us");
    assert_eq!(round_trip(&node), node);
}

#[test]
fn nested_children_and_empty_content() {
    let node = Node::new("iq").attr("type", "result").children(vec![
        Node::new("list").children(vec![
            Node::new("item").attr("jid", "1@s.whatsapp.net"),
            Node::new("item").attr("jid", "2@s.whatsapp.net"),
        ]),
        Node::new("ping"),
    ]);
    assert_eq!(round_trip(&node), node);
}

#[test]
fn large_binary_uses_20bit_length() {
    let big = vec![0x42u8; 5000];
    let node = Node::new("enc").bytes(big);
    let bytes = marshal(&node).unwrap();
    assert!(bytes.contains(&tag::BINARY_20));
    assert_eq!(round_trip(&node), node);
}

#[test]
fn empty_string_attr_round_trips() {
    let node = Node::new("presence").attr("from", "").attr("status", "");
    assert_eq!(round_trip(&node), node);
}

#[test]
fn truncated_input_errors_cleanly() {
    let node = Node::new("message").bytes(b"payload".to_vec());
    let bytes = marshal(&node).unwrap();
    let err = unmarshal(&bytes[..bytes.len() - 3]);
    assert!(err.is_err());
}

#[test]
fn every_strict_prefix_runs_out_of_input() {
    let node = Node::new("iq")
        .attr("id", "abc")
        .attr("to", "12345@s.whatsapp.net")
        .children(vec![Node::new("ping"), Node::new("data").bytes(vec![1, 2, 3, 4, 5])]);
    let bytes = marshal(&node).unwrap();
    for k in 0..bytes.len() {
        assert!(matches!(unmarshal(&bytes[..k]), Err(Error::Eof(_))), "prefix of {k} bytes");
    }
    assert_eq!(unmarshal(&bytes).unwrap(), node);
}

#[test]
fn exact_encoding_of_a_small_node() {
    let node = Node::new("message").attr("type", "text");
    let bytes = marshal(&node).unwrap();
    // LIST_8, size 3, token(message)=11, token(type)=4, then "text" (not a token) as BINARY_8.
    assert_eq!(bytes[0], tag::LIST_8);
    assert_eq!(bytes[1], 3);
    assert_eq!(bytes[2], 11);
    assert_eq!(bytes[3], 4);
}

#[test]
fn binary_32_for_very_large_blob() {
    let big = vec![7u8; (1 << 20) + 1];
    let node = Node::new("enc").bytes(big);
    let bytes = marshal(&node).unwrap();
    assert!(bytes.contains(&tag::BINARY_32));
    assert_eq!(round_trip(&node), node);
}

#[test]
fn decoding_garbage_is_an_error() {
    assert!(unmarshal(&[]).is_err());
    assert!(unmarshal(&[tag::LIST_8, 0]).is_err());
    assert!(unmarshal(&[tag::LIST_8, 1, tag::STREAM_END]).is_err());
}

#[test]
fn unknown_token_is_reported() {
    // A node whose description is a single-byte token beyond the known dictionary.
    let r = unmarshal(&[tag::LIST_8, 1, 200]);
    assert!(matches!(r, Err(Error::UnknownToken(200))));
}

#[test]
fn get_attr_finds_first_match() {
    let node = Node::new("iq").attr("id", "1").attr("id", "2").attr("to", "x");
    assert_eq!(node.get_attr("id"), Some("1"));
    assert_eq!(node.get_attr("to"), Some("x"));
    assert_eq!(node.get_attr("from"), None);
}

#[test]
fn content_accessors() {
    let node = Node::new("enc").bytes(vec![1, 2, 3]);
    assert_eq!(node.content_bytes(), Some(&[1u8, 2, 3][..]));
    assert!(node.child_nodes().is_empty());
    let parent = Node::new("list").children(vec![Node::new("a")]);
    assert_eq!(parent.child_nodes().len(), 1);
    assert_eq!(parent.content_bytes(), None);
    assert!(matches!(Node::new("x").content, NodeContent::Empty));
}

#[test]
fn token_dictionary_lookups() {
    assert_eq!(token_index(b"message"), Some(11));
    assert_eq!(token_str(11).as_deref(), Some(&b"message"[..]));
    assert_eq!(token_index(b"not-a-token"), None);
    assert_eq!(token_str(999), None);
}

#[test]
fn attr_map_keeps_last_value_per_key() {
    let node = Node::new("x").attr("a", "1").attr("b", "2").attr("a", "3");
    let m = node.attr_map();
    assert_eq!(m.len(), 2);
    assert!(m.contains(&("a", "3")));
    assert!(m.contains(&("b", "2")));
}

#[test]
fn node_clone_is_equal_and_independent() {
    let original = Node::new("iq")
        .attr("id", "1")
        .children(vec![Node::new("ref").bytes(vec![1, 2, 3]), Node::new("ping")]);
    let mut copy = original.clone();
    assert_eq!(copy, original);
    copy.attrs.push(("type".to_string(), "get".to_string()));
    assert_ne!(copy, original);
    assert_eq!(original.attrs.len(), 1);
    let content = original.content.clone();
    assert_eq!(content, original.content);
    assert_eq!(NodeContent::Empty.clone(), NodeContent::Empty);
}

#[test]
fn ad_jid_renders_agent_and_device() {
    // AD_JID with agent 0 and device 3: the device follows ':'.
    let n = unmarshal(&[248, 1, 247, 0, 3, 255, 0x81, 0x1F]).unwrap();
    assert_eq!(n.tag, "1:3@s.whatsapp.net");
    // Agent 1 and device 2: `user.agent:device@server`.
    let n = unmarshal(&[248, 1, 247, 1, 2, 255, 0x81, 0x1F]).unwrap();
    assert_eq!(n.tag, "1.1:2@s.whatsapp.net");
    // Neither: just `user@server`.
    let n = unmarshal(&[248, 1, 247, 0, 0, 255, 0x81, 0x1F]).unwrap();
    assert_eq!(n.tag, "1@s.whatsapp.net");
}

#[test]
fn decoder_errors_name_the_problem() {
    match unmarshal(&[0]) {
        Err(Error::InvalidNode(m)) => assert_eq!(m, "zero-size node"),
        other => panic!("unexpected {other:?}"),
    }
    match unmarshal(&[248, 1, 2]) {
        Err(Error::InvalidNode(m)) => assert_eq!(m, "unexpected stream end"),
        other => panic!("unexpected {other:?}"),
    }
    match unmarshal(&[7]) {
        Err(Error::InvalidNode(m)) => assert_eq!(m, "expected list tag, got 7"),
        other => panic!("unexpected {other:?}"),
    }
}

#[test]
fn string_position_error_names_the_tag() {
    // A node whose description tag (248, a list tag) cannot stand in a string position.
    match unmarshal(&[248, 1, 248]) {
        Err(Error::InvalidNode(m)) => assert_eq!(m, "tag 248 is not valid in a string position"),
        other => panic!("unexpected {other:?}"),
    }
}
