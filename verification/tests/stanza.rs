use whatsapp_rs::b64lite::encode;
use whatsapp_rs::codec::{marshal, unmarshal};
use whatsapp_rs::decimal::parse_uint;
use whatsapp_rs::node::NodeContent;
use whatsapp_rs::stanza::{ack_iq, decimal_string, hex, pack_stanza, pair_device_sign, parse_version, unpack_stanza};

#[test]
fn pack_then_unpack_gives_the_node_bytes() {
    let packed = pack_stanza(&[1, 2, 3]);
    assert_eq!(packed, vec![0, 1, 2, 3]);
    assert_eq!(unpack_stanza(&packed).unwrap(), vec![1, 2, 3]);
}

#[test]
fn unpack_errors() {
    assert_eq!(unpack_stanza(&[]).unwrap_err(), "empty stanza");
    assert!(unpack_stanza(&[2, 1, 2, 3]).unwrap_err().starts_with("zlib inflate"));
}

#[test]
fn unpack_inflates_compressed_stanzas() {
    // zlib stream of the bytes "abc" (stored block).
    let z = [0x78, 0x01, 0x01, 0x03, 0x00, 0xfc, 0xff, 0x61, 0x62, 0x63, 0x02, 0x4d, 0x01, 0x27];
    let mut data = vec![2u8];
    data.extend_from_slice(&z);
    assert_eq!(unpack_stanza(&data).unwrap(), b"abc".to_vec());
}

#[test]
fn ack_iq_shape() {
    let n = ack_iq("s.whatsapp.net", "42");
    assert_eq!(n.tag, "iq");
    assert_eq!(n.get_attr("to"), Some("s.whatsapp.net"));
    assert_eq!(n.get_attr("id"), Some("42"));
    assert_eq!(n.get_attr("type"), Some("result"));
    assert!(matches!(n.content, NodeContent::Empty));
    assert_eq!(unmarshal(&marshal(&n).unwrap()).unwrap(), n);
}

#[test]
fn pair_device_sign_shape() {
    let n = pair_device_sign("7", 12, &[9, 9]);
    assert_eq!(n.get_attr("to"), Some("s.whatsapp.net"));
    let sign = &n.child_nodes()[0];
    assert_eq!(sign.tag, "pair-device-sign");
    let di = &sign.child_nodes()[0];
    assert_eq!(di.tag, "device-identity");
    assert_eq!(di.get_attr("key-index"), Some("12"));
    assert_eq!(di.content_bytes(), Some(&[9u8, 9][..]));
}

#[test]
fn parse_version_takes_first_three_numbers() {
    assert_eq!(parse_version("2.3000.1041871181"), Some((2, 3000, 1041871181)));
    assert_eq!(parse_version("2.x.3000.5.6"), Some((2, 3000, 5)));
    assert_eq!(parse_version("1.2"), None);
    assert_eq!(parse_version(""), None);
}

#[test]
fn decimal_text_and_parse() {
    assert_eq!(decimal_string(0), "0");
    assert_eq!(decimal_string(1041871181), "1041871181");
    assert_eq!(parse_uint(b"+42", 255), Some(42));
    assert_eq!(parse_uint(b"256", 255), None);
    assert_eq!(parse_uint(b"+", 255), None);
    assert_eq!(parse_uint(b"-1", 255), None);
    assert_eq!(parse_uint(b"18446744073709551615", u64::MAX), Some(u64::MAX));
    assert_eq!(parse_uint(b"18446744073709551616", u64::MAX), None);
}

#[test]
fn hex_is_lowercase_pairs() {
    assert_eq!(hex(&[0x00, 0xab, 0x7f]), "00ab7f");
    assert_eq!(hex(&[]), "");
}

#[test]
fn base64_lite_matches_standard() {
    assert_eq!(encode(b""), "");
    assert_eq!(encode(b"f"), "Zg==");
    assert_eq!(encode(b"fo"), "Zm8=");
    assert_eq!(encode(b"foo"), "Zm9v");
    assert_eq!(encode(b"foobar"), "Zm9vYmFy");
    assert_eq!(encode(&[0xFB, 0xFF]), "+/8=");
}
