//! Stanza plumbing around the codec: the one-byte compression flag in front of each stanza, the
//! IQs of the pairing exchange, the registration payload for a device, and text helpers for
//! logging.

use vstd::prelude::*;
use vstd::string::StringSliceAdditionalSpecFns;
use crate::bytes::{append_bytes, copy_range, to_vec};
use crate::client_payload::{registration_fields, RegistrationPayload};
use crate::codec::{bytes_to_string, lemma_ascii_valid_utf8};
use crate::crypto::{md5, md5_spec, zlib_inflate, zlib_inflate_spec};
use crate::decimal::{is_digit, lemma_decimal_digits, parse_uint, parse_uint_spec, push_decimal, spec_decimal};
use crate::device::DeviceIdentity;
use crate::node::{sbytes, Node, NodeContent};
use crate::pb::spec_fields;
use crate::text::{find_from, lemma_find_from};

verus! {

// ----------------------------------------------------------------------------------------------
// The compression flag
// ----------------------------------------------------------------------------------------------

/// The node bytes a framed stanza holds: after a flag byte, the rest, zlib-inflated when the
/// flag's bit 1 is set. `None` for an empty stanza or a bad zlib stream.
pub open spec fn sp_unpack(d: Seq<u8>) -> Option<Seq<u8>> {
    if d.len() == 0 {
        None
    } else if d[0] & 2u8 != 0 {
        zlib_inflate_spec(d.subrange(1, d.len() as int))
    } else {
        Some(d.subrange(1, d.len() as int))
    }
}

/// Put the uncompressed flag (0) in front of node bytes.
pub fn pack_stanza(node_bytes: &[u8]) -> (r: Vec<u8>)
    ensures
        r@ == seq![0u8] + node_bytes@,
{
    let mut out = Vec::new();
    out.push(0u8);
    append_bytes(&mut out, node_bytes);
    out
}

/// Strip the stanza framing: a flag byte; if its bit 1 is set, the rest is zlib-compressed.
/// Returns the node bytes.
pub fn unpack_stanza(data: &[u8]) -> (r: Result<Vec<u8>, String>)
    ensures
        sp_unpack(data@) matches Some(b) ==> r matches Ok(x) && x@ == b,
        sp_unpack(data@) is None ==> r is Err,
        data@.len() == 0 ==> (r matches Err(m) && m@ == "empty stanza"@),
{
    if data.len() == 0 {
        return Err("empty stanza".to_owned());
    }
    let flag = data[0];
    let body = copy_range(data, 1, data.len());
    if flag & 2 != 0 {
        zlib_inflate(body.as_slice())
    } else {
        Ok(body)
    }
}

/// A packed stanza unpacks to the node bytes it packs.
pub proof fn stanza_roundtrip(node_bytes: Seq<u8>)
    ensures
        sp_unpack(seq![0u8] + node_bytes) == Some(node_bytes),
{
    let d = seq![0u8] + node_bytes;
    assert(0u8 & 2u8 == 0u8) by (bit_vector);
    assert(d[0] == 0u8);
    assert(d.subrange(1, d.len() as int) =~= node_bytes);
}

// ----------------------------------------------------------------------------------------------
// Pairing IQs
// ----------------------------------------------------------------------------------------------

/// Whether a node has the tag and the attributes given, and no content.
pub open spec fn is_attr_node(n: Node, tag: Seq<char>, attrs: Seq<(Seq<char>, Seq<char>)>) -> bool {
    &&& n.tag@ == tag
    &&& n.attrs@.len() == attrs.len()
    &&& forall|i: int| 0 <= i < attrs.len() ==> (#[trigger] n.attrs@[i]).0@ == attrs[i].0 && n.attrs@[i].1@ == attrs[i].1
}

/// Whether `n` is `<iq to=.. id=.. type="result"/>`.
pub open spec fn is_ack(n: Node, to: Seq<char>, id: Seq<char>) -> bool {
    &&& is_attr_node(n, "iq"@, seq![("to"@, to), ("id"@, id), ("type"@, "result"@)])
    &&& n.content is Empty
}

/// `<iq to=.. id=.. type="result"/>`: the acknowledgement of a `pair-device` IQ.
pub fn ack_iq(to: &str, id: &str) -> (r: Node)
    ensures
        is_ack(r, to@, id@),
{
    let n = Node::new("iq").attr("to", to).attr("id", id).attr("type", "result");
    assert(n.attrs@[0] == n.attrs@.subrange(0, 2)[0]);
    assert(n.attrs@[1] == n.attrs@.subrange(0, 2)[1]);
    n
}

/// The only child of a node whose body is a list of exactly one node.
pub open spec fn single_child(n: Node) -> Option<Node> {
    match n.content {
        NodeContent::Nodes(v) => if v@.len() == 1 { Some(v@[0]) } else { None },
        _ => None,
    }
}

/// `<device-identity key-index=..>{body}</device-identity>`.
pub open spec fn is_identity_node(o: Option<Node>, key_index: u32, body: Seq<u8>) -> bool {
    match o {
        Some(n) => {
            &&& n.tag@ == "device-identity"@
            &&& n.attrs@.len() == 1
            &&& n.attrs@[0].0@ == "key-index"@
            &&& sbytes(n.attrs@[0].1) == spec_decimal(key_index as nat)
            &&& n.content matches NodeContent::Bytes(b) && b@ == body
        },
        None => false,
    }
}

/// The decimal text of a number.
pub fn decimal_string(n: u64) -> (r: String)
    ensures
        sbytes(r) == spec_decimal(n as nat),
{
    let mut out = Vec::new();
    push_decimal(&mut out, n);
    proof {
        lemma_decimal_digits(n as nat);
        assert(out@ =~= spec_decimal(n as nat));
        assert forall|i: int| 0 <= i < out@.len() implies out@[i] < 128 by {
            assert(is_digit(spec_decimal(n as nat)[i]));
        }
        lemma_ascii_valid_utf8(out@);
    }
    bytes_to_string(out)
}

/// Whether `n` is `<iq to="s.whatsapp.net" type="result" id=..><pair-device-sign>
/// <device-identity key-index=..>{body}</device-identity></pair-device-sign></iq>`.
pub open spec fn is_sign_reply(n: Node, id: Seq<char>, key_index: u32, body: Seq<u8>) -> bool {
    &&& is_attr_node(n, "iq"@, seq![("to"@, "s.whatsapp.net"@), ("type"@, "result"@), ("id"@, id)])
    &&& single_child(n) matches Some(c) && is_attr_node(c, "pair-device-sign"@, Seq::empty())
        && is_identity_node(single_child(c), key_index, body)
}

/// `<iq to="s.whatsapp.net" type="result" id=..><pair-device-sign><device-identity key-index=..>
/// {self-signed identity}</device-identity></pair-device-sign></iq>`.
pub fn pair_device_sign(id: &str, key_index: u32, self_signed: &[u8]) -> (r: Node)
    ensures
        is_sign_reply(r, id@, key_index, self_signed@),
{
    let index_text = decimal_string(key_index as u64);
    let identity = Node::new("device-identity").attr("key-index", index_text.as_str()).bytes(to_vec(self_signed));
    let mut inner: Vec<Node> = Vec::new();
    inner.push(identity);
    let sign_node = Node::new("pair-device-sign").children(inner);
    let mut outer: Vec<Node> = Vec::new();
    outer.push(sign_node);
    let n = Node::new("iq").attr("to", "s.whatsapp.net").attr("type", "result").attr("id", id).children(outer);
    assert(n.attrs@[0] == n.attrs@.subrange(0, 2)[0]);
    assert(n.attrs@[1] == n.attrs@.subrange(0, 2)[1]);
    n
}

// ----------------------------------------------------------------------------------------------
// Version text and the registration payload
// ----------------------------------------------------------------------------------------------

/// The pieces of `s` from position `start` on, cut at every `.` (at least one piece).
pub open spec fn split_dots(s: Seq<u8>, start: int) -> Seq<Seq<u8>>
    decreases s.len() - start,
{
    if start < 0 || start > s.len() {
        Seq::empty()
    } else {
        proof {
            lemma_find_from(s, 46, start);
        }
        match find_from(s, 46, start) {
            Some(j) => seq![s.subrange(start, j)] + split_dots(s, j + 1),
            None => seq![s.subrange(start, s.len() as int)],
        }
    }
}

/// The pieces that read as numbers, in order.
pub open spec fn numbers_of(pieces: Seq<Seq<u8>>) -> Seq<u64>
    decreases pieces.len(),
{
    if pieces.len() == 0 {
        Seq::empty()
    } else {
        (match parse_uint_spec(pieces[0], u64::MAX as nat) {
            Some(v) => seq![v as u64],
            None => Seq::empty(),
        }) + numbers_of(pieces.subrange(1, pieces.len() as int))
    }
}

/// The version a text like `2.3000.1041871181` names: its first three numeric pieces.
pub open spec fn sp_parse_version(s: Seq<u8>) -> Option<(u64, u64, u64)> {
    let n = numbers_of(split_dots(s, 0));
    if n.len() >= 3 { Some((n[0], n[1], n[2])) } else { None }
}

/// Parse `"2.3000.1041871181"` into a version triple (pieces that are not numbers are skipped).
pub fn parse_version(s: &str) -> (r: Option<(u64, u64, u64)>)
    ensures
        r == sp_parse_version(s.spec_bytes()),
{
    let b = s.as_bytes();
    let ghost sb = b@;
    let mut nums: Vec<u64> = Vec::new();
    let mut start: usize = 0;
    loop
        invariant_except_break
            numbers_of(split_dots(sb, 0)) == nums@ + numbers_of(split_dots(sb, start as int)),
        invariant
            start <= b@.len(),
            sb == b@,
        ensures
            numbers_of(split_dots(sb, 0)) == nums@,
        decreases b@.len() - start,
    {
        let mut j = start;
        while j < b.len() && b[j] != 46
            invariant
                start <= j <= b@.len(),
                forall|k: int| start <= k < j ==> b@[k] != 46,
            decreases b@.len() - j,
        {
            j += 1;
        }
        proof {
            lemma_find_from(sb, 46, start as int);
            if j < b@.len() {
                assert(find_from(sb, 46, start as int) == Some(j as int));
            } else {
                assert(find_from(sb, 46, start as int) is None);
            }
        }
        let piece = copy_range(b, start, j);
        let ghost rest = if j < b@.len() { split_dots(sb, j + 1) } else { Seq::empty() };
        assert(split_dots(sb, start as int) == seq![piece@] + rest);
        assert((seq![piece@] + rest).subrange(1, (seq![piece@] + rest).len() as int) =~= rest);
        let ghost before = nums@;
        match parse_uint(piece.as_slice(), u64::MAX) {
            Some(v) => {
                nums.push(v);
                assert(numbers_of(seq![piece@] + rest) == seq![v] + numbers_of(rest));
                assert(nums@ + numbers_of(rest) =~= before + (seq![v] + numbers_of(rest)));
            },
            None => {
                assert(numbers_of(seq![piece@] + rest) == Seq::<u64>::empty() + numbers_of(rest));
                assert(Seq::<u64>::empty() + numbers_of(rest) =~= numbers_of(rest));
            },
        }
        if j >= b.len() {
            assert(numbers_of(rest) =~= Seq::<u64>::empty());
            assert(nums@ + Seq::<u64>::empty() =~= nums@);
            break;
        }
        start = j + 1;
    }
    if nums.len() >= 3 {
        Some((nums[0], nums[1], nums[2]))
    } else {
        None
    }
}

/// The version text `primary.secondary.tertiary`.
pub open spec fn version_text(v: (u64, u64, u64)) -> Seq<u8> {
    spec_decimal(v.0 as nat) + seq![46u8] + spec_decimal(v.1 as nat) + seq![46u8] + spec_decimal(v.2 as nat)
}

/// The device label shown in the phone's linked-devices list.
pub open spec fn device_label() -> Seq<u8> {
    "whatsapp-rs".spec_bytes()
}

/// The registration payload for a device, advertising `app_version` (whose MD5 is the build
/// hash) and `platform`.
pub fn registration_payload(device: &DeviceIdentity, app_version: (u64, u64, u64), platform: u64) -> (r: Vec<u8>)
    ensures
        exists|p: RegistrationPayload| {
            &&& p.registration_id == device.registration_id
            &&& p.signed_pre_key_id == device.signed_pre_key.key_id
            &&& p.identity_public == device.identity_key.public
            &&& p.signed_pre_key_public == device.signed_pre_key.key_pair.public
            &&& p.signed_pre_key_signature@ == device.signed_pre_key.signature@
            &&& p.build_hash@ == md5_spec(version_text(app_version))
            &&& sbytes(p.device_os) == device_label()
            &&& p.app_version == app_version
            &&& p.platform == platform
            &&& r@ == spec_fields(registration_fields(p))
        },
{
    let (p, s, t) = app_version;
    let mut version = Vec::new();
    push_decimal(&mut version, p);
    version.push(46u8);
    push_decimal(&mut version, s);
    version.push(46u8);
    push_decimal(&mut version, t);
    assert(version@ =~= version_text(app_version));
    let build_hash = md5(version.as_slice());
    let label = "whatsapp-rs";
    let payload = RegistrationPayload {
        registration_id: device.registration_id,
        signed_pre_key_id: device.signed_pre_key.key_id,
        identity_public: device.identity_key.public,
        signed_pre_key_public: device.signed_pre_key.key_pair.public,
        signed_pre_key_signature: to_vec(device.signed_pre_key.signature.as_slice()),
        build_hash,
        device_os: label.to_owned(),
        app_version,
        platform,
    };
    payload.encode()
}

// ----------------------------------------------------------------------------------------------
// Hex text
// ----------------------------------------------------------------------------------------------

/// The lowercase hex digit for a value below 16.
pub open spec fn hex_digit(v: int) -> u8 {
    if v < 10 { (48 + v) as u8 } else { (97 + v - 10) as u8 }
}

/// Two lowercase hex digits per byte.
pub open spec fn hex_text(b: Seq<u8>) -> Seq<u8>
    decreases b.len(),
{
    if b.len() == 0 {
        Seq::empty()
    } else {
        hex_text(b.drop_last()) + seq![hex_digit(b.last() as int / 16), hex_digit(b.last() as int % 16)]
    }
}

fn hex_char(v: u8) -> (r: u8)
    requires
        v < 16,
    ensures
        r == hex_digit(v as int),
        r < 128,
{
    if v < 10 { 48 + v } else { 97 + v - 10 }
}

/// Lowercase hex text of bytes, two digits per byte.
pub fn hex(bytes: &[u8]) -> (r: String)
    ensures
        sbytes(r) == hex_text(bytes@),
{
    let mut out: Vec<u8> = Vec::new();
    let mut i: usize = 0;
    while i < bytes.len()
        invariant
            i <= bytes@.len(),
            out@ == hex_text(bytes@.subrange(0, i as int)),
            forall|k: int| 0 <= k < out@.len() ==> out@[k] < 128,
        decreases bytes@.len() - i,
    {
        let b = bytes[i];
        out.push(hex_char(b / 16));
        out.push(hex_char(b % 16));
        assert(bytes@.subrange(0, i + 1).drop_last() =~= bytes@.subrange(0, i as int));
        i += 1;
        assert(out@ =~= hex_text(bytes@.subrange(0, i as int)));
    }
    assert(bytes@.subrange(0, i as int) =~= bytes@);
    proof {
        lemma_ascii_valid_utf8(out@);
    }
    bytes_to_string(out)
}

} // verus!
