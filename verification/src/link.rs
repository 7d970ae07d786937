//! The decisions of the device-linking exchange.
//!
//! Once the Noise handshake is done, the server drives the linking with stanzas: a `pair-device`
//! IQ carries the refs to show as QR codes, a `pair-success` IQ carries the account's signed
//! device identity to check and countersign, and `<success>` or `<failure>` ends the exchange.
//! This module decides what to do with each stanza ([`LinkState::step`]) and turns stanzas into
//! transport frames and back ([`seal_stanza`], [`open_stanza`]); reading and writing the socket
//! is left to the caller.

use vstd::prelude::*;
use vstd::utf8::*;
use crate::codec::{err_rel, marshal, marshal_roundtrip, sizes_fit, structure_ok, spec_enc_node, spec_unmarshal, unmarshal, utf8_lossy, utf8_lossy_spec};
use crate::bytes::to_vec;
use crate::client::Error;
use crate::crypto::{gcm_seal_spec, GCM_MAX};
use crate::device::DeviceIdentity;
use crate::frame::{encode_frame, spec_frame, wa_conn_header, Error as FrameError, DICT_VERSION, EDITION, MAX_FRAME_LEN};
use crate::handshake::{
    client_finish_fields, client_hello_fields, sp_handshake, wrapped, ClientFinish, ClientHello, FinishV,
    HandshakeMessage, HandshakeV, HelloV, F_CLIENT_FINISH, F_CLIENT_HELLO,
};
use crate::pb::{pb_err, Error as ProtoError};
use crate::node::{first_attr_from, node_view, owned, sbytes, str_eq, Node, NodeContent, Error as CodecError};
use crate::noise::{noise_err, nonce_spec, sp_finish, sp_read_server_hello, transport_open, NoiseTransport, TransportV, XxInitiator};
use crate::pairing::{complete_pair_success, pair_err_matches, qr_url, qr_url_text, signed_answer, sp_pair_check};
use crate::stanza::{ack_iq, is_ack, is_sign_reply, pack_stanza, pair_device_sign, sp_unpack, stanza_roundtrip, unpack_stanza};

verus! {

// ----------------------------------------------------------------------------------------------
// Reading stanzas
// ----------------------------------------------------------------------------------------------

/// The children of a node: none unless its body is a list of nodes.
pub open spec fn kids(n: Node) -> Seq<Node> {
    match n.content {
        NodeContent::Nodes(v) => v@,
        _ => Seq::empty(),
    }
}

/// The position of the first node at or after `i` whose tag is `tag`.
pub open spec fn first_tagged(s: Seq<Node>, tag: Seq<char>, i: int) -> Option<int>
    decreases s.len() - i,
{
    if i < 0 || i >= s.len() {
        None
    } else if s[i].tag@ == tag {
        Some(i)
    } else {
        first_tagged(s, tag, i + 1)
    }
}

/// The value of the first attribute `key` of `n`, or `default` when it has none.
pub open spec fn attr_or(n: Node, key: Seq<char>, default: Seq<char>) -> Seq<char> {
    match first_attr_from(n.attrs@, key, 0) {
        Some(i) => n.attrs@[i].1@,
        None => default,
    }
}

/// The byte bodies of the nodes tagged `tag` at or after position `i`, in order (a node of that
/// tag with another body is skipped).
pub open spec fn tagged_bodies(s: Seq<Node>, tag: Seq<char>, i: int) -> Seq<Seq<u8>>
    decreases s.len() - i,
{
    if i < 0 || i >= s.len() {
        Seq::empty()
    } else {
        let rest = tagged_bodies(s, tag, i + 1);
        match s[i].content {
            NodeContent::Bytes(b) => if s[i].tag@ == tag { seq![b@] + rest } else { rest },
            _ => rest,
        }
    }
}

/// The children of a node.
fn children_of(n: &Node) -> (r: &[Node])
    ensures
        r@ == kids(*n),
{
    let c = n.child_nodes();
    assert(c@ =~= kids(*n));
    c
}

/// The first node of `s` whose tag is `tag`.
fn find_tagged<'a>(s: &'a [Node], tag: &str) -> (r: Option<&'a Node>)
    ensures
        first_tagged(s@, tag@, 0) matches Some(i) ==> r matches Some(c) && *c == s@[i],
        first_tagged(s@, tag@, 0) is None ==> r is None,
{
    let mut i: usize = 0;
    while i < s.len()
        invariant
            i <= s@.len(),
            first_tagged(s@, tag@, 0) == first_tagged(s@, tag@, i as int),
        decreases s@.len() - i,
    {
        if str_eq(s[i].tag.as_str(), tag) {
            return Some(&s[i]);
        }
        i += 1;
    }
    None
}

/// The value of the first attribute `key` of `n`, or `default`.
fn attr_or_default<'a>(n: &'a Node, key: &str, default: &'a str) -> (r: &'a str)
    ensures
        r@ == attr_or(*n, key@, default@),
{
    match n.get_attr(key) {
        Some(v) => v,
        None => default,
    }
}

/// How many nodes of `s` are tagged `tag` with a byte body, and the first such body.
fn tagged_summary<'a>(s: &'a [Node], tag: &str) -> (r: (usize, Option<&'a [u8]>))
    ensures
        r.0 == tagged_bodies(s@, tag@, 0).len(),
        tagged_bodies(s@, tag@, 0).len() > 0 ==> (r.1 matches Some(b) && b@ == tagged_bodies(s@, tag@, 0)[0]),
        tagged_bodies(s@, tag@, 0).len() == 0 ==> r.1 is None,
{
    let mut count: usize = 0;
    let mut first: Option<&[u8]> = None;
    let ghost mut found: Seq<Seq<u8>> = Seq::empty();
    let mut i: usize = 0;
    while i < s.len()
        invariant
            i <= s@.len(),
            tagged_bodies(s@, tag@, 0) == found + tagged_bodies(s@, tag@, i as int),
            count == found.len(),
            found.len() <= i,
            found.len() > 0 ==> (first matches Some(b) && b@ == found[0]),
            found.len() == 0 ==> first is None,
        decreases s@.len() - i,
    {
        let node = &s[i];
        let ghost rest = tagged_bodies(s@, tag@, i + 1);
        match &node.content {
            NodeContent::Bytes(b) => {
                if str_eq(node.tag.as_str(), tag) {
                    proof {
                        assert(tagged_bodies(s@, tag@, i as int) == seq![b@] + rest);
                        assert(found + (seq![b@] + rest) =~= found.push(b@) + rest);
                        found = found.push(b@);
                    }
                    if count == 0 {
                        first = Some(b.as_slice());
                    }
                    count += 1;
                } else {
                    assert(tagged_bodies(s@, tag@, i as int) == rest);
                }
            },
            _ => {
                assert(tagged_bodies(s@, tag@, i as int) == rest);
            },
        }
        i += 1;
    }
    assert(found + tagged_bodies(s@, tag@, i as int) =~= found);
    (count, first)
}

// ----------------------------------------------------------------------------------------------
// Deciding
// ----------------------------------------------------------------------------------------------

/// What a `<failure reason=..>` means.
pub open spec fn failure_meaning(reason: Seq<char>) -> Seq<char> {
    if reason == "405"@ {
        "client out of date - advertised WhatsApp version too old"@
    } else if reason == "403"@ || reason == "401"@ {
        "logged out / not authorized"@
    } else if reason == "402"@ {
        "temporarily banned"@
    } else if reason == "409"@ {
        "user agent rejected"@
    } else {
        "connection rejected"@
    }
}

/// What the reason of a `<failure>` stanza means.
pub fn failure_detail(reason: &str) -> (r: &'static str)
    ensures
        r@ == failure_meaning(reason@),
{
    if str_eq(reason, "405") {
        "client out of date - advertised WhatsApp version too old"
    } else if str_eq(reason, "403") || str_eq(reason, "401") {
        "logged out / not authorized"
    } else if str_eq(reason, "402") {
        "temporarily banned"
    } else if str_eq(reason, "409") {
        "user agent rejected"
    } else {
        "connection rejected"
    }
}

/// The body of the first `<device-identity>` child of a `pair-success` node, when it is bytes.
pub open spec fn identity_body(ps: Node) -> Option<Seq<u8>> {
    match first_tagged(kids(ps), "device-identity"@, 0) {
        Some(k) => match kids(ps)[k].content {
            NodeContent::Bytes(b) => Some(b@),
            _ => None,
        },
        None => None,
    }
}

/// The `jid` of the first `<device>` child of a `pair-success` node, or `?`.
pub open spec fn joining_jid(ps: Node) -> Seq<char> {
    match first_tagged(kids(ps), "device"@, 0) {
        Some(k) => attr_or(kids(ps)[k], "jid"@, "?"@),
        None => "?"@,
    }
}

/// What to do with one stanza of the linking exchange.
#[derive(Debug)]
pub enum LinkAction {
    /// `<failure>`: stop; the server's reason (or `?`) and what it means.
    Refused { reason: String, detail: &'static str },
    /// `<success>`: the device is linked; stop.
    Linked,
    /// A `pair-device` IQ: send `ack`; there were `ref_count` refs, and `url`, when there is a
    /// ref, is the address to show as a QR code for the first; `hint` asks to show the scanning
    /// instructions (the first time only).
    ShowCode { ack: Node, ref_count: usize, url: Option<String>, hint: bool },
    /// A `pair-success` IQ whose device identity checked out: send `reply`; the device joins the
    /// account as `jid`.
    Sign { reply: Node, jid: String },
    /// A `pair-success` IQ without a `<device-identity>` body.
    MissingIdentity,
    /// A `pair-success` IQ whose device identity did not check out.
    PairFailed(Error),
    /// Another IQ: nothing to do.
    Ignore,
    /// Another stanza: its tag, for the log.
    Other(String),
}

/// The answer to an IQ, for a state whose hint flag goes from `before` to `after`.
pub open spec fn iq_answer(n: Node, device: DeviceIdentity, before: bool, r: LinkAction, after: bool) -> bool {
    let id = attr_or(n, "id"@, ""@);
    let from = attr_or(n, "from"@, "s.whatsapp.net"@);
    match first_tagged(kids(n), "pair-device"@, 0) {
        Some(i) => {
            let refs = tagged_bodies(kids(kids(n)[i]), "ref"@, 0);
            r matches LinkAction::ShowCode { ack, ref_count, url, hint } && is_ack(ack, from, id)
                && ref_count == refs.len()
                && (refs.len() == 0 ==> url is None && !hint && after == before)
                && (refs.len() > 0 ==> (hint == !before && after && (url matches Some(u)
                    && sbytes(u) == qr_url_text(encode_utf8(utf8_lossy_spec(refs[0])), device.noise_key.public@,
                        device.identity_key.public@, device.adv_secret@)
                    && (valid_utf8(refs[0]) ==> sbytes(u) == qr_url_text(refs[0], device.noise_key.public@,
                        device.identity_key.public@, device.adv_secret@)))))
        },
        None => match first_tagged(kids(n), "pair-success"@, 0) {
            Some(j) => {
                let ps = kids(n)[j];
                &&& after == before
                &&& match identity_body(ps) {
                    None => r is MissingIdentity,
                    Some(di) => match sp_pair_check(di, device.adv_secret@, device.identity_key.public@) {
                        Err(e) => r matches LinkAction::PairFailed(x) && pair_err_matches(x, e),
                        Ok(plan) => r matches LinkAction::Sign { reply, jid } && jid@ == joining_jid(ps)
                            && exists|z: Seq<u8>| z.len() == 64 && is_sign_reply(reply, id, plan.key_index,
                                #[trigger] signed_answer(plan, device.identity_key.private@, z)),
                    },
                }
            },
            None => r is Ignore && after == before,
        },
    }
}

/// The state of the linking exchange: whether the scanning instructions were shown.
pub struct LinkState {
    pub hint_shown: bool,
}

impl LinkState {
    /// The state before any stanza.
    pub fn new() -> (r: LinkState)
        ensures
            !r.hint_shown,
    {
        LinkState { hint_shown: false }
    }

    /// Decide what to do with stanza `n`, for a device linking with `device`'s keys.
    pub fn step(&mut self, n: &Node, device: &DeviceIdentity) -> (r: LinkAction)
        ensures
            n.tag@ == "failure"@ ==> (r matches LinkAction::Refused { reason, detail }
                && reason@ == attr_or(*n, "reason"@, "?"@) && detail@ == failure_meaning(reason@)),
            n.tag@ == "success"@ ==> r is Linked,
            n.tag@ == "iq"@ ==> iq_answer(*n, *device, old(self).hint_shown, r, final(self).hint_shown),
            n.tag@ != "failure"@ && n.tag@ != "success"@ && n.tag@ != "iq"@ ==> (r matches LinkAction::Other(t)
                && t@ == n.tag@),
            n.tag@ != "iq"@ ==> final(self).hint_shown == old(self).hint_shown,
    {
        proof {
            reveal_strlit("failure");
            reveal_strlit("success");
            reveal_strlit("iq");
            assert("failure"@[0] != "success"@[0]);
            assert("failure"@.len() != "iq"@.len() && "success"@.len() != "iq"@.len());
        }
        let tag = n.tag.as_str();
        if str_eq(tag, "failure") {
            let reason = attr_or_default(n, "reason", "?");
            LinkAction::Refused { reason: owned(reason), detail: failure_detail(reason) }
        } else if str_eq(tag, "success") {
            LinkAction::Linked
        } else if str_eq(tag, "iq") {
            self.answer_iq(n, device)
        } else {
            LinkAction::Other(owned(tag))
        }
    }

    /// Decide what to do with an IQ.
    fn answer_iq(&mut self, n: &Node, device: &DeviceIdentity) -> (r: LinkAction)
        ensures
            iq_answer(*n, *device, old(self).hint_shown, r, final(self).hint_shown),
    {
        let id = attr_or_default(n, "id", "");
        let from = attr_or_default(n, "from", "s.whatsapp.net");
        let children = children_of(n);
        match find_tagged(children, "pair-device") {
            Some(pd) => {
                let ack = ack_iq(from, id);
                let (count, first) = tagged_summary(children_of(pd), "ref");
                match first {
                    Some(b) => {
                        let reference = utf8_lossy(b);
                        let url = qr_url(reference.as_str(), device);
                        proof {
                            if valid_utf8(b@) {
                                decode_utf8_encode_utf8(b@);
                            }
                        }
                        let hint = !self.hint_shown;
                        self.hint_shown = true;
                        LinkAction::ShowCode { ack, ref_count: count, url: Some(url), hint }
                    },
                    None => LinkAction::ShowCode { ack, ref_count: count, url: None, hint: false },
                }
            },
            None => match find_tagged(children, "pair-success") {
                Some(ps) => {
                    let grand = children_of(ps);
                    let body = match find_tagged(grand, "device-identity") {
                        Some(d) => d.content_bytes(),
                        None => None,
                    };
                    match body {
                        None => LinkAction::MissingIdentity,
                        Some(di) => match complete_pair_success(di, device) {
                            Err(e) => LinkAction::PairFailed(e),
                            Ok(result) => {
                                let jid = match find_tagged(grand, "device") {
                                    Some(d) => attr_or_default(d, "jid", "?"),
                                    None => "?",
                                };
                                let reply = pair_device_sign(id, result.key_index, result.self_signed_identity.as_slice());
                                proof {
                                    let plan = sp_pair_check(di@, device.adv_secret@, device.identity_key.public@)->Ok_0;
                                    let z = choose|z: Seq<u8>| z.len() == 64
                                        && result.self_signed_identity@ == signed_answer(plan, device.identity_key.private@, z);
                                    assert(is_sign_reply(reply, id@, plan.key_index, signed_answer(plan, device.identity_key.private@, z)));
                                }
                                LinkAction::Sign { reply, jid: owned(jid) }
                            },
                        },
                    }
                },
                None => LinkAction::Ignore,
            },
        }
    }
}

// ----------------------------------------------------------------------------------------------
// Stanzas on the transport
// ----------------------------------------------------------------------------------------------

/// The sealed payload of a stanza whose wire bytes are `e`, under sending key `key` at counter
/// `counter`: the bytes with the uncompressed flag in front, AEAD-sealed.
pub open spec fn sealed_payload(e: Seq<u8>, key: Seq<u8>, counter: nat) -> Seq<u8> {
    gcm_seal_spec(key, nonce_spec(counter as u32), Seq::empty(), seq![0u8] + e)
}

/// Marshal stanza `n`, put the uncompressed flag in front, seal it with the transport and frame
/// it. The transport's counter moves on once the node has been marshalled; the sealed payload
/// opens to the flagged node bytes under the matching receiving key and counter.
pub fn seal_stanza(transport: &mut NoiseTransport, n: &Node) -> (r: Result<Vec<u8>, Error>)
    requires
        sizes_fit(node_view(*n)),
        old(transport)@.send_counter < u32::MAX,
    ensures
        spec_enc_node(node_view(*n)) matches Err(m) ==> r matches Err(Error::Codec(CodecError::TooLarge(x)))
            && x == m && final(transport)@ == old(transport)@,
        spec_enc_node(node_view(*n)) is Ok ==> final(transport)@ == (TransportV {
            send_counter: old(transport)@.send_counter + 1, ..old(transport)@ }),
        spec_enc_node(node_view(*n)) matches Ok(e) ==> ((seq![0u8] + e).len() > GCM_MAX
            ==> r matches Err(Error::Transport(FrameError::Crypto(_)))),
        spec_enc_node(node_view(*n)) matches Ok(e) ==> ((seq![0u8] + e).len() <= GCM_MAX ==> {
            let c = sealed_payload(e, old(transport)@.send_key, old(transport)@.send_counter);
            &&& transport_open(old(transport)@.send_key, old(transport)@.send_counter, c) == Some(seq![0u8] + e)
            &&& c.len() > MAX_FRAME_LEN ==> (r matches Err(Error::Transport(FrameError::FrameTooLarge(k))) && k == c.len())
            &&& c.len() <= MAX_FRAME_LEN ==> (r matches Ok(f) && f@ == spec_frame(c))
        }),
{
    let bytes = match marshal(n) {
        Ok(b) => b,
        Err(e) => return Err(Error::Codec(e)),
    };
    let packed = pack_stanza(bytes.as_slice());
    let ct = match transport.encrypt(packed.as_slice()) {
        Ok(c) => c,
        Err(e) => return Err(Error::Transport(e)),
    };
    let mut frame = Vec::new();
    match encode_frame(ct.as_slice(), &mut frame) {
        Ok(()) => {
            assert(frame@ =~= spec_frame(ct@));
            Ok(frame)
        },
        Err(e) => Err(Error::Transport(e)),
    }
}

/// A stanza opened from a transport frame.
#[derive(Debug)]
pub enum Opened {
    /// The stanza's node.
    Stanza(Node),
    /// The stanza's bytes do not decode as a node (the exchange may go on).
    Unparsable(CodecError),
}

/// Why a transport frame could not be opened (the exchange cannot go on).
#[derive(Debug)]
pub enum OpenError {
    /// The frame did not decrypt under the transport's receiving key and counter.
    Decrypt(FrameError),
    /// The decrypted stanza was empty or its compressed body did not inflate.
    Unpack(String),
}

/// Decrypt a transport frame, strip the compression flag (inflating when it asks) and decode the
/// node. The transport's receiving counter moves on.
pub fn open_stanza(transport: &mut NoiseTransport, frame: &[u8]) -> (r: Result<Opened, OpenError>)
    requires
        old(transport)@.recv_counter < u32::MAX,
    ensures
        final(transport)@ == (TransportV { recv_counter: old(transport)@.recv_counter + 1, ..old(transport)@ }),
        transport_open(old(transport)@.recv_key, old(transport)@.recv_counter, frame@) is None
            ==> r matches Err(OpenError::Decrypt(FrameError::Crypto(_))),
        transport_open(old(transport)@.recv_key, old(transport)@.recv_counter, frame@) matches Some(p)
            ==> (sp_unpack(p) is None ==> r matches Err(OpenError::Unpack(_))),
        transport_open(old(transport)@.recv_key, old(transport)@.recv_counter, frame@) matches Some(p)
            ==> (sp_unpack(p) matches Some(b) ==> (spec_unmarshal(b) matches Ok(v)
                ==> r matches Ok(Opened::Stanza(x)) && node_view(x) == v)),
        transport_open(old(transport)@.recv_key, old(transport)@.recv_counter, frame@) matches Some(p)
            ==> (sp_unpack(p) matches Some(b) ==> (spec_unmarshal(b) matches Err(e)
                ==> r matches Ok(Opened::Unparsable(x)) && err_rel(x, e))),
{
    let plaintext = match transport.decrypt(frame) {
        Ok(p) => p,
        Err(e) => return Err(OpenError::Decrypt(e)),
    };
    let bytes = match unpack_stanza(plaintext.as_slice()) {
        Ok(b) => b,
        Err(m) => return Err(OpenError::Unpack(m)),
    };
    match unmarshal(bytes.as_slice()) {
        Ok(node) => Ok(Opened::Stanza(node)),
        Err(e) => Ok(Opened::Unparsable(e)),
    }
}

/// A stanza sealed on one transport opens, on a transport whose receiving key and counter are
/// the sender's sending key and counter, to the same node: the sealed payload `c` (which
/// [`seal_stanza`] shows opens to the flagged wire bytes) unpacks to the node's wire bytes, and
/// those decode to the node. This holds for every node the codec round-trips (its description is
/// not the stream-end token and no list of it holds 65536 or more elements).
pub proof fn seal_open_roundtrip(n: Node, key: Seq<u8>, counter: nat, c: Seq<u8>)
    requires
        structure_ok(node_view(n)),
        spec_enc_node(node_view(n)) matches Ok(e) && transport_open(key, counter, c) == Some(seq![0u8] + e),
    ensures
        transport_open(key, counter, c) matches Some(p) && sp_unpack(p) matches Some(b)
            && spec_unmarshal(b) == Ok::<crate::node::NodeV, crate::codec::DecodeError>(node_view(n)),
{
    let e = spec_enc_node(node_view(n))->Ok_0;
    marshal_roundtrip(n);
    stanza_roundtrip(e);
}

// ----------------------------------------------------------------------------------------------
// The handshake messages
// ----------------------------------------------------------------------------------------------

/// The client hello of message 1, for an ephemeral public key.
pub open spec fn hello_body(ephemeral: Seq<u8>) -> Seq<u8> {
    wrapped(F_CLIENT_HELLO, client_hello_fields(HelloV { ephemeral, static_key: Seq::empty(), payload: Seq::empty() }))
}

/// The first bytes a client sends: the connection header, then the framed client hello carrying
/// the handshake's ephemeral public key.
pub fn hello_message(hs: &XxInitiator) -> (r: Result<Vec<u8>, FrameError>)
    ensures
        hello_body(hs@.ephemeral_public).len() <= MAX_FRAME_LEN ==> (r matches Ok(m)
            && m@ == seq![87u8, 65u8, EDITION, DICT_VERSION] + spec_frame(hello_body(hs@.ephemeral_public))),
        hello_body(hs@.ephemeral_public).len() > MAX_FRAME_LEN ==> (r matches Err(FrameError::FrameTooLarge(n))
            && n == hello_body(hs@.ephemeral_public).len()),
{
    let ephemeral = hs.ephemeral();
    let hello = ClientHello::with_ephemeral(to_vec(&ephemeral));
    assert(hello.static_key@ =~= Seq::<u8>::empty() && hello.payload@ =~= Seq::<u8>::empty());
    assert(hello@ == (HelloV { ephemeral: ephemeral@, static_key: Seq::empty(), payload: Seq::empty() }));
    let body = hello.encode();
    let header = wa_conn_header();
    let mut out = to_vec(&header);
    match encode_frame(body.as_slice(), &mut out) {
        Ok(()) => Ok(out),
        Err(e) => Err(e),
    }
}

/// Why a server hello was not accepted.
#[derive(Debug)]
pub enum HelloError {
    /// The frame is not a handshake message.
    Decode(ProtoError),
    /// The handshake message is of another stage.
    NotServerHello(ProtoError),
    /// The Noise state machine refused the server hello.
    Noise(FrameError),
}

/// Decode message 2 from a frame and run the initiator over it: the server's static key and
/// certificate payload.
pub fn accept_server_hello(hs: &mut XxInitiator, frame: &[u8]) -> (r: Result<(Vec<u8>, Vec<u8>), HelloError>)
    ensures
        sp_handshake(frame@) matches Err(e) ==> (r matches Err(HelloError::Decode(x)) && pb_err(x) == e
            && final(hs)@ == old(hs)@),
        sp_handshake(frame@) matches Ok(v) ==> (!(v is ServerHello) ==> (r matches Err(HelloError::NotServerHello(
            ProtoError::Malformed(_))) && final(hs)@ == old(hs)@)),
        sp_handshake(frame@) matches Ok(HandshakeV::ServerHello(h)) ==> ({
            let (m, x) = sp_read_server_hello(old(hs)@, h.ephemeral, h.static_key, h.payload);
            &&& final(hs)@ == x
            &&& m matches Ok(v) ==> (r matches Ok(p) && p.0@ == v.0 && p.1@ == v.1)
            &&& m matches Err(e) ==> (r matches Err(HelloError::Noise(p)) && noise_err(p) == e)
        }),
{
    let msg = match HandshakeMessage::decode(frame) {
        Ok(m) => m,
        Err(e) => return Err(HelloError::Decode(e)),
    };
    let sh = match msg.into_server_hello() {
        Ok(s) => s,
        Err(e) => return Err(HelloError::NotServerHello(e)),
    };
    match hs.read_server_hello(sh.ephemeral.as_slice(), sh.static_key.as_slice(), sh.payload.as_slice()) {
        Ok(p) => Ok(p),
        Err(e) => Err(HelloError::Noise(e)),
    }
}

/// The client finish of message 3, for the encrypted static key and payload.
pub open spec fn finish_body(enc_static: Seq<u8>, enc_payload: Seq<u8>) -> Seq<u8> {
    wrapped(F_CLIENT_FINISH, client_finish_fields(FinishV { static_key: enc_static, payload: enc_payload }))
}

/// Finish the handshake with the device's Noise key and the registration payload: message 3 as
/// a frame, and the transport.
pub fn finish_message(hs: &mut XxInitiator, device: &DeviceIdentity, payload: &[u8])
    -> (r: Result<(Vec<u8>, NoiseTransport), FrameError>)
    requires
        old(hs)@.state.key is Some ==> old(hs)@.state.counter < u32::MAX,
    ensures
        ({
            let (m, x) = sp_finish(old(hs)@, device.noise_key.private@, device.noise_key.public@, payload@);
            &&& final(hs)@ == x
            &&& m matches Err(e) ==> (r matches Err(p) && noise_err(p) == e)
            &&& m matches Ok(v) ==> (finish_body(v.0, v.1).len() <= MAX_FRAME_LEN ==> (r matches Ok(p)
                && p.0@ == spec_frame(finish_body(v.0, v.1)) && p.1@ == v.2))
            &&& m matches Ok(v) ==> (finish_body(v.0, v.1).len() > MAX_FRAME_LEN ==> (r matches Err(
                FrameError::FrameTooLarge(n)) && n == finish_body(v.0, v.1).len()))
        }),
{
    let (enc_static, enc_payload, transport) = hs.finish(&device.noise_key.private, &device.noise_key.public, payload)?;
    let finish = ClientFinish::new(enc_static, enc_payload);
    let body = finish.encode();
    let mut out = Vec::new();
    match encode_frame(body.as_slice(), &mut out) {
        Ok(()) => {
            assert(out@ =~= spec_frame(body@));
            Ok((out, transport))
        },
        Err(e) => Err(e),
    }
}

} // verus!
