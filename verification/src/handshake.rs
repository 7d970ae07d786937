//! The Noise `HandshakeMessage` family.
//!
//! Each raw Noise XX message is wrapped in a protobuf so the server can tell the three handshake
//! stages apart:
//!
//! ```proto
//! message HandshakeMessage {
//!   message ClientHello  { bytes ephemeral = 1; bytes static = 2; bytes payload = 3; }
//!   message ServerHello  { bytes ephemeral = 1; bytes static = 2; bytes payload = 3; }
//!   message ClientFinish { bytes static   = 1; bytes payload = 2; }
//!   ClientHello  clientHello  = 2;
//!   ServerHello  serverHello  = 3;
//!   ClientFinish clientFinish = 4;
//! }
//! ```

use vstd::prelude::*;
use crate::adv::{bytes_field, bytes_or_empty, nonempty_field, opt_view, owned_or_empty};
use crate::bytes::append_bytes;
use crate::pb::{
    field_ok, first_len_from, get_field, iter_len_fields, lemma_spec_fields_one,
    lemma_spec_fields_push, lemma_varint_len, len_fields_view, only_len, parse_roundtrip, pb_err,
    put_len_field, sp_parse, spec_field, spec_fields, Error, PbError, ValueV,
};

verus! {

/// `HandshakeMessage.clientHello`.
pub const F_CLIENT_HELLO: u64 = 2;
/// `HandshakeMessage.serverHello`.
pub const F_SERVER_HELLO: u64 = 3;
/// `HandshakeMessage.clientFinish`.
pub const F_CLIENT_FINISH: u64 = 4;
/// `ephemeral` in a hello.
pub const F_EPHEMERAL: u64 = 1;
/// `static` in a hello.
pub const F_STATIC: u64 = 2;
/// `payload` in a hello.
pub const F_PAYLOAD: u64 = 3;
/// `static` in a client finish.
pub const F_CF_STATIC: u64 = 1;
/// `payload` in a client finish.
pub const F_CF_PAYLOAD: u64 = 2;

/// Message 1: `-> e`. Only `ephemeral` is set during a standard XX handshake.
#[derive(Clone, Debug, Default, PartialEq, Eq)]
pub struct ClientHello {
    pub ephemeral: Vec<u8>,
    pub static_key: Vec<u8>,
    pub payload: Vec<u8>,
}

/// Message 2: `<- e, ee, s, es`.
#[derive(Clone, Debug, Default, PartialEq, Eq)]
pub struct ServerHello {
    pub ephemeral: Vec<u8>,
    pub static_key: Vec<u8>,
    pub payload: Vec<u8>,
}

/// Message 3: `-> s, se`, carrying the encrypted `ClientPayload`.
#[derive(Clone, Debug, Default, PartialEq, Eq)]
pub struct ClientFinish {
    pub static_key: Vec<u8>,
    pub payload: Vec<u8>,
}

/// A decoded `HandshakeMessage`: whichever stage it carried.
#[derive(Clone, Debug, PartialEq, Eq)]
pub enum HandshakeMessage {
    ClientHello(ClientHello),
    ServerHello(ServerHello),
    ClientFinish(ClientFinish),
}

/// The model of a hello (client or server).
pub struct HelloV {
    pub ephemeral: Seq<u8>,
    pub static_key: Seq<u8>,
    pub payload: Seq<u8>,
}

/// The model of a client finish.
pub struct FinishV {
    pub static_key: Seq<u8>,
    pub payload: Seq<u8>,
}

/// The model of a decoded `HandshakeMessage`.
pub enum HandshakeV {
    ClientHello(HelloV),
    ServerHello(HelloV),
    ClientFinish(FinishV),
}

impl View for ClientHello {
    type V = HelloV;

    open spec fn view(&self) -> HelloV {
        HelloV { ephemeral: self.ephemeral@, static_key: self.static_key@, payload: self.payload@ }
    }
}

impl View for ServerHello {
    type V = HelloV;

    open spec fn view(&self) -> HelloV {
        HelloV { ephemeral: self.ephemeral@, static_key: self.static_key@, payload: self.payload@ }
    }
}

impl View for ClientFinish {
    type V = FinishV;

    open spec fn view(&self) -> FinishV {
        FinishV { static_key: self.static_key@, payload: self.payload@ }
    }
}

impl View for HandshakeMessage {
    type V = HandshakeV;

    open spec fn view(&self) -> HandshakeV {
        match self {
            HandshakeMessage::ClientHello(c) => HandshakeV::ClientHello(c@),
            HandshakeMessage::ServerHello(s) => HandshakeV::ServerHello(s@),
            HandshakeMessage::ClientFinish(f) => HandshakeV::ClientFinish(f@),
        }
    }
}

/// The length-delimited fields of a message, or the decoding error.
pub open spec fn sp_len_fields(d: Seq<u8>) -> Result<Seq<(u64, Seq<u8>)>, PbError> {
    match sp_parse(d, 0) {
        Ok(s) => Ok(only_len(s)),
        Err(e) => Err(e),
    }
}

/// The bytes of the first length-delimited field numbered `n`.
pub open spec fn spec_get(fs: Seq<(u64, Seq<u8>)>, n: u64) -> Option<Seq<u8>> {
    match first_len_from(fs, n, 0) {
        Some(i) => Some(fs[i].1),
        None => None,
    }
}

/// The fields of a client hello's body: the ephemeral key always, the rest when not empty.
pub open spec fn client_hello_fields(v: HelloV) -> Seq<(u64, ValueV)> {
    seq![bytes_field(F_EPHEMERAL, v.ephemeral)] + nonempty_field(F_STATIC, v.static_key)
        + nonempty_field(F_PAYLOAD, v.payload)
}

/// The fields of a server hello's body: both keys always, the payload when not empty.
pub open spec fn server_hello_fields(v: HelloV) -> Seq<(u64, ValueV)> {
    seq![bytes_field(F_EPHEMERAL, v.ephemeral), bytes_field(F_STATIC, v.static_key)]
        + nonempty_field(F_PAYLOAD, v.payload)
}

/// The fields of a client finish's body.
pub open spec fn client_finish_fields(v: FinishV) -> Seq<(u64, ValueV)> {
    seq![bytes_field(F_CF_STATIC, v.static_key), bytes_field(F_CF_PAYLOAD, v.payload)]
}

/// A whole `HandshakeMessage` holding one stage's body under field `n`.
pub open spec fn wrapped(n: u64, body: Seq<(u64, ValueV)>) -> Seq<u8> {
    spec_fields(seq![bytes_field(n, spec_fields(body))])
}

/// The server hello a body decodes to: both keys must be present.
pub open spec fn sp_server_hello(b: Seq<u8>) -> Result<HelloV, PbError> {
    match sp_len_fields(b) {
        Err(e) => Err(e),
        Ok(fs) => {
            let v = HelloV {
                ephemeral: bytes_or_empty(spec_get(fs, F_EPHEMERAL)),
                static_key: bytes_or_empty(spec_get(fs, F_STATIC)),
                payload: bytes_or_empty(spec_get(fs, F_PAYLOAD)),
            };
            if v.ephemeral.len() == 0 || v.static_key.len() == 0 {
                Err(PbError::Malformed("ServerHello missing ephemeral or static"))
            } else {
                Ok(v)
            }
        },
    }
}

/// The `HandshakeMessage` that `d` decodes to: a server hello is looked for first, then a
/// client hello, then a client finish.
pub open spec fn sp_handshake(d: Seq<u8>) -> Result<HandshakeV, PbError> {
    match sp_len_fields(d) {
        Err(e) => Err(e),
        Ok(fs) => if let Some(sh) = spec_get(fs, F_SERVER_HELLO) {
            match sp_server_hello(sh) {
                Err(e) => Err(e),
                Ok(v) => Ok(HandshakeV::ServerHello(v)),
            }
        } else if let Some(ch) = spec_get(fs, F_CLIENT_HELLO) {
            match sp_len_fields(ch) {
                Err(e) => Err(e),
                Ok(inner) => Ok(HandshakeV::ClientHello(HelloV {
                    ephemeral: bytes_or_empty(spec_get(inner, F_EPHEMERAL)),
                    static_key: bytes_or_empty(spec_get(inner, F_STATIC)),
                    payload: bytes_or_empty(spec_get(inner, F_PAYLOAD)),
                })),
            }
        } else if let Some(cf) = spec_get(fs, F_CLIENT_FINISH) {
            match sp_len_fields(cf) {
                Err(e) => Err(e),
                Ok(inner) => Ok(HandshakeV::ClientFinish(FinishV {
                    static_key: bytes_or_empty(spec_get(inner, F_CF_STATIC)),
                    payload: bytes_or_empty(spec_get(inner, F_CF_PAYLOAD)),
                })),
            }
        } else {
            Err(PbError::Malformed("HandshakeMessage has no known stage"))
        },
    }
}

/// The bytes of the first length-delimited field with the given number, owned (empty if absent).
fn get_owned(fields: &Vec<crate::pb::LenField>, n: u64) -> (r: Vec<u8>)
    ensures
        r@ == bytes_or_empty(spec_get(len_fields_view(fields@), n)),
{
    owned_or_empty(get_field(fields.as_slice(), n))
}

/// Append a length-delimited field unless its bytes are empty.
fn put_nonempty(b: &mut Vec<u8>, n: u64, data: &[u8], Ghost(fs): Ghost<Seq<(u64, ValueV)>>)
    -> (r: Ghost<Seq<(u64, ValueV)>>)
    requires
        old(b)@ == spec_fields(fs),
    ensures
        r@ == fs + nonempty_field(n, data@),
        final(b)@ == spec_fields(r@),
{
    if data.len() != 0 {
        put_len_field(b, n, data);
        proof {
            lemma_spec_fields_push(fs, bytes_field(n, data@));
            assert(fs.push(bytes_field(n, data@)) =~= fs + nonempty_field(n, data@));
        }
    } else {
        assert(fs =~= fs + nonempty_field(n, data@));
    }
    Ghost(fs + nonempty_field(n, data@))
}

/// Append a length-delimited field.
fn put_bytes(b: &mut Vec<u8>, n: u64, data: &[u8], Ghost(fs): Ghost<Seq<(u64, ValueV)>>)
    -> (r: Ghost<Seq<(u64, ValueV)>>)
    requires
        old(b)@ == spec_fields(fs),
    ensures
        r@ == fs.push(bytes_field(n, data@)),
        final(b)@ == spec_fields(r@),
{
    put_len_field(b, n, data);
    proof {
        lemma_spec_fields_push(fs, bytes_field(n, data@));
    }
    Ghost(fs.push(bytes_field(n, data@)))
}

/// Wrap an encoded stage body as field `n` of a `HandshakeMessage`.
fn wrap(n: u64, inner: &Vec<u8>, Ghost(body): Ghost<Seq<(u64, ValueV)>>) -> (r: Vec<u8>)
    requires
        inner@ == spec_fields(body),
    ensures
        r@ == wrapped(n, body),
{
    let mut out = Vec::new();
    put_len_field(&mut out, n, inner.as_slice());
    proof {
        lemma_spec_fields_one(bytes_field(n, inner@));
    }
    out
}

impl ClientHello {
    /// A message-1 client hello carrying just the Noise ephemeral public key.
    pub fn with_ephemeral(ephemeral: Vec<u8>) -> (r: ClientHello)
        ensures
            r.ephemeral@ == ephemeral@,
            r.static_key@.len() == 0,
            r.payload@.len() == 0,
    {
        ClientHello { ephemeral, static_key: Vec::new(), payload: Vec::new() }
    }

    fn encode_inner(&self) -> (r: Vec<u8>)
        ensures
            r@ == spec_fields(client_hello_fields(self@)),
    {
        let mut b = Vec::new();
        let ghost none: Seq<(u64, ValueV)> = Seq::empty();
        let g = put_bytes(&mut b, F_EPHEMERAL, &self.ephemeral, Ghost(none));
        let g = put_nonempty(&mut b, F_STATIC, &self.static_key, g);
        let g = put_nonempty(&mut b, F_PAYLOAD, &self.payload, g);
        assert(g@ =~= client_hello_fields(self@));
        b
    }

    /// Encode as a complete `HandshakeMessage`.
    pub fn encode(&self) -> (r: Vec<u8>)
        ensures
            r@ == wrapped(F_CLIENT_HELLO, client_hello_fields(self@)),
    {
        let inner = self.encode_inner();
        wrap(F_CLIENT_HELLO, &inner, Ghost(client_hello_fields(self@)))
    }
}

impl ServerHello {
    fn decode_inner(bytes: &[u8]) -> (r: Result<ServerHello, Error>)
        ensures
            sp_server_hello(bytes@) matches Ok(v) ==> r matches Ok(x) && x@ == v,
            sp_server_hello(bytes@) matches Err(e) ==> r matches Err(x) && pb_err(x) == e,
    {
        let fields = iter_len_fields(bytes)?;
        let eph = get_owned(&fields, F_EPHEMERAL);
        let stat = get_owned(&fields, F_STATIC);
        let payload = get_owned(&fields, F_PAYLOAD);
        if eph.len() == 0 || stat.len() == 0 {
            return Err(Error::Malformed("ServerHello missing ephemeral or static"));
        }
        Ok(ServerHello { ephemeral: eph, static_key: stat, payload })
    }

    /// Encode as a complete `HandshakeMessage`.
    pub fn encode(&self) -> (r: Vec<u8>)
        ensures
            r@ == wrapped(F_SERVER_HELLO, server_hello_fields(self@)),
    {
        let mut inner = Vec::new();
        let ghost none: Seq<(u64, ValueV)> = Seq::empty();
        let g = put_bytes(&mut inner, F_EPHEMERAL, &self.ephemeral, Ghost(none));
        let g = put_bytes(&mut inner, F_STATIC, &self.static_key, g);
        let g = put_nonempty(&mut inner, F_PAYLOAD, &self.payload, g);
        assert(g@ =~= server_hello_fields(self@));
        wrap(F_SERVER_HELLO, &inner, Ghost(server_hello_fields(self@)))
    }

    /// The raw Noise message-2 bytes (`ephemeral || static || payload`) that the Noise state
    /// machine reads.
    pub fn noise_message(&self) -> (r: Vec<u8>)
        ensures
            r@ == self.ephemeral@ + self.static_key@ + self.payload@,
    {
        let mut raw = Vec::new();
        append_bytes(&mut raw, &self.ephemeral);
        append_bytes(&mut raw, &self.static_key);
        append_bytes(&mut raw, &self.payload);
        assert(raw@ =~= self.ephemeral@ + self.static_key@ + self.payload@);
        raw
    }
}

impl ClientFinish {
    /// A message-3 client finish: the encrypted static key and the encrypted `ClientPayload`.
    pub fn new(static_key: Vec<u8>, payload: Vec<u8>) -> (r: ClientFinish)
        ensures
            r.static_key@ == static_key@,
            r.payload@ == payload@,
    {
        ClientFinish { static_key, payload }
    }

    /// Encode as a complete `HandshakeMessage`.
    pub fn encode(&self) -> (r: Vec<u8>)
        ensures
            r@ == wrapped(F_CLIENT_FINISH, client_finish_fields(self@)),
    {
        let mut inner = Vec::new();
        let ghost none: Seq<(u64, ValueV)> = Seq::empty();
        let g = put_bytes(&mut inner, F_CF_STATIC, &self.static_key, Ghost(none));
        let g = put_bytes(&mut inner, F_CF_PAYLOAD, &self.payload, g);
        assert(g@ =~= client_finish_fields(self@));
        wrap(F_CLIENT_FINISH, &inner, Ghost(client_finish_fields(self@)))
    }
}

impl HandshakeMessage {
    /// Decode a `HandshakeMessage`, dispatching on which stage field is present.
    pub fn decode(bytes: &[u8]) -> (r: Result<HandshakeMessage, Error>)
        ensures
            sp_handshake(bytes@) matches Ok(v) ==> r matches Ok(x) && x@ == v,
            sp_handshake(bytes@) matches Err(e) ==> r matches Err(x) && pb_err(x) == e,
    {
        let fields = iter_len_fields(bytes)?;
        if let Some(sh) = get_field(&fields, F_SERVER_HELLO) {
            let s = ServerHello::decode_inner(sh)?;
            return Ok(HandshakeMessage::ServerHello(s));
        }
        if let Some(ch) = get_field(&fields, F_CLIENT_HELLO) {
            let inner = iter_len_fields(ch)?;
            return Ok(HandshakeMessage::ClientHello(ClientHello {
                ephemeral: get_owned(&inner, F_EPHEMERAL),
                static_key: get_owned(&inner, F_STATIC),
                payload: get_owned(&inner, F_PAYLOAD),
            }));
        }
        if let Some(cf) = get_field(&fields, F_CLIENT_FINISH) {
            let inner = iter_len_fields(cf)?;
            return Ok(HandshakeMessage::ClientFinish(ClientFinish {
                static_key: get_owned(&inner, F_CF_STATIC),
                payload: get_owned(&inner, F_CF_PAYLOAD),
            }));
        }
        Err(Error::Malformed("HandshakeMessage has no known stage"))
    }

    /// The server hello this message carried, or an error if it carried another stage.
    pub fn into_server_hello(self) -> (r: Result<ServerHello, Error>)
        ensures
            self matches HandshakeMessage::ServerHello(s) ==> r == Ok::<ServerHello, Error>(s),
            !(self is ServerHello) ==> r == Err::<ServerHello, Error>(Error::Malformed("expected ServerHello")),
    {
        match self {
            HandshakeMessage::ServerHello(s) => Ok(s),
            _ => Err(Error::Malformed("expected ServerHello")),
        }
    }
}

// ----------------------------------------------------------------------------------------------
// Round trips
// ----------------------------------------------------------------------------------------------

/// Byte strings short enough for every length on the wire (in-memory buffers always are).
pub open spec fn short(b: Seq<u8>) -> bool {
    b.len() < 0x4000_0000_0000_0000
}

/// Decoding a wrapped body of length-delimited fields: the outer message holds just that field,
/// and the body's fields are the ones encoded.
proof fn lemma_wrapped(n: u64, body: Seq<(u64, ValueV)>)
    requires
        n < 8,
        body.len() <= 3,
        forall|i: int| 0 <= i < body.len() ==> (#[trigger] body[i]).1 is Bytes && short(body[i].1->Bytes_0)
            && body[i].0 < 8,
    ensures
        sp_len_fields(wrapped(n, body)) == Ok::<Seq<(u64, Seq<u8>)>, PbError>(seq![(n, spec_fields(body))]),
        sp_len_fields(spec_fields(body)) == Ok::<Seq<(u64, Seq<u8>)>, PbError>(
            body.map_values(|f: (u64, ValueV)| (f.0, f.1->Bytes_0))),
{
    assert forall|i: int| 0 <= i < body.len() implies field_ok(#[trigger] body[i]) by {}
    parse_roundtrip(body);
    reveal_with_fuel(only_len, 4);
    reveal_with_fuel(spec_fields, 4);
    assert forall|i: int| 0 <= i < body.len() implies spec_field(#[trigger] body[i]).len() <= 20 + body[i].1->Bytes_0.len() by {
        lemma_varint_len(crate::pb::field_key(body[i].0, crate::pb::WIRE_LEN));
        lemma_varint_len(body[i].1->Bytes_0.len() as u64);
    }
    if body.len() == 0 {
        assert(only_len(body) =~= body.map_values(|f: (u64, ValueV)| (f.0, f.1->Bytes_0)));
    } else if body.len() == 1 {
        assert(body.drop_last() =~= Seq::<(u64, ValueV)>::empty());
        assert(only_len(body) =~= body.map_values(|f: (u64, ValueV)| (f.0, f.1->Bytes_0)));
    } else if body.len() == 2 {
        assert(body.drop_last().drop_last() =~= Seq::<(u64, ValueV)>::empty());
        assert(only_len(body) =~= body.map_values(|f: (u64, ValueV)| (f.0, f.1->Bytes_0)));
    } else {
        assert(body.drop_last().drop_last().drop_last() =~= Seq::<(u64, ValueV)>::empty());
        assert(only_len(body) =~= body.map_values(|f: (u64, ValueV)| (f.0, f.1->Bytes_0)));
    }
    let outer = seq![bytes_field(n, spec_fields(body))];
    assert forall|i: int| 0 <= i < outer.len() implies field_ok(#[trigger] outer[i]) by {}
    parse_roundtrip(outer);
    assert(outer.drop_last() =~= Seq::<(u64, ValueV)>::empty());
    assert(only_len(outer) =~= seq![(n, spec_fields(body))]);
}

/// Decoding an encoded client hello gives it back.
pub proof fn client_hello_roundtrip(v: HelloV)
    requires
        short(v.ephemeral),
        short(v.static_key),
        short(v.payload),
    ensures
        sp_handshake(wrapped(F_CLIENT_HELLO, client_hello_fields(v))) == Ok::<HandshakeV, PbError>(HandshakeV::ClientHello(v)),
{
    let body = client_hello_fields(v);
    lemma_wrapped(F_CLIENT_HELLO, body);
    reveal_with_fuel(first_len_from, 4);
    assert(bytes_or_empty(spec_get(body.map_values(|f: (u64, ValueV)| (f.0, f.1->Bytes_0)), F_STATIC)) =~= v.static_key);
    assert(bytes_or_empty(spec_get(body.map_values(|f: (u64, ValueV)| (f.0, f.1->Bytes_0)), F_PAYLOAD)) =~= v.payload);
}

/// Decoding an encoded server hello gives it back, when both of its keys are present.
pub proof fn server_hello_roundtrip(v: HelloV)
    requires
        short(v.ephemeral),
        short(v.static_key),
        short(v.payload),
        v.ephemeral.len() > 0,
        v.static_key.len() > 0,
    ensures
        sp_handshake(wrapped(F_SERVER_HELLO, server_hello_fields(v))) == Ok::<HandshakeV, PbError>(HandshakeV::ServerHello(v)),
{
    let body = server_hello_fields(v);
    lemma_wrapped(F_SERVER_HELLO, body);
    reveal_with_fuel(first_len_from, 4);
    assert(bytes_or_empty(spec_get(body.map_values(|f: (u64, ValueV)| (f.0, f.1->Bytes_0)), F_PAYLOAD)) =~= v.payload);
}

/// Decoding an encoded client finish gives it back.
pub proof fn client_finish_roundtrip(v: FinishV)
    requires
        short(v.static_key),
        short(v.payload),
    ensures
        sp_handshake(wrapped(F_CLIENT_FINISH, client_finish_fields(v))) == Ok::<HandshakeV, PbError>(HandshakeV::ClientFinish(v)),
{
    let body = client_finish_fields(v);
    lemma_wrapped(F_CLIENT_FINISH, body);
    reveal_with_fuel(first_len_from, 4);
}

/// Where each handshake stage puts its keys on the wire, as the schema numbers them: read back
/// as length-delimited fields, a client hello is field 2 of the message, a server hello field 3
/// and a client finish field 4; in a hello, field 1 is the ephemeral key, field 2 the static key
/// and field 3 the payload (the latter two left out when empty); in a client finish, field 1 is
/// the encrypted static key and field 2 the payload.
pub proof fn handshake_field_numbers(h: HelloV, f: FinishV)
    requires
        short(h.ephemeral),
        short(h.static_key),
        short(h.payload),
        short(f.static_key),
        short(f.payload),
    ensures
        sp_len_fields(wrapped(F_CLIENT_HELLO, client_hello_fields(h))) matches Ok(fs) && spec_get(fs, 2) matches Some(b)
            && sp_len_fields(b) matches Ok(gs) && spec_get(gs, 1) == Some(h.ephemeral)
            && bytes_or_empty(spec_get(gs, 2)) == h.static_key && bytes_or_empty(spec_get(gs, 3)) == h.payload,
        sp_len_fields(wrapped(F_SERVER_HELLO, server_hello_fields(h))) matches Ok(fs) && spec_get(fs, 3) matches Some(b)
            && sp_len_fields(b) matches Ok(gs) && spec_get(gs, 1) == Some(h.ephemeral)
            && spec_get(gs, 2) == Some(h.static_key) && bytes_or_empty(spec_get(gs, 3)) == h.payload,
        sp_len_fields(wrapped(F_CLIENT_FINISH, client_finish_fields(f))) matches Ok(fs) && spec_get(fs, 4) matches Some(b)
            && sp_len_fields(b) matches Ok(gs) && spec_get(gs, 1) == Some(f.static_key)
            && spec_get(gs, 2) == Some(f.payload),
{
    lemma_wrapped(F_CLIENT_HELLO, client_hello_fields(h));
    lemma_wrapped(F_SERVER_HELLO, server_hello_fields(h));
    lemma_wrapped(F_CLIENT_FINISH, client_finish_fields(f));
    reveal_with_fuel(first_len_from, 4);
    let ch = client_hello_fields(h).map_values(|x: (u64, ValueV)| (x.0, x.1->Bytes_0));
    assert(bytes_or_empty(spec_get(ch, 2)) =~= h.static_key);
    assert(bytes_or_empty(spec_get(ch, 3)) =~= h.payload);
    let sh = server_hello_fields(h).map_values(|x: (u64, ValueV)| (x.0, x.1->Bytes_0));
    assert(bytes_or_empty(spec_get(sh, 3)) =~= h.payload);
}

} // verus!
