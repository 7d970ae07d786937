//! The WhatsApp `Message` protobuf: the plaintext content that is Signal-encrypted inside an
//! `<enc>` element. Only text messages are covered so far.
//!
//! ```proto
//! message Message {
//!   optional string conversation = 1;                     // simple text
//!   optional ExtendedTextMessage extendedTextMessage = 6; // text + context
//! }
//! message ExtendedTextMessage { optional string text = 1; }
//! ```

use vstd::prelude::*;
use vstd::utf8::*;
use crate::bytes::copy_range;
use crate::codec::utf8_to_string;
use crate::node::sbytes;
use crate::pb::{
    field_ok, first_bytes, lemma_spec_fields_push, lemma_varint_len, parse, parse_roundtrip, pb_err, put_len_field,
    sp_parse, spec_fields, spec_first_bytes, Error, PbError, Value, ValueV, fields_view,
};

verus! {

/// A decoded or encodable WhatsApp message (text only for now).
#[derive(Clone, Debug, Default, PartialEq, Eq)]
pub struct Message {
    /// `conversation` (field 1): a plain text message.
    pub conversation: Option<String>,
    /// `extendedTextMessage.text` (field 6, then 1): text with context (the context is left out).
    pub extended_text: Option<String>,
}

/// The model of a message: each text by its UTF-8 bytes.
pub struct MessageV {
    pub conversation: Option<Seq<u8>>,
    pub extended_text: Option<Seq<u8>>,
}

/// The UTF-8 bytes of an optional string.
pub open spec fn opt_sbytes(o: Option<String>) -> Option<Seq<u8>> {
    match o {
        Some(s) => Some(sbytes(s)),
        None => None,
    }
}

impl View for Message {
    type V = MessageV;

    open spec fn view(&self) -> MessageV {
        MessageV { conversation: opt_sbytes(self.conversation), extended_text: opt_sbytes(self.extended_text) }
    }
}

/// The fields of the extended text message that carries `t`.
pub open spec fn ext_fields(t: Seq<u8>) -> Seq<(u64, ValueV)> {
    seq![(1u64, ValueV::Bytes(t))]
}

/// The fields of an encoded message.
pub open spec fn message_fields(m: MessageV) -> Seq<(u64, ValueV)> {
    (match m.conversation {
        Some(c) => seq![(1u64, ValueV::Bytes(c))],
        None => Seq::empty(),
    }) + (match m.extended_text {
        Some(t) => seq![(6u64, ValueV::Bytes(spec_fields(ext_fields(t))))],
        None => Seq::empty(),
    })
}

/// The text held by the first length-delimited field numbered `n`: absent, a string, or an
/// error when its bytes are not UTF-8.
pub open spec fn sp_string_field(s: Seq<(u64, ValueV)>, n: u64) -> Result<Option<Seq<u8>>, PbError> {
    match spec_first_bytes(s, n) {
        Some(b) => if valid_utf8(b) { Ok(Some(b)) } else { Err(PbError::Malformed("non-utf8 string")) },
        None => Ok(None),
    }
}

/// The message that `d` decodes to.
pub open spec fn sp_message(d: Seq<u8>) -> Result<MessageV, PbError> {
    match sp_parse(d, 0) {
        Err(e) => Err(e),
        Ok(s) => match sp_string_field(s, 1) {
            Err(e) => Err(e),
            Ok(conversation) => match spec_first_bytes(s, 6) {
                None => Ok(MessageV { conversation, extended_text: None }),
                Some(inner) => match sp_parse(inner, 0) {
                    Err(e) => Err(e),
                    Ok(s2) => match sp_string_field(s2, 1) {
                        Err(e) => Err(e),
                        Ok(extended_text) => Ok(MessageV { conversation, extended_text }),
                    },
                },
            },
        },
    }
}

/// The text of the first length-delimited field with the given number, if any.
fn string_field(fields: &[(u64, Value)], field_no: u64) -> (r: Result<Option<String>, Error>)
    ensures
        sp_string_field(fields_view(fields@), field_no) matches Ok(o) ==> r matches Ok(x) && opt_sbytes(x) == o,
        sp_string_field(fields_view(fields@), field_no) matches Err(e) ==> r matches Err(x) && pb_err(x) == e,
{
    match first_bytes(fields, field_no) {
        Some(b) => {
            let owned = copy_range(b, 0, b.len());
            assert(owned@ =~= b@);
            match utf8_to_string(owned) {
                Some(s) => {
                    proof {
                        decode_utf8_encode_utf8(b@);
                    }
                    Ok(Some(s))
                },
                None => Err(Error::Malformed("non-utf8 string")),
            }
        },
        None => Ok(None),
    }
}

impl Message {
    /// A plain text message.
    pub fn text(body: &str) -> (r: Message)
        ensures
            r.conversation matches Some(c) && c@ == body@,
            r.extended_text is None,
    {
        Message { conversation: Some(body.to_owned()), extended_text: None }
    }

    /// The text body, from either representation (the plain one first).
    pub fn text_content(&self) -> (r: Option<&str>)
        ensures
            self.conversation matches Some(c) ==> r matches Some(t) && t@ == c@,
            self.conversation is None ==> (self.extended_text matches Some(c) ==> r matches Some(t) && t@ == c@),
            self.conversation is None && self.extended_text is None ==> r is None,
    {
        match &self.conversation {
            Some(c) => Some(c.as_str()),
            None => match &self.extended_text {
                Some(t) => Some(t.as_str()),
                None => None,
            },
        }
    }

    /// Encode to protobuf bytes.
    pub fn encode(&self) -> (r: Vec<u8>)
        ensures
            r@ == spec_fields(message_fields(self@)),
    {
        let mut b = Vec::new();
        let ghost mut fs: Seq<(u64, ValueV)> = Seq::empty();
        if let Some(text) = &self.conversation {
            put_len_field(&mut b, 1, text.as_str().as_bytes());
            proof {
                lemma_spec_fields_push(fs, (1u64, ValueV::Bytes(sbytes(*text))));
                fs = fs.push((1u64, ValueV::Bytes(sbytes(*text))));
            }
        }
        if let Some(text) = &self.extended_text {
            let mut inner = Vec::new();
            put_len_field(&mut inner, 1, text.as_str().as_bytes());
            proof {
                lemma_spec_fields_push(Seq::empty(), (1u64, ValueV::Bytes(sbytes(*text))));
                assert(Seq::<(u64, ValueV)>::empty().push((1u64, ValueV::Bytes(sbytes(*text)))) =~= ext_fields(sbytes(*text)));
                assert(inner@ =~= spec_fields(ext_fields(sbytes(*text))));
            }
            put_len_field(&mut b, 6, &inner);
            proof {
                lemma_spec_fields_push(fs, (6u64, ValueV::Bytes(inner@)));
                fs = fs.push((6u64, ValueV::Bytes(inner@)));
            }
        }
        assert(fs =~= message_fields(self@));
        b
    }

    /// Decode from protobuf bytes.
    pub fn decode(data: &[u8]) -> (r: Result<Message, Error>)
        ensures
            sp_message(data@) matches Ok(m) ==> r matches Ok(x) && x@ == m,
            sp_message(data@) matches Err(e) ==> r matches Err(x) && pb_err(x) == e,
    {
        let fields = parse(data)?;
        let conversation = string_field(&fields, 1)?;
        let extended_text = match first_bytes(&fields, 6) {
            Some(inner) => {
                let inner_fields = parse(inner)?;
                string_field(&inner_fields, 1)?
            },
            None => None,
        };
        Ok(Message { conversation, extended_text })
    }
}

/// Decoding an encoded message gives it back (for texts shorter than 2^63 bytes, as every
/// in-memory string is).
pub proof fn message_roundtrip(m: Message)
    requires
        m.conversation matches Some(c) ==> sbytes(c).len() < 0x8000_0000_0000_0000,
        m.extended_text matches Some(t) ==> sbytes(t).len() < 0x8000_0000_0000_0000,
    ensures
        sp_message(spec_fields(message_fields(m@))) == Ok::<MessageV, PbError>(m@),
{
    let v = m@;
    let s = message_fields(v);
    if let Some(t) = m.extended_text {
        let e = ext_fields(sbytes(t));
        lemma_varint_len(crate::pb::field_key(1, crate::pb::WIRE_LEN));
        lemma_varint_len(sbytes(t).len() as u64);
        crate::pb::lemma_spec_fields_one((1u64, ValueV::Bytes(sbytes(t))));
        assert forall|i: int| 0 <= i < e.len() implies field_ok(#[trigger] e[i]) by {}
        parse_roundtrip(e);
        encode_utf8_valid_utf8(t@);
        reveal_with_fuel(crate::pb::first_bytes_from, 2);
    }
    if let Some(c) = m.conversation {
        encode_utf8_valid_utf8(c@);
    }
    assert forall|i: int| 0 <= i < s.len() implies field_ok(#[trigger] s[i]) by {}
    parse_roundtrip(s);
    reveal_with_fuel(crate::pb::first_bytes_from, 3);
}

/// Where a message's texts go on the wire: read back as protobuf fields, the encoding holds the
/// plain text as field 1 and the extended text as field 6, itself a message whose field 1 is the
/// text; an absent text leaves its field out.
pub proof fn message_field_numbers(m: Message)
    requires
        m.conversation matches Some(c) ==> sbytes(c).len() < 0x8000_0000_0000_0000,
        m.extended_text matches Some(t) ==> sbytes(t).len() < 0x8000_0000_0000_0000,
    ensures
        sp_parse(spec_fields(message_fields(m@)), 0) matches Ok(s) && ({
            &&& spec_first_bytes(s, 1) == opt_sbytes(m.conversation)
            &&& m.extended_text matches Some(t) ==> (spec_first_bytes(s, 6) matches Some(inner)
                && sp_parse(inner, 0) matches Ok(s2) && spec_first_bytes(s2, 1) == Some(sbytes(t)))
            &&& m.extended_text is None ==> spec_first_bytes(s, 6) is None
        }),
{
    let v = m@;
    let s = message_fields(v);
    if let Some(t) = m.extended_text {
        let e = ext_fields(sbytes(t));
        lemma_varint_len(crate::pb::field_key(1, crate::pb::WIRE_LEN));
        lemma_varint_len(sbytes(t).len() as u64);
        crate::pb::lemma_spec_fields_one((1u64, ValueV::Bytes(sbytes(t))));
        assert forall|i: int| 0 <= i < e.len() implies field_ok(#[trigger] e[i]) by {}
        parse_roundtrip(e);
        reveal_with_fuel(crate::pb::first_bytes_from, 2);
    }
    assert forall|i: int| 0 <= i < s.len() implies field_ok(#[trigger] s[i]) by {}
    parse_roundtrip(s);
    reveal_with_fuel(crate::pb::first_bytes_from, 3);
}

} // verus!
