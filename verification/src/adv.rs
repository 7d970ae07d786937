//! The ADV (auxiliary device verification) protobufs carried by `pair-success`.
//!
//! When the phone authorizes the link, the server sends a `<pair-success>` IQ whose
//! `<device-identity>` holds an encoded [`AdvSignedDeviceIdentityHmac`]. The client checks it,
//! signs the device identity with its own identity key, and sends the result back.
//!
//! ```proto
//! message ADVSignedDeviceIdentityHMAC { bytes details = 1; bytes HMAC = 2; ADVEncryptionType accountType = 3; }
//! message ADVSignedDeviceIdentity     { bytes details = 1; bytes accountSignatureKey = 2;
//!                                       bytes accountSignature = 3; bytes deviceSignature = 4; }
//! message ADVDeviceIdentity { uint32 rawID = 1; uint64 timestamp = 2; uint32 keyIndex = 3;
//!                             ADVEncryptionType accountType = 4; ADVDeviceType deviceType = 5; }
//! enum ADVEncryptionType { E2EE = 0; HOSTED = 1; }
//! ```

use vstd::prelude::*;
use crate::bytes::copy_range;
use crate::pb::{
    field_ok, first_bytes, lemma_spec_fields_push, first_varint, parse, parse_roundtrip, pb_err, put_len_field,
    put_varint_field, sp_parse, spec_fields, spec_first_bytes, spec_first_varint, Error, PbError,
    ValueV,
};

verus! {

/// `ADVEncryptionType::HOSTED` (E2EE is 0).
pub const ENC_TYPE_HOSTED: u64 = 1;

/// The bytes of an optional field, empty when it is absent.
pub open spec fn bytes_or_empty(o: Option<Seq<u8>>) -> Seq<u8> {
    match o {
        Some(b) => b,
        None => Seq::empty(),
    }
}

/// The value of an optional varint field, zero when it is absent.
pub open spec fn varint_or_zero(o: Option<u64>) -> u64 {
    match o {
        Some(v) => v,
        None => 0,
    }
}

/// The bytes of an optional slice.
pub open spec fn opt_view(o: Option<&[u8]>) -> Option<Seq<u8>> {
    match o {
        Some(b) => Some(b@),
        None => None,
    }
}

/// An owned copy of an optional field's bytes (empty when absent).
pub fn owned_or_empty(o: Option<&[u8]>) -> (r: Vec<u8>)
    ensures
        r@ == bytes_or_empty(opt_view(o)),
{
    match o {
        Some(b) => copy_range(b, 0, b.len()),
        None => {
            let v: Vec<u8> = Vec::new();
            assert(v@ =~= Seq::<u8>::empty());
            v
        },
    }
}

/// A length-delimited field.
pub open spec fn bytes_field(n: u64, b: Seq<u8>) -> (u64, ValueV) {
    (n, ValueV::Bytes(b))
}

/// A length-delimited field that is written only when it is not empty.
pub open spec fn nonempty_field(n: u64, b: Seq<u8>) -> Seq<(u64, ValueV)> {
    if b.len() == 0 { Seq::empty() } else { seq![bytes_field(n, b)] }
}

/// A varint field that is written only when it is not zero.
pub open spec fn nonzero_field(n: u64, v: u64) -> Seq<(u64, ValueV)> {
    if v == 0 { Seq::empty() } else { seq![(n, ValueV::Varint(v))] }
}

// ----------------------------------------------------------------------------------------------
// ADVSignedDeviceIdentityHMAC
// ----------------------------------------------------------------------------------------------

/// The HMAC-wrapped signed device identity sent by the server in `<pair-success>`.
#[derive(Clone, Debug, PartialEq, Eq)]
pub struct AdvSignedDeviceIdentityHmac {
    pub details: Vec<u8>,
    pub hmac: Vec<u8>,
    pub account_type: u64,
}

/// The model of an [`AdvSignedDeviceIdentityHmac`].
pub struct AdvHmacV {
    pub details: Seq<u8>,
    pub hmac: Seq<u8>,
    pub account_type: u64,
}

impl View for AdvSignedDeviceIdentityHmac {
    type V = AdvHmacV;

    open spec fn view(&self) -> AdvHmacV {
        AdvHmacV { details: self.details@, hmac: self.hmac@, account_type: self.account_type }
    }
}

/// The fields of an encoded [`AdvSignedDeviceIdentityHmac`], in wire order.
pub open spec fn hmac_fields(v: AdvHmacV) -> Seq<(u64, ValueV)> {
    seq![bytes_field(1, v.details), bytes_field(2, v.hmac)] + nonzero_field(3, v.account_type)
}

/// The [`AdvSignedDeviceIdentityHmac`] that a list of fields decodes to.
pub open spec fn hmac_from_fields(s: Seq<(u64, ValueV)>) -> AdvHmacV {
    AdvHmacV {
        details: bytes_or_empty(spec_first_bytes(s, 1)),
        hmac: bytes_or_empty(spec_first_bytes(s, 2)),
        account_type: varint_or_zero(spec_first_varint(s, 3)),
    }
}

impl AdvSignedDeviceIdentityHmac {
    /// Decode from protobuf bytes; absent fields are empty or zero.
    pub fn decode(data: &[u8]) -> (r: Result<Self, Error>)
        ensures
            sp_parse(data@, 0) matches Ok(s) ==> r matches Ok(x) && x@ == hmac_from_fields(s),
            sp_parse(data@, 0) matches Err(e) ==> r matches Err(x) && pb_err(x) == e,
    {
        let f = parse(data)?;
        let details = owned_or_empty(first_bytes(&f, 1));
        let hmac = owned_or_empty(first_bytes(&f, 2));
        let account_type = match first_varint(&f, 3) {
            Some(v) => v,
            None => 0,
        };
        Ok(AdvSignedDeviceIdentityHmac { details, hmac, account_type })
    }

    /// Encode to protobuf bytes (the account type only when it is not zero).
    pub fn encode(&self) -> (r: Vec<u8>)
        ensures
            r@ == spec_fields(hmac_fields(self@)),
    {
        let mut b = Vec::new();
        let ghost mut fs: Seq<(u64, ValueV)> = Seq::empty();
        put_len_field(&mut b, 1, &self.details);
        proof { lemma_spec_fields_push(fs, bytes_field(1, self.details@)); fs = fs.push(bytes_field(1, self.details@)); }
        put_len_field(&mut b, 2, &self.hmac);
        proof { lemma_spec_fields_push(fs, bytes_field(2, self.hmac@)); fs = fs.push(bytes_field(2, self.hmac@)); }
        if self.account_type != 0 {
            put_varint_field(&mut b, 3, self.account_type);
            proof {
                lemma_spec_fields_push(fs, (3, ValueV::Varint(self.account_type)));
                fs = fs.push((3, ValueV::Varint(self.account_type)));
            }
        }
        assert(fs =~= hmac_fields(self@));
        b
    }
}

/// Decoding an encoded [`AdvSignedDeviceIdentityHmac`] gives it back.
pub proof fn adv_hmac_roundtrip(v: AdvHmacV)
    requires
        v.details.len() <= u64::MAX,
        v.hmac.len() <= u64::MAX,
    ensures
        sp_parse(spec_fields(hmac_fields(v)), 0) == Ok::<Seq<(u64, ValueV)>, PbError>(hmac_fields(v)),
        hmac_from_fields(hmac_fields(v)) == v,
{
    let s = hmac_fields(v);
    assert forall|i: int| 0 <= i < s.len() implies field_ok(#[trigger] s[i]) by {}
    parse_roundtrip(s);
    reveal_with_fuel(crate::pb::first_bytes_from, 4);
    reveal_with_fuel(crate::pb::first_varint_from, 4);
}

// ----------------------------------------------------------------------------------------------
// ADVSignedDeviceIdentity
// ----------------------------------------------------------------------------------------------

/// The signed device identity: `details` (an [`AdvDeviceIdentity`]), the account's signature key
/// and signature, and the device's own signature once it has signed.
#[derive(Clone, Debug, Default, PartialEq, Eq)]
pub struct AdvSignedDeviceIdentity {
    pub details: Vec<u8>,
    pub account_signature_key: Vec<u8>,
    pub account_signature: Vec<u8>,
    pub device_signature: Vec<u8>,
}

/// The model of an [`AdvSignedDeviceIdentity`].
pub struct AdvSignedV {
    pub details: Seq<u8>,
    pub account_signature_key: Seq<u8>,
    pub account_signature: Seq<u8>,
    pub device_signature: Seq<u8>,
}

impl View for AdvSignedDeviceIdentity {
    type V = AdvSignedV;

    open spec fn view(&self) -> AdvSignedV {
        AdvSignedV {
            details: self.details@,
            account_signature_key: self.account_signature_key@,
            account_signature: self.account_signature@,
            device_signature: self.device_signature@,
        }
    }
}

/// The fields of an encoded [`AdvSignedDeviceIdentity`]: the details always, the others only
/// when they are not empty.
pub open spec fn signed_fields(v: AdvSignedV) -> Seq<(u64, ValueV)> {
    seq![bytes_field(1, v.details)] + nonempty_field(2, v.account_signature_key)
        + nonempty_field(3, v.account_signature) + nonempty_field(4, v.device_signature)
}

/// The [`AdvSignedDeviceIdentity`] that a list of fields decodes to.
pub open spec fn signed_from_fields(s: Seq<(u64, ValueV)>) -> AdvSignedV {
    AdvSignedV {
        details: bytes_or_empty(spec_first_bytes(s, 1)),
        account_signature_key: bytes_or_empty(spec_first_bytes(s, 2)),
        account_signature: bytes_or_empty(spec_first_bytes(s, 3)),
        device_signature: bytes_or_empty(spec_first_bytes(s, 4)),
    }
}

/// Append a length-delimited field unless its bytes are empty.
fn put_nonempty(b: &mut Vec<u8>, n: u64, data: &[u8], Ghost(fs): Ghost<Seq<(u64, ValueV)>>)
    -> (r: Ghost<Seq<(u64, ValueV)>>)
    requires
        old(b)@ == spec_fields(fs),
    ensures
        r@ == fs + nonempty_field(n, data@),
        final(b)@ == spec_fields(r@),
{
    if data.len() != 0 {
        put_len_field(b, n, data);
        proof {
            lemma_spec_fields_push(fs, bytes_field(n, data@));
            assert(fs.push(bytes_field(n, data@)) =~= fs + nonempty_field(n, data@));
        }
    } else {
        assert(fs =~= fs + nonempty_field(n, data@));
    }
    Ghost(fs + nonempty_field(n, data@))
}

impl AdvSignedDeviceIdentity {
    /// Decode from protobuf bytes; absent fields are empty.
    pub fn decode(data: &[u8]) -> (r: Result<Self, Error>)
        ensures
            sp_parse(data@, 0) matches Ok(s) ==> r matches Ok(x) && x@ == signed_from_fields(s),
            sp_parse(data@, 0) matches Err(e) ==> r matches Err(x) && pb_err(x) == e,
    {
        let f = parse(data)?;
        Ok(AdvSignedDeviceIdentity {
            details: owned_or_empty(first_bytes(&f, 1)),
            account_signature_key: owned_or_empty(first_bytes(&f, 2)),
            account_signature: owned_or_empty(first_bytes(&f, 3)),
            device_signature: owned_or_empty(first_bytes(&f, 4)),
        })
    }

    /// Encode in field-number order, leaving out empty fields. Once the device has signed, the
    /// account signature key is cleared before the identity is sent back.
    pub fn encode(&self) -> (r: Vec<u8>)
        ensures
            r@ == spec_fields(signed_fields(self@)),
    {
        let mut b = Vec::new();
        put_len_field(&mut b, 1, &self.details);
        proof {
            lemma_spec_fields_push(Seq::empty(), bytes_field(1, self.details@));
            assert(Seq::<(u64, ValueV)>::empty().push(bytes_field(1, self.details@)) =~= seq![bytes_field(1, self.details@)]);
        }
        let ghost first = seq![bytes_field(1, self.details@)];
        let g = put_nonempty(&mut b, 2, &self.account_signature_key, Ghost(first));
        let g = put_nonempty(&mut b, 3, &self.account_signature, g);
        let g = put_nonempty(&mut b, 4, &self.device_signature, g);
        assert(g@ =~= signed_fields(self@));
        b
    }
}

/// Decoding an encoded [`AdvSignedDeviceIdentity`] gives it back.
pub proof fn adv_signed_roundtrip(v: AdvSignedV)
    requires
        v.details.len() <= u64::MAX,
        v.account_signature_key.len() <= u64::MAX,
        v.account_signature.len() <= u64::MAX,
        v.device_signature.len() <= u64::MAX,
    ensures
        sp_parse(spec_fields(signed_fields(v)), 0) == Ok::<Seq<(u64, ValueV)>, PbError>(signed_fields(v)),
        signed_from_fields(signed_fields(v)) == v,
{
    let s = signed_fields(v);
    assert forall|i: int| 0 <= i < s.len() implies field_ok(#[trigger] s[i]) by {}
    parse_roundtrip(s);
    reveal_with_fuel(crate::pb::first_bytes_from, 5);
    assert(signed_from_fields(s).account_signature_key =~= v.account_signature_key);
    assert(signed_from_fields(s).account_signature =~= v.account_signature);
    assert(signed_from_fields(s).device_signature =~= v.device_signature);
}

// ----------------------------------------------------------------------------------------------
// ADVDeviceIdentity
// ----------------------------------------------------------------------------------------------

/// The inner device identity. What the pairing needs is `key_index` (for the reply's attribute)
/// and `device_type` (to pick the hosted or end-to-end signature prefix).
#[derive(Clone, Debug, Default, PartialEq, Eq)]
pub struct AdvDeviceIdentity {
    pub raw_id: u32,
    pub timestamp: u64,
    pub key_index: u32,
    pub account_type: u64,
    pub device_type: u64,
}

/// The fields of an encoded [`AdvDeviceIdentity`]: the first three always, the other two only
/// when they are not zero.
pub open spec fn device_fields(v: AdvDeviceIdentity) -> Seq<(u64, ValueV)> {
    seq![(1u64, ValueV::Varint(v.raw_id as u64)), (2u64, ValueV::Varint(v.timestamp)),
        (3u64, ValueV::Varint(v.key_index as u64))]
        + nonzero_field(4, v.account_type) + nonzero_field(5, v.device_type)
}

/// The [`AdvDeviceIdentity`] that a list of fields decodes to (the 32-bit fields keep the low
/// 32 bits of their value).
pub open spec fn device_from_fields(s: Seq<(u64, ValueV)>) -> AdvDeviceIdentity {
    AdvDeviceIdentity {
        raw_id: varint_or_zero(spec_first_varint(s, 1)) as u32,
        timestamp: varint_or_zero(spec_first_varint(s, 2)),
        key_index: varint_or_zero(spec_first_varint(s, 3)) as u32,
        account_type: varint_or_zero(spec_first_varint(s, 4)),
        device_type: varint_or_zero(spec_first_varint(s, 5)),
    }
}

/// The value of an optional varint, zero when absent.
fn or_zero(o: Option<u64>) -> (r: u64)
    ensures
        r == varint_or_zero(o),
{
    match o {
        Some(v) => v,
        None => 0,
    }
}

/// Append a varint field unless its value is zero.
fn put_nonzero(b: &mut Vec<u8>, n: u64, v: u64, Ghost(fs): Ghost<Seq<(u64, ValueV)>>)
    -> (r: Ghost<Seq<(u64, ValueV)>>)
    requires
        old(b)@ == spec_fields(fs),
    ensures
        r@ == fs + nonzero_field(n, v),
        final(b)@ == spec_fields(r@),
{
    if v != 0 {
        put_varint_field(b, n, v);
        proof {
            lemma_spec_fields_push(fs, (n, ValueV::Varint(v)));
            assert(fs.push((n, ValueV::Varint(v))) =~= fs + nonzero_field(n, v));
        }
    } else {
        assert(fs =~= fs + nonzero_field(n, v));
    }
    Ghost(fs + nonzero_field(n, v))
}

/// Append a varint field.
fn put_always(b: &mut Vec<u8>, n: u64, v: u64, Ghost(fs): Ghost<Seq<(u64, ValueV)>>)
    -> (r: Ghost<Seq<(u64, ValueV)>>)
    requires
        old(b)@ == spec_fields(fs),
    ensures
        r@ == fs.push((n, ValueV::Varint(v))),
        final(b)@ == spec_fields(r@),
{
    put_varint_field(b, n, v);
    proof {
        lemma_spec_fields_push(fs, (n, ValueV::Varint(v)));
    }
    Ghost(fs.push((n, ValueV::Varint(v))))
}

impl AdvDeviceIdentity {
    /// Decode from protobuf bytes; absent fields are zero.
    pub fn decode(data: &[u8]) -> (r: Result<Self, Error>)
        ensures
            sp_parse(data@, 0) matches Ok(s) ==> r matches Ok(x) && x == device_from_fields(s),
            sp_parse(data@, 0) matches Err(e) ==> r matches Err(x) && pb_err(x) == e,
    {
        let f = parse(data)?;
        Ok(AdvDeviceIdentity {
            raw_id: or_zero(first_varint(&f, 1)) as u32,
            timestamp: or_zero(first_varint(&f, 2)),
            key_index: or_zero(first_varint(&f, 3)) as u32,
            account_type: or_zero(first_varint(&f, 4)),
            device_type: or_zero(first_varint(&f, 5)),
        })
    }

    /// Encode to protobuf bytes.
    pub fn encode(&self) -> (r: Vec<u8>)
        ensures
            r@ == spec_fields(device_fields(*self)),
    {
        let mut b = Vec::new();
        let ghost none: Seq<(u64, ValueV)> = Seq::empty();
        let g = put_always(&mut b, 1, self.raw_id as u64, Ghost(none));
        let g = put_always(&mut b, 2, self.timestamp, g);
        let g = put_always(&mut b, 3, self.key_index as u64, g);
        let g = put_nonzero(&mut b, 4, self.account_type, g);
        let g = put_nonzero(&mut b, 5, self.device_type, g);
        assert(g@ =~= device_fields(*self));
        b
    }
}

/// Decoding an encoded [`AdvDeviceIdentity`] gives it back.
pub proof fn adv_device_roundtrip(v: AdvDeviceIdentity)
    ensures
        sp_parse(spec_fields(device_fields(v)), 0) == Ok::<Seq<(u64, ValueV)>, PbError>(device_fields(v)),
        device_from_fields(device_fields(v)) == v,
{
    let s = device_fields(v);
    assert forall|i: int| 0 <= i < s.len() implies field_ok(#[trigger] s[i]) by {}
    parse_roundtrip(s);
    reveal_with_fuel(crate::pb::first_varint_from, 6);
}

/// Where the ADV identities put their parts on the wire, as the schema numbers them: read back
/// as protobuf fields, the HMAC container holds the details in field 1, the HMAC in field 2 and a
/// non-zero account type in varint field 3; the signed identity holds the details in field 1 and
/// the non-empty account signature key, account signature and device signature in fields 2, 3
/// and 4; the device identity holds the raw id, timestamp and key index in varint fields 1, 2
/// and 3 and the non-zero account and device types in fields 4 and 5.
pub proof fn adv_field_numbers(h: AdvHmacV, sd: AdvSignedV, d: AdvDeviceIdentity)
    requires
        h.details.len() <= u64::MAX,
        h.hmac.len() <= u64::MAX,
        sd.details.len() <= u64::MAX,
        sd.account_signature_key.len() <= u64::MAX,
        sd.account_signature.len() <= u64::MAX,
        sd.device_signature.len() <= u64::MAX,
    ensures
        sp_parse(spec_fields(hmac_fields(h)), 0) matches Ok(s) && ({
            &&& spec_first_bytes(s, 1) == Some(h.details)
            &&& spec_first_bytes(s, 2) == Some(h.hmac)
            &&& varint_or_zero(spec_first_varint(s, 3)) == h.account_type
        }),
        sp_parse(spec_fields(signed_fields(sd)), 0) matches Ok(s) && ({
            &&& spec_first_bytes(s, 1) == Some(sd.details)
            &&& bytes_or_empty(spec_first_bytes(s, 2)) == sd.account_signature_key
            &&& bytes_or_empty(spec_first_bytes(s, 3)) == sd.account_signature
            &&& bytes_or_empty(spec_first_bytes(s, 4)) == sd.device_signature
        }),
        sp_parse(spec_fields(device_fields(d)), 0) matches Ok(s) && ({
            &&& spec_first_varint(s, 1) == Some(d.raw_id as u64)
            &&& spec_first_varint(s, 2) == Some(d.timestamp)
            &&& spec_first_varint(s, 3) == Some(d.key_index as u64)
            &&& varint_or_zero(spec_first_varint(s, 4)) == d.account_type
            &&& varint_or_zero(spec_first_varint(s, 5)) == d.device_type
        }),
{
    adv_hmac_roundtrip(h);
    adv_signed_roundtrip(sd);
    adv_device_roundtrip(d);
    reveal_with_fuel(crate::pb::first_bytes_from, 5);
    reveal_with_fuel(crate::pb::first_varint_from, 6);
}

} // verus!
