//! QR companion pairing.
//!
//! After the Noise handshake with a registration payload, the server sends a `pair-device` IQ
//! holding short-lived **ref** strings. The client builds a QR payload from a ref and its public
//! keys; the phone scans it and authorizes the link. The QR text is
//! `<ref>,<base64(noise_public)>,<base64(identity_public)>,<base64(adv_secret)>`. The refs rotate;
//! the client shows the next one until the phone scans one. The phone's authorization arrives as
//! a `pair-success` IQ, which [`complete_pair_success`] checks and answers.

use vstd::prelude::*;
use std::collections::VecDeque;
use crate::adv::{
    device_from_fields, hmac_from_fields, signed_fields, signed_from_fields, AdvDeviceIdentity,
    AdvHmacV, AdvSignedDeviceIdentity, AdvSignedDeviceIdentityHmac, AdvSignedV, ENC_TYPE_HOSTED,
};
use crate::b64lite::{lemma_base64_shape, spec_base64};
use crate::bytes::{append_bytes, array32, array64, to_vec};
use crate::client::Error;
use crate::codec::{bytes_to_string, lemma_ascii_valid_utf8};
use crate::crypto::{base64_encode, hmac_sha256, hmac_sha256_spec};
use crate::device::DeviceIdentity;
use crate::node::sbytes;
use crate::pb::{pb_err, sp_parse, spec_fields, PbError};
use crate::token::bytes_eq;
use crate::xeddsa::{sign, signed_by, verify, xeddsa_sign_spec, xeddsa_verify_spec};
use vstd::string::StringSliceAdditionalSpecFns;
use vstd::utf8::*;

verus! {

/// The account-signature prefix (`[6, 5]` for hosted accounts).
pub open spec fn account_prefix(hosted: bool) -> Seq<u8> {
    if hosted { seq![6u8, 5u8] } else { seq![6u8, 0u8] }
}

/// The device-signature prefix `[6, 1]`.
pub open spec fn device_prefix() -> Seq<u8> {
    seq![6u8, 1u8]
}

/// The result of processing a `pair-success`: the self-signed identity to return in
/// `<pair-device-sign>`, the `key-index` for that stanza, and the account (phone) identity key,
/// kept for the session before it is cleared from the identity sent back.
#[derive(Clone, Debug)]
pub struct PairSuccess {
    pub self_signed_identity: Vec<u8>,
    pub key_index: u32,
    pub account_signature_key: Vec<u8>,
}

/// Why a `pair-success` is refused.
pub enum PairErr {
    Proto(PbError),
    HmacMismatch,
    BadAccountKeyLength,
    BadAccountSignatureLength,
    AccountSignatureInvalid,
}

/// What a checked `pair-success` leads to: the signed identity, the key index, and the message
/// the device signs.
pub struct PairPlan {
    pub signed: AdvSignedV,
    pub key_index: u32,
    pub device_msg: Seq<u8>,
}

/// The bytes the HMAC covers: the details, prefixed `[6, 5]` for hosted accounts.
pub open spec fn mac_input(c: AdvHmacV) -> Seq<u8> {
    (if c.account_type == ENC_TYPE_HOSTED { seq![6u8, 5u8] } else { Seq::empty() }) + c.details
}

/// Checking a `pair-success` device identity: the HMAC over the details under the adv secret,
/// then the account signature over `prefix || details || identity_public`.
pub open spec fn sp_pair_check(bytes: Seq<u8>, adv_secret: Seq<u8>, identity_pub: Seq<u8>) -> Result<PairPlan, PairErr> {
    match sp_parse(bytes, 0) {
        Err(e) => Err(PairErr::Proto(e)),
        Ok(f1) => {
            let c = hmac_from_fields(f1);
            if hmac_sha256_spec(adv_secret, mac_input(c)) != c.hmac {
                Err(PairErr::HmacMismatch)
            } else {
                match sp_parse(c.details, 0) {
                    Err(e) => Err(PairErr::Proto(e)),
                    Ok(f2) => {
                        let signed = signed_from_fields(f2);
                        match sp_parse(signed.details, 0) {
                            Err(e) => Err(PairErr::Proto(e)),
                            Ok(f3) => {
                                let inner = device_from_fields(f3);
                                let account_msg = account_prefix(inner.device_type == ENC_TYPE_HOSTED)
                                    + signed.details + identity_pub;
                                if signed.account_signature_key.len() != 32 {
                                    Err(PairErr::BadAccountKeyLength)
                                } else if signed.account_signature.len() != 64 {
                                    Err(PairErr::BadAccountSignatureLength)
                                } else if !xeddsa_verify_spec(signed.account_signature_key, account_msg, signed.account_signature) {
                                    Err(PairErr::AccountSignatureInvalid)
                                } else {
                                    Ok(PairPlan {
                                        signed,
                                        key_index: inner.key_index,
                                        device_msg: device_prefix() + signed.details + identity_pub
                                            + signed.account_signature_key,
                                    })
                                }
                            },
                        }
                    },
                }
            }
        },
    }
}

/// Whether the account signature of a `pair-success` identity was made by XEdDSA signing (with
/// some nonce) over `prefix || details || identity_public`, under a private key whose X25519
/// public key is the account signature key.
pub open spec fn account_signed(bytes: Seq<u8>, identity_pub: Seq<u8>) -> bool {
    match sp_parse(bytes, 0) {
        Err(_) => false,
        Ok(f1) => match sp_parse(hmac_from_fields(f1).details, 0) {
            Err(_) => false,
            Ok(f2) => {
                let signed = signed_from_fields(f2);
                match sp_parse(signed.details, 0) {
                    Err(_) => false,
                    Ok(f3) => {
                        let inner = device_from_fields(f3);
                        let account_msg = account_prefix(inner.device_type == ENC_TYPE_HOSTED)
                            + signed.details + identity_pub;
                        exists|k: Seq<u8>, z: Seq<u8>|
                            signed_by(signed.account_signature_key, account_msg, signed.account_signature, k, z)
                    },
                }
            },
        },
    }
}

/// The identity sent back: the device signature added and the account signature key cleared.
pub open spec fn self_signed(v: AdvSignedV, device_signature: Seq<u8>) -> AdvSignedV {
    AdvSignedV {
        details: v.details,
        account_signature_key: Seq::empty(),
        account_signature: v.account_signature,
        device_signature,
    }
}

/// The error value a refusal is reported as.
pub open spec fn pair_err_matches(x: Error, e: PairErr) -> bool {
    match e {
        PairErr::Proto(p) => x matches Error::Proto(q) && pb_err(q) == p,
        PairErr::HmacMismatch => x == Error::Pairing("device-identity HMAC mismatch"),
        PairErr::BadAccountKeyLength => x == Error::Pairing("bad accountSignatureKey length"),
        PairErr::BadAccountSignatureLength => x == Error::Pairing("bad accountSignature length"),
        PairErr::AccountSignatureInvalid => x == Error::Pairing("account signature verification failed"),
    }
}

/// The concatenation of byte strings.
pub open spec fn concat_all(parts: Seq<Seq<u8>>) -> Seq<u8>
    decreases parts.len(),
{
    if parts.len() == 0 {
        Seq::empty()
    } else {
        concat_all(parts.drop_last()) + parts.last()
    }
}

/// The bytes of each slice.
pub open spec fn slice_views(parts: Seq<&[u8]>) -> Seq<Seq<u8>> {
    parts.map_values(|p: &[u8]| p@)
}

/// The concatenation of byte slices, in order.
pub fn concat(parts: &[&[u8]]) -> (r: Vec<u8>)
    ensures
        r@ == concat_all(slice_views(parts@)),
{
    let mut out = Vec::new();
    let mut i: usize = 0;
    while i < parts.len()
        invariant
            i <= parts@.len(),
            out@ == concat_all(slice_views(parts@).subrange(0, i as int)),
        decreases parts@.len() - i,
    {
        append_bytes(&mut out, parts[i]);
        assert(slice_views(parts@).subrange(0, i + 1).drop_last() =~= slice_views(parts@).subrange(0, i as int));
        i += 1;
    }
    assert(slice_views(parts@).subrange(0, i as int) =~= slice_views(parts@));
    out
}

/// Answer a checked `pair-success` with the device signature: the identity to send back (the
/// device signature added, the account signature key cleared), the key index, and the account
/// key.
pub fn finish_pair_success(signed: AdvSignedDeviceIdentity, key_index: u32, device_signature: &[u8; 64]) -> (r: PairSuccess)
    ensures
        r.self_signed_identity@ == spec_fields(signed_fields(self_signed(signed@, device_signature@))),
        r.key_index == key_index,
        r.account_signature_key@ == signed.account_signature_key@,
{
    let mut signed = signed;
    signed.device_signature = to_vec(device_signature);
    let account_signature_key = to_vec(signed.account_signature_key.as_slice());
    signed.account_signature_key = Vec::new();
    assert(signed@ == self_signed(old_signed_view(signed@, account_signature_key@), device_signature@));
    PairSuccess { self_signed_identity: signed.encode(), key_index, account_signature_key }
}

/// An identity with its account signature key put back (used to relate the cleared identity to
/// the received one).
pub open spec fn old_signed_view(v: AdvSignedV, key: Seq<u8>) -> AdvSignedV {
    AdvSignedV { account_signature_key: key, ..v }
}

/// The identity sent back for a checked plan: re-encoded with the account key cleared and the
/// device signature (made with nonce `z`) added.
pub open spec fn signed_answer(plan: PairPlan, identity_private: Seq<u8>, z: Seq<u8>) -> Seq<u8> {
    spec_fields(signed_fields(self_signed(plan.signed, xeddsa_sign_spec(identity_private, plan.device_msg, z))))
}

/// Whether `ps` answers the checked plan: its key index and account key, and the identity signed
/// with some nonce.
pub open spec fn answers_plan(ps: PairSuccess, plan: PairPlan, identity_private: Seq<u8>) -> bool {
    &&& ps.key_index == plan.key_index
    &&& ps.account_signature_key@ == plan.signed.account_signature_key
    &&& exists|z: Seq<u8>| z.len() == 64 && ps.self_signed_identity@ == #[trigger] signed_answer(plan, identity_private, z)
}

/// Process the `<device-identity>` blob of a `pair-success` IQ: check the HMAC over the details
/// (prefixed `[6, 5]` for hosted accounts) under the adv secret; check the account signature over
/// `prefix || details || identity_public`; sign `[6, 1] || details || identity_public ||
/// account_key` with the identity key (random nonce); clear the account key and re-encode.
pub fn complete_pair_success(device_identity_bytes: &[u8], device: &DeviceIdentity) -> (r: Result<PairSuccess, Error>)
    ensures
        sp_pair_check(device_identity_bytes@, device.adv_secret@, device.identity_key.public@) matches Err(e)
            ==> r matches Err(x) && pair_err_matches(x, e),
        sp_pair_check(device_identity_bytes@, device.adv_secret@, device.identity_key.public@) matches Ok(plan)
            ==> r matches Ok(ps) && answers_plan(ps, plan, device.identity_key.private@),
        account_signed(device_identity_bytes@, device.identity_key.public@) ==> !(sp_pair_check(
            device_identity_bytes@, device.adv_secret@, device.identity_key.public@) matches Err(
            PairErr::AccountSignatureInvalid)),
{
    let container = match AdvSignedDeviceIdentityHmac::decode(device_identity_bytes) {
        Ok(c) => c,
        Err(e) => return Err(Error::Proto(e)),
    };
    // 1. The HMAC.
    let mut mac_in = Vec::new();
    if container.account_type == ENC_TYPE_HOSTED {
        mac_in.push(6u8);
        mac_in.push(5u8);
    }
    append_bytes(&mut mac_in, container.details.as_slice());
    assert(mac_in@ =~= mac_input(container@));
    let expected = hmac_sha256(&device.adv_secret, mac_in.as_slice());
    if !bytes_eq(&expected, container.hmac.as_slice()) {
        return Err(Error::Pairing("device-identity HMAC mismatch"));
    }
    let signed = match AdvSignedDeviceIdentity::decode(container.details.as_slice()) {
        Ok(s) => s,
        Err(e) => return Err(Error::Proto(e)),
    };
    let inner = match AdvDeviceIdentity::decode(signed.details.as_slice()) {
        Ok(i) => i,
        Err(e) => return Err(Error::Proto(e)),
    };
    let identity_pub = device.identity_key.public;
    // 2. The account (phone) signature.
    let hosted_prefix: [u8; 2] = [6, 5];
    let plain_prefix: [u8; 2] = [6, 0];
    let prefix = if inner.device_type == ENC_TYPE_HOSTED { hosted_prefix } else { plain_prefix };
    let mut account_msg = Vec::new();
    append_bytes(&mut account_msg, &prefix);
    append_bytes(&mut account_msg, signed.details.as_slice());
    append_bytes(&mut account_msg, &identity_pub);
    assert(prefix@ =~= account_prefix(inner.device_type == ENC_TYPE_HOSTED));
    if signed.account_signature_key.len() != 32 {
        return Err(Error::Pairing("bad accountSignatureKey length"));
    }
    let account_key = array32(signed.account_signature_key.as_slice(), 0);
    assert(signed.account_signature_key@.subrange(0, 32) =~= signed.account_signature_key@);
    if signed.account_signature.len() != 64 {
        return Err(Error::Pairing("bad accountSignature length"));
    }
    let account_sig = array64(signed.account_signature.as_slice(), 0);
    assert(signed.account_signature@.subrange(0, 64) =~= signed.account_signature@);
    if !verify(&account_key, account_msg.as_slice(), &account_sig) {
        return Err(Error::Pairing("account signature verification failed"));
    }
    // 3. Our device signature.
    let device_prefix_bytes: [u8; 2] = [6, 1];
    let mut device_msg = Vec::new();
    append_bytes(&mut device_msg, &device_prefix_bytes);
    append_bytes(&mut device_msg, signed.details.as_slice());
    append_bytes(&mut device_msg, &identity_pub);
    append_bytes(&mut device_msg, signed.account_signature_key.as_slice());
    assert(device_prefix_bytes@ =~= device_prefix());
    let device_signature = sign(&device.identity_key.private, device_msg.as_slice());
    let key_index = inner.key_index;
    // 4. Clear the account key and re-encode.
    let ghost signed_v = signed@;
    let res = finish_pair_success(signed, key_index, &device_signature);
    proof {
        let plan = sp_pair_check(device_identity_bytes@, device.adv_secret@, device.identity_key.public@)->Ok_0;
        let z = choose|z: Seq<u8>| z.len() == 64
            && device_signature@ == xeddsa_sign_spec(device.identity_key.private@, device_msg@, z);
        assert(plan.signed == signed_v);
        assert(plan.device_msg == device_msg@);
        assert(res.self_signed_identity@ == signed_answer(plan, device.identity_key.private@, z));
    }
    Ok(res)
}

/// The QR text for one ref: `ref,b64(noise_public),b64(identity_public),b64(adv_secret)`.
pub open spec fn qr_text(reference: Seq<u8>, noise_public: Seq<u8>, identity_public: Seq<u8>, adv_secret: Seq<u8>) -> Seq<u8> {
    reference + seq![44u8] + spec_base64(noise_public) + seq![44u8] + spec_base64(identity_public) + seq![44u8]
        + spec_base64(adv_secret)
}

/// Build the QR payload for one server-provided `ref`.
pub fn qr_payload(reference: &str, device: &DeviceIdentity) -> (r: String)
    ensures
        sbytes(r) == qr_text(reference.spec_bytes(), device.noise_key.public@, device.identity_key.public@, device.adv_secret@),
{
    let a = base64_encode(&device.noise_key.public);
    let b = base64_encode(&device.identity_key.public);
    let c = base64_encode(&device.adv_secret);
    let mut out = Vec::new();
    append_bytes(&mut out, reference.as_bytes());
    out.push(44u8);
    append_bytes(&mut out, a.as_str().as_bytes());
    out.push(44u8);
    append_bytes(&mut out, b.as_str().as_bytes());
    out.push(44u8);
    append_bytes(&mut out, c.as_str().as_bytes());
    proof {
        let tail = seq![44u8] + spec_base64(device.noise_key.public@) + seq![44u8]
            + spec_base64(device.identity_key.public@) + seq![44u8] + spec_base64(device.adv_secret@);
        lemma_base64_shape(device.noise_key.public@);
        lemma_base64_shape(device.identity_key.public@);
        lemma_base64_shape(device.adv_secret@);
        assert forall|i: int| 0 <= i < tail.len() implies tail[i] < 128 by {
            let n1 = spec_base64(device.noise_key.public@).len() as int;
            let n2 = spec_base64(device.identity_key.public@).len() as int;
            if i == 0 || i == n1 + 1 || i == n1 + n2 + 2 {
            } else if i <= n1 {
                assert(tail[i] == spec_base64(device.noise_key.public@)[i - 1]);
            } else if i <= n1 + n2 + 1 {
                assert(tail[i] == spec_base64(device.identity_key.public@)[i - n1 - 2]);
            } else {
                assert(tail[i] == spec_base64(device.adv_secret@)[i - n1 - n2 - 3]);
            }
        }
        lemma_ascii_valid_utf8(tail);
        encode_utf8_valid_utf8(reference@);
        valid_utf8_concat(reference.spec_bytes(), tail);
        assert(out@ =~= reference.spec_bytes() + tail);
    }
    bytes_to_string(out)
}

/// The address a pairing QR encodes: the linked-devices page of wa.me, with the QR text of the
/// ref and the client type (9, a web client) in the fragment.
pub open spec fn qr_url_text(reference: Seq<u8>, noise_public: Seq<u8>, identity_public: Seq<u8>, adv_secret: Seq<u8>) -> Seq<u8> {
    "https://wa.me/settings/linked_devices#".spec_bytes() + qr_text(reference, noise_public, identity_public, adv_secret)
        + ",9".spec_bytes()
}

/// The address to render as the pairing QR for one server-provided `ref`.
pub fn qr_url(reference: &str, device: &DeviceIdentity) -> (r: String)
    ensures
        sbytes(r) == qr_url_text(reference.spec_bytes(), device.noise_key.public@, device.identity_key.public@, device.adv_secret@),
{
    let core = qr_payload(reference, device);
    let prefix = "https://wa.me/settings/linked_devices#";
    let suffix = ",9";
    let mut out = Vec::new();
    append_bytes(&mut out, prefix.as_bytes());
    append_bytes(&mut out, core.as_str().as_bytes());
    append_bytes(&mut out, suffix.as_bytes());
    proof {
        encode_utf8_valid_utf8(prefix@);
        encode_utf8_valid_utf8(core@);
        encode_utf8_valid_utf8(suffix@);
        valid_utf8_concat(prefix.spec_bytes(), sbytes(core));
        valid_utf8_concat(prefix.spec_bytes() + sbytes(core), suffix.spec_bytes());
        assert(out@ =~= prefix.spec_bytes() + sbytes(core) + suffix.spec_bytes());
    }
    bytes_to_string(out)
}

/// What one [`RefQueue::next_ref`] gives and leaves for the refs `s`: the first ref and the rest,
/// or nothing once they are used up.
pub open spec fn ref_step(s: Seq<String>) -> (Option<String>, Seq<String>) {
    if s.len() == 0 { (None, s) } else { (Some(s[0]), s.subrange(1, s.len() as int)) }
}

/// The refs left after `k` calls of [`RefQueue::next_ref`].
pub open spec fn refs_after(s: Seq<String>, k: nat) -> Seq<String>
    decreases k,
{
    if k == 0 { s } else { ref_step(refs_after(s, (k - 1) as nat)).1 }
}

/// The queue hands its refs out in order: after `k` calls, the queue holds the refs from the
/// `k`-th on (none once `k` reaches their number), and the next call gives the `k`-th ref, or
/// nothing when all have been taken.
pub proof fn lemma_refs_in_order(s: Seq<String>, k: nat)
    ensures
        refs_after(s, k) == s.subrange(if k < s.len() { k as int } else { s.len() as int }, s.len() as int),
        ref_step(refs_after(s, k)).0 == (if k < s.len() { Some(s[k as int]) } else { None::<String> }),
    decreases k,
{
    if k > 0 {
        lemma_refs_in_order(s, (k - 1) as nat);
    }
    assert(refs_after(s, k) =~= s.subrange(if k < s.len() { k as int } else { s.len() as int }, s.len() as int));
}

/// The refs of a `pair-device` IQ, taken one at a time as each expires.
pub struct RefQueue {
    refs: VecDeque<String>,
}

impl View for RefQueue {
    type V = Seq<String>;

    closed spec fn view(&self) -> Seq<String> {
        self.refs@
    }
}

impl RefQueue {
    /// Build from the `ref` values of a `pair-device` IQ, in order.
    pub fn new(refs: Vec<String>) -> (r: RefQueue)
        ensures
            r@ == refs@,
    {
        let mut q: VecDeque<String> = VecDeque::new();
        let mut refs = refs;
        let ghost all = refs@;
        assert(q@ + refs@ =~= all);
        while refs.len() > 0
            invariant
                q@ + refs@ == all,
            decreases refs@.len(),
        {
            let ghost before = refs@;
            let r = refs.remove(0);
            q.push_back(r);
            assert(q@ + refs@ =~= all) by {
                assert(before =~= seq![r] + refs@);
            }
        }
        assert(q@ =~= all);
        RefQueue { refs: q }
    }

    /// Take the next ref to display, if any remain.
    pub fn next_ref(&mut self) -> (r: Option<String>)
        ensures
            old(self)@.len() == 0 ==> r is None && final(self)@ == old(self)@,
            old(self)@.len() > 0 ==> r == Some(old(self)@[0]) && final(self)@ == old(self)@.subrange(1, old(self)@.len() as int),
            (r, final(self)@) == ref_step(old(self)@),
    {
        self.refs.pop_front()
    }

    /// How many refs are still available.
    pub fn remaining(&self) -> (r: usize)
        ensures
            r == self@.len(),
    {
        self.refs.len()
    }
}

} // verus!
