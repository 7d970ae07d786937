//! The registration `ClientPayload`: the protobuf sent, encrypted, in Noise message 3 to register
//! a new companion device. The client only ever sends it, so only an encoder is needed.
//!
//! ```text
//! ClientPayload {
//!   userAgent         = 5  { platform, appVersion, mcc/mnc "000", osVersion "0.1",
//!                            device "Desktop", osBuildNumber "0.1", releaseChannel RELEASE(0),
//!                            locale "en"/"US" }
//!   webInfo           = 6  { webSubPlatform WEB_BROWSER(0) }
//!   connectType       = 12 = WIFI_UNKNOWN(1)
//!   connectReason     = 13 = USER_ACTIVATED(1)
//!   devicePairingData = 19 (DevicePairingRegistrationData)
//!   passive           = 3  = false
//!   pull              = 33 = false
//! }
//! ```

use vstd::prelude::*;
use vstd::string::StringSliceAdditionalSpecFns;
use crate::node::sbytes;
use crate::pb::{
    field_ok, lemma_varint_len, parse_roundtrip, push_len_field, push_varint_field, sp_parse, spec_field, spec_fields,
    spec_first_bytes, spec_first_varint, ValueV,
};

verus! {

/// Default web client version advertised in `userAgent.appVersion`. It must agree with the build
/// hash (the MD5 of `"primary.secondary.tertiary"`).
pub const WA_VERSION: (u64, u64, u64) = (2, 3000, 1041871181);

/// Default user-agent platform (WEB is 14, WINDOWS is 13).
pub const WA_PLATFORM: u64 = 14;

/// What is needed to build a registration `ClientPayload` for a device identity.
pub struct RegistrationPayload {
    pub registration_id: u32,
    pub signed_pre_key_id: u32,
    pub identity_public: [u8; 32],
    pub signed_pre_key_public: [u8; 32],
    /// 64-byte XEdDSA signature over `0x05 || signed_pre_key_public`.
    pub signed_pre_key_signature: Vec<u8>,
    /// MD5 of the version string (16 bytes), e.g. `MD5("2.3000.1041871181")`.
    pub build_hash: [u8; 16],
    /// The device label shown in the phone's linked-devices list (`DeviceProps.os`).
    pub device_os: String,
    /// `userAgent.appVersion` as (primary, secondary, tertiary); must agree with `build_hash`.
    pub app_version: (u64, u64, u64),
    /// `userAgent.platform`.
    pub platform: u64,
}

/// A length-delimited field.
pub open spec fn lf(n: u64, b: Seq<u8>) -> (u64, ValueV) {
    (n, ValueV::Bytes(b))
}

/// A varint field.
pub open spec fn vf(n: u64, v: u64) -> (u64, ValueV) {
    (n, ValueV::Varint(v))
}

/// The 4-byte big-endian form of `x`.
pub open spec fn be32(x: u32) -> Seq<u8> {
    seq![(x / 16777216) as u8, ((x / 65536) % 256) as u8, ((x / 256) % 256) as u8, (x % 256) as u8]
}

/// The fields of an `AppVersion`.
pub open spec fn app_version_fields(p: u64, s: u64, t: u64) -> Seq<(u64, ValueV)> {
    seq![vf(1, p), vf(2, s), vf(3, t)]
}

/// The fields of the `UserAgent`.
pub open spec fn user_agent_fields(version: (u64, u64, u64), platform: u64) -> Seq<(u64, ValueV)> {
    seq![
        vf(1, platform),
        lf(2, spec_fields(app_version_fields(version.0, version.1, version.2))),
        lf(3, seq![48u8, 48u8, 48u8]),
        lf(4, seq![48u8, 48u8, 48u8]),
        lf(5, seq![48u8, 46u8, 49u8]),
        lf(6, Seq::empty()),
        lf(7, seq![68u8, 101u8, 115u8, 107u8, 116u8, 111u8, 112u8]),
        lf(8, seq![48u8, 46u8, 49u8]),
        vf(10, 0),
        lf(11, seq![101u8, 110u8]),
        lf(12, seq![85u8, 83u8]),
    ]
}

/// The fields of the `WebInfo`.
pub open spec fn web_info_fields() -> Seq<(u64, ValueV)> {
    seq![vf(1, 0)]
}

/// The fields of the `DeviceProps` naming the device `os`.
pub open spec fn device_props_fields(os: Seq<u8>) -> Seq<(u64, ValueV)> {
    seq![lf(1, os), lf(2, spec_fields(app_version_fields(0, 1, 0))), vf(3, 0), vf(4, 0)]
}

/// The fields of the `DevicePairingRegistrationData`.
pub open spec fn pairing_data_fields(p: RegistrationPayload) -> Seq<(u64, ValueV)> {
    seq![
        lf(1, be32(p.registration_id)),
        lf(2, seq![5u8]),
        lf(3, p.identity_public@),
        lf(4, be32(p.signed_pre_key_id).subrange(1, 4)),
        lf(5, p.signed_pre_key_public@),
        lf(6, p.signed_pre_key_signature@),
        lf(7, p.build_hash@),
        lf(8, spec_fields(device_props_fields(sbytes(p.device_os)))),
    ]
}

/// The fields of the whole `ClientPayload`.
pub open spec fn registration_fields(p: RegistrationPayload) -> Seq<(u64, ValueV)> {
    seq![
        lf(5, spec_fields(user_agent_fields(p.app_version, p.platform))),
        lf(6, spec_fields(web_info_fields())),
        vf(12, 1),
        vf(13, 1),
        lf(19, spec_fields(pairing_data_fields(p))),
        vf(3, 0),
        vf(33, 0),
    ]
}

/// The 4-byte big-endian form of `x`.
pub fn be32_bytes(x: u32) -> (r: [u8; 4])
    ensures
        r@ == be32(x),
{
    [(x / 16777216) as u8, ((x / 65536) % 256) as u8, ((x / 256) % 256) as u8, (x % 256) as u8]
}

fn app_version(p: u64, s: u64, t: u64) -> (r: Vec<u8>)
    ensures
        r@ == spec_fields(app_version_fields(p, s, t)),
{
    let mut b = Vec::new();
    let ghost none: Seq<(u64, ValueV)> = Seq::empty();
    let g = push_varint_field(&mut b, 1, p, Ghost(none));
    let g = push_varint_field(&mut b, 2, s, g);
    let g = push_varint_field(&mut b, 3, t, g);
    assert(g@ =~= app_version_fields(p, s, t));
    b
}

fn user_agent(version: (u64, u64, u64), platform: u64) -> (r: Vec<u8>)
    ensures
        r@ == spec_fields(user_agent_fields(version, platform)),
{
    let (p, s, t) = version;
    let mut b = Vec::new();
    let ghost none: Seq<(u64, ValueV)> = Seq::empty();
    let g = push_varint_field(&mut b, 1, platform, Ghost(none));
    let av = app_version(p, s, t);
    let g = push_len_field(&mut b, 2, av.as_slice(), g);
    let mcc: [u8; 3] = [48, 48, 48];
    let g = push_len_field(&mut b, 3, &mcc, g);
    let g = push_len_field(&mut b, 4, &mcc, g);
    let os_version: [u8; 3] = [48, 46, 49];
    let g = push_len_field(&mut b, 5, &os_version, g);
    let manufacturer: [u8; 0] = [];
    let g = push_len_field(&mut b, 6, &manufacturer, g);
    let device: [u8; 7] = [68, 101, 115, 107, 116, 111, 112];
    let g = push_len_field(&mut b, 7, &device, g);
    let g = push_len_field(&mut b, 8, &os_version, g);
    let g = push_varint_field(&mut b, 10, 0, g);
    let language: [u8; 2] = [101, 110];
    let g = push_len_field(&mut b, 11, &language, g);
    let country: [u8; 2] = [85, 83];
    let g = push_len_field(&mut b, 12, &country, g);
    assert(mcc@ =~= seq![48u8, 48u8, 48u8]);
    assert(os_version@ =~= seq![48u8, 46u8, 49u8]);
    assert(manufacturer@ =~= Seq::<u8>::empty());
    assert(device@ =~= seq![68u8, 101u8, 115u8, 107u8, 116u8, 111u8, 112u8]);
    assert(language@ =~= seq![101u8, 110u8]);
    assert(country@ =~= seq![85u8, 83u8]);
    assert(g@ =~= user_agent_fields(version, platform));
    b
}

fn web_info() -> (r: Vec<u8>)
    ensures
        r@ == spec_fields(web_info_fields()),
{
    let mut b = Vec::new();
    let ghost none: Seq<(u64, ValueV)> = Seq::empty();
    let g = push_varint_field(&mut b, 1, 0, Ghost(none));
    assert(g@ =~= web_info_fields());
    b
}

fn device_props(os: &str) -> (r: Vec<u8>)
    ensures
        r@ == spec_fields(device_props_fields(os.spec_bytes())),
{
    let mut b = Vec::new();
    let ghost none: Seq<(u64, ValueV)> = Seq::empty();
    let g = push_len_field(&mut b, 1, os.as_bytes(), Ghost(none));
    let av = app_version(0, 1, 0);
    let g = push_len_field(&mut b, 2, av.as_slice(), g);
    let g = push_varint_field(&mut b, 3, 0, g);
    let g = push_varint_field(&mut b, 4, 0, g);
    assert(g@ =~= device_props_fields(os.spec_bytes()));
    b
}

impl RegistrationPayload {
    fn device_pairing_data(&self) -> (r: Vec<u8>)
        ensures
            r@ == spec_fields(pairing_data_fields(*self)),
    {
        let reg_id = be32_bytes(self.registration_id);
        let skey_id = be32_bytes(self.signed_pre_key_id);
        let skey_low: [u8; 3] = [skey_id[1], skey_id[2], skey_id[3]];
        let djb: [u8; 1] = [5];
        let mut b = Vec::new();
        let ghost none: Seq<(u64, ValueV)> = Seq::empty();
        let g = push_len_field(&mut b, 1, &reg_id, Ghost(none));
        let g = push_len_field(&mut b, 2, &djb, g);
        let g = push_len_field(&mut b, 3, &self.identity_public, g);
        let g = push_len_field(&mut b, 4, &skey_low, g);
        let g = push_len_field(&mut b, 5, &self.signed_pre_key_public, g);
        let g = push_len_field(&mut b, 6, self.signed_pre_key_signature.as_slice(), g);
        let g = push_len_field(&mut b, 7, &self.build_hash, g);
        let props = device_props(self.device_os.as_str());
        let g = push_len_field(&mut b, 8, props.as_slice(), g);
        assert(skey_low@ =~= be32(self.signed_pre_key_id).subrange(1, 4));
        assert(djb@ =~= seq![5u8]);
        assert(g@ =~= pairing_data_fields(*self));
        b
    }

    /// Encode the complete registration `ClientPayload`.
    pub fn encode(&self) -> (r: Vec<u8>)
        ensures
            r@ == spec_fields(registration_fields(*self)),
    {
        let mut b = Vec::new();
        let ghost none: Seq<(u64, ValueV)> = Seq::empty();
        let ua = user_agent(self.app_version, self.platform);
        let g = push_len_field(&mut b, 5, ua.as_slice(), Ghost(none));
        let wi = web_info();
        let g = push_len_field(&mut b, 6, wi.as_slice(), g);
        let g = push_varint_field(&mut b, 12, 1, g);
        let g = push_varint_field(&mut b, 13, 1, g);
        let pd = self.device_pairing_data();
        let g = push_len_field(&mut b, 19, pd.as_slice(), g);
        let g = push_varint_field(&mut b, 3, 0, g);
        let g = push_varint_field(&mut b, 33, 0, g);
        assert(g@ =~= registration_fields(*self));
        b
    }
}

/// An encoding of fields is at most `20 + m` bytes per field when no field holds more than `m`
/// bytes (a key and a length take at most ten bytes each).
proof fn lemma_fields_len_bound(s: Seq<(u64, ValueV)>, m: nat)
    requires
        forall|i: int| 0 <= i < s.len() ==> ((#[trigger] s[i]).1 matches ValueV::Bytes(b) ==> b.len() <= m),
    ensures
        spec_fields(s).len() <= s.len() * (20 + m),
    decreases s.len(),
{
    if s.len() > 0 {
        let rest = s.subrange(1, s.len() as int);
        assert forall|i: int| 0 <= i < rest.len() implies ((#[trigger] rest[i]).1 matches ValueV::Bytes(b) ==> b.len() <= m) by {
            assert(rest[i] == s[i + 1]);
        }
        lemma_fields_len_bound(rest, m);
        let f = s[0];
        match f.1 {
            ValueV::Varint(v) => {
                lemma_varint_len(crate::pb::field_key(f.0, crate::pb::WIRE_VARINT));
                lemma_varint_len(v);
            },
            ValueV::Bytes(b) => {
                lemma_varint_len(crate::pb::field_key(f.0, crate::pb::WIRE_LEN));
                lemma_varint_len(b.len() as u64);
            },
        }
        assert(spec_field(f).len() <= 20 + m);
        let n = rest.len();
        let a = spec_fields(rest).len();
        assert(a + spec_field(f).len() <= (n + 1) * (20 + m)) by (nonlinear_arith)
            requires
                a <= n * (20 + m),
                spec_field(f).len() <= 20 + m,
        ;
    }
}

/// The device properties encode in at most `4 * (20 + 2^58)` bytes and read back.
proof fn lemma_props_parse(os: Seq<u8>)
    requires
        os.len() < 0x400_0000_0000_0000,
    ensures
        spec_fields(device_props_fields(os)).len() <= 4 * (20 + 0x400_0000_0000_0000nat),
        sp_parse(spec_fields(device_props_fields(os)), 0) == Ok::<Seq<(u64, ValueV)>, crate::pb::PbError>(device_props_fields(os)),
{
    let big: nat = 0x400_0000_0000_0000;
    let av = app_version_fields(0, 1, 0);
    lemma_fields_len_bound(av, 0);
    assert(av.len() == 3);
    assert(av.len() * (20 + 0nat) == 60);
    assert(spec_fields(av).len() <= 60);
    let dp = device_props_fields(os);
    assert(dp[0] == lf(1, os));
    assert(dp[1] == lf(2, spec_fields(av)));
    assert forall|i: int| 0 <= i < dp.len() implies ((#[trigger] dp[i]).1 matches ValueV::Bytes(b) ==> b.len() <= big) by {
        if i == 0 {} else if i == 1 {} else {}
    }
    lemma_fields_len_bound(dp, big);
    assert forall|i: int| 0 <= i < dp.len() implies field_ok(#[trigger] dp[i]) by {}
    parse_roundtrip(dp);
}

/// The pairing data encodes in at most `8 * (20 + 4 * (20 + 2^58))` bytes and reads back.
proof fn lemma_pairing_parse(p: RegistrationPayload)
    requires
        p.signed_pre_key_signature@.len() < 0x400_0000_0000_0000,
        sbytes(p.device_os).len() < 0x400_0000_0000_0000,
    ensures
        spec_fields(pairing_data_fields(p)).len() <= 8 * (20 + 4 * (20 + 0x400_0000_0000_0000nat)),
        sp_parse(spec_fields(pairing_data_fields(p)), 0) == Ok::<Seq<(u64, ValueV)>, crate::pb::PbError>(pairing_data_fields(p)),
{
    let m: nat = 4 * (20 + 0x400_0000_0000_0000nat);
    lemma_props_parse(sbytes(p.device_os));
    let pf = pairing_data_fields(p);
    assert forall|i: int| 0 <= i < pf.len() implies ((#[trigger] pf[i]).1 matches ValueV::Bytes(b) ==> b.len() <= m) by {}
    lemma_fields_len_bound(pf, m);
    assert forall|i: int| 0 <= i < pf.len() implies field_ok(#[trigger] pf[i]) by {}
    parse_roundtrip(pf);
}

/// The whole payload reads back as its fields.
proof fn lemma_registration_parse(p: RegistrationPayload)
    requires
        p.signed_pre_key_signature@.len() < 0x400_0000_0000_0000,
        sbytes(p.device_os).len() < 0x400_0000_0000_0000,
    ensures
        sp_parse(spec_fields(registration_fields(p)), 0) == Ok::<Seq<(u64, ValueV)>, crate::pb::PbError>(registration_fields(p)),
{
    lemma_pairing_parse(p);
    let va = app_version_fields(p.app_version.0, p.app_version.1, p.app_version.2);
    lemma_fields_len_bound(va, 0);
    assert(va.len() == 3);
    assert(va.len() * (20 + 0nat) == 60);
    let ua = user_agent_fields(p.app_version, p.platform);
    assert(ua[1] == lf(2, spec_fields(va)));
    assert forall|i: int| 0 <= i < ua.len() implies ((#[trigger] ua[i]).1 matches ValueV::Bytes(b) ==> b.len() <= 60) by {
        if i == 1 {}
    }
    lemma_fields_len_bound(ua, 60);
    lemma_fields_len_bound(web_info_fields(), 0);
    let rf = registration_fields(p);
    assert forall|i: int| 0 <= i < rf.len() implies field_ok(#[trigger] rf[i]) by {}
    parse_roundtrip(rf);
}

/// The big-endian bytes of an id spell it back.
pub(crate) proof fn lemma_be32_value(x: u32)
    ensures
        be32(x).len() == 4,
        be32(x)[0] * 16777216 + be32(x)[1] * 65536 + be32(x)[2] * 256 + be32(x)[3] == x,
        be32(x)[1] * 65536 + be32(x)[2] * 256 + be32(x)[3] == x % 16777216,
{
}

/// The registration payload as the server reads it back: field 19 (`devicePairingData`) is a
/// message whose field 1 is the registration id as 4 big-endian bytes, 2 the key type `0x05`, 3
/// the identity public key, 4 the low 24 bits of the signed pre-key id as 3 big-endian bytes, 5
/// the signed pre-key public key, 6 the signature over it, 7 the build hash, and 8 the device
/// properties, whose field 1 is the device label (for a signature and a label shorter than
/// 2^58 bytes).
#[verifier::spinoff_prover]
#[verifier::rlimit(40)]
pub proof fn registration_pairing_fields(p: RegistrationPayload)
    requires
        p.signed_pre_key_signature@.len() < 0x400_0000_0000_0000,
        sbytes(p.device_os).len() < 0x400_0000_0000_0000,
    ensures
        sp_parse(spec_fields(registration_fields(p)), 0) matches Ok(s) && spec_first_bytes(s, 19) matches Some(pd)
            && sp_parse(pd, 0) matches Ok(t) && ({
            &&& spec_first_bytes(t, 1) matches Some(b) && b.len() == 4
                && b[0] * 16777216 + b[1] * 65536 + b[2] * 256 + b[3] == p.registration_id
            &&& spec_first_bytes(t, 2) == Some(seq![5u8])
            &&& spec_first_bytes(t, 3) == Some(p.identity_public@)
            &&& spec_first_bytes(t, 4) matches Some(b) && b.len() == 3
                && b[0] * 65536 + b[1] * 256 + b[2] == p.signed_pre_key_id % 16777216
            &&& spec_first_bytes(t, 5) == Some(p.signed_pre_key_public@)
            &&& spec_first_bytes(t, 6) == Some(p.signed_pre_key_signature@)
            &&& spec_first_bytes(t, 7) == Some(p.build_hash@)
            &&& spec_first_bytes(t, 8) matches Some(props) && sp_parse(props, 0) matches Ok(u)
                && spec_first_bytes(u, 1) == Some(sbytes(p.device_os))
        }),
{
    lemma_registration_parse(p);
    lemma_pairing_parse(p);
    lemma_props_parse(sbytes(p.device_os));
    lemma_be32_value(p.registration_id);
    lemma_be32_value(p.signed_pre_key_id);
    let y = be32(p.signed_pre_key_id);
    assert(y.subrange(1, 4)[0] == y[1] && y.subrange(1, 4)[1] == y[2] && y.subrange(1, 4)[2] == y[3]);
    reveal_with_fuel(crate::pb::first_bytes_from, 9);
}

/// The rest of the registration payload as the server reads it back: field 5 is the user agent,
/// whose varint field 1 is the platform and whose field 2 is the app version with the primary,
/// secondary and tertiary numbers in varint fields 1, 2 and 3; field 6 is the web info; the
/// connect type (field 12) and connect reason (field 13) are 1, and `passive` (field 3) and
/// `pull` (field 33) are false.
#[verifier::spinoff_prover]
#[verifier::rlimit(40)]
pub proof fn registration_top_fields(p: RegistrationPayload)
    requires
        p.signed_pre_key_signature@.len() < 0x400_0000_0000_0000,
        sbytes(p.device_os).len() < 0x400_0000_0000_0000,
    ensures
        sp_parse(spec_fields(registration_fields(p)), 0) matches Ok(s) && ({
            &&& spec_first_bytes(s, 5) matches Some(ua) && (sp_parse(ua, 0) matches Ok(u)
                && (spec_first_varint(u, 1) == Some(p.platform)
                && (spec_first_bytes(u, 2) matches Some(av) && (sp_parse(av, 0) matches Ok(a)
                && spec_first_varint(a, 1) == Some(p.app_version.0)
                && spec_first_varint(a, 2) == Some(p.app_version.1)
                && spec_first_varint(a, 3) == Some(p.app_version.2)))))
            &&& spec_first_bytes(s, 6) is Some
            &&& spec_first_varint(s, 12) == Some(1u64)
            &&& spec_first_varint(s, 13) == Some(1u64)
            &&& spec_first_varint(s, 3) == Some(0u64)
            &&& spec_first_varint(s, 33) == Some(0u64)
        }),
{
    lemma_registration_parse(p);
    let va = app_version_fields(p.app_version.0, p.app_version.1, p.app_version.2);
    assert forall|i: int| 0 <= i < va.len() implies field_ok(#[trigger] va[i]) by {}
    parse_roundtrip(va);
    lemma_fields_len_bound(va, 0);
    assert(va.len() == 3);
    assert(va.len() * (20 + 0nat) == 60);
    let ua = user_agent_fields(p.app_version, p.platform);
    assert(ua[1] == lf(2, spec_fields(va)));
    assert forall|i: int| 0 <= i < ua.len() implies field_ok(#[trigger] ua[i]) by {
        if i == 1 {}
    }
    parse_roundtrip(ua);
    reveal_with_fuel(crate::pb::first_bytes_from, 3);
    reveal_with_fuel(crate::pb::first_varint_from, 8);
}

} // verus!
