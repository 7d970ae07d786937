//! Phone-number (pairing-code) linking: the "link with phone number" method.
//!
//! Instead of scanning a QR code, the user enters their phone number on the companion and types
//! an eight-character code on the phone. Two phases:
//! 1. [`begin_phone_pairing`]: make the code and an ephemeral key, wrap the ephemeral public key
//!    under a key derived from the code (PBKDF2), and build the `companion_hello` children.
//! 2. [`finish_phone_pairing`]: when the phone has the code, the server sends the primary's
//!    wrapped ephemeral key and identity key. Unwrap the ephemeral key, derive the shared **adv
//!    secret**, wrap a key bundle, and build the `companion_finish` children.

use vstd::prelude::*;
use vstd::string::StringSliceAdditionalSpecFns;
use crate::bytes::{append_bytes, array12, array16, array32, to_vec};
use crate::client::Error;
use crate::codec::{bytes_to_string, lemma_ascii_valid_utf8};
use crate::crypto::{
    aes256_ctr_spec, gcm_open_spec, gcm_seal_spec, hkdf_sha256_spec, pbkdf2_sha256_spec, random_vec, x25519_spec,
    GCM_MAX,
};
use crate::device::DeviceIdentity;
use crate::node::{sbytes, Node, NodeContent};
use crate::noise::{basepoint, dh, dh_pair, keypair};
use crate::pcrypto::{aes256_ctr, aes256_gcm_seal, hkdf_sha256, no_aad, pbkdf2_sha256, salt_of};

verus! {

/// PBKDF2 iterations for the linking key (`2 << 16`).
pub const PBKDF2_ITERATIONS: u32 = 131072;

/// The linking-code alphabet: base32 without 0, O, 1 and I.
pub open spec fn linking_alphabet() -> Seq<u8> {
    seq![49u8, 50u8, 51u8, 52u8, 53u8, 54u8, 55u8, 56u8, 57u8, 65u8, 66u8, 67u8, 68u8, 69u8, 70u8,
        71u8, 72u8, 74u8, 75u8, 76u8, 77u8, 78u8, 80u8, 81u8, 82u8, 83u8, 84u8, 86u8, 87u8, 88u8,
        89u8, 90u8]
}

/// The 40-bit number that five bytes spell big-endian.
pub open spec fn be40(b: Seq<u8>) -> nat {
    (((b[0] as nat * 256 + b[1] as nat) * 256 + b[2] as nat) * 256 + b[3] as nat) * 256 + b[4] as nat
}

/// `32^k`.
pub open spec fn pow32(k: nat) -> nat
    decreases k,
{
    if k == 0 { 1 } else { 32 * pow32((k - 1) as nat) }
}

/// The eight linking-code characters for five bytes: the 40 bits in groups of five, most
/// significant first, each mapped through the alphabet.
pub open spec fn spec_base32_5(b: Seq<u8>) -> Seq<u8> {
    Seq::new(8, |i: int| linking_alphabet()[((be40(b) / pow32((7 - i) as nat)) % 32) as int])
}

/// Encode five bytes (40 bits) as eight characters of the linking alphabet.
pub fn base32_encode_5(bytes: &[u8; 5]) -> (r: String)
    ensures
        sbytes(r) == spec_base32_5(bytes@),
{
    let alphabet: [u8; 32] = [49, 50, 51, 52, 53, 54, 55, 56, 57, 65, 66, 67, 68, 69, 70, 71, 72, 74, 75, 76, 77,
        78, 80, 81, 82, 83, 84, 86, 87, 88, 89, 90];
    assert(alphabet@ =~= linking_alphabet());
    let buffer: u64 = ((((bytes[0] as u64) * 256 + bytes[1] as u64) * 256 + bytes[2] as u64) * 256
        + bytes[3] as u64) * 256 + bytes[4] as u64;
    let mut out: Vec<u8> = Vec::new();
    let mut div: u64 = 34359738368;
    let mut i: usize = 0;
    proof {
        reveal_with_fuel(pow32, 8);
    }
    while i < 8
        invariant
            i <= 8,
            buffer as nat == be40(bytes@),
            div as nat == pow32((7 - i) as nat) || i == 8,
            alphabet@ == linking_alphabet(),
            out@.len() == i,
            forall|j: int| 0 <= j < i ==> out@[j] == spec_base32_5(bytes@)[j],
        decreases 8 - i,
    {
        proof {
            reveal_with_fuel(pow32, 8);
        }
        let idx = ((buffer / div) % 32) as usize;
        out.push(alphabet[idx]);
        if i < 7 {
            div = div / 32;
        }
        i += 1;
    }
    assert(out@ =~= spec_base32_5(bytes@));
    proof {
        assert forall|j: int| 0 <= j < out@.len() implies out@[j] < 128 by {
            assert(linking_alphabet()[((be40(bytes@) / pow32((7 - j) as nat)) % 32) as int] < 128);
        }
        lemma_ascii_valid_utf8(out@);
    }
    bytes_to_string(out)
}

/// State carried between the two phases.
#[derive(Clone, Debug)]
pub struct PhoneLinking {
    pub ephemeral_private: [u8; 32],
    pub ephemeral_public: [u8; 32],
    /// The eight-character linking code (no dash).
    pub linking_code: String,
    /// The `link_code_pairing_ref` the server returns after phase 1.
    pub pairing_ref: Option<String>,
}

/// A node with a tag and a binary body, as the phone-pairing children are.
pub open spec fn is_blob_node(n: Node, tag: Seq<char>, body: Seq<u8>) -> bool {
    &&& n.tag@ == tag
    &&& n.attrs@.len() == 0
    &&& n.content matches NodeContent::Bytes(b) && b@ == body
}

/// The linking key: PBKDF2 of the code under the salt.
pub open spec fn link_key(code: Seq<u8>, salt: Seq<u8>) -> Seq<u8> {
    pbkdf2_sha256_spec(code, salt, PBKDF2_ITERATIONS, 32)
}

/// What phase 1 returns for a device whose Noise public key is `noise_public`, for the client
/// type and display name given, and for the ephemeral keypair, PBKDF2 salt, CTR IV and five code
/// bytes given: the state, the five `companion_hello` children, and the code as `XXXX-XXXX`.
pub open spec fn begin_result(
    r: (PhoneLinking, Vec<Node>, String),
    noise_public: Seq<u8>,
    client_type: Seq<u8>,
    display_name: Seq<u8>,
    ephemeral_private: Seq<u8>,
    ephemeral_public: Seq<u8>,
    salt: Seq<u8>,
    iv: Seq<u8>,
    code_bytes: Seq<u8>,
) -> bool {
    let code = spec_base32_5(code_bytes);
    &&& r.0.ephemeral_private@ == ephemeral_private
    &&& r.0.ephemeral_public@ == ephemeral_public
    &&& sbytes(r.0.linking_code) == code
    &&& r.0.pairing_ref is None
    &&& r.1@.len() == 5
    &&& is_blob_node(r.1@[0], "link_code_pairing_wrapped_companion_ephemeral_pub"@,
            salt + iv + aes256_ctr_spec(link_key(code, salt), iv, ephemeral_public))
    &&& is_blob_node(r.1@[1], "companion_server_auth_key_pub"@, noise_public)
    &&& is_blob_node(r.1@[2], "companion_platform_id"@, client_type)
    &&& is_blob_node(r.1@[3], "companion_platform_display"@, display_name)
    &&& is_blob_node(r.1@[4], "link_code_pairing_nonce"@, seq![0u8])
    &&& sbytes(r.2) == code.subrange(0, 4) + seq![45u8] + code.subrange(4, 8)
}

/// Phase 1 with its random inputs given: the ephemeral keypair, the PBKDF2 salt, the CTR IV and
/// the five code bytes. Returns the state, the `companion_hello` children, and the code shown to
/// the user as `XXXX-XXXX`.
pub fn begin_phone_pairing_with(
    device: &DeviceIdentity,
    client_type: &str,
    display_name: &str,
    ephemeral: ([u8; 32], [u8; 32]),
    salt: [u8; 32],
    iv: [u8; 16],
    code_bytes: [u8; 5],
) -> (r: (PhoneLinking, Vec<Node>, String))
    ensures
        r.0.ephemeral_private == ephemeral.0,
        r.0.ephemeral_public == ephemeral.1,
        begin_result(r, device.noise_key.public@, client_type.spec_bytes(), display_name.spec_bytes(), ephemeral.0@,
            ephemeral.1@, salt@, iv@, code_bytes@),
{
    let (ephemeral_private, ephemeral_public) = ephemeral;
    let code = base32_encode_5(&code_bytes);
    let key_bytes = pbkdf2_sha256(code.as_str().as_bytes(), &salt, PBKDF2_ITERATIONS, 32);
    let link: [u8; 32] = array32(key_bytes.as_slice(), 0);
    assert(key_bytes@.subrange(0, 32) =~= key_bytes@);
    let encrypted_pub = aes256_ctr(&link, &iv, &ephemeral_public);
    // wrapped ephemeral = salt (32) || iv (16) || encrypted public key (32)
    let mut wrapped = Vec::new();
    append_bytes(&mut wrapped, &salt);
    append_bytes(&mut wrapped, &iv);
    append_bytes(&mut wrapped, encrypted_pub.as_slice());
    let nonce: Vec<u8> = vec![0u8];
    let mut children: Vec<Node> = Vec::new();
    children.push(Node::new("link_code_pairing_wrapped_companion_ephemeral_pub").bytes(wrapped));
    children.push(Node::new("companion_server_auth_key_pub").bytes(to_vec(&device.noise_key.public)));
    children.push(Node::new("companion_platform_id").bytes(to_vec(client_type.as_bytes())));
    children.push(Node::new("companion_platform_display").bytes(to_vec(display_name.as_bytes())));
    children.push(Node::new("link_code_pairing_nonce").bytes(nonce));
    assert(nonce@ =~= seq![0u8]);
    let cb = code.as_str().as_bytes();
    let mut formatted_bytes = Vec::new();
    let mut k: usize = 0;
    while k < 8
        invariant
            k <= 8,
            cb@ == spec_base32_5(code_bytes@),
            cb@.len() == 8,
            formatted_bytes@ == if k <= 4 { cb@.subrange(0, k as int) } else { cb@.subrange(0, 4) + seq![45u8] + cb@.subrange(4, k as int) },
        decreases 8 - k,
    {
        if k == 4 {
            formatted_bytes.push(45u8);
        }
        formatted_bytes.push(cb[k]);
        k += 1;
        assert(formatted_bytes@ =~= if k <= 4 { cb@.subrange(0, k as int) } else { cb@.subrange(0, 4) + seq![45u8] + cb@.subrange(4, k as int) });
    }
    proof {
        assert forall|j: int| 0 <= j < formatted_bytes@.len() implies formatted_bytes@[j] < 128 by {
            if j < 4 {
                assert(formatted_bytes@[j] == spec_base32_5(code_bytes@)[j]);
            } else if j > 4 {
                assert(formatted_bytes@[j] == spec_base32_5(code_bytes@)[j - 1]);
            }
        }
        lemma_ascii_valid_utf8(formatted_bytes@);
    }
    let formatted = bytes_to_string(formatted_bytes);
    (PhoneLinking { ephemeral_private, ephemeral_public, linking_code: code, pairing_ref: None }, children, formatted)
}

/// Phase 1: make the linking code and the `companion_hello` children. Returns the state, the
/// children to put inside `<link_code_companion_reg stage="companion_hello">`, and the code shown
/// to the user as `XXXX-XXXX`.
pub fn begin_phone_pairing(device: &DeviceIdentity, client_type: &str, display_name: &str) -> (r: (PhoneLinking, Vec<Node>, String))
    ensures
        r.0.ephemeral_public@ == x25519_spec(r.0.ephemeral_private@, basepoint()),
        dh_pair(r.0.ephemeral_private@, r.0.ephemeral_public@),
        r.1@.len() == 5,
        sbytes(r.2).len() == 9,
        sbytes(r.2)[4] == 45u8,
        exists|salt: Seq<u8>, iv: Seq<u8>, code_bytes: Seq<u8>| salt.len() == 32 && iv.len() == 16 && code_bytes.len() == 5
            && #[trigger] begin_result(r, device.noise_key.public@, client_type.spec_bytes(), display_name.spec_bytes(),
                r.0.ephemeral_private@, r.0.ephemeral_public@, salt, iv, code_bytes),
{
    let ephemeral = keypair();
    let s = random_vec(32);
    let salt = array32(s.as_slice(), 0);
    let v = random_vec(16);
    let iv = array16(v.as_slice(), 0);
    let c = random_vec(5);
    let code_bytes: [u8; 5] = [c[0], c[1], c[2], c[3], c[4]];
    let r = begin_phone_pairing_with(device, client_type, display_name, ephemeral, salt, iv, code_bytes);
    proof {
        let code = spec_base32_5(code_bytes@);
        assert(code.len() == 8);
        assert(sbytes(r.2).len() == 9);
        assert(sbytes(r.2)[4] == 45u8);
        assert(begin_result(r, device.noise_key.public@, client_type.spec_bytes(), display_name.spec_bytes(),
            r.0.ephemeral_private@, r.0.ephemeral_public@, salt@, iv@, code_bytes@));
    }
    r
}

/// The HKDF info of the bundle key.
pub open spec fn info_bundle() -> Seq<u8> {
    "link_code_pairing_key_bundle_encryption_key".spec_bytes()
}

/// The HKDF info of the adv secret.
pub open spec fn info_adv_secret() -> Seq<u8> {
    "adv_secret".spec_bytes()
}

/// What phase 2 computes from its inputs and its random values.
pub struct FinishPlan {
    pub primary_pub: Seq<u8>,
    pub ephemeral_shared: Seq<u8>,
    pub bundle_key: Seq<u8>,
    pub wrapped_bundle: Seq<u8>,
    pub adv_secret: Seq<u8>,
}

/// Phase 2 as a function of its inputs and of the random adv bytes, bundle salt and bundle
/// nonce: unwrap the primary's ephemeral public key with the linking key, take the two shared
/// secrets, seal `identity_public || primary_identity || adv_random` under the bundle key, and
/// derive the adv secret from `ephemeral_shared || identity_shared || adv_random`.
pub open spec fn finish_plan(
    code: Seq<u8>,
    ephemeral_private: Seq<u8>,
    identity_private: Seq<u8>,
    identity_public: Seq<u8>,
    wrapped: Seq<u8>,
    primary_id: Seq<u8>,
    adv_random: Seq<u8>,
    bundle_salt: Seq<u8>,
    bundle_nonce: Seq<u8>,
) -> FinishPlan {
    let primary_pub = aes256_ctr_spec(link_key(code, wrapped.subrange(0, 32)), wrapped.subrange(32, 48), wrapped.subrange(48, 80));
    let ephemeral_shared = x25519_spec(ephemeral_private, primary_pub);
    let bkey = hkdf_sha256_spec(ephemeral_shared, salt_of(bundle_salt), info_bundle(), 32);
    let sealed = gcm_seal_spec(bkey, bundle_nonce, no_aad(), identity_public + primary_id + adv_random);
    let identity_shared = x25519_spec(identity_private, primary_id);
    FinishPlan {
        primary_pub,
        ephemeral_shared,
        bundle_key: bkey,
        wrapped_bundle: bundle_salt + bundle_nonce + sealed,
        adv_secret: hkdf_sha256_spec(ephemeral_shared + identity_shared + adv_random, None, info_adv_secret(), 32),
    }
}

/// The primary and the companion agree on both shared secrets, and so on the bundle key and the
/// adv secret: when the companion's ephemeral and identity keypairs are X25519 keypairs (as
/// [`begin_phone_pairing`] and the device keystore make them), and the primary's ephemeral public
/// key (unwrapped from `wrapped`) and identity key are the public keys of `primary_ephemeral` and
/// `primary_identity`, the secrets the primary computes from the companion's public keys are the
/// ones phase 2 uses.
pub proof fn phone_pairing_agreement(
    code: Seq<u8>,
    ephemeral_private: Seq<u8>,
    ephemeral_public: Seq<u8>,
    identity_private: Seq<u8>,
    identity_public: Seq<u8>,
    wrapped: Seq<u8>,
    primary_ephemeral: Seq<u8>,
    primary_identity: Seq<u8>,
    adv_random: Seq<u8>,
    bundle_salt: Seq<u8>,
    bundle_nonce: Seq<u8>,
)
    requires
        dh_pair(ephemeral_private, ephemeral_public),
        dh_pair(identity_private, identity_public),
        primary_ephemeral.len() == 32,
        primary_identity.len() == 32,
        aes256_ctr_spec(link_key(code, wrapped.subrange(0, 32)), wrapped.subrange(32, 48), wrapped.subrange(48, 80))
            == x25519_spec(primary_ephemeral, basepoint()),
    ensures
        ({
            let plan = finish_plan(code, ephemeral_private, identity_private, identity_public, wrapped,
                x25519_spec(primary_identity, basepoint()), adv_random, bundle_salt, bundle_nonce);
            &&& plan.ephemeral_shared == x25519_spec(primary_ephemeral, ephemeral_public)
            &&& plan.bundle_key == hkdf_sha256_spec(x25519_spec(primary_ephemeral, ephemeral_public),
                salt_of(bundle_salt), info_bundle(), 32)
            &&& plan.adv_secret == hkdf_sha256_spec(x25519_spec(primary_ephemeral, ephemeral_public)
                + x25519_spec(primary_identity, identity_public) + adv_random, None, info_adv_secret(), 32)
        }),
{
    assert(x25519_spec(primary_ephemeral, ephemeral_public) == x25519_spec(ephemeral_private, x25519_spec(primary_ephemeral, basepoint())));
    assert(x25519_spec(primary_identity, identity_public) == x25519_spec(identity_private, x25519_spec(primary_identity, basepoint())));
}

/// The pairing ref's bytes (empty when there is none).
pub open spec fn ref_bytes(r: Option<String>) -> Seq<u8> {
    match r {
        Some(s) => sbytes(s),
        None => Seq::empty(),
    }
}

/// What phase 2 returns for the inputs given and the random adv bytes, bundle salt and bundle
/// nonce given: the adv secret and the three `companion_finish` children.
pub open spec fn finish_result(
    v: ([u8; 32], Vec<Node>),
    device: DeviceIdentity,
    state: PhoneLinking,
    wrapped: Seq<u8>,
    primary_id: Seq<u8>,
    adv_random: Seq<u8>,
    bundle_salt: Seq<u8>,
    bundle_nonce: Seq<u8>,
) -> bool {
    let plan = finish_plan(sbytes(state.linking_code), state.ephemeral_private@, device.identity_key.private@,
        device.identity_key.public@, wrapped, primary_id, adv_random, bundle_salt, bundle_nonce);
    &&& v.0@ == plan.adv_secret
    &&& v.1@.len() == 3
    &&& is_blob_node(v.1@[0], "link_code_pairing_wrapped_key_bundle"@, plan.wrapped_bundle)
    &&& gcm_open_spec(plan.bundle_key, bundle_nonce, no_aad(), plan.wrapped_bundle.subrange(44,
        plan.wrapped_bundle.len() as int)) == Some(device.identity_key.public@ + primary_id + adv_random)
    &&& is_blob_node(v.1@[1], "companion_identity_public"@, device.identity_key.public@)
    &&& is_blob_node(v.1@[2], "link_code_pairing_ref"@, ref_bytes(state.pairing_ref))
}

/// Phase 2 with its random inputs given (the adv bytes, the bundle salt and the bundle nonce).
/// Returns the adv secret and the `companion_finish` children.
pub fn finish_phone_pairing_with(
    device: &DeviceIdentity,
    state: &PhoneLinking,
    wrapped_primary_ephemeral_pub: &[u8],
    primary_identity_pub: &[u8],
    adv_random: [u8; 32],
    bundle_salt: [u8; 32],
    bundle_nonce: [u8; 12],
) -> (r: Result<([u8; 32], Vec<Node>), Error>)
    ensures
        wrapped_primary_ephemeral_pub@.len() < 80 ==> (r matches Err(Error::Pairing(m)) && m == "wrapped primary ephemeral pub too short"),
        wrapped_primary_ephemeral_pub@.len() >= 80 && primary_identity_pub@.len() != 32
            ==> (r matches Err(Error::Pairing(m)) && m == "bad primary identity pub length"),
        wrapped_primary_ephemeral_pub@.len() >= 80 && primary_identity_pub@.len() == 32 ==> (r matches Ok(v)
            && finish_result(v, *device, *state, wrapped_primary_ephemeral_pub@, primary_identity_pub@, adv_random@,
                bundle_salt@, bundle_nonce@)),
{
    if wrapped_primary_ephemeral_pub.len() < 80 {
        return Err(Error::Pairing("wrapped primary ephemeral pub too short"));
    }
    let primary_salt = array32(wrapped_primary_ephemeral_pub, 0);
    let primary_iv = array16(wrapped_primary_ephemeral_pub, 32);
    let primary_enc_pub = array32(wrapped_primary_ephemeral_pub, 48);
    if primary_identity_pub.len() != 32 {
        return Err(Error::Pairing("bad primary identity pub length"));
    }
    let primary_id = array32(primary_identity_pub, 0);
    assert(primary_identity_pub@.subrange(0, 32) =~= primary_identity_pub@);
    // Unwrap the primary's ephemeral public key with the linking key, then DH with ours.
    let key_bytes = pbkdf2_sha256(state.linking_code.as_str().as_bytes(), &primary_salt, PBKDF2_ITERATIONS, 32);
    let link = array32(key_bytes.as_slice(), 0);
    assert(key_bytes@.subrange(0, 32) =~= key_bytes@);
    let decrypted = aes256_ctr(&link, &primary_iv, &primary_enc_pub);
    if decrypted.len() != 32 {
        return Err(Error::Pairing("bad decrypted primary pub"));
    }
    let primary_pub = array32(decrypted.as_slice(), 0);
    assert(decrypted@.subrange(0, 32) =~= decrypted@);
    let ephemeral_shared = dh(&state.ephemeral_private, &primary_pub);
    // Wrap a key bundle: our identity key, the primary's identity key, and the adv randomness.
    let bkey_bytes = hkdf_sha256(&ephemeral_shared, &bundle_salt, "link_code_pairing_key_bundle_encryption_key".as_bytes(), 32);
    let bkey = array32(bkey_bytes.as_slice(), 0);
    assert(bkey_bytes@.subrange(0, 32) =~= bkey_bytes@);
    let mut plaintext = Vec::new();
    append_bytes(&mut plaintext, &device.identity_key.public);
    append_bytes(&mut plaintext, &primary_id);
    append_bytes(&mut plaintext, &adv_random);
    let encrypted_bundle = aes256_gcm_seal(&bkey, &bundle_nonce, plaintext.as_slice());
    let mut wrapped_bundle = Vec::new();
    append_bytes(&mut wrapped_bundle, &bundle_salt);
    append_bytes(&mut wrapped_bundle, &bundle_nonce);
    append_bytes(&mut wrapped_bundle, encrypted_bundle.as_slice());
    // adv secret = HKDF(ephemeral_shared || identity_shared || adv_random, no salt, "adv_secret").
    let identity_shared = dh(&device.identity_key.private, &primary_id);
    let mut adv_input = Vec::new();
    append_bytes(&mut adv_input, &ephemeral_shared);
    append_bytes(&mut adv_input, &identity_shared);
    append_bytes(&mut adv_input, &adv_random);
    let empty: [u8; 0] = [];
    assert(empty@ =~= Seq::<u8>::empty());
    let adv_bytes = hkdf_sha256(adv_input.as_slice(), &empty, "adv_secret".as_bytes(), 32);
    let adv_secret = array32(adv_bytes.as_slice(), 0);
    assert(adv_bytes@.subrange(0, 32) =~= adv_bytes@);
    let ref_bytes_vec = match &state.pairing_ref {
        Some(s) => to_vec(s.as_str().as_bytes()),
        None => Vec::new(),
    };
    assert(state.pairing_ref is None ==> ref_bytes_vec@ =~= Seq::<u8>::empty());
    let mut children: Vec<Node> = Vec::new();
    children.push(Node::new("link_code_pairing_wrapped_key_bundle").bytes(wrapped_bundle));
    children.push(Node::new("companion_identity_public").bytes(to_vec(&device.identity_key.public)));
    children.push(Node::new("link_code_pairing_ref").bytes(ref_bytes_vec));
    proof {
        assert(wrapped_primary_ephemeral_pub@.subrange(0, 32) == primary_salt@);
        assert(adv_input@ =~= ephemeral_shared@ + identity_shared@ + adv_random@);
        assert(plaintext@ =~= device.identity_key.public@ + primary_id@ + adv_random@);
        assert(wrapped_bundle@ =~= bundle_salt@ + bundle_nonce@ + encrypted_bundle@);
        assert(wrapped_bundle@.subrange(44, wrapped_bundle@.len() as int) =~= encrypted_bundle@);
    }
    Ok((adv_secret, children))
}

/// Phase 2: process the code-pair notification and build the `companion_finish` children. Also
/// returns the derived adv secret, which must be stored on the device before the `pair-success`
/// step authenticates with it.
pub fn finish_phone_pairing(
    device: &DeviceIdentity,
    state: &PhoneLinking,
    wrapped_primary_ephemeral_pub: &[u8],
    primary_identity_pub: &[u8],
) -> (r: Result<([u8; 32], Vec<Node>), Error>)
    ensures
        wrapped_primary_ephemeral_pub@.len() < 80 ==> (r matches Err(Error::Pairing(m)) && m == "wrapped primary ephemeral pub too short"),
        wrapped_primary_ephemeral_pub@.len() >= 80 && primary_identity_pub@.len() != 32
            ==> (r matches Err(Error::Pairing(m)) && m == "bad primary identity pub length"),
        wrapped_primary_ephemeral_pub@.len() >= 80 && primary_identity_pub@.len() == 32 ==> (r matches Ok(v)
            && exists|adv_random: Seq<u8>, bundle_salt: Seq<u8>, bundle_nonce: Seq<u8>|
                adv_random.len() == 32 && bundle_salt.len() == 32 && bundle_nonce.len() == 12
                && #[trigger] finish_result(v, *device, *state, wrapped_primary_ephemeral_pub@, primary_identity_pub@,
                    adv_random, bundle_salt, bundle_nonce)),
{
    let a = random_vec(32);
    let adv_random = array32(a.as_slice(), 0);
    let s = random_vec(32);
    let bundle_salt = array32(s.as_slice(), 0);
    let n = random_vec(12);
    let bundle_nonce = array12(n.as_slice(), 0);
    let r = finish_phone_pairing_with(device, state, wrapped_primary_ephemeral_pub, primary_identity_pub, adv_random, bundle_salt, bundle_nonce);
    proof {
        if r is Ok {
            let v = r->Ok_0;
            if wrapped_primary_ephemeral_pub@.len() >= 80 && primary_identity_pub@.len() == 32 {
                assert(finish_result(v, *device, *state, wrapped_primary_ephemeral_pub@, primary_identity_pub@,
                    adv_random@, bundle_salt@, bundle_nonce@));
            }
        }
    }
    r
}

} // verus!
