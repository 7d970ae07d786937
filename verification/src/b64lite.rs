//! Standard base64 (RFC 4648 alphabet, `=` padding), used for logging keys and inside the QR
//! payload.

use vstd::prelude::*;
use crate::codec::{bytes_to_string, lemma_ascii_valid_utf8};
use crate::node::sbytes;

verus! {

/// The base64 digit for a 6-bit value.
pub open spec fn b64_digit(v: int) -> u8 {
    if v < 26 {
        (65 + v) as u8
    } else if v < 52 {
        (97 + v - 26) as u8
    } else if v < 62 {
        (48 + v - 52) as u8
    } else if v == 62 {
        43u8
    } else {
        47u8
    }
}

/// The four digits for a group of three bytes.
pub open spec fn b64_group(a: u8, b: u8, c: u8) -> Seq<u8> {
    seq![
        b64_digit((a / 4) as int),
        b64_digit((a % 4) * 16 + b / 16),
        b64_digit((b % 16) * 4 + c / 64),
        b64_digit((c % 64) as int),
    ]
}

/// The standard base64 text of `d`, as ASCII bytes: each group of three bytes becomes four
/// digits; a final group of one or two bytes is padded with `=`.
pub open spec fn spec_base64(d: Seq<u8>) -> Seq<u8>
    decreases d.len(),
{
    if d.len() == 0 {
        Seq::empty()
    } else if d.len() == 1 {
        b64_group(d[0], 0, 0).subrange(0, 2) + seq![61u8, 61u8]
    } else if d.len() == 2 {
        b64_group(d[0], d[1], 0).subrange(0, 3) + seq![61u8]
    } else {
        b64_group(d[0], d[1], d[2]) + spec_base64(d.subrange(3, d.len() as int))
    }
}

/// Base64 text is ASCII and four digits per started group of three bytes.
pub proof fn lemma_base64_shape(d: Seq<u8>)
    ensures
        spec_base64(d).len() == 4 * ((d.len() + 2) / 3),
        forall|i: int| 0 <= i < spec_base64(d).len() ==> (#[trigger] spec_base64(d)[i]) < 128
            && spec_base64(d)[i] != 44,
    decreases d.len(),
{
    if d.len() >= 3 {
        lemma_base64_shape(d.subrange(3, d.len() as int));
    }
}

fn digit(v: u8) -> (r: u8)
    requires
        v < 64,
    ensures
        r == b64_digit(v as int),
{
    if v < 26 {
        65 + v
    } else if v < 52 {
        97 + v - 26
    } else if v < 62 {
        48 + v - 52
    } else if v == 62 {
        43
    } else {
        47
    }
}

/// Standard base64 encoding.
pub fn encode(input: &[u8]) -> (r: String)
    ensures
        sbytes(r) == spec_base64(input@),
{
    let mut out: Vec<u8> = Vec::new();
    let mut i: usize = 0;
    assert(input@.subrange(0, input@.len() as int) =~= input@);
    assert(out@ + input@ =~= input@);
    while i < input.len()
        invariant
            i <= input@.len(),
            spec_base64(input@) == out@ + spec_base64(input@.subrange(i as int, input@.len() as int)),
        decreases input@.len() - i,
    {
        let ghost rest = input@.subrange(i as int, input@.len() as int);
        let ghost before = out@;
        let left = input.len() - i;
        let a = input[i];
        let b = if left > 1 { input[i + 1] } else { 0 };
        let c = if left > 2 { input[i + 2] } else { 0 };
        out.push(digit(a / 4));
        out.push(digit((a % 4) * 16 + b / 16));
        if left > 1 {
            out.push(digit((b % 16) * 4 + c / 64));
        } else {
            out.push(61);
        }
        if left > 2 {
            out.push(digit(c % 64));
        } else {
            out.push(61);
        }
        if left >= 3 {
            assert(rest.subrange(3, rest.len() as int) =~= input@.subrange(i + 3, input@.len() as int));
            assert(out@ =~= before + b64_group(a, b, c));
            i = i + 3;
        } else {
            if left == 2 {
                assert(out@ =~= before + b64_group(a, b, 0).subrange(0, 3) + seq![61u8]);
            } else {
                assert(out@ =~= before + b64_group(a, 0, 0).subrange(0, 2) + seq![61u8, 61u8]);
            }
            assert(input@.subrange(input@.len() as int, input@.len() as int) =~= Seq::<u8>::empty());
            i = input.len();
        }
        assert(spec_base64(input@) =~= out@ + spec_base64(input@.subrange(i as int, input@.len() as int)));
    }
    assert(input@.subrange(i as int, input@.len() as int) =~= Seq::<u8>::empty());
    assert(out@ =~= spec_base64(input@));
    proof {
        lemma_base64_shape(input@);
        lemma_ascii_valid_utf8(out@);
    }
    bytes_to_string(out)
}

} // verus!
