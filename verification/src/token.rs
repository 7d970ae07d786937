//! The string-token dictionary.
//!
//! On the wire, common strings (element names, attribute keys, well-known values) are replaced by
//! a single-byte index into a shared dictionary. The entries here are the stable single-byte
//! indices 0..=29; encoding never depends on the table being complete (unknown strings fall back
//! to a raw binary encoding) and decoding an index that is not seeded yields an unknown-token
//! error instead of corrupting data.

use vstd::prelude::*;

verus! {

/// Number of seeded single-byte tokens.
pub const TOKEN_COUNT: usize = 30;

/// The UTF-8 bytes of the single-byte token `i`, if it is seeded.
pub open spec fn spec_token(i: int) -> Option<Seq<u8>> {
    if i == 0 {  // ''
        Some(Seq::<u8>::empty())
    } else if i == 1 {  // 'xmlstreamstart'
        Some(seq![120u8, 109u8, 108u8, 115u8, 116u8, 114u8, 101u8, 97u8, 109u8, 115u8, 116u8, 97u8, 114u8, 116u8])
    } else if i == 2 {  // 'xmlstreamend'
        Some(seq![120u8, 109u8, 108u8, 115u8, 116u8, 114u8, 101u8, 97u8, 109u8, 101u8, 110u8, 100u8])
    } else if i == 3 {  // 's.whatsapp.net'
        Some(seq![115u8, 46u8, 119u8, 104u8, 97u8, 116u8, 115u8, 97u8, 112u8, 112u8, 46u8, 110u8, 101u8, 116u8])
    } else if i == 4 {  // 'type'
        Some(seq![116u8, 121u8, 112u8, 101u8])
    } else if i == 5 {  // 'participant'
        Some(seq![112u8, 97u8, 114u8, 116u8, 105u8, 99u8, 105u8, 112u8, 97u8, 110u8, 116u8])
    } else if i == 6 {  // 'from'
        Some(seq![102u8, 114u8, 111u8, 109u8])
    } else if i == 7 {  // 'receipt'
        Some(seq![114u8, 101u8, 99u8, 101u8, 105u8, 112u8, 116u8])
    } else if i == 8 {  // 'id'
        Some(seq![105u8, 100u8])
    } else if i == 9 {  // 'broadcast'
        Some(seq![98u8, 114u8, 111u8, 97u8, 100u8, 99u8, 97u8, 115u8, 116u8])
    } else if i == 10 {  // 'status'
        Some(seq![115u8, 116u8, 97u8, 116u8, 117u8, 115u8])
    } else if i == 11 {  // 'message'
        Some(seq![109u8, 101u8, 115u8, 115u8, 97u8, 103u8, 101u8])
    } else if i == 12 {  // 'notification'
        Some(seq![110u8, 111u8, 116u8, 105u8, 102u8, 105u8, 99u8, 97u8, 116u8, 105u8, 111u8, 110u8])
    } else if i == 13 {  // 'notify'
        Some(seq![110u8, 111u8, 116u8, 105u8, 102u8, 121u8])
    } else if i == 14 {  // 'to'
        Some(seq![116u8, 111u8])
    } else if i == 15 {  // 'jid'
        Some(seq![106u8, 105u8, 100u8])
    } else if i == 16 {  // 'user'
        Some(seq![117u8, 115u8, 101u8, 114u8])
    } else if i == 17 {  // 'class'
        Some(seq![99u8, 108u8, 97u8, 115u8, 115u8])
    } else if i == 18 {  // 'offline'
        Some(seq![111u8, 102u8, 102u8, 108u8, 105u8, 110u8, 101u8])
    } else if i == 19 {  // 'g.us'
        Some(seq![103u8, 46u8, 117u8, 115u8])
    } else if i == 20 {  // 'result'
        Some(seq![114u8, 101u8, 115u8, 117u8, 108u8, 116u8])
    } else if i == 21 {  // 'mediatype'
        Some(seq![109u8, 101u8, 100u8, 105u8, 97u8, 116u8, 121u8, 112u8, 101u8])
    } else if i == 22 {  // 'enc'
        Some(seq![101u8, 110u8, 99u8])
    } else if i == 23 {  // 'skmsg'
        Some(seq![115u8, 107u8, 109u8, 115u8, 103u8])
    } else if i == 24 {  // 'off'
        Some(seq![111u8, 102u8, 102u8])
    } else if i == 25 {  // 'count'
        Some(seq![99u8, 111u8, 117u8, 110u8, 116u8])
    } else if i == 26 {  // 'u'
        Some(seq![117u8])
    } else if i == 27 {  // 'devices'
        Some(seq![100u8, 101u8, 118u8, 105u8, 99u8, 101u8, 115u8])
    } else if i == 28 {  // 'device-list'
        Some(seq![100u8, 101u8, 118u8, 105u8, 99u8, 101u8, 45u8, 108u8, 105u8, 115u8, 116u8])
    } else if i == 29 {  // 'key-index-list'
        Some(seq![107u8, 101u8, 121u8, 45u8, 105u8, 110u8, 100u8, 101u8, 120u8, 45u8, 108u8, 105u8, 115u8, 116u8])
    } else {
        None
    }
}

/// The first token index at or after `i` whose bytes equal `s`.
pub open spec fn first_token_from(s: Seq<u8>, i: int) -> Option<u8>
    decreases TOKEN_COUNT - i,
{
    if i < 0 || i >= TOKEN_COUNT {
        None
    } else if spec_token(i) == Some(s) {
        Some(i as u8)
    } else {
        first_token_from(s, i + 1)
    }
}

/// The single-byte token that encodes the non-empty string `s`, if any.
pub open spec fn spec_token_index(s: Seq<u8>) -> Option<u8> {
    if s.len() == 0 {
        None
    } else {
        first_token_from(s, 0)
    }
}

/// Decode a single-byte token index to its bytes, if seeded.
pub fn token_str(index: usize) -> (r: Option<Vec<u8>>)
    ensures
        r is Some <==> spec_token(index as int) is Some,
        r matches Some(v) ==> Some(v@) == spec_token(index as int),
{
    match index {
        0 => Some(vec![]),
        1 => Some(vec![120u8, 109u8, 108u8, 115u8, 116u8, 114u8, 101u8, 97u8, 109u8, 115u8, 116u8, 97u8, 114u8, 116u8]),
        2 => Some(vec![120u8, 109u8, 108u8, 115u8, 116u8, 114u8, 101u8, 97u8, 109u8, 101u8, 110u8, 100u8]),
        3 => Some(vec![115u8, 46u8, 119u8, 104u8, 97u8, 116u8, 115u8, 97u8, 112u8, 112u8, 46u8, 110u8, 101u8, 116u8]),
        4 => Some(vec![116u8, 121u8, 112u8, 101u8]),
        5 => Some(vec![112u8, 97u8, 114u8, 116u8, 105u8, 99u8, 105u8, 112u8, 97u8, 110u8, 116u8]),
        6 => Some(vec![102u8, 114u8, 111u8, 109u8]),
        7 => Some(vec![114u8, 101u8, 99u8, 101u8, 105u8, 112u8, 116u8]),
        8 => Some(vec![105u8, 100u8]),
        9 => Some(vec![98u8, 114u8, 111u8, 97u8, 100u8, 99u8, 97u8, 115u8, 116u8]),
        10 => Some(vec![115u8, 116u8, 97u8, 116u8, 117u8, 115u8]),
        11 => Some(vec![109u8, 101u8, 115u8, 115u8, 97u8, 103u8, 101u8]),
        12 => Some(vec![110u8, 111u8, 116u8, 105u8, 102u8, 105u8, 99u8, 97u8, 116u8, 105u8, 111u8, 110u8]),
        13 => Some(vec![110u8, 111u8, 116u8, 105u8, 102u8, 121u8]),
        14 => Some(vec![116u8, 111u8]),
        15 => Some(vec![106u8, 105u8, 100u8]),
        16 => Some(vec![117u8, 115u8, 101u8, 114u8]),
        17 => Some(vec![99u8, 108u8, 97u8, 115u8, 115u8]),
        18 => Some(vec![111u8, 102u8, 102u8, 108u8, 105u8, 110u8, 101u8]),
        19 => Some(vec![103u8, 46u8, 117u8, 115u8]),
        20 => Some(vec![114u8, 101u8, 115u8, 117u8, 108u8, 116u8]),
        21 => Some(vec![109u8, 101u8, 100u8, 105u8, 97u8, 116u8, 121u8, 112u8, 101u8]),
        22 => Some(vec![101u8, 110u8, 99u8]),
        23 => Some(vec![115u8, 107u8, 109u8, 115u8, 103u8]),
        24 => Some(vec![111u8, 102u8, 102u8]),
        25 => Some(vec![99u8, 111u8, 117u8, 110u8, 116u8]),
        26 => Some(vec![117u8]),
        27 => Some(vec![100u8, 101u8, 118u8, 105u8, 99u8, 101u8, 115u8]),
        28 => Some(vec![100u8, 101u8, 118u8, 105u8, 99u8, 101u8, 45u8, 108u8, 105u8, 115u8, 116u8]),
        29 => Some(vec![107u8, 101u8, 121u8, 45u8, 105u8, 110u8, 100u8, 101u8, 120u8, 45u8, 108u8, 105u8, 115u8, 116u8]),        _ => None,
    }
}

/// Whether two byte slices hold the same bytes.
pub fn bytes_eq(a: &[u8], b: &[u8]) -> (r: bool)
    ensures
        r == (a@ == b@),
{
    if a.len() != b.len() {
        return false;
    }
    let mut i: usize = 0;
    while i < a.len()
        invariant
            a@.len() == b@.len(),
            i <= a@.len(),
            forall|j: int| 0 <= j < i ==> a@[j] == b@[j],
        decreases a@.len() - i,
    {
        if a[i] != b[i] {
            return false;
        }
        i += 1;
    }
    assert(a@ =~= b@);
    true
}

/// Find the single-byte token index for a string, if it is in the dictionary.
/// Index 0 (the empty string) is handled separately by the encoder and is skipped here.
pub fn token_index(s: &[u8]) -> (r: Option<u8>)
    ensures
        r == spec_token_index(s@),
{
    if s.len() == 0 {
        return None;
    }
    let mut i: usize = 0;
    while i < TOKEN_COUNT
        invariant
            i <= TOKEN_COUNT,
            s@.len() > 0,
            first_token_from(s@, 0) == first_token_from(s@, i as int),
        decreases TOKEN_COUNT - i,
    {
        if let Some(t) = token_str(i) {
            if bytes_eq(t.as_slice(), s) {
                return Some(i as u8);
            }
        }
        i += 1;
    }
    None
}

/// Every seeded token is plain ASCII.
pub proof fn lemma_token_ascii(i: int)
    ensures
        spec_token(i) matches Some(t) ==> forall|j: int| 0 <= j < t.len() ==> t[j] < 128,
{
}

} // verus!
