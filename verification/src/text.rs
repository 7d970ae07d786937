//! Byte-level helpers for ASCII-delimited text: finding a separator, and knowing that the pieces
//! of valid UTF-8 text cut at ASCII separators are valid UTF-8 themselves.

use vstd::prelude::*;
use vstd::utf8::*;
use crate::bytes::copy_range;
use crate::codec::bytes_to_string;
use crate::node::sbytes;

verus! {

/// The position of the first `c` in `s` at or after `i`.
pub open spec fn find_from(s: Seq<u8>, c: u8, i: int) -> Option<int>
    decreases s.len() - i,
{
    if i < 0 || i >= s.len() {
        None
    } else if s[i] == c {
        Some(i)
    } else {
        find_from(s, c, i + 1)
    }
}

/// A found byte is in range and is the byte looked for, and none before it (from `i`) is.
pub proof fn lemma_find_from(s: Seq<u8>, c: u8, i: int)
    requires
        0 <= i,
    ensures
        find_from(s, c, i) matches Some(j) ==> i <= j < s.len() && s[j] == c
            && forall|k: int| i <= k < j ==> s[k] != c,
        find_from(s, c, i) is None ==> forall|k: int| i <= k < s.len() ==> s[k] != c,
    decreases s.len() - i,
{
    if i < s.len() && s[i] != c {
        lemma_find_from(s, c, i + 1);
    }
}

/// The position of the first `c` in `s`.
pub fn find_byte(s: &[u8], c: u8) -> (r: Option<usize>)
    ensures
        r matches Some(j) ==> find_from(s@, c, 0) == Some(j as int),
        r is None ==> find_from(s@, c, 0) is None,
{
    let mut i: usize = 0;
    while i < s.len()
        invariant
            i <= s@.len(),
            find_from(s@, c, 0) == find_from(s@, c, i as int),
        decreases s@.len() - i,
    {
        if s[i] == c {
            return Some(i);
        }
        i += 1;
    }
    None
}

/// Cutting valid UTF-8 text at an ASCII byte leaves valid UTF-8 on both sides.
pub proof fn lemma_ascii_split(b: Seq<u8>, k: int)
    requires
        valid_utf8(b),
        0 <= k < b.len(),
        b[k] < 128,
    ensures
        valid_utf8(b.subrange(0, k)),
        valid_utf8(b.subrange(k + 1, b.len() as int)),
{
    is_char_boundary_iff_not_is_continuation_byte(b, k);
    valid_utf8_split(b, k);
    let rest = b.subrange(k, b.len() as int);
    assert(valid_utf8(rest));
    assert(pop_first_scalar(rest) =~= b.subrange(k + 1, b.len() as int));
}

/// The text of a slice of valid UTF-8.
pub fn string_of(b: &[u8]) -> (r: String)
    requires
        valid_utf8(b@),
    ensures
        sbytes(r) == b@,
{
    let v = copy_range(b, 0, b.len());
    assert(b@.subrange(0, b@.len() as int) =~= b@);
    bytes_to_string(v)
}

} // verus!
