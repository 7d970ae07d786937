//! Lossless encoder/decoder between [`Node`] trees and the binary node format.

use vstd::prelude::*;
use vstd::utf8::*;
use vstd::string::StringSliceAdditionalSpecFns;
use crate::bytes::append_bytes;
use crate::node::{attrs_view, lemma_nodes_view_index, lemma_nodes_view_len, node_view, nodes_view, sbytes, ContentV, Error, Node, NodeContent, NodeV};
use crate::tag::{
    AD_JID, BINARY_20, BINARY_32, BINARY_8, DICTIONARY_0, DICTIONARY_3, HEX_8, JID_PAIR, LIST_16,
    LIST_8, LIST_EMPTY, NIBBLE_8, STREAM_END,
};
use crate::token::{first_token_from, spec_token, spec_token_index, token_index, token_str};

verus! {

// ----------------------------------------------------------------------------------------------
// The wire format, as a specification
// ----------------------------------------------------------------------------------------------

/// The list-size header for a list of `n` elements (sizes above 65535 keep only the low 16 bits).
pub open spec fn spec_list_start(n: nat) -> Seq<u8> {
    if n == 0 {
        seq![LIST_EMPTY]
    } else if n < 256 {
        seq![LIST_8, n as u8]
    } else {
        seq![LIST_16, ((n % 65536) / 256) as u8, (n % 256) as u8]
    }
}

/// A length-prefixed binary blob, or the length when it does not fit the 32-bit length field.
pub open spec fn spec_binary(b: Seq<u8>) -> Result<Seq<u8>, int> {
    let n = b.len();
    if n < 256 {
        Ok(seq![BINARY_8, n as u8] + b)
    } else if n < 1048576 {
        Ok(seq![BINARY_20, (n / 65536) as u8, ((n / 256) % 256) as u8, (n % 256) as u8] + b)
    } else if n <= 0xffff_ffff {
        Ok(seq![BINARY_32, (n / 16777216) as u8, ((n / 65536) % 256) as u8, ((n / 256) % 256) as u8, (n % 256) as u8] + b)
    } else {
        Err(n as int)
    }
}

/// Characters of a numeric run: digits, `-` and `.`.
pub open spec fn is_nibble_char(c: u8) -> bool {
    (48 <= c <= 57) || c == 45 || c == 46
}

/// Characters of an uppercase hex run.
pub open spec fn is_hex_char(c: u8) -> bool {
    (48 <= c <= 57) || (65 <= c <= 70)
}

/// A numeric run packable with `NIBBLE_8` (bounded so the byte count fits 7 bits).
pub open spec fn spec_all_nibble(s: Seq<u8>) -> bool {
    0 < s.len() <= 254 && forall|i: int| 0 <= i < s.len() ==> is_nibble_char(#[trigger] s[i])
}

/// An even-length uppercase hex run packable with `HEX_8`.
pub open spec fn spec_all_hex(s: Seq<u8>) -> bool {
    0 < s.len() <= 254 && s.len() % 2 == 0 && forall|i: int| 0 <= i < s.len() ==> is_hex_char(#[trigger] s[i])
}

/// The 4-bit packed value of a character.
pub open spec fn spec_nib_value(c: u8, hex: bool) -> u8 {
    if 48 <= c <= 57 {
        (c - 48) as u8
    } else if hex && 65 <= c <= 70 {
        (c - 55) as u8
    } else if !hex && c == 45 {
        10
    } else if !hex && c == 46 {
        11
    } else {
        0
    }
}

/// The character (as its byte) of a 4-bit packed value; `0` for values with no character.
pub open spec fn spec_nib_char(v: u8, hex: bool) -> u8 {
    if v <= 9 {
        (48 + v) as u8
    } else if hex && v <= 15 {
        (55 + v) as u8
    } else if !hex && v == 10 {
        45
    } else if !hex && v == 11 {
        46
    } else {
        0
    }
}

/// One packed byte: two characters, high nibble first.
pub open spec fn pack_byte(a: u8, b: u8, hex: bool) -> u8 {
    (spec_nib_value(a, hex) * 16 + spec_nib_value(b, hex)) as u8
}

/// The packed bytes of an even-length run.
pub open spec fn pack_even(t: Seq<u8>, hex: bool) -> Seq<u8>
    decreases t.len(),
{
    if t.len() < 2 {
        Seq::empty()
    } else {
        pack_even(t.subrange(0, t.len() - 2), hex).push(pack_byte(t[t.len() - 2], t[t.len() - 1], hex))
    }
}

/// A packed `NIBBLE_8` / `HEX_8` string: marker, start byte (byte count, high bit when odd),
/// the packed pairs, and for odd runs the last character padded with `0xf`.
pub open spec fn spec_packed(s: Seq<u8>, hex: bool) -> Seq<u8> {
    let n = s.len();
    let odd = n % 2 == 1;
    let n_bytes = (n + 1) / 2;
    let start = if odd { (n_bytes + 128) as u8 } else { n_bytes as u8 };
    let tail = if odd { seq![(spec_nib_value(s[n - 1], hex) * 16 + 15) as u8] } else { Seq::<u8>::empty() };
    seq![if hex { HEX_8 } else { NIBBLE_8 }, start] + pack_even(s.subrange(0, 2 * (n / 2) as int), hex) + tail
}

/// The first position at or after `i` holding `@`.
pub open spec fn find_at_from(s: Seq<u8>, i: int) -> Option<int>
    decreases s.len() - i,
{
    if i < 0 || i >= s.len() {
        None
    } else if s[i] == 64 {
        Some(i)
    } else {
        find_at_from(s, i + 1)
    }
}

/// The search for `@` from `i` finds the first `@` at or after `i`, or reports that there is none.
pub proof fn lemma_find_at_from(s: Seq<u8>, i: int)
    ensures
        find_at_from(s, i) matches Some(k) ==> i <= k < s.len() && s[k] == 64
            && forall|j: int| i <= j < k ==> s[j] != 64,
        find_at_from(s, i) is None ==> forall|j: int| 0 <= i <= j < s.len() ==> s[j] != 64,
    decreases s.len() - i,
{
    if 0 <= i < s.len() && s[i] != 64 {
        lemma_find_at_from(s, i + 1);
    }
}

/// The encoding of a string in a string position: the cheapest of the empty token, a dictionary
/// token, a `user@server` pair, a packed run, or a raw blob. `Err(n)` when a raw blob of `n`
/// bytes does not fit the 32-bit length field.
pub open spec fn spec_enc_str(s: Seq<u8>) -> Result<Seq<u8>, int>
    decreases s.len(),
{
    if s.len() == 0 {
        Ok(seq![LIST_EMPTY])
    } else if spec_token_index(s) is Some {
        Ok(seq![spec_token_index(s)->Some_0])
    } else if find_at_from(s, 0) is Some {
        let k = find_at_from(s, 0)->Some_0;
        proof {
            lemma_find_at_from(s, 0);
        }
        match spec_enc_str(s.subrange(0, k)) {
            Err(e) => Err(e),
            Ok(u) => match spec_enc_str(s.subrange(k + 1, s.len() as int)) {
                Err(e) => Err(e),
                Ok(v) => Ok(seq![JID_PAIR] + u + v),
            },
        }
    } else if spec_all_nibble(s) {
        Ok(spec_packed(s, false))
    } else if spec_all_hex(s) {
        Ok(spec_packed(s, true))
    } else {
        spec_binary(s)
    }
}

/// The encoding of an attribute list: each key then its value.
pub open spec fn spec_enc_attrs(a: Seq<(Seq<u8>, Seq<u8>)>) -> Result<Seq<u8>, int>
    decreases a.len(),
{
    if a.len() == 0 {
        Ok(Seq::empty())
    } else {
        match spec_enc_attrs(a.subrange(0, a.len() - 1)) {
            Err(e) => Err(e),
            Ok(prefix) => match spec_enc_str(a[a.len() - 1].0) {
                Err(e) => Err(e),
                Ok(k) => match spec_enc_str(a[a.len() - 1].1) {
                    Err(e) => Err(e),
                    Ok(v) => Ok(prefix + k + v),
                },
            },
        }
    }
}

/// The number of list elements a node occupies: the description, two per attribute, and one
/// when content follows.
pub open spec fn node_size(n: NodeV) -> nat {
    1 + 2 * n.attrs.len() + if n.content is Empty { 0nat } else { 1nat }
}

/// The encoding of a node.
pub open spec fn spec_enc_node(n: NodeV) -> Result<Seq<u8>, int>
    decreases n, 1nat,
{
    match spec_enc_str(n.tag) {
        Err(e) => Err(e),
        Ok(t) => match spec_enc_attrs(n.attrs) {
            Err(e) => Err(e),
            Ok(a) => match spec_enc_content(n.content) {
                Err(e) => Err(e),
                Ok(c) => Ok(spec_list_start(node_size(n)) + t + a + c),
            },
        },
    }
}

/// The encoding of a node body.
pub open spec fn spec_enc_content(c: ContentV) -> Result<Seq<u8>, int>
    decreases c, 0nat,
{
    match c {
        ContentV::Empty => Ok(Seq::empty()),
        ContentV::Bytes(b) => spec_binary(b),
        ContentV::Nodes(ns) => match spec_enc_nodes(ns) {
            Err(e) => Err(e),
            Ok(body) => Ok(spec_list_start(ns.len()) + body),
        },
    }
}

/// The concatenated encodings of a list of nodes.
pub open spec fn spec_enc_nodes(ns: Seq<NodeV>) -> Result<Seq<u8>, int>
    decreases ns, 0nat,
{
    if ns.len() == 0 {
        Ok(Seq::empty())
    } else {
        match spec_enc_nodes(ns.subrange(0, ns.len() - 1)) {
            Err(e) => Err(e),
            Ok(prefix) => match spec_enc_node(ns[ns.len() - 1]) {
                Err(e) => Err(e),
                Ok(last) => Ok(prefix + last),
            },
        }
    }
}


/// Sizes that the encoder's `usize` arithmetic can hold: for every node, the list size
/// `1 + 2 * attributes + 1` does not overflow `usize` (where it would, the list-size arithmetic
/// overflows).
pub open spec fn sizes_fit(n: NodeV) -> bool
    decreases n,
{
    &&& 2 * n.attrs.len() + 2 <= usize::MAX
    &&& match n.content {
        ContentV::Nodes(ns) => forall|i: int| 0 <= i < ns.len() ==> sizes_fit(#[trigger] ns[i]),
        _ => true,
    }
}

// ----------------------------------------------------------------------------------------------
// Encoder
// ----------------------------------------------------------------------------------------------

struct Encoder {
    buf: Vec<u8>,
}

/// The 4-bit packed value of a character.
fn nib_value(c: u8, hex: bool) -> (r: u8)
    ensures
        r == spec_nib_value(c, hex),
{
    if 48 <= c && c <= 57 {
        c - 48
    } else if hex && 65 <= c && c <= 70 {
        c - 55
    } else if !hex && c == 45 {
        10
    } else if !hex && c == 46 {
        11
    } else {
        0
    }
}

/// The first position of `@` in `s`.
fn find_at(s: &[u8]) -> (r: Option<usize>)
    ensures
        r matches Some(k) ==> find_at_from(s@, 0) == Some(k as int),
        r is None ==> find_at_from(s@, 0) is None,
{
    let mut i: usize = 0;
    while i < s.len()
        invariant
            i <= s@.len(),
            find_at_from(s@, 0) == find_at_from(s@, i as int),
        decreases s@.len() - i,
    {
        if s[i] == 64 {
            return Some(i);
        }
        i += 1;
    }
    None
}

/// A numeric run packable with `NIBBLE_8`.
fn is_all_nibble(s: &[u8]) -> (r: bool)
    ensures
        r == spec_all_nibble(s@),
{
    if s.len() == 0 || s.len() > 254 {
        return false;
    }
    let mut i: usize = 0;
    while i < s.len()
        invariant
            i <= s@.len(),
            forall|j: int| 0 <= j < i ==> is_nibble_char(#[trigger] s@[j]),
        decreases s@.len() - i,
    {
        let c = s[i];
        if !((48 <= c && c <= 57) || c == 45 || c == 46) {
            return false;
        }
        i += 1;
    }
    true
}

/// An even-length uppercase hex run packable with `HEX_8`.
fn is_all_hex(s: &[u8]) -> (r: bool)
    ensures
        r == spec_all_hex(s@),
{
    if s.len() == 0 || s.len() > 254 || s.len() % 2 != 0 {
        return false;
    }
    let mut i: usize = 0;
    while i < s.len()
        invariant
            i <= s@.len(),
            forall|j: int| 0 <= j < i ==> is_hex_char(#[trigger] s@[j]),
        decreases s@.len() - i,
    {
        let c = s[i];
        if !((48 <= c && c <= 57) || (65 <= c && c <= 70)) {
            return false;
        }
        i += 1;
    }
    true
}

impl Encoder {
    fn write_list_start(&mut self, size: usize)
        ensures
            final(self).buf@ == old(self).buf@ + spec_list_start(size as nat),
    {
        if size == 0 {
            self.buf.push(LIST_EMPTY);
        } else if size < 256 {
            self.buf.push(LIST_8);
            self.buf.push(size as u8);
        } else {
            let v = size as u16;
            let hi = (v >> 8) as u8;
            let lo = (v & 0xff) as u8;
            assert(hi == ((size % 65536) / 256) as u8 && lo == (size % 256) as u8) by (bit_vector)
                requires
                    v == size as u16,
                    hi == (v >> 8) as u8,
                    lo == (v & 0xff) as u8,
            ;
            self.buf.push(LIST_16);
            self.buf.push(hi);
            self.buf.push(lo);
        }
        assert(final(self).buf@ =~= old(self).buf@ + spec_list_start(size as nat));
    }

    fn write_binary(&mut self, b: &[u8]) -> (r: Result<(), Error>)
        ensures
            spec_binary(b@) matches Ok(e) ==> r is Ok && final(self).buf@ == old(self).buf@ + e,
            spec_binary(b@) matches Err(n) ==> r matches Err(Error::TooLarge(m)) && m == n,
    {
        let len = b.len();
        if len < 256 {
            self.buf.push(BINARY_8);
            self.buf.push(len as u8);
        } else if len < 1048576 {
            let b0 = ((len >> 16) & 0xff) as u8;
            let b1 = ((len >> 8) & 0xff) as u8;
            let b2 = (len & 0xff) as u8;
            assert(b0 == (len / 65536) as u8 && b1 == ((len / 256) % 256) as u8 && b2 == (len % 256) as u8)
                by (bit_vector)
                requires
                    len < 1048576usize,
                    b0 == ((len >> 16) & 0xff) as u8,
                    b1 == ((len >> 8) & 0xff) as u8,
                    b2 == (len & 0xff) as u8,
            ;
            self.buf.push(BINARY_20);
            self.buf.push(b0);
            self.buf.push(b1);
            self.buf.push(b2);
        } else if len as u64 <= 0xffff_ffffu64 {
            let v = len as u64;
            let b0 = ((v >> 24) & 0xff) as u8;
            let b1 = ((v >> 16) & 0xff) as u8;
            let b2 = ((v >> 8) & 0xff) as u8;
            let b3 = (v & 0xff) as u8;
            assert(b0 == (v / 16777216) as u8 && b1 == ((v / 65536) % 256) as u8
                && b2 == ((v / 256) % 256) as u8 && b3 == (v % 256) as u8) by (bit_vector)
                requires
                    v <= 0xffff_ffffu64,
                    b0 == ((v >> 24) & 0xff) as u8,
                    b1 == ((v >> 16) & 0xff) as u8,
                    b2 == ((v >> 8) & 0xff) as u8,
                    b3 == (v & 0xff) as u8,
            ;
            self.buf.push(BINARY_32);
            self.buf.push(b0);
            self.buf.push(b1);
            self.buf.push(b2);
            self.buf.push(b3);
        } else {
            return Err(Error::TooLarge(len));
        }
        let ghost mid = self.buf@;
        append_bytes(&mut self.buf, b);
        assert(final(self).buf@ =~= old(self).buf@ + spec_binary(b@)->Ok_0);
        Ok(())
    }

    /// Pack a numeric (`NIBBLE_8`) or hex (`HEX_8`) string two characters per byte.
    fn write_packed(&mut self, s: &[u8], hex: bool)
        requires
            hex ==> spec_all_hex(s@),
            !hex ==> spec_all_nibble(s@),
        ensures
            final(self).buf@ == old(self).buf@ + spec_packed(s@, hex),
    {
        self.buf.push(if hex { HEX_8 } else { NIBBLE_8 });
        let len = s.len();
        let n_bytes = (len + 1) / 2;
        let odd = len % 2 == 1;
        let start = (n_bytes as u8) | if odd { 0x80u8 } else { 0u8 };
        assert(start == if odd { (n_bytes + 128) as u8 } else { n_bytes as u8 }) by (bit_vector)
            requires
                n_bytes <= 127usize,
                start == (n_bytes as u8) | if odd { 0x80u8 } else { 0u8 },
        ;
        self.buf.push(start);
        let ghost head = self.buf@;
        let mut i: usize = 0;
        while i + 1 < len
            invariant
                len == s@.len(),
                len <= 254,
                i <= len,
                i % 2 == 0,
                self.buf@ == head + pack_even(s@.subrange(0, i as int), hex),
            decreases len - i,
        {
            let hi = nib_value(s[i], hex);
            let lo = nib_value(s[i + 1], hex);
            let byte = (hi << 4) | lo;
            assert(spec_nib_value(s@[i as int], hex) < 16 && spec_nib_value(s@[i + 1], hex) < 16);
            assert(byte == (hi * 16 + lo) as u8) by (bit_vector)
                requires
                    hi < 16u8,
                    lo < 16u8,
                    byte == (hi << 4) | lo,
            ;
            self.buf.push(byte);
            let ghost t = s@.subrange(0, i + 2);
            assert(t.subrange(0, t.len() - 2) =~= s@.subrange(0, i as int));
            i += 2;
        }
        assert(i == 2 * (len / 2));
        if odd {
            let hi = nib_value(s[i], hex);
            assert(spec_nib_value(s@[i as int], hex) < 16);
            let byte = (hi << 4) | 0x0f;
            assert(byte == (hi * 16 + 15) as u8) by (bit_vector)
                requires
                    hi < 16u8,
                    byte == (hi << 4) | 0x0f,
            ;
            self.buf.push(byte);
        }
        assert(final(self).buf@ =~= old(self).buf@ + spec_packed(s@, hex));
    }

    fn write_jid_pair(&mut self, user: &[u8], server: &[u8]) -> (r: Result<(), Error>)
        ensures
            match (spec_enc_str(user@), spec_enc_str(server@)) {
                (Err(e), _) => r matches Err(Error::TooLarge(m)) && m == e,
                (Ok(_), Err(e)) => r matches Err(Error::TooLarge(m)) && m == e,
                (Ok(u), Ok(v)) => r is Ok && final(self).buf@ == old(self).buf@ + seq![JID_PAIR] + u + v,
            },
        decreases user@.len() + server@.len() + 1, 0nat,
    {
        self.buf.push(JID_PAIR);
        if user.len() == 0 {
            self.buf.push(LIST_EMPTY);
        } else {
            self.write_string(user)?;
        }
        self.write_string(server)
    }

    fn write_string(&mut self, s: &[u8]) -> (r: Result<(), Error>)
        ensures
            spec_enc_str(s@) matches Ok(e) ==> r is Ok && final(self).buf@ == old(self).buf@ + e,
            spec_enc_str(s@) matches Err(n) ==> r matches Err(Error::TooLarge(m)) && m == n,
        decreases s@.len(), 1nat,
    {
        if s.len() == 0 {
            self.buf.push(LIST_EMPTY);
            return Ok(());
        }
        if let Some(idx) = token_index(s) {
            self.buf.push(idx);
            return Ok(());
        }
        if let Some(k) = find_at(s) {
            proof {
                lemma_find_at_from(s@, 0);
            }
            let user = &s[0..k];
            let server = &s[k + 1..s.len()];
            return self.write_jid_pair(user, server);
        }
        if is_all_nibble(s) {
            self.write_packed(s, false);
            return Ok(());
        }
        if is_all_hex(s) {
            self.write_packed(s, true);
            return Ok(());
        }
        self.write_binary(s)
    }
}


/// Once a prefix of an attribute list fails to encode, the whole list fails the same way.
proof fn lemma_enc_attrs_prefix_err(a: Seq<(Seq<u8>, Seq<u8>)>, j: int)
    requires
        0 <= j <= a.len(),
        spec_enc_attrs(a.subrange(0, j)) is Err,
    ensures
        spec_enc_attrs(a) == spec_enc_attrs(a.subrange(0, j)),
    decreases a.len() - j,
{
    if j == a.len() {
        assert(a.subrange(0, j) =~= a);
    } else {
        let a2 = a.subrange(0, a.len() - 1);
        assert(a2.subrange(0, j) =~= a.subrange(0, j));
        lemma_enc_attrs_prefix_err(a2, j);
    }
}

/// Once a prefix of a node list fails to encode, the whole list fails the same way.
proof fn lemma_enc_nodes_prefix_err(a: Seq<NodeV>, j: int)
    requires
        0 <= j <= a.len(),
        spec_enc_nodes(a.subrange(0, j)) is Err,
    ensures
        spec_enc_nodes(a) == spec_enc_nodes(a.subrange(0, j)),
    decreases a.len() - j,
{
    if j == a.len() {
        assert(a.subrange(0, j) =~= a);
    } else {
        let a2 = a.subrange(0, a.len() - 1);
        assert(a2.subrange(0, j) =~= a.subrange(0, j));
        lemma_enc_nodes_prefix_err(a2, j);
    }
}

/// The bytes of a `String`.
fn str_bytes(s: &String) -> (r: &[u8])
    ensures
        r@ == sbytes(*s),
{
    s.as_str().as_bytes()
}

impl Encoder {
    fn write_node(&mut self, n: &Node) -> (r: Result<(), Error>)
        requires
            sizes_fit(node_view(*n)),
        ensures
            spec_enc_node(node_view(*n)) matches Ok(e) ==> r is Ok && final(self).buf@ == old(self).buf@ + e,
            spec_enc_node(node_view(*n)) matches Err(m) ==> r matches Err(Error::TooLarge(x)) && x == m,
        decreases n,
    {
        let ghost nv = node_view(*n);
        let ghost base = self.buf@;
        let has_content = n.content.is_present();
        let size = 1 + n.attrs.len() * 2 + if has_content { 1usize } else { 0usize };
        assert(size == node_size(nv));
        self.write_list_start(size);
        let ghost head = self.buf@;
        self.write_string(str_bytes(&n.tag))?;
        let ghost after_tag = self.buf@;
        let mut i: usize = 0;
        while i < n.attrs.len()
            invariant
                i <= n.attrs@.len(),
                nv == node_view(*n),
                spec_enc_str(nv.tag) is Ok,
                after_tag == head + spec_enc_str(nv.tag)->Ok_0,
                head == base + spec_list_start(node_size(nv)),
                spec_enc_attrs(attrs_view(n.attrs@.subrange(0, i as int))) is Ok,
                self.buf@ == after_tag + spec_enc_attrs(attrs_view(n.attrs@.subrange(0, i as int)))->Ok_0,
            decreases n.attrs@.len() - i,
        {
            let ghost cur = attrs_view(n.attrs@.subrange(0, i as int));
            let ghost next = attrs_view(n.attrs@.subrange(0, i + 1));
            assert(next.subrange(0, next.len() - 1) =~= cur);
            assert(next[next.len() - 1] == (sbytes(n.attrs@[i as int].0), sbytes(n.attrs@[i as int].1)));
            let r1 = self.write_string(str_bytes(&n.attrs[i].0));
            if r1.is_err() {
                proof {
                    lemma_enc_attrs_prefix_err(attrs_view(n.attrs@), i + 1);
                    assert(attrs_view(n.attrs@).subrange(0, i + 1) =~= next);
                }
                return r1;
            }
            let r2 = self.write_string(str_bytes(&n.attrs[i].1));
            if r2.is_err() {
                proof {
                    lemma_enc_attrs_prefix_err(attrs_view(n.attrs@), i + 1);
                    assert(attrs_view(n.attrs@).subrange(0, i + 1) =~= next);
                }
                return r2;
            }
            i += 1;
        }
        assert(n.attrs@.subrange(0, n.attrs@.len() as int) =~= n.attrs@);
        let ghost after_attrs = self.buf@;
        match &n.content {
            NodeContent::Empty => {},
            NodeContent::Bytes(b) => {
                self.write_binary(b.as_slice())?;
            },
            NodeContent::Nodes(children) => {
                self.write_list_start(children.len());
                let ghost after_len = self.buf@;
                proof {
                    crate::node::lemma_nodes_view_len(children@);
                }
                let mut j: usize = 0;
                while j < children.len()
                    invariant
                        j <= children@.len(),
                        nv == node_view(*n),
                        n.content == NodeContent::Nodes(*children),
                        sizes_fit(nv),
                        spec_enc_str(nv.tag) is Ok,
                        spec_enc_attrs(nv.attrs) is Ok,
                        nodes_view(children@).len() == children@.len(),
                        spec_enc_nodes(nodes_view(children@.subrange(0, j as int))) is Ok,
                        self.buf@ == after_len + spec_enc_nodes(nodes_view(children@.subrange(0, j as int)))->Ok_0,
                    decreases children@.len() - j,
                {
                    proof {
                        crate::node::lemma_nodes_view_index(children@, j as int);
                        assert(children@.subrange(0, j + 1) =~= children@.subrange(0, j as int).push(children@[j as int]));
                        crate::node::lemma_nodes_view_push(children@.subrange(0, j as int), children@[j as int]);
                        let nx = nodes_view(children@.subrange(0, j + 1));
                        assert(nx.subrange(0, nx.len() - 1) =~= nodes_view(children@.subrange(0, j as int)));
                    }
                    let rc = self.write_node(&children[j]);
                    if rc.is_err() {
                        proof {
                            let all = nodes_view(children@);
                            crate::node::lemma_nodes_view_len(children@.subrange(0, j + 1));
                            assert forall|k: int| 0 <= k < j + 1 implies #[trigger] all.subrange(0, j + 1)[k] == nodes_view(children@.subrange(0, j + 1))[k] by {
                                crate::node::lemma_nodes_view_index(children@, k);
                                crate::node::lemma_nodes_view_index(children@.subrange(0, j + 1), k);
                            }
                            assert(all.subrange(0, j + 1) =~= nodes_view(children@.subrange(0, j + 1)));
                            lemma_enc_nodes_prefix_err(all, j + 1);
                            let nx = nodes_view(children@.subrange(0, j + 1));
                            assert(nx == nodes_view(children@.subrange(0, j as int)).push(node_view(children@[j as int])));
                            assert(nx[nx.len() - 1] == node_view(children@[j as int]));
                            assert(spec_enc_nodes(nx) is Err);
                            assert(nv.content == ContentV::Nodes(nodes_view(children@)));
                            assert(spec_enc_content(nv.content) == spec_enc_nodes(nx));
                        }
                        return rc;
                    }
                    j += 1;
                }
                assert(children@.subrange(0, children@.len() as int) =~= children@);
            },
        }
        assert(final(self).buf@ =~= old(self).buf@ + spec_enc_node(nv)->Ok_0);
        Ok(())
    }
}

/// Serialize a [`Node`] into its binary byte representation.
pub fn marshal(node: &Node) -> (r: Result<Vec<u8>, Error>)
    requires
        sizes_fit(node_view(*node)),
    ensures
        spec_enc_node(node_view(*node)) matches Ok(e) ==> r matches Ok(b) && b@ == e,
        spec_enc_node(node_view(*node)) matches Err(m) ==> r matches Err(Error::TooLarge(x)) && x == m,
{
    let mut enc = Encoder { buf: Vec::new() };
    enc.write_node(node)?;
    assert(enc.buf@ =~= spec_enc_node(node_view(*node))->Ok_0);
    Ok(enc.buf)
}


// ----------------------------------------------------------------------------------------------
// The decoder, as a specification
// ----------------------------------------------------------------------------------------------

/// The model of a decoding error (an invalid node carries the bytes of its message).
pub enum DecodeError {
    Eof(int),
    InvalidNode(Seq<u8>),
    UnknownToken(int),
    Utf8,
}

/// An error value and the modelled error it stands for.
pub open spec fn err_rel(x: Error, e: DecodeError) -> bool {
    match (x, e) {
        (Error::Eof(a), DecodeError::Eof(b)) => a == b,
        (Error::InvalidNode(m), DecodeError::InvalidNode(t)) => sbytes(m) == t,
        (Error::UnknownToken(a), DecodeError::UnknownToken(b)) => a == b,
        (Error::Utf8, DecodeError::Utf8) => true,
        _ => false,
    }
}

/// One byte at position `p`.
pub open spec fn sp_u8(d: Seq<u8>, p: int) -> Result<(u8, int), DecodeError> {
    if 0 <= p < d.len() {
        Ok((d[p], p + 1))
    } else {
        Err(DecodeError::Eof(p))
    }
}

/// A 16-bit big-endian value.
pub open spec fn sp_u16(d: Seq<u8>, p: int) -> Result<(int, int), DecodeError> {
    match sp_u8(d, p) {
        Err(e) => Err(e),
        Ok((a, p1)) => match sp_u8(d, p1) {
            Err(e) => Err(e),
            Ok((b, p2)) => Ok((a * 256 + b, p2)),
        },
    }
}

/// A 20-bit big-endian value (the top nibble of the first byte is ignored).
pub open spec fn sp_u20(d: Seq<u8>, p: int) -> Result<(int, int), DecodeError> {
    match sp_u8(d, p) {
        Err(e) => Err(e),
        Ok((a, p1)) => match sp_u8(d, p1) {
            Err(e) => Err(e),
            Ok((b, p2)) => match sp_u8(d, p2) {
                Err(e) => Err(e),
                Ok((c, p3)) => Ok(((a % 16) * 65536 + b * 256 + c, p3)),
            },
        },
    }
}

/// A 32-bit big-endian value.
pub open spec fn sp_u32(d: Seq<u8>, p: int) -> Result<(int, int), DecodeError> {
    match sp_u16(d, p) {
        Err(e) => Err(e),
        Ok((hi, p1)) => match sp_u16(d, p1) {
            Err(e) => Err(e),
            Ok((lo, p2)) => Ok((hi * 65536 + lo, p2)),
        },
    }
}

/// `n` raw bytes.
pub open spec fn sp_bytes(d: Seq<u8>, p: int, n: int) -> Result<(Seq<u8>, int), DecodeError> {
    if 0 <= p && 0 <= n && p + n <= d.len() {
        Ok((d.subrange(p, p + n), p + n))
    } else {
        Err(DecodeError::Eof(p))
    }
}

/// `n` bytes that must form valid UTF-8.
pub open spec fn sp_utf8(d: Seq<u8>, p: int, n: int) -> Result<(Seq<u8>, int), DecodeError> {
    match sp_bytes(d, p, n) {
        Err(e) => Err(e),
        Ok((b, q)) => if valid_utf8(b) { Ok((b, q)) } else { Err(DecodeError::Utf8) },
    }
}

/// The size of a list whose tag byte was `t`.
pub open spec fn sp_list_size(d: Seq<u8>, p: int, t: u8) -> Result<(int, int), DecodeError> {
    if t == LIST_EMPTY {
        Ok((0, p))
    } else if t == LIST_8 {
        match sp_u8(d, p) {
            Err(e) => Err(e),
            Ok((v, q)) => Ok((v as int, q)),
        }
    } else if t == LIST_16 {
        sp_u16(d, p)
    } else {
        Err(DecodeError::InvalidNode("expected list tag, got ".spec_bytes() + spec_dec_u8(t)))
    }
}

/// The two characters of a packed byte, or one when it ends an odd numeric run with padding.
pub open spec fn unpack_last(x: u8, hex: bool, odd: bool) -> Seq<u8> {
    if odd && !hex && x % 16 == 15 {
        seq![spec_nib_char(x / 16, hex)]
    } else {
        seq![spec_nib_char(x / 16, hex), spec_nib_char(x % 16, hex)]
    }
}

/// Every byte as its two characters.
pub open spec fn unpack_full(b: Seq<u8>, hex: bool) -> Seq<u8>
    decreases b.len(),
{
    if b.len() == 0 {
        Seq::empty()
    } else {
        unpack_full(b.subrange(0, b.len() - 1), hex) + unpack_last(b[b.len() - 1], hex, false)
    }
}

/// The characters of a packed run of bytes.
pub open spec fn spec_unpack(b: Seq<u8>, hex: bool, odd: bool) -> Seq<u8> {
    if b.len() == 0 {
        Seq::empty()
    } else {
        unpack_full(b.subrange(0, b.len() - 1), hex) + unpack_last(b[b.len() - 1], hex, odd)
    }
}

/// A packed run: the start byte (byte count, high bit set for odd runs) then the bytes.
pub open spec fn sp_packed(d: Seq<u8>, p: int, hex: bool) -> Result<(Seq<u8>, int), DecodeError> {
    match sp_u8(d, p) {
        Err(e) => Err(e),
        Ok((start, p1)) => match sp_bytes(d, p1, (start % 128) as int) {
            Err(e) => Err(e),
            Ok((b, p2)) => Ok((spec_unpack(b, hex, start >= 128), p2)),
        },
    }
}

/// The decimal digits of a byte value.
pub open spec fn spec_dec_u8(v: u8) -> Seq<u8> {
    if v < 10 {
        seq![(48 + v) as u8]
    } else if v < 100 {
        seq![(48 + v / 10) as u8, (48 + v % 10) as u8]
    } else {
        seq![(48 + v / 100) as u8, (48 + (v / 10) % 10) as u8, (48 + v % 10) as u8]
    }
}

/// `@s.whatsapp.net`.
pub open spec fn at_default_server() -> Seq<u8> {
    seq![64u8, 115u8, 46u8, 119u8, 104u8, 97u8, 116u8, 115u8, 97u8, 112u8, 112u8, 46u8, 110u8, 101u8, 116u8]
}

/// What follows the user of an agent/device-addressed JID: `.agent` when the agent is not 0,
/// `:device` when the device is not 0, then `@s.whatsapp.net` (the JID form
/// `user[.agent][:device]@server`).
pub open spec fn ad_suffix(agent: u8, device: u8) -> Seq<u8> {
    (if agent == 0 { Seq::empty() } else { seq![46u8] + spec_dec_u8(agent) })
        + (if device == 0 { Seq::empty() } else { seq![58u8] + spec_dec_u8(device) })
        + at_default_server()
}

/// The message for tag `t` found in a string position.
#[verifier::opaque]
pub open spec fn string_position_message(t: u8) -> Seq<u8> {
    "tag ".spec_bytes() + spec_dec_u8(t) + " is not valid in a string position".spec_bytes()
}

/// The string found at a string position whose tag byte was `t`.
pub open spec fn sp_string(d: Seq<u8>, p: int, t: u8) -> Result<(Seq<u8>, int), DecodeError>
    decreases d.len() - p,
{
    if t <= 235 {
        match spec_token(t as int) {
            Some(s) => Ok((s, p)),
            None => Err(DecodeError::UnknownToken(t as int)),
        }
    } else if DICTIONARY_0 <= t <= DICTIONARY_3 {
        match sp_u8(d, p) {
            Err(e) => Err(e),
            Ok((idx, _)) => Err(DecodeError::UnknownToken((t - DICTIONARY_0) * 256 + idx)),
        }
    } else if t == AD_JID {
        match sp_u8(d, p) {
            Err(e) => Err(e),
            Ok((agent, p1)) => match sp_u8(d, p1) {
                Err(e) => Err(e),
                Ok((device, p2)) => match sp_u8(d, p2) {
                    Err(e) => Err(e),
                    Ok((ut, p3)) => match sp_string(d, p3, ut) {
                        Err(e) => Err(e),
                        Ok((user, p4)) => Ok((user + ad_suffix(agent, device), p4)),
                    },
                },
            },
        }
    } else if t == JID_PAIR {
        match sp_u8(d, p) {
            Err(e) => Err(e),
            Ok((ut, p1)) => match sp_string(d, p1, ut) {
                Err(e) => Err(e),
                Ok((user, p2)) => if p2 < p1 || p2 > d.len() {
                    Err(DecodeError::InvalidNode(Seq::empty()))  // never taken: reading only moves forward
                } else {
                    match sp_u8(d, p2) {
                        Err(e) => Err(e),
                        Ok((st, p3)) => match sp_string(d, p3, st) {
                            Err(e) => Err(e),
                            Ok((server, p4)) => Ok((user + seq![64u8] + server, p4)),
                        },
                    }
                },
            },
        }
    } else if t == HEX_8 {
        sp_packed(d, p, true)
    } else if t == NIBBLE_8 {
        sp_packed(d, p, false)
    } else if t == BINARY_8 {
        match sp_u8(d, p) {
            Err(e) => Err(e),
            Ok((n, p1)) => sp_utf8(d, p1, n as int),
        }
    } else if t == BINARY_20 {
        match sp_u20(d, p) {
            Err(e) => Err(e),
            Ok((n, p1)) => sp_utf8(d, p1, n),
        }
    } else if t == BINARY_32 {
        match sp_u32(d, p) {
            Err(e) => Err(e),
            Ok((n, p1)) => sp_utf8(d, p1, n),
        }
    } else {
        Err(DecodeError::InvalidNode(string_position_message(t)))
    }
}

/// `k` attribute pairs, each a tagged key then a tagged value.
pub open spec fn sp_attrs(d: Seq<u8>, p: int, k: nat) -> Result<(Seq<(Seq<u8>, Seq<u8>)>, int), DecodeError>
    decreases k,
{
    if k == 0 {
        Ok((Seq::empty(), p))
    } else {
        match sp_u8(d, p) {
            Err(e) => Err(e),
            Ok((kt, p1)) => match sp_string(d, p1, kt) {
                Err(e) => Err(e),
                Ok((key, p2)) => match sp_u8(d, p2) {
                    Err(e) => Err(e),
                    Ok((vt, p3)) => match sp_string(d, p3, vt) {
                        Err(e) => Err(e),
                        Ok((value, p4)) => match sp_attrs(d, p4, (k - 1) as nat) {
                            Err(e) => Err(e),
                            Ok((rest, p5)) => Ok((seq![(key, value)] + rest, p5)),
                        },
                    },
                },
            },
        }
    }
}

/// A node starting at position `p`.
pub open spec fn sp_node(d: Seq<u8>, p: int) -> Result<(NodeV, int), DecodeError>
    decreases d.len() - p, 1nat, 0nat,
{
    match sp_u8(d, p) {
        Err(e) => Err(e),
        Ok((lt, p1)) => match sp_list_size(d, p1, lt) {
            Err(e) => Err(e),
            Ok((size, p2)) => if size == 0 {
                Err(DecodeError::InvalidNode("zero-size node".spec_bytes()))
            } else {
                match sp_u8(d, p2) {
                    Err(e) => Err(e),
                    Ok((desc, p3)) => if desc == STREAM_END {
                        Err(DecodeError::InvalidNode("unexpected stream end".spec_bytes()))
                    } else {
                        match sp_string(d, p3, desc) {
                            Err(e) => Err(e),
                            Ok((tag, p4)) => match sp_attrs(d, p4, ((size - 1) / 2) as nat) {
                                Err(e) => Err(e),
                                Ok((attrs, p5)) => if size % 2 == 1 {
                                    Ok((NodeV { tag, attrs, content: ContentV::Empty }, p5))
                                } else if p5 <= p || p5 > d.len() {
                                    Err(DecodeError::InvalidNode(Seq::empty()))  // never taken: reading only moves forward
                                } else {
                                    match sp_content(d, p5) {
                                        Err(e) => Err(e),
                                        Ok((c, p6)) => Ok((NodeV { tag, attrs, content: c }, p6)),
                                    }
                                },
                            },
                        }
                    },
                }
            },
        },
    }
}

/// A node body starting at position `p`: a child list or a binary blob.
pub open spec fn sp_content(d: Seq<u8>, p: int) -> Result<(ContentV, int), DecodeError>
    decreases d.len() - p, 1nat, 0nat,
{
    match sp_u8(d, p) {
        Err(e) => Err(e),
        Ok((t, p1)) => if t == LIST_EMPTY || t == LIST_8 || t == LIST_16 {
            match sp_list_size(d, p1, t) {
                Err(e) => Err(e),
                Ok((n, p2)) => match sp_children(d, p2, n as nat) {
                    Err(e) => Err(e),
                    Ok((ns, p3)) => Ok((ContentV::Nodes(ns), p3)),
                },
            }
        } else if t == BINARY_8 {
            match sp_u8(d, p1) {
                Err(e) => Err(e),
                Ok((n, p2)) => match sp_bytes(d, p2, n as int) {
                    Err(e) => Err(e),
                    Ok((b, p3)) => Ok((ContentV::Bytes(b), p3)),
                },
            }
        } else if t == BINARY_20 {
            match sp_u20(d, p1) {
                Err(e) => Err(e),
                Ok((n, p2)) => match sp_bytes(d, p2, n) {
                    Err(e) => Err(e),
                    Ok((b, p3)) => Ok((ContentV::Bytes(b), p3)),
                },
            }
        } else if t == BINARY_32 {
            match sp_u32(d, p1) {
                Err(e) => Err(e),
                Ok((n, p2)) => match sp_bytes(d, p2, n) {
                    Err(e) => Err(e),
                    Ok((b, p3)) => Ok((ContentV::Bytes(b), p3)),
                },
            }
        } else {
            Err(DecodeError::InvalidNode("bad content tag ".spec_bytes() + spec_dec_u8(t)))
        },
    }
}

/// `k` consecutive nodes starting at position `p`.
pub open spec fn sp_children(d: Seq<u8>, p: int, k: nat) -> Result<(Seq<NodeV>, int), DecodeError>
    decreases d.len() - p, 2nat, k,
{
    if k == 0 {
        Ok((Seq::empty(), p))
    } else if p < 0 || p > d.len() {
        Err(DecodeError::Eof(p))
    } else {
        match sp_node(d, p) {
            Err(e) => Err(e),
            Ok((n, q)) => if q < p || q > d.len() {
                Err(DecodeError::InvalidNode(Seq::empty()))  // never taken: reading only moves forward
            } else {
                match sp_children(d, q, (k - 1) as nat) {
                    Err(e) => Err(e),
                    Ok((rest, r)) => Ok((seq![n] + rest, r)),
                }
            },
        }
    }
}

/// The node that a buffer decodes to (trailing bytes are ignored).
pub open spec fn spec_unmarshal(d: Seq<u8>) -> Result<NodeV, DecodeError> {
    match sp_node(d, 0) {
        Err(e) => Err(e),
        Ok((n, _)) => Ok(n),
    }
}


// ----------------------------------------------------------------------------------------------
// Facts about the decoder specification
// ----------------------------------------------------------------------------------------------

/// Bytes below 0x80 form valid UTF-8.
pub proof fn lemma_ascii_valid_utf8(b: Seq<u8>)
    requires
        forall|i: int| 0 <= i < b.len() ==> b[i] < 128,
    ensures
        valid_utf8(b),
    decreases b.len(),
{
    if b.len() > 0 {
        assert(pop_first_scalar(b) =~= b.subrange(1, b.len() as int));
        lemma_ascii_valid_utf8(b.subrange(1, b.len() as int));
    }
}

proof fn lemma_unpack_full_ascii(b: Seq<u8>, hex: bool)
    ensures
        forall|i: int| 0 <= i < unpack_full(b, hex).len() ==> unpack_full(b, hex)[i] < 128,
    decreases b.len(),
{
    if b.len() > 0 {
        let prev = unpack_full(b.subrange(0, b.len() - 1), hex);
        let l = unpack_last(b[b.len() - 1], hex, false);
        lemma_unpack_full_ascii(b.subrange(0, b.len() - 1), hex);
        assert forall|i: int| 0 <= i < (prev + l).len() implies (prev + l)[i] < 128 by {
            if i >= prev.len() {
                assert((prev + l)[i] == l[i - prev.len()]);
            }
        }
    }
}

proof fn lemma_unpack_ascii(b: Seq<u8>, hex: bool, odd: bool)
    ensures
        valid_utf8(spec_unpack(b, hex, odd)),
{
    if b.len() > 0 {
        let prev = unpack_full(b.subrange(0, b.len() - 1), hex);
        let l = unpack_last(b[b.len() - 1], hex, odd);
        lemma_unpack_full_ascii(b.subrange(0, b.len() - 1), hex);
        assert forall|i: int| 0 <= i < (prev + l).len() implies (prev + l)[i] < 128 by {
            if i >= prev.len() {
                assert((prev + l)[i] == l[i - prev.len()]);
            }
        }
    }
    lemma_ascii_valid_utf8(spec_unpack(b, hex, odd));
}

proof fn lemma_ascii_suffix_valid(agent: u8, device: u8)
    ensures
        valid_utf8(at_default_server()),
        valid_utf8(ad_suffix(agent, device)),
{
    lemma_ascii_valid_utf8(at_default_server());
    let a = if agent == 0 { Seq::<u8>::empty() } else { seq![46u8] + spec_dec_u8(agent) };
    let dv = if device == 0 { Seq::<u8>::empty() } else { seq![58u8] + spec_dec_u8(device) };
    assert forall|i: int| 0 <= i < a.len() implies a[i] < 128 by {
        if agent != 0 && i > 0 {
            assert(a[i] == spec_dec_u8(agent)[i - 1]);
        }
    }
    assert forall|i: int| 0 <= i < dv.len() implies dv[i] < 128 by {
        if device != 0 && i > 0 {
            assert(dv[i] == spec_dec_u8(device)[i - 1]);
        }
    }
    lemma_ascii_valid_utf8(a);
    lemma_ascii_valid_utf8(dv);
    vstd::utf8::valid_utf8_concat(a, dv);
    vstd::utf8::valid_utf8_concat(a + dv, at_default_server());
}

/// Strings read from a string position never move backwards, stay in the buffer, and are valid
/// UTF-8.
pub proof fn lemma_sp_string(d: Seq<u8>, p: int, t: u8)
    requires
        0 <= p <= d.len(),
    ensures
        sp_string(d, p, t) matches Ok((s, q)) ==> p <= q <= d.len() && valid_utf8(s),
    decreases d.len() - p,
{
    broadcast use vstd::utf8::valid_utf8_concat;
    if t <= 235 {
        crate::token::lemma_token_ascii(t as int);
        if let Some(s) = spec_token(t as int) {
            lemma_ascii_valid_utf8(s);
        }
    } else if t == AD_JID {
        if let Ok((agent, p1)) = sp_u8(d, p) {
            if let Ok((device, p2)) = sp_u8(d, p1) {
                if let Ok((ut, p3)) = sp_u8(d, p2) {
                    lemma_sp_string(d, p3, ut);
                    lemma_ascii_suffix_valid(agent, device);
                    if let Ok((user, p4)) = sp_string(d, p3, ut) {
                        vstd::utf8::valid_utf8_concat(user, ad_suffix(agent, device));
                    }
                }
            }
        }
    } else if t == JID_PAIR {
        if let Ok((ut, p1)) = sp_u8(d, p) {
            lemma_sp_string(d, p1, ut);
            if let Ok((user, p2)) = sp_string(d, p1, ut) {
                if let Ok((st, p3)) = sp_u8(d, p2) {
                    lemma_sp_string(d, p3, st);
                    lemma_ascii_valid_utf8(seq![64u8]);
                    if let Ok((server, p4)) = sp_string(d, p3, st) {
                        vstd::utf8::valid_utf8_concat(user, seq![64u8]);
                        vstd::utf8::valid_utf8_concat(user + seq![64u8], server);
                    }
                }
            }
        }
    } else if t == HEX_8 || t == NIBBLE_8 {
        if let Ok((start, p1)) = sp_u8(d, p) {
            if let Ok((b, p2)) = sp_bytes(d, p1, (start % 128) as int) {
                lemma_unpack_ascii(b, t == HEX_8, start >= 128);
            }
        }
    }
}

/// The model that prepends already-decoded items to the rest of a decoding.
pub open spec fn prepend<T>(done: Seq<T>, r: Result<(Seq<T>, int), DecodeError>) -> Result<(Seq<T>, int), DecodeError> {
    match r {
        Ok((rest, q)) => Ok((done + rest, q)),
        Err(e) => Err(e),
    }
}

/// Attribute lists read from the buffer never move backwards and stay in the buffer.
pub proof fn lemma_sp_attrs(d: Seq<u8>, p: int, k: nat)
    requires
        0 <= p <= d.len(),
    ensures
        sp_attrs(d, p, k) matches Ok((a, q)) ==> p <= q <= d.len() && a.len() == k
            && forall|i: int| 0 <= i < a.len() ==> valid_utf8(#[trigger] a[i].0) && valid_utf8(a[i].1),
    decreases k,
{
    if k > 0 {
        if let Ok((kt, p1)) = sp_u8(d, p) {
            lemma_sp_string(d, p1, kt);
            if let Ok((key, p2)) = sp_string(d, p1, kt) {
                if let Ok((vt, p3)) = sp_u8(d, p2) {
                    lemma_sp_string(d, p3, vt);
                    if let Ok((value, p4)) = sp_string(d, p3, vt) {
                        lemma_sp_attrs(d, p4, (k - 1) as nat);
                        if let Ok((rest, p5)) = sp_attrs(d, p4, (k - 1) as nat) {
                            let a = seq![(key, value)] + rest;
                            assert forall|i: int| 0 <= i < a.len() implies valid_utf8(#[trigger] a[i].0) && valid_utf8(a[i].1) by {
                                if i > 0 {
                                    assert(a[i] == rest[i - 1]);
                                }
                            }
                        }
                    }
                }
            }
        }
    }
}

/// Nodes read from the buffer consume at least one byte and stay in the buffer.
pub proof fn lemma_sp_node(d: Seq<u8>, p: int)
    requires
        0 <= p <= d.len(),
    ensures
        sp_node(d, p) matches Ok((n, q)) ==> p < q <= d.len(),
    decreases d.len() - p, 1nat, 0nat,
{
    if let Ok((lt, p1)) = sp_u8(d, p) {
        if let Ok((size, p2)) = sp_list_size(d, p1, lt) {
            if size != 0 {
                if let Ok((desc, p3)) = sp_u8(d, p2) {
                    if desc != STREAM_END {
                        lemma_sp_string(d, p3, desc);
                        if let Ok((tag, p4)) = sp_string(d, p3, desc) {
                            lemma_sp_attrs(d, p4, ((size - 1) / 2) as nat);
                            if let Ok((attrs, p5)) = sp_attrs(d, p4, ((size - 1) / 2) as nat) {
                                if size % 2 == 0 && p < p5 <= d.len() {
                                    lemma_sp_content(d, p5);
                                }
                            }
                        }
                    }
                }
            }
        }
    }
}

/// Node bodies read from the buffer consume at least one byte and stay in the buffer.
pub proof fn lemma_sp_content(d: Seq<u8>, p: int)
    requires
        0 <= p <= d.len(),
    ensures
        sp_content(d, p) matches Ok((c, q)) ==> p < q <= d.len(),
    decreases d.len() - p, 1nat, 0nat,
{
    if let Ok((t, p1)) = sp_u8(d, p) {
        if t == LIST_EMPTY || t == LIST_8 || t == LIST_16 {
            if let Ok((n, p2)) = sp_list_size(d, p1, t) {
                lemma_sp_children(d, p2, n as nat);
            }
        }
    }
}

/// Node lists read from the buffer never move backwards and stay in the buffer.
pub proof fn lemma_sp_children(d: Seq<u8>, p: int, k: nat)
    requires
        0 <= p <= d.len(),
    ensures
        sp_children(d, p, k) matches Ok((ns, q)) ==> p <= q <= d.len() && ns.len() == k,
    decreases d.len() - p, 2nat, k,
{
    if k > 0 {
        lemma_sp_node(d, p);
        if let Ok((n, q)) = sp_node(d, p) {
            lemma_sp_children(d, q, (k - 1) as nat);
        }
    }
}


// ----------------------------------------------------------------------------------------------
// Reading a cut buffer
// ----------------------------------------------------------------------------------------------

/// A read on the whole buffer and the same read on its first `k` bytes: the same result when the
/// read on the whole buffer succeeds within those bytes, running out of input when it succeeds
/// only beyond them.
pub open spec fn agrees_on_prefix<V>(whole: Result<(V, int), DecodeError>, cut: Result<(V, int), DecodeError>, k: int) -> bool {
    match whole {
        Ok((_, q)) => if q <= k { cut == whole } else { cut matches Err(DecodeError::Eof(_)) },
        Err(_) => true,
    }
}

proof fn lemma_prefix_u8(d: Seq<u8>, k: int, p: int)
    requires
        0 <= p <= k <= d.len(),
    ensures
        agrees_on_prefix(sp_u8(d, p), sp_u8(d.take(k), p), k),
{
}

proof fn lemma_prefix_u16(d: Seq<u8>, k: int, p: int)
    requires
        0 <= p <= k <= d.len(),
    ensures
        agrees_on_prefix(sp_u16(d, p), sp_u16(d.take(k), p), k),
{
    lemma_prefix_u8(d, k, p);
    if let Ok((a, p1)) = sp_u8(d, p) {
        if p1 <= k {
            lemma_prefix_u8(d, k, p1);
        }
    }
}

proof fn lemma_prefix_u20(d: Seq<u8>, k: int, p: int)
    requires
        0 <= p <= k <= d.len(),
    ensures
        agrees_on_prefix(sp_u20(d, p), sp_u20(d.take(k), p), k),
{
    lemma_prefix_u8(d, k, p);
    if let Ok((a, p1)) = sp_u8(d, p) {
        if p1 <= k {
            lemma_prefix_u8(d, k, p1);
            if let Ok((b, p2)) = sp_u8(d, p1) {
                if p2 <= k {
                    lemma_prefix_u8(d, k, p2);
                }
            }
        }
    }
}

proof fn lemma_prefix_u32(d: Seq<u8>, k: int, p: int)
    requires
        0 <= p <= k <= d.len(),
    ensures
        agrees_on_prefix(sp_u32(d, p), sp_u32(d.take(k), p), k),
{
    lemma_prefix_u16(d, k, p);
    if let Ok((a, p1)) = sp_u16(d, p) {
        if p1 <= k {
            lemma_prefix_u16(d, k, p1);
        }
    }
}

proof fn lemma_prefix_bytes(d: Seq<u8>, k: int, p: int, n: int)
    requires
        0 <= p <= k <= d.len(),
    ensures
        agrees_on_prefix(sp_bytes(d, p, n), sp_bytes(d.take(k), p, n), k),
        agrees_on_prefix(sp_utf8(d, p, n), sp_utf8(d.take(k), p, n), k),
{
    if 0 <= n && p + n <= k {
        assert(d.take(k).subrange(p, p + n) =~= d.subrange(p, p + n));
    }
}

proof fn lemma_prefix_list_size(d: Seq<u8>, k: int, p: int, t: u8)
    requires
        0 <= p <= k <= d.len(),
    ensures
        agrees_on_prefix(sp_list_size(d, p, t), sp_list_size(d.take(k), p, t), k),
{
    lemma_prefix_u8(d, k, p);
    lemma_prefix_u16(d, k, p);
}

proof fn lemma_prefix_packed(d: Seq<u8>, k: int, p: int, hex: bool)
    requires
        0 <= p <= k <= d.len(),
    ensures
        agrees_on_prefix(sp_packed(d, p, hex), sp_packed(d.take(k), p, hex), k),
{
    lemma_prefix_u8(d, k, p);
    if let Ok((start, p1)) = sp_u8(d, p) {
        if p1 <= k {
            lemma_prefix_bytes(d, k, p1, (start % 128) as int);
        }
    }
}

/// A string read agrees on a cut buffer.
#[verifier::spinoff_prover]
#[verifier::rlimit(100)]
proof fn lemma_prefix_string(d: Seq<u8>, k: int, p: int, t: u8)
    requires
        0 <= p <= k <= d.len(),
    ensures
        agrees_on_prefix(sp_string(d, p, t), sp_string(d.take(k), p, t), k),
    decreases d.len() - p, 1nat,
{
    if t <= 235 {
    } else if DICTIONARY_0 <= t <= DICTIONARY_3 {
    } else if t == AD_JID {
        lemma_prefix_ad_jid(d, k, p);
    } else if t == JID_PAIR {
        lemma_prefix_jid_pair(d, k, p);
    } else if t == HEX_8 || t == NIBBLE_8 {
        lemma_prefix_packed(d, k, p, t == HEX_8);
    } else if t == BINARY_8 {
        lemma_prefix_u8(d, k, p);
        if let Ok((n, p1)) = sp_u8(d, p) {
            if p1 <= k {
                lemma_prefix_bytes(d, k, p1, n as int);
            }
        }
    } else if t == BINARY_20 {
        lemma_prefix_u20(d, k, p);
        if let Ok((n, p1)) = sp_u20(d, p) {
            if p1 <= k {
                lemma_prefix_bytes(d, k, p1, n);
            }
        }
    } else if t == BINARY_32 {
        lemma_prefix_u32(d, k, p);
        if let Ok((n, p1)) = sp_u32(d, p) {
            if p1 <= k {
                lemma_prefix_bytes(d, k, p1, n);
            }
        }
    }
}

/// An agent/device JID read agrees on a cut buffer.
#[verifier::spinoff_prover]
#[verifier::rlimit(100)]
proof fn lemma_prefix_ad_jid(d: Seq<u8>, k: int, p: int)
    requires
        0 <= p <= k <= d.len(),
    ensures
        agrees_on_prefix(sp_string(d, p, AD_JID), sp_string(d.take(k), p, AD_JID), k),
    decreases d.len() - p, 0nat,
{
    let c = d.take(k);
    if sp_string(d, p, AD_JID) is Ok {
        let p3 = p + 3;
        let ut = d[p + 2];
        assert(sp_u8(d, p + 2) == Ok::<(u8, int), DecodeError>((ut, p3)));
        lemma_sp_string(d, p3, ut);
        if p3 <= k {
            lemma_prefix_string(d, k, p3, ut);
            assert(sp_u8(c, p) == sp_u8(d, p));
            assert(sp_u8(c, p + 1) == sp_u8(d, p + 1));
            assert(sp_u8(c, p + 2) == sp_u8(d, p + 2));
        } else {
            assert(sp_string(c, p, AD_JID) matches Err(DecodeError::Eof(_)));
        }
    }
}

/// A `user@server` JID read agrees on a cut buffer.
#[verifier::spinoff_prover]
#[verifier::rlimit(100)]
proof fn lemma_prefix_jid_pair(d: Seq<u8>, k: int, p: int)
    requires
        0 <= p <= k <= d.len(),
    ensures
        agrees_on_prefix(sp_string(d, p, JID_PAIR), sp_string(d.take(k), p, JID_PAIR), k),
    decreases d.len() - p, 0nat,
{
    let c = d.take(k);
    if sp_string(d, p, JID_PAIR) is Ok {
        let p1 = p + 1;
        let ut = d[p];
        assert(sp_u8(d, p) == Ok::<(u8, int), DecodeError>((ut, p1)));
        lemma_sp_string(d, p1, ut);
        let (user, p2) = sp_string(d, p1, ut)->Ok_0;
        let p3 = p2 + 1;
        let st = d[p2];
        assert(sp_u8(d, p2) == Ok::<(u8, int), DecodeError>((st, p3)));
        lemma_sp_string(d, p3, st);
        let (server, p4) = sp_string(d, p3, st)->Ok_0;
        assert(sp_string(d, p, JID_PAIR) == Ok::<(Seq<u8>, int), DecodeError>((user + seq![64u8] + server, p4)));
        if p1 > k {
            assert(sp_string(c, p, JID_PAIR) matches Err(DecodeError::Eof(_)));
        } else {
            lemma_prefix_string(d, k, p1, ut);
            assert(sp_u8(c, p) == sp_u8(d, p));
            if p2 > k {
                assert(sp_string(c, p1, ut) matches Err(DecodeError::Eof(_)));
                assert(sp_string(c, p, JID_PAIR) matches Err(DecodeError::Eof(_)));
            } else if p3 > k {
                assert(sp_string(c, p1, ut) == sp_string(d, p1, ut));
                assert(sp_u8(c, p2) matches Err(DecodeError::Eof(_)));
                assert(sp_string(c, p, JID_PAIR) matches Err(DecodeError::Eof(_)));
            } else {
                assert(sp_string(c, p1, ut) == sp_string(d, p1, ut));
                assert(sp_u8(c, p2) == sp_u8(d, p2));
                lemma_prefix_string(d, k, p3, st);
                if p4 > k {
                    assert(sp_string(c, p, JID_PAIR) matches Err(DecodeError::Eof(_)));
                } else {
                    assert(sp_string(c, p3, st) == sp_string(d, p3, st));
                    assert(sp_string(c, p, JID_PAIR) == sp_string(d, p, JID_PAIR));
                }
            }
        }
    }
}

/// An attribute-list read agrees on a cut buffer.
#[verifier::spinoff_prover]
#[verifier::rlimit(100)]
proof fn lemma_prefix_attrs(d: Seq<u8>, k: int, p: int, n: nat)
    requires
        0 <= p <= k <= d.len(),
    ensures
        agrees_on_prefix(sp_attrs(d, p, n), sp_attrs(d.take(k), p, n), k),
    decreases n,
{
    if n > 0 {
        lemma_prefix_u8(d, k, p);
        if let Ok((kt, p1)) = sp_u8(d, p) {
            lemma_sp_string(d, p1, kt);
            if p1 <= k {
                lemma_prefix_string(d, k, p1, kt);
            }
            if let Ok((key, p2)) = sp_string(d, p1, kt) {
                if p2 <= k {
                    lemma_prefix_u8(d, k, p2);
                }
                if let Ok((vt, p3)) = sp_u8(d, p2) {
                    lemma_sp_string(d, p3, vt);
                    if p3 <= k {
                        lemma_prefix_string(d, k, p3, vt);
                    }
                    if let Ok((value, p4)) = sp_string(d, p3, vt) {
                        lemma_sp_attrs(d, p4, (n - 1) as nat);
                        if p4 <= k {
                            lemma_prefix_attrs(d, k, p4, (n - 1) as nat);
                        }
                    }
                }
            }
        }
    }
}

/// A node read agrees on a cut buffer.
#[verifier::spinoff_prover]
#[verifier::rlimit(100)]
proof fn lemma_prefix_node(d: Seq<u8>, k: int, p: int)
    requires
        0 <= p <= k <= d.len(),
    ensures
        agrees_on_prefix(sp_node(d, p), sp_node(d.take(k), p), k),
    decreases d.len() - p, 1nat, 0nat,
{
    lemma_prefix_u8(d, k, p);
    if let Ok((lt, p1)) = sp_u8(d, p) {
        if p1 <= k {
            lemma_prefix_list_size(d, k, p1, lt);
        }
        if let Ok((size, p2)) = sp_list_size(d, p1, lt) {
            if size != 0 {
                if p2 <= k {
                    lemma_prefix_u8(d, k, p2);
                }
                if let Ok((desc, p3)) = sp_u8(d, p2) {
                    if desc != STREAM_END {
                        lemma_sp_string(d, p3, desc);
                        if p3 <= k {
                            lemma_prefix_string(d, k, p3, desc);
                        }
                        if let Ok((tag, p4)) = sp_string(d, p3, desc) {
                            lemma_sp_attrs(d, p4, ((size - 1) / 2) as nat);
                            if p4 <= k {
                                lemma_prefix_attrs(d, k, p4, ((size - 1) / 2) as nat);
                            }
                            if let Ok((attrs, p5)) = sp_attrs(d, p4, ((size - 1) / 2) as nat) {
                                if size % 2 == 0 && p < p5 <= d.len() {
                                    lemma_sp_content(d, p5);
                                    if p5 <= k {
                                        lemma_prefix_content(d, k, p5);
                                    }
                                }
                            }
                        }
                    }
                }
            }
        }
    }
}

/// A node-body read agrees on a cut buffer.
#[verifier::spinoff_prover]
#[verifier::rlimit(100)]
proof fn lemma_prefix_content(d: Seq<u8>, k: int, p: int)
    requires
        0 <= p <= k <= d.len(),
    ensures
        agrees_on_prefix(sp_content(d, p), sp_content(d.take(k), p), k),
    decreases d.len() - p, 1nat, 0nat,
{
    lemma_prefix_u8(d, k, p);
    if let Ok((t, p1)) = sp_u8(d, p) {
        if t == LIST_EMPTY || t == LIST_8 || t == LIST_16 {
            if p1 <= k {
                lemma_prefix_list_size(d, k, p1, t);
            }
            if let Ok((n, p2)) = sp_list_size(d, p1, t) {
                lemma_sp_children(d, p2, n as nat);
                if p2 <= k {
                    lemma_prefix_children(d, k, p2, n as nat);
                }
            }
        } else if t == BINARY_8 {
            if p1 <= k {
                lemma_prefix_u8(d, k, p1);
            }
            if let Ok((n, p2)) = sp_u8(d, p1) {
                if p2 <= k {
                    lemma_prefix_bytes(d, k, p2, n as int);
                }
            }
        } else if t == BINARY_20 {
            if p1 <= k {
                lemma_prefix_u20(d, k, p1);
            }
            if let Ok((n, p2)) = sp_u20(d, p1) {
                if p2 <= k {
                    lemma_prefix_bytes(d, k, p2, n);
                }
            }
        } else if t == BINARY_32 {
            if p1 <= k {
                lemma_prefix_u32(d, k, p1);
            }
            if let Ok((n, p2)) = sp_u32(d, p1) {
                if p2 <= k {
                    lemma_prefix_bytes(d, k, p2, n);
                }
            }
        }
    }
}

/// A node-list read agrees on a cut buffer.
#[verifier::spinoff_prover]
#[verifier::rlimit(100)]
proof fn lemma_prefix_children(d: Seq<u8>, k: int, p: int, n: nat)
    requires
        0 <= p <= k <= d.len(),
    ensures
        agrees_on_prefix(sp_children(d, p, n), sp_children(d.take(k), p, n), k),
    decreases d.len() - p, 2nat, n,
{
    if n > 0 {
        lemma_prefix_node(d, k, p);
        lemma_sp_node(d, p);
        if let Ok((x, q)) = sp_node(d, p) {
            lemma_sp_children(d, q, (n - 1) as nat);
            if q <= k {
                lemma_prefix_children(d, k, q, (n - 1) as nat);
            }
        }
    }
}

/// A strict prefix of a node's encoding does not decode: the decoder runs out of input (for the
/// nodes whose encoding decodes back to them, see [`marshal_roundtrip`]).
pub proof fn truncated_encoding_fails(n: Node, k: int)
    requires
        structure_ok(node_view(n)),
        spec_enc_node(node_view(n)) is Ok,
        0 <= k < spec_enc_node(node_view(n))->Ok_0.len(),
    ensures
        spec_unmarshal(spec_enc_node(node_view(n))->Ok_0.take(k)) matches Err(DecodeError::Eof(_)),
{
    let e = spec_enc_node(node_view(n))->Ok_0;
    marshal_roundtrip(n);
    lemma_node_strings_valid(n);
    assert(e.subrange(0, e.len() as int) =~= e);
    lemma_node_roundtrip(node_view(n), e, 0);
    lemma_prefix_node(e, k, 0);
}


// ----------------------------------------------------------------------------------------------
// Decoder
// ----------------------------------------------------------------------------------------------

/// `String::from_utf8`: the bytes as a `String` when they are valid UTF-8.
#[verifier::external_body]
pub(crate) fn utf8_to_string(b: Vec<u8>) -> (r: Option<String>)
    ensures
        r is Some <==> valid_utf8(b@),
        r matches Some(s) ==> s@ == decode_utf8(b@),
{
    String::from_utf8(b).ok()
}

/// The text `String::from_utf8_lossy` reads from bytes: what they encode, each invalid sequence
/// replaced by U+FFFD.
pub uninterp spec fn utf8_lossy_spec(b: Seq<u8>) -> Seq<char>;

/// `String::from_utf8_lossy`: the text of `b`, each invalid sequence replaced by U+FFFD; for valid
/// UTF-8, exactly what the bytes encode.
#[verifier::external_body]
pub(crate) fn utf8_lossy(b: &[u8]) -> (r: String)
    ensures
        r@ == utf8_lossy_spec(b@),
        valid_utf8(b@) ==> r@ == decode_utf8(b@),
{
    String::from_utf8_lossy(b).into_owned()
}

/// `std::str::from_utf8`: whether the bytes are valid UTF-8.
#[verifier::external_body]
fn utf8_valid(b: &[u8]) -> (r: bool)
    ensures
        r == valid_utf8(b@),
{
    std::str::from_utf8(b).is_ok()
}

/// The `String` whose UTF-8 bytes are `b`.
pub fn bytes_to_string(b: Vec<u8>) -> (r: String)
    requires
        valid_utf8(b@),
    ensures
        sbytes(r) == b@,
{
    proof {
        vstd::utf8::decode_utf8_encode_utf8(b@);
    }
    match utf8_to_string(b) {
        Some(s) => s,
        None => String::new(),
    }
}

/// The decimal digits of a byte value.
pub fn dec_u8(v: u8) -> (r: Vec<u8>)
    ensures
        r@ == spec_dec_u8(v),
{
    if v < 10 {
        vec![48 + v]
    } else if v < 100 {
        vec![48 + v / 10, 48 + v % 10]
    } else {
        vec![48 + v / 100, 48 + (v / 10) % 10, 48 + v % 10]
    }
}

/// A diagnostic message `prefix ++ decimal(v)`.
fn message_u8(prefix: &str, v: u8) -> (r: String)
    ensures
        sbytes(r) == prefix.spec_bytes() + spec_dec_u8(v),
{
    let mut b: Vec<u8> = Vec::new();
    append_bytes(&mut b, prefix.as_bytes());
    let digits = dec_u8(v);
    append_bytes(&mut b, digits.as_slice());
    proof {
        vstd::utf8::encode_utf8_valid_utf8(prefix@);
        lemma_ascii_valid_utf8(digits@);
        vstd::utf8::valid_utf8_concat(encode_utf8(prefix@), digits@);
        assert(b@ =~= prefix.spec_bytes() + spec_dec_u8(v));
    }
    bytes_to_string(b)
}

/// A diagnostic message `prefix ++ decimal(v) ++ suffix`.
fn message_u8_in(prefix: &str, v: u8, suffix: &str) -> (r: String)
    ensures
        sbytes(r) == prefix.spec_bytes() + spec_dec_u8(v) + suffix.spec_bytes(),
{
    let mut b: Vec<u8> = Vec::new();
    append_bytes(&mut b, prefix.as_bytes());
    let digits = dec_u8(v);
    append_bytes(&mut b, digits.as_slice());
    append_bytes(&mut b, suffix.as_bytes());
    proof {
        vstd::utf8::encode_utf8_valid_utf8(prefix@);
        vstd::utf8::encode_utf8_valid_utf8(suffix@);
        lemma_ascii_valid_utf8(digits@);
        vstd::utf8::valid_utf8_concat(encode_utf8(prefix@), digits@);
        vstd::utf8::valid_utf8_concat(encode_utf8(prefix@) + digits@, encode_utf8(suffix@));
        assert(b@ =~= prefix.spec_bytes() + spec_dec_u8(v) + suffix.spec_bytes());
    }
    bytes_to_string(b)
}

struct Decoder<'a> {
    data: &'a [u8],
    pos: usize,
}

impl<'a> Decoder<'a> {
    fn read_u8(&mut self) -> (r: Result<u8, Error>)
        requires
            old(self).pos <= old(self).data@.len(),
        ensures
            final(self).data == old(self).data,
            final(self).pos <= final(self).data@.len(),
            sp_u8(old(self).data@, old(self).pos as int) matches Ok((v, q)) ==> r == Ok::<u8, Error>(v) && final(self).pos == q,
            sp_u8(old(self).data@, old(self).pos as int) matches Err(e) ==> r matches Err(x) && err_rel(x, e),
    {
        if self.pos < self.data.len() {
            let b = self.data[self.pos];
            self.pos = self.pos + 1;
            Ok(b)
        } else {
            Err(Error::Eof(self.pos))
        }
    }

    fn read_u16(&mut self) -> (r: Result<usize, Error>)
        requires
            old(self).pos <= old(self).data@.len(),
        ensures
            final(self).data == old(self).data,
            final(self).pos <= final(self).data@.len(),
            sp_u16(old(self).data@, old(self).pos as int) matches Ok((v, q)) ==> r matches Ok(x) && x == v && final(self).pos == q,
            sp_u16(old(self).data@, old(self).pos as int) matches Err(e) ==> r matches Err(x) && err_rel(x, e),
    {
        let hi = self.read_u8()? as usize;
        let lo = self.read_u8()? as usize;
        let v = (hi << 8) | lo;
        assert(v == hi * 256 + lo) by (bit_vector)
            requires
                hi < 256usize,
                lo < 256usize,
                v == (hi << 8) | lo,
        ;
        Ok(v)
    }

    fn read_u20(&mut self) -> (r: Result<usize, Error>)
        requires
            old(self).pos <= old(self).data@.len(),
        ensures
            final(self).data == old(self).data,
            final(self).pos <= final(self).data@.len(),
            sp_u20(old(self).data@, old(self).pos as int) matches Ok((v, q)) ==> r matches Ok(x) && x == v && final(self).pos == q,
            sp_u20(old(self).data@, old(self).pos as int) matches Err(e) ==> r matches Err(x) && err_rel(x, e),
    {
        let a = self.read_u8()? as usize;
        let b = self.read_u8()? as usize;
        let c = self.read_u8()? as usize;
        let v = ((a & 0x0f) << 16) | (b << 8) | c;
        assert(v == (a % 16) * 65536 + b * 256 + c) by (bit_vector)
            requires
                a < 256usize,
                b < 256usize,
                c < 256usize,
                v == ((a & 0x0f) << 16) | (b << 8) | c,
        ;
        Ok(v)
    }

    fn read_u32(&mut self) -> (r: Result<usize, Error>)
        requires
            old(self).pos <= old(self).data@.len(),
        ensures
            final(self).data == old(self).data,
            final(self).pos <= final(self).data@.len(),
            sp_u32(old(self).data@, old(self).pos as int) matches Ok((v, q)) ==> r matches Ok(x) && x == v && final(self).pos == q,
            sp_u32(old(self).data@, old(self).pos as int) matches Err(e) ==> r matches Err(x) && err_rel(x, e),
    {
        let hi = self.read_u16()?;
        let lo = self.read_u16()?;
        let v = (hi << 16) | lo;
        assert(v == hi * 65536 + lo) by (bit_vector)
            requires
                hi < 65536usize,
                lo < 65536usize,
                v == (hi << 16) | lo,
        ;
        Ok(v)
    }

    fn read_bytes(&mut self, n: usize) -> (r: Result<Vec<u8>, Error>)
        requires
            old(self).pos <= old(self).data@.len(),
        ensures
            final(self).data == old(self).data,
            final(self).pos <= final(self).data@.len(),
            sp_bytes(old(self).data@, old(self).pos as int, n as int) matches Ok((v, q)) ==> r matches Ok(x) && x@ == v && final(self).pos == q,
            sp_bytes(old(self).data@, old(self).pos as int, n as int) matches Err(e) ==> r matches Err(x) && err_rel(x, e),
    {
        let end = match self.pos.checked_add(n) {
            Some(e) => e,
            None => {
                assert(self.data@.len() == self.data.len());
                return Err(Error::Eof(self.pos));
            },
        };
        if end > self.data.len() {
            return Err(Error::Eof(self.pos));
        }
        let out = crate::bytes::copy_range(self.data, self.pos, end);
        self.pos = end;
        Ok(out)
    }

    fn read_list_size(&mut self, tag: u8) -> (r: Result<usize, Error>)
        requires
            old(self).pos <= old(self).data@.len(),
        ensures
            final(self).data == old(self).data,
            final(self).pos <= final(self).data@.len(),
            sp_list_size(old(self).data@, old(self).pos as int, tag) matches Ok((v, q)) ==> r matches Ok(x) && x == v && final(self).pos == q,
            sp_list_size(old(self).data@, old(self).pos as int, tag) matches Err(e) ==> r matches Err(x) && err_rel(x, e),
    {
        if tag == LIST_EMPTY {
            Ok(0)
        } else if tag == LIST_8 {
            Ok(self.read_u8()? as usize)
        } else if tag == LIST_16 {
            self.read_u16()
        } else {
            Err(Error::InvalidNode(message_u8("expected list tag, got ", tag)))
        }
    }

    fn read_utf8(&mut self, n: usize) -> (r: Result<Vec<u8>, Error>)
        requires
            old(self).pos <= old(self).data@.len(),
        ensures
            final(self).data == old(self).data,
            final(self).pos <= final(self).data@.len(),
            sp_utf8(old(self).data@, old(self).pos as int, n as int) matches Ok((v, q)) ==> r matches Ok(x) && x@ == v && final(self).pos == q,
            sp_utf8(old(self).data@, old(self).pos as int, n as int) matches Err(e) ==> r matches Err(x) && err_rel(x, e),
    {
        let bytes = self.read_bytes(n)?;
        if utf8_valid(bytes.as_slice()) {
            Ok(bytes)
        } else {
            Err(Error::Utf8)
        }
    }

    fn read_packed(&mut self, hex: bool) -> (r: Result<Vec<u8>, Error>)
        requires
            old(self).pos <= old(self).data@.len(),
        ensures
            final(self).data == old(self).data,
            final(self).pos <= final(self).data@.len(),
            sp_packed(old(self).data@, old(self).pos as int, hex) matches Ok((v, q)) ==> r matches Ok(x) && x@ == v && final(self).pos == q,
            sp_packed(old(self).data@, old(self).pos as int, hex) matches Err(e) ==> r matches Err(x) && err_rel(x, e),
    {
        let start = self.read_u8()?;
        let odd = start & 0x80 != 0;
        let n = (start & 0x7f) as usize;
        assert((start & 0x80 != 0) == (start >= 128) && (start & 0x7f) == start % 128) by (bit_vector);
        let bytes = self.read_bytes(n)?;
        let mut s: Vec<u8> = Vec::new();
        let mut idx: usize = 0;
        while idx < n
            invariant
                n == bytes@.len(),
                idx <= n,
                idx < n ==> s@ == unpack_full(bytes@.subrange(0, idx as int), hex),
                idx == n ==> s@ == spec_unpack(bytes@, hex, odd),
            decreases n - idx,
        {
            let b = bytes[idx];
            let hi = (b >> 4) & 0x0f;
            let lo = b & 0x0f;
            assert(hi == b / 16 && lo == b % 16) by (bit_vector)
                requires
                    hi == (b >> 4) & 0x0f,
                    lo == b & 0x0f,
            ;
            let ghost before = s@;
            s.push(nib_char(hi, hex));
            let is_last = idx == n - 1;
            if is_last && odd && !hex && lo == 0x0f {
            } else {
                s.push(nib_char(lo, hex));
            }
            proof {
                let t = bytes@.subrange(0, idx + 1);
                assert(t.subrange(0, t.len() - 1) =~= bytes@.subrange(0, idx as int));
                if is_last {
                    assert(bytes@.subrange(0, idx as int) =~= bytes@.subrange(0, bytes@.len() - 1));
                    assert(s@ =~= spec_unpack(bytes@, hex, odd));
                } else {
                    assert(s@ =~= unpack_full(t, hex));
                }
            }
            idx += 1;
        }
        if n == 0 {
            assert(s@ =~= spec_unpack(bytes@, hex, odd));
        }
        Ok(s)
    }

    fn read_string(&mut self, t: u8) -> (r: Result<Vec<u8>, Error>)
        requires
            old(self).pos <= old(self).data@.len(),
        ensures
            final(self).data == old(self).data,
            final(self).pos <= final(self).data@.len(),
            sp_string(old(self).data@, old(self).pos as int, t) matches Ok((v, q)) ==> r matches Ok(x) && x@ == v && final(self).pos == q,
            sp_string(old(self).data@, old(self).pos as int, t) matches Err(e) ==> r matches Err(x) && err_rel(x, e),
        decreases old(self).data@.len() - old(self).pos,
    {
        if t <= 235 {
            match token_str(t as usize) {
                Some(s) => Ok(s),
                None => Err(Error::UnknownToken(t as usize)),
            }
        } else if DICTIONARY_0 <= t && t <= DICTIONARY_3 {
            let idx = self.read_u8()? as usize;
            let dict = (t - DICTIONARY_0) as usize;
            Err(Error::UnknownToken(dict * 256 + idx))
        } else if t == AD_JID {
            self.read_ad_jid()
        } else if t == JID_PAIR {
            self.read_jid_pair()
        } else if t == HEX_8 {
            self.read_packed(true)
        } else if t == NIBBLE_8 {
            self.read_packed(false)
        } else if t == BINARY_8 {
            let n = self.read_u8()? as usize;
            self.read_utf8(n)
        } else if t == BINARY_20 {
            let n = self.read_u20()?;
            self.read_utf8(n)
        } else if t == BINARY_32 {
            let n = self.read_u32()?;
            self.read_utf8(n)
        } else {
            proof {
                reveal(string_position_message);
            }
            Err(Error::InvalidNode(message_u8_in("tag ", t, " is not valid in a string position")))
        }
    }

    fn read_jid_pair(&mut self) -> (r: Result<Vec<u8>, Error>)
        requires
            old(self).pos <= old(self).data@.len(),
        ensures
            final(self).data == old(self).data,
            final(self).pos <= final(self).data@.len(),
            sp_string(old(self).data@, old(self).pos as int, JID_PAIR) matches Ok((v, q)) ==> r matches Ok(x) && x@ == v && final(self).pos == q,
            sp_string(old(self).data@, old(self).pos as int, JID_PAIR) matches Err(e) ==> r matches Err(x) && err_rel(x, e),
        decreases old(self).data@.len() - old(self).pos, 0nat,
    {
        let ut = self.read_u8()?;
        let ghost p1 = self.pos;
        let mut user = self.read_string(ut)?;
        proof {
            lemma_sp_string(self.data@, p1 as int, ut);
        }
        let st = self.read_u8()?;
        let server = self.read_string(st)?;
        user.push(64);
        append_bytes(&mut user, server.as_slice());
        Ok(user)
    }

    fn read_ad_jid(&mut self) -> (r: Result<Vec<u8>, Error>)
        requires
            old(self).pos <= old(self).data@.len(),
        ensures
            final(self).data == old(self).data,
            final(self).pos <= final(self).data@.len(),
            sp_string(old(self).data@, old(self).pos as int, AD_JID) matches Ok((v, q)) ==> r matches Ok(x) && x@ == v && final(self).pos == q,
            sp_string(old(self).data@, old(self).pos as int, AD_JID) matches Err(e) ==> r matches Err(x) && err_rel(x, e),
        decreases old(self).data@.len() - old(self).pos, 0nat,
    {
        let agent = self.read_u8()?;
        let device = self.read_u8()?;
        let ut = self.read_u8()?;
        let mut user = self.read_string(ut)?;
        let ghost u0 = user@;
        let mut suffix: Vec<u8> = Vec::new();
        if agent != 0 {
            suffix.push(46);
            let digits = dec_u8(agent);
            append_bytes(&mut suffix, digits.as_slice());
        }
        let ghost sa = suffix@;
        if device != 0 {
            suffix.push(58);
            let digits = dec_u8(device);
            append_bytes(&mut suffix, digits.as_slice());
        }
        let server: Vec<u8> = vec![64u8, 115u8, 46u8, 119u8, 104u8, 97u8, 116u8, 115u8, 97u8, 112u8, 112u8, 46u8, 110u8, 101u8, 116u8];
        append_bytes(&mut suffix, server.as_slice());
        proof {
            assert(sa =~= (if agent == 0 { Seq::<u8>::empty() } else { seq![46u8] + spec_dec_u8(agent) }));
            assert(server@ =~= at_default_server());
            assert(suffix@ =~= ad_suffix(agent, device));
        }
        append_bytes(&mut user, suffix.as_slice());
        assert(user@ =~= u0 + ad_suffix(agent, device));
        Ok(user)
    }
}

/// Map a 4-bit packed value back to its character (as a byte).
fn nib_char(v: u8, hex: bool) -> (r: u8)
    ensures
        r == spec_nib_char(v, hex),
{
    if v <= 9 {
        48 + v
    } else if hex && v <= 15 {
        55 + v
    } else if !hex && v == 10 {
        45
    } else if !hex && v == 11 {
        46
    } else {
        0
    }
}


/// The model of a node body.
pub open spec fn content_model(c: NodeContent) -> ContentV {
    match c {
        NodeContent::Empty => ContentV::Empty,
        NodeContent::Bytes(b) => ContentV::Bytes(b@),
        NodeContent::Nodes(v) => ContentV::Nodes(nodes_view(v@)),
    }
}

/// An owned message for an invalid-node error.
fn invalid(msg: &str) -> (e: Error)
    ensures
        e matches Error::InvalidNode(m) && m@ == msg@,
{
    Error::InvalidNode(msg.to_owned())
}

impl<'a> Decoder<'a> {
    #[verifier::loop_isolation(false)]
    #[verifier::rlimit(30)]
    fn read_node(&mut self) -> (r: Result<Node, Error>)
        requires
            old(self).pos <= old(self).data@.len(),
        ensures
            final(self).data == old(self).data,
            final(self).pos <= final(self).data@.len(),
            sp_node(old(self).data@, old(self).pos as int) matches Ok((v, q)) ==> r matches Ok(x) && node_view(x) == v && final(self).pos == q,
            sp_node(old(self).data@, old(self).pos as int) matches Err(e) ==> r matches Err(x) && err_rel(x, e),
        decreases old(self).data@.len() - old(self).pos, 0nat,
    {
        let ghost d = self.data@;
        let ghost p0 = self.pos as int;
        let list_tag = self.read_u8()?;
        let size = self.read_list_size(list_tag)?;
        if size == 0 {
            return Err(invalid("zero-size node"));
        }
        let desc_tag = self.read_u8()?;
        if desc_tag == STREAM_END {
            return Err(invalid("unexpected stream end"));
        }
        let ghost p3 = self.pos as int;
        let tag_bytes = self.read_string(desc_tag)?;
        proof {
            lemma_sp_string(d, p3, desc_tag);
        }
        let tag_name = bytes_to_string(tag_bytes);
        let attr_count = (size - 1) / 2;
        let ghost p4 = self.pos as int;
        proof {
            lemma_sp_attrs(d, p4, attr_count as nat);
        }
        let mut attrs: Vec<(String, String)> = Vec::new();
        let mut i: usize = 0;
        while i < attr_count
            invariant
                self.data@ == d,
                i <= attr_count,
                p4 <= self.pos <= d.len(),
                attrs@.len() == i,
                sp_attrs(d, p4, attr_count as nat) == prepend(attrs_view(attrs@), sp_attrs(d, self.pos as int, (attr_count - i) as nat)),
            decreases attr_count - i,
        {
            let ghost pa = self.pos as int;
            let kt = self.read_u8()?;
            let ghost pb = self.pos as int;
            let key = self.read_string(kt)?;
            proof {
                lemma_sp_string(d, pb, kt);
            }
            let vt = self.read_u8()?;
            let ghost pd = self.pos as int;
            let value = self.read_string(vt)?;
            proof {
                lemma_sp_string(d, pd, vt);
            }
            let ghost kb = key@;
            let ghost vb = value@;
            let ks = bytes_to_string(key);
            let vs = bytes_to_string(value);
            let ghost old_attrs = attrs@;
            attrs.push((ks, vs));
            proof {
                assert(attrs_view(attrs@) =~= attrs_view(old_attrs) + seq![(kb, vb)]);
                let rest = sp_attrs(d, self.pos as int, (attr_count - i - 1) as nat);
                assert(sp_attrs(d, pa, (attr_count - i) as nat) == prepend(seq![(kb, vb)], rest));
                match rest {
                    Ok((r2, q2)) => {
                        assert(attrs_view(old_attrs) + (seq![(kb, vb)] + r2) =~= attrs_view(attrs@) + r2);
                    },
                    Err(_) => {},
                }
            }
            i += 1;
        }
        let ghost p5 = self.pos as int;
        proof {
            assert(attrs_view(attrs@) + Seq::<(Seq<u8>, Seq<u8>)>::empty() =~= attrs_view(attrs@));
        }
        let content = if size % 2 == 1 {
            NodeContent::Empty
        } else {
            self.read_content()?
        };
        Ok(Node { tag: tag_name, attrs, content })
    }

    #[verifier::loop_isolation(false)]
    fn read_content(&mut self) -> (r: Result<NodeContent, Error>)
        requires
            old(self).pos <= old(self).data@.len(),
        ensures
            final(self).data == old(self).data,
            final(self).pos <= final(self).data@.len(),
            sp_content(old(self).data@, old(self).pos as int) matches Ok((v, q)) ==> r matches Ok(x) && content_model(x) == v && final(self).pos == q,
            sp_content(old(self).data@, old(self).pos as int) matches Err(e) ==> r matches Err(x) && err_rel(x, e),
        decreases old(self).data@.len() - old(self).pos, 1nat,
    {
        let ghost d = self.data@;
        let ghost p0 = self.pos as int;
        let t = self.read_u8()?;
        if t == LIST_EMPTY || t == LIST_8 || t == LIST_16 {
            let n = self.read_list_size(t)?;
            let ghost p2 = self.pos as int;
            let mut children: Vec<Node> = Vec::new();
            let mut i: usize = 0;
            while i < n
                invariant
                    self.data@ == d,
                    i <= n,
                    p0 < p2 <= self.pos <= d.len(),
                    nodes_view(children@).len() == i,
                    sp_children(d, p2, n as nat) == prepend(nodes_view(children@), sp_children(d, self.pos as int, (n - i) as nat)),
                decreases n - i,
            {
                let ghost pa = self.pos as int;
                proof {
                    lemma_sp_node(d, pa);
                }
                let c = self.read_node()?;
                let ghost cv = node_view(c);
                let ghost old_children = children@;
                children.push(c);
                proof {
                    crate::node::lemma_nodes_view_push(old_children, c);
                    crate::node::lemma_nodes_view_len(children@);
                    let rest = sp_children(d, self.pos as int, (n - i - 1) as nat);
                    assert(sp_children(d, pa, (n - i) as nat) == prepend(seq![cv], rest));
                    match rest {
                        Ok((r2, q2)) => {
                            assert(nodes_view(old_children) + (seq![cv] + r2) =~= nodes_view(children@) + r2);
                        },
                        Err(_) => {},
                    }
                }
                i += 1;
            }
            proof {
                assert(nodes_view(children@) + Seq::<NodeV>::empty() =~= nodes_view(children@));
            }
            Ok(NodeContent::Nodes(children))
        } else if t == BINARY_8 {
            let n = self.read_u8()? as usize;
            Ok(NodeContent::Bytes(self.read_bytes(n)?))
        } else if t == BINARY_20 {
            let n = self.read_u20()?;
            Ok(NodeContent::Bytes(self.read_bytes(n)?))
        } else if t == BINARY_32 {
            let n = self.read_u32()?;
            Ok(NodeContent::Bytes(self.read_bytes(n)?))
        } else {
            Err(Error::InvalidNode(message_u8("bad content tag ", t)))
        }
    }
}

/// Parse a single [`Node`] from a binary byte buffer (trailing bytes are ignored).
pub fn unmarshal(data: &[u8]) -> (r: Result<Node, Error>)
    ensures
        spec_unmarshal(data@) matches Ok(n) ==> r matches Ok(x) && node_view(x) == n,
        spec_unmarshal(data@) matches Err(e) ==> r matches Err(x) && err_rel(x, e),
{
    let mut dec = Decoder { data, pos: 0 };
    dec.read_node()
}


// ----------------------------------------------------------------------------------------------
// Round trip: decoding an encoding gives back the node
// ----------------------------------------------------------------------------------------------

/// The structural limits under which a node's encoding decodes back to it: no description is the
/// stream-end token, and every list (node or child list) has fewer than 65536 elements.
pub open spec fn structure_ok(n: NodeV) -> bool
    decreases n,
{
    &&& Some(n.tag) != spec_token(STREAM_END as int)
    &&& node_size(n) < 65536
    &&& match n.content {
        ContentV::Nodes(ns) => ns.len() < 65536 && forall|i: int| 0 <= i < ns.len() ==> structure_ok(#[trigger] ns[i]),
        _ => true,
    }
}

/// Every string of the node tree is valid UTF-8.
pub open spec fn strings_valid(n: NodeV) -> bool
    decreases n,
{
    &&& valid_utf8(n.tag)
    &&& forall|i: int| 0 <= i < n.attrs.len() ==> valid_utf8(#[trigger] n.attrs[i].0) && valid_utf8(n.attrs[i].1)
    &&& match n.content {
        ContentV::Nodes(ns) => forall|i: int| 0 <= i < ns.len() ==> strings_valid(#[trigger] ns[i]),
        _ => true,
    }
}

proof fn lemma_first_token(s: Seq<u8>, j: int)
    ensures
        first_token_from(s, j) matches Some(i) ==> spec_token(i as int) == Some(s) && 0 <= i < 30,
    decreases 30 - j,
{
    if 0 <= j < 30 && spec_token(j) != Some(s) {
        lemma_first_token(s, j + 1);
    }
}

proof fn lemma_pack_even_len(t: Seq<u8>, hex: bool)
    ensures
        pack_even(t, hex).len() == t.len() / 2,
    decreases t.len(),
{
    if t.len() >= 2 {
        lemma_pack_even_len(t.subrange(0, t.len() - 2), hex);
    }
}

/// Packed characters decode to themselves.
pub open spec fn packable(c: u8, hex: bool) -> bool {
    if hex { is_hex_char(c) } else { is_nibble_char(c) }
}

/// The characters of a numeric (`NIBBLE_8`) run in nibble order: `0`-`9`, then `-` (10) and
/// `.` (11).
pub open spec fn nibble_alphabet() -> Seq<u8> {
    seq![48u8, 49u8, 50u8, 51u8, 52u8, 53u8, 54u8, 55u8, 56u8, 57u8, 45u8, 46u8]
}

/// The characters of an uppercase hex (`HEX_8`) run in nibble order: `0`-`9`, then `A`-`F`.
pub open spec fn hex_alphabet() -> Seq<u8> {
    seq![48u8, 49u8, 50u8, 51u8, 52u8, 53u8, 54u8, 55u8, 56u8, 57u8, 65u8, 66u8, 67u8, 68u8, 69u8, 70u8]
}

/// Packing follows the nibble alphabets: the characters of numeric runs are exactly the twelve
/// of the numeric alphabet, and those of hex runs the sixteen of the hex alphabet; the `i`-th
/// character packs to nibble `i`, two characters pack high nibble first into one byte, and a
/// packed byte unpacks to the characters of its two nibbles.
pub proof fn lemma_nibble_alphabets(c: u8, i: int, j: int)
    ensures
        is_nibble_char(c) <==> nibble_alphabet().contains(c),
        is_hex_char(c) <==> hex_alphabet().contains(c),
        0 <= i < 12 ==> spec_nib_value(nibble_alphabet()[i], false) == i
            && spec_nib_char(i as u8, false) == nibble_alphabet()[i],
        0 <= i < 16 ==> spec_nib_value(hex_alphabet()[i], true) == i
            && spec_nib_char(i as u8, true) == hex_alphabet()[i],
        0 <= i < 12 && 0 <= j < 12 ==> pack_byte(nibble_alphabet()[i], nibble_alphabet()[j], false) == 16 * i + j
            && unpack_last((16 * i + j) as u8, false, false) == seq![nibble_alphabet()[i], nibble_alphabet()[j]],
        0 <= i < 16 && 0 <= j < 16 ==> pack_byte(hex_alphabet()[i], hex_alphabet()[j], true) == 16 * i + j
            && unpack_last((16 * i + j) as u8, true, false) == seq![hex_alphabet()[i], hex_alphabet()[j]],
{
    let na = nibble_alphabet();
    let ha = hex_alphabet();
    if is_nibble_char(c) {
        if 48 <= c <= 57 {
            assert(na[c - 48] == c);
        } else if c == 45 {
            assert(na[10] == c);
        } else {
            assert(na[11] == c);
        }
    }
    if na.contains(c) {
        let k = choose|k: int| 0 <= k < na.len() && na[k] == c;
        assert(is_nibble_char(na[k]));
    }
    if is_hex_char(c) {
        if 48 <= c <= 57 {
            assert(ha[c - 48] == c);
        } else {
            assert(ha[c - 55] == c);
        }
    }
    if ha.contains(c) {
        let k = choose|k: int| 0 <= k < ha.len() && ha[k] == c;
        assert(is_hex_char(ha[k]));
    }
    if 0 <= i < 16 && 0 <= j < 16 {
        let x = (16 * i + j) as u8;
        assert(x / 16 == i && x % 16 == j);
    }
}

proof fn lemma_nib_roundtrip(c: u8, hex: bool)
    requires
        packable(c, hex),
    ensures
        spec_nib_value(c, hex) < 16,
        spec_nib_char(spec_nib_value(c, hex), hex) == c,
{
}

#[verifier::rlimit(40)]
#[verifier::spinoff_prover]
proof fn lemma_unpack_pack(t: Seq<u8>, hex: bool)
    requires
        t.len() % 2 == 0,
        forall|i: int| 0 <= i < t.len() ==> packable(#[trigger] t[i], hex),
    ensures
        unpack_full(pack_even(t, hex), hex) == t,
    decreases t.len(),
{
    if t.len() >= 2 {
        let t2 = t.subrange(0, t.len() - 2);
        lemma_unpack_pack(t2, hex);
        let a = t[t.len() - 2];
        let b = t[t.len() - 1];
        lemma_nib_roundtrip(a, hex);
        lemma_nib_roundtrip(b, hex);
        let x = pack_byte(a, b, hex);
        let va = spec_nib_value(a, hex);
        let vb = spec_nib_value(b, hex);
        assert(x / 16 == va && x % 16 == vb);
        let pe = pack_even(t2, hex);
        assert(pack_even(t, hex) == pe.push(x));
        assert(pe.push(x).subrange(0, pe.len() as int) =~= pe);
        assert(unpack_full(pe.push(x), hex) == unpack_full(pe, hex) + unpack_last(x, hex, false));
        assert(t =~= t2 + seq![a, b]);
    } else {
        assert(t =~= Seq::<u8>::empty());
    }
}

/// A packed run decodes back to the string it packs.
#[verifier::rlimit(40)]
#[verifier::spinoff_prover]
proof fn lemma_packed_roundtrip(s: Seq<u8>, hex: bool, d: Seq<u8>, p: int)
    requires
        hex ==> spec_all_hex(s),
        !hex ==> spec_all_nibble(s),
        0 <= p,
        p + spec_packed(s, hex).len() <= d.len(),
        d.subrange(p, p + spec_packed(s, hex).len()) == spec_packed(s, hex),
    ensures
        sp_packed(d, p + 1, hex) == Ok::<(Seq<u8>, int), DecodeError>((s, p + spec_packed(s, hex).len())),
{
    let e = spec_packed(s, hex);
    let n = s.len();
    let odd = n % 2 == 1;
    let n_bytes = (n + 1) / 2;
    let t = s.subrange(0, 2 * (n / 2) as int);
    lemma_pack_even_len(t, hex);
    let pe = pack_even(t, hex);
    assert forall|i: int| 0 <= i < t.len() implies packable(#[trigger] t[i], hex) by {
        assert(t[i] == s[i]);
    }
    lemma_unpack_pack(t, hex);
    assert(d[p + 1] == e[1]);
    let start = e[1];
    assert(start % 128 == n_bytes);
    assert(start >= 128 <==> odd);
    let body = d.subrange(p + 2, p + 2 + n_bytes);
    assert(body =~= e.subrange(2, e.len() as int));
    if odd {
        assert(!hex);
        let last = s[n - 1];
        lemma_nib_roundtrip(last, hex);
        let x = (spec_nib_value(last, hex) * 16 + 15) as u8;
        assert(body =~= pe.push(x));
        assert(pe.push(x).subrange(0, pe.len() as int) =~= pe);
        assert(x / 16 == spec_nib_value(last, hex) && x % 16 == 15);
        assert(spec_unpack(body, hex, true) == t + unpack_last(x, hex, true));
        assert(s =~= t + seq![last]);
    } else {
        assert(t =~= s);
        assert(body =~= pe);
        assert(pe.len() > 0);
        assert(pe.subrange(0, pe.len() - 1).push(pe[pe.len() - 1]) =~= pe);
        assert(spec_unpack(body, hex, false) == unpack_full(pe, hex));
    }
}

/// The header of a binary blob decodes to its length; the blob follows it.
#[verifier::rlimit(40)]
#[verifier::spinoff_prover]
proof fn lemma_binary_header(b: Seq<u8>, d: Seq<u8>, p: int)
    requires
        spec_binary(b) is Ok,
        0 <= p,
        p + spec_binary(b)->Ok_0.len() <= d.len(),
        d.subrange(p, p + spec_binary(b)->Ok_0.len()) == spec_binary(b)->Ok_0,
    ensures
        ({
            let e = spec_binary(b)->Ok_0;
            let h = e.len() - b.len();
            &&& d[p] == e[0]
            &&& d.subrange(p + h, p + e.len()) == b
            &&& e[0] == BINARY_8 ==> sp_u8(d, p + 1) == Ok::<(u8, int), DecodeError>((b.len() as u8, p + h)) && b.len() < 256
            &&& e[0] == BINARY_20 ==> sp_u20(d, p + 1) == Ok::<(int, int), DecodeError>((b.len() as int, p + h))
            &&& e[0] == BINARY_32 ==> sp_u32(d, p + 1) == Ok::<(int, int), DecodeError>((b.len() as int, p + h))
            &&& (e[0] == BINARY_8 || e[0] == BINARY_20 || e[0] == BINARY_32)
        }),
{
    let e = spec_binary(b)->Ok_0;
    let n = b.len();
    assert(d[p] == e[0]);
    if n < 256 {
        assert(d[p + 1] == e[1]);
        assert(d.subrange(p + 2, p + e.len()) =~= e.subrange(2, e.len() as int));
        assert(e.subrange(2, e.len() as int) =~= b);
    } else if n < 1048576 {
        let x = n as u32;
        assert((x / 65536) % 16 * 65536 + (x / 256) % 256 * 256 + x % 256 == x) by (bit_vector)
            requires x < 1048576u32;
        assert(d[p + 1] == e[1] && d[p + 2] == e[2] && d[p + 3] == e[3]);
        assert(d.subrange(p + 4, p + e.len()) =~= e.subrange(4, e.len() as int));
        assert(e.subrange(4, e.len() as int) =~= b);
    } else {
        let x = n as u32;
        assert((x / 16777216) * 256 * 65536 + ((x / 65536) % 256) * 65536 + ((x / 256) % 256) * 256 + x % 256 == x)
            by (bit_vector);
        assert(d[p + 1] == e[1] && d[p + 2] == e[2] && d[p + 3] == e[3] && d[p + 4] == e[4]);
        assert(d.subrange(p + 5, p + e.len()) =~= e.subrange(5, e.len() as int));
        assert(e.subrange(5, e.len() as int) =~= b);
    }
}

/// The encoding-and-decoding facts that [`lemma_str_roundtrip`] states.
pub open spec fn str_decodes(s: Seq<u8>, d: Seq<u8>, p: int) -> bool {
    let e = spec_enc_str(s)->Ok_0;
    &&& e.len() >= 1
    &&& d[p] == e[0]
    &&& (e[0] == STREAM_END ==> spec_token(STREAM_END as int) == Some(s))
    &&& sp_string(d, p + 1, e[0]) == Ok::<(Seq<u8>, int), DecodeError>((s, p + e.len()))
}

/// A string's encoding sits at position `p` of `d`.
pub open spec fn str_placed(s: Seq<u8>, d: Seq<u8>, p: int) -> bool {
    &&& spec_enc_str(s) is Ok
    &&& 0 <= p
    &&& p + spec_enc_str(s)->Ok_0.len() <= d.len()
    &&& d.subrange(p, p + spec_enc_str(s)->Ok_0.len()) == spec_enc_str(s)->Ok_0
}

/// A window inside a placed sequence.
pub proof fn lemma_window(d: Seq<u8>, p: int, e: Seq<u8>, a: int, b: int)
    requires
        0 <= p,
        p + e.len() <= d.len(),
        d.subrange(p, p + e.len()) == e,
        0 <= a <= b <= e.len(),
    ensures
        d.subrange(p + a, p + b) == e.subrange(a, b),
        forall|i: int| a <= i < b ==> d[p + i] == e[i],
{
    assert forall|i: int| a <= i < b implies d[p + i] == e[i] by {
        assert(d.subrange(p, p + e.len())[i] == d[p + i]);
    }
    assert(d.subrange(p + a, p + b) =~= e.subrange(a, b));
}

#[verifier::rlimit(40)]
#[verifier::spinoff_prover]
proof fn lemma_jid_roundtrip(s: Seq<u8>, d: Seq<u8>, p: int)
    requires
        valid_utf8(s),
        str_placed(s, d, p),
        s.len() > 0,
        spec_token_index(s) is None,
        find_at_from(s, 0) is Some,
    ensures
        str_decodes(s, d, p),
    decreases s.len(), 0nat,
{
    let e = spec_enc_str(s)->Ok_0;
    let k = find_at_from(s, 0)->Some_0;
    lemma_find_at_from(s, 0);
    let user = s.subrange(0, k);
    let rest = s.subrange(k, s.len() as int);
    let server = s.subrange(k + 1, s.len() as int);
    assert(valid_utf8(user) && valid_utf8(server)) by {
        vstd::utf8::is_char_boundary_iff_not_is_continuation_byte(s, k);
        vstd::utf8::valid_utf8_split(s, k);
        assert(valid_utf8(rest));
        assert(pop_first_scalar(rest) =~= server);
    }
    let u = spec_enc_str(user)->Ok_0;
    let v = spec_enc_str(server)->Ok_0;
    assert(e == seq![JID_PAIR] + u + v);
    let p1 = p + 1;
    let p2 = p + 1 + u.len() as int;
    lemma_window(d, p, e, 0, 1);
    lemma_window(d, p, e, 1, 1 + u.len() as int);
    assert(e.subrange(1, 1 + u.len() as int) =~= u);
    lemma_window(d, p, e, 1 + u.len() as int, e.len() as int);
    assert(e.subrange(1 + u.len() as int, e.len() as int) =~= v);
    lemma_str_roundtrip(user, d, p1);
    lemma_str_roundtrip(server, d, p2);
    assert(user + seq![64u8] + server =~= s);
    let r_user = sp_string(d, p1 + 1, u[0]);
    assert(sp_u8(d, p1) == Ok::<(u8, int), DecodeError>((u[0], p1 + 1)));
    assert(r_user == Ok::<(Seq<u8>, int), DecodeError>((user, p2)));
    assert(sp_u8(d, p2) == Ok::<(u8, int), DecodeError>((v[0], p2 + 1)));
    assert(sp_string(d, p2 + 1, v[0]) == Ok::<(Seq<u8>, int), DecodeError>((server, p + e.len())));
    assert(sp_string(d, p + 1, JID_PAIR) == Ok::<(Seq<u8>, int), DecodeError>((s, p + e.len())));
}

/// A string's encoding decodes back to the string.
#[verifier::rlimit(40)]
#[verifier::spinoff_prover]
pub proof fn lemma_str_roundtrip(s: Seq<u8>, d: Seq<u8>, p: int)
    requires
        valid_utf8(s),
        str_placed(s, d, p),
    ensures
        str_decodes(s, d, p),
    decreases s.len(), 1nat,
{
    let e = spec_enc_str(s)->Ok_0;
    assert(d[p] == e[0]);
    if s.len() == 0 {
        assert(spec_token(0) == Some(s));
    } else if spec_token_index(s) is Some {
        lemma_first_token(s, 0);
    } else if find_at_from(s, 0) is Some {
        lemma_jid_roundtrip(s, d, p);
    } else if spec_all_nibble(s) {
        lemma_packed_roundtrip(s, false, d, p);
    } else if spec_all_hex(s) {
        lemma_packed_roundtrip(s, true, d, p);
    } else {
        lemma_binary_header(s, d, p);
    }
}


#[verifier::rlimit(40)]
#[verifier::spinoff_prover]
proof fn lemma_list_start_roundtrip(size: nat, d: Seq<u8>, p: int)
    requires
        size < 65536,
        0 <= p,
        p + spec_list_start(size).len() <= d.len(),
        d.subrange(p, p + spec_list_start(size).len()) == spec_list_start(size),
    ensures
        ({
            let e = spec_list_start(size);
            &&& d[p] == e[0]
            &&& (e[0] == LIST_EMPTY || e[0] == LIST_8 || e[0] == LIST_16)
            &&& sp_list_size(d, p + 1, e[0]) == Ok::<(int, int), DecodeError>((size as int, p + e.len()))
        }),
{
    let e = spec_list_start(size);
    lemma_window(d, p, e, 0, e.len() as int);
    if size >= 256 {
        let x = size as u32;
        assert(((x % 65536) / 256) * 256 + x % 256 == x) by (bit_vector)
            requires x < 65536u32;
    }
}

#[verifier::rlimit(40)]
#[verifier::spinoff_prover]
proof fn lemma_enc_attrs_front(a: Seq<(Seq<u8>, Seq<u8>)>)
    requires
        spec_enc_attrs(a) is Ok,
        a.len() > 0,
    ensures
        spec_enc_str(a[0].0) is Ok,
        spec_enc_str(a[0].1) is Ok,
        spec_enc_attrs(a.subrange(1, a.len() as int)) is Ok,
        spec_enc_attrs(a)->Ok_0 == spec_enc_str(a[0].0)->Ok_0 + spec_enc_str(a[0].1)->Ok_0
            + spec_enc_attrs(a.subrange(1, a.len() as int))->Ok_0,
    decreases a.len(),
{
    let init = a.subrange(0, a.len() - 1);
    if a.len() == 1 {
        assert(init =~= Seq::<(Seq<u8>, Seq<u8>)>::empty());
        assert(a.subrange(1, a.len() as int) =~= Seq::<(Seq<u8>, Seq<u8>)>::empty());
        assert(spec_enc_attrs(a)->Ok_0 =~= spec_enc_str(a[0].0)->Ok_0 + spec_enc_str(a[0].1)->Ok_0
            + spec_enc_attrs(a.subrange(1, a.len() as int))->Ok_0);
    } else {
        lemma_enc_attrs_front(init);
        let tail = a.subrange(1, a.len() as int);
        assert(init[0] == a[0]);
        assert(tail.subrange(0, tail.len() - 1) =~= init.subrange(1, init.len() as int));
        assert(tail[tail.len() - 1] == a[a.len() - 1]);
        assert(spec_enc_attrs(a)->Ok_0 =~= spec_enc_str(a[0].0)->Ok_0 + spec_enc_str(a[0].1)->Ok_0
            + spec_enc_attrs(tail)->Ok_0);
    }
}

#[verifier::rlimit(40)]
#[verifier::spinoff_prover]
proof fn lemma_enc_nodes_front(ns: Seq<NodeV>)
    requires
        spec_enc_nodes(ns) is Ok,
        ns.len() > 0,
    ensures
        spec_enc_node(ns[0]) is Ok,
        spec_enc_nodes(ns.subrange(1, ns.len() as int)) is Ok,
        spec_enc_nodes(ns)->Ok_0 == spec_enc_node(ns[0])->Ok_0 + spec_enc_nodes(ns.subrange(1, ns.len() as int))->Ok_0,
    decreases ns.len(),
{
    let init = ns.subrange(0, ns.len() - 1);
    if ns.len() == 1 {
        assert(init =~= Seq::<NodeV>::empty());
        assert(ns.subrange(1, ns.len() as int) =~= Seq::<NodeV>::empty());
        assert(spec_enc_nodes(ns)->Ok_0 =~= spec_enc_node(ns[0])->Ok_0 + spec_enc_nodes(ns.subrange(1, ns.len() as int))->Ok_0);
    } else {
        lemma_enc_nodes_front(init);
        let tail = ns.subrange(1, ns.len() as int);
        assert(init[0] == ns[0]);
        assert(tail.subrange(0, tail.len() - 1) =~= init.subrange(1, init.len() as int));
        assert(tail[tail.len() - 1] == ns[ns.len() - 1]);
        assert(spec_enc_nodes(ns)->Ok_0 =~= spec_enc_node(ns[0])->Ok_0 + spec_enc_nodes(tail)->Ok_0);
    }
}

#[verifier::rlimit(80)]
#[verifier::spinoff_prover]
proof fn lemma_attrs_roundtrip(a: Seq<(Seq<u8>, Seq<u8>)>, d: Seq<u8>, p: int)
    requires
        forall|i: int| 0 <= i < a.len() ==> valid_utf8(#[trigger] a[i].0) && valid_utf8(a[i].1),
        spec_enc_attrs(a) is Ok,
        0 <= p,
        p + spec_enc_attrs(a)->Ok_0.len() <= d.len(),
        d.subrange(p, p + spec_enc_attrs(a)->Ok_0.len()) == spec_enc_attrs(a)->Ok_0,
    ensures
        sp_attrs(d, p, a.len()) == Ok::<(Seq<(Seq<u8>, Seq<u8>)>, int), DecodeError>((a, p + spec_enc_attrs(a)->Ok_0.len())),
    decreases a.len(),
{
    let e = spec_enc_attrs(a)->Ok_0;
    if a.len() == 0 {
        assert(a =~= Seq::<(Seq<u8>, Seq<u8>)>::empty());
    } else {
        lemma_enc_attrs_front(a);
        let k = spec_enc_str(a[0].0)->Ok_0;
        let v = spec_enc_str(a[0].1)->Ok_0;
        let tail = a.subrange(1, a.len() as int);
        let r = spec_enc_attrs(tail)->Ok_0;
        lemma_window(d, p, e, 0, k.len() as int);
        assert(e.subrange(0, k.len() as int) =~= k);
        lemma_window(d, p, e, k.len() as int, (k.len() + v.len()) as int);
        assert(e.subrange(k.len() as int, (k.len() + v.len()) as int) =~= v);
        lemma_window(d, p, e, (k.len() + v.len()) as int, e.len() as int);
        assert(e.subrange((k.len() + v.len()) as int, e.len() as int) =~= r);
        lemma_str_roundtrip(a[0].0, d, p);
        lemma_str_roundtrip(a[0].1, d, p + k.len());
        assert forall|i: int| 0 <= i < tail.len() implies valid_utf8(#[trigger] tail[i].0) && valid_utf8(tail[i].1) by {
            assert(tail[i] == a[i + 1]);
        }
        lemma_attrs_roundtrip(tail, d, p + k.len() + v.len());
        assert(seq![(a[0].0, a[0].1)] + tail =~= a);
    }
}

/// The decoding of everything in a node's encoding before its body.
#[verifier::spinoff_prover]
proof fn lemma_node_head(n: NodeV, d: Seq<u8>, p: int)
    requires
        structure_ok(n),
        strings_valid(n),
        spec_enc_node(n) is Ok,
        0 <= p,
        p + spec_enc_node(n)->Ok_0.len() <= d.len(),
        d.subrange(p, p + spec_enc_node(n)->Ok_0.len()) == spec_enc_node(n)->Ok_0,
    ensures
        ({
            let e = spec_enc_node(n)->Ok_0;
            let h = spec_list_start(node_size(n));
            let t = spec_enc_str(n.tag)->Ok_0;
            let a = spec_enc_attrs(n.attrs)->Ok_0;
            let c = spec_enc_content(n.content)->Ok_0;
            let p1 = p + h.len();
            let p2 = p1 + t.len();
            let p3 = p2 + a.len();
            &&& spec_enc_str(n.tag) is Ok
            &&& spec_enc_attrs(n.attrs) is Ok
            &&& spec_enc_content(n.content) is Ok
            &&& e == h + t + a + c
            &&& sp_u8(d, p) == Ok::<(u8, int), DecodeError>((h[0], p + 1))
            &&& sp_list_size(d, p + 1, h[0]) == Ok::<(int, int), DecodeError>((node_size(n) as int, p1))
            &&& sp_u8(d, p1) == Ok::<(u8, int), DecodeError>((t[0], p1 + 1))
            &&& t[0] != STREAM_END
            &&& sp_string(d, p1 + 1, t[0]) == Ok::<(Seq<u8>, int), DecodeError>((n.tag, p2))
            &&& sp_attrs(d, p2, n.attrs.len()) == Ok::<(Seq<(Seq<u8>, Seq<u8>)>, int), DecodeError>((n.attrs, p3))
            &&& p < p3 <= d.len()
            &&& p3 + c.len() <= d.len()
            &&& d.subrange(p3, p3 + c.len()) == c
        }),
{
    let e = spec_enc_node(n)->Ok_0;
    let size = node_size(n);
    let h = spec_list_start(size);
    let t = spec_enc_str(n.tag)->Ok_0;
    let a = spec_enc_attrs(n.attrs)->Ok_0;
    let c = spec_enc_content(n.content)->Ok_0;
    assert(e == h + t + a + c);
    let p1 = p + h.len();
    let p2 = p1 + t.len();
    lemma_window(d, p, e, 0, h.len() as int);
    assert(e.subrange(0, h.len() as int) =~= h);
    lemma_list_start_roundtrip(size, d, p);
    lemma_window(d, p, e, h.len() as int, (h.len() + t.len()) as int);
    assert(e.subrange(h.len() as int, (h.len() + t.len()) as int) =~= t);
    lemma_str_roundtrip(n.tag, d, p1);
    lemma_window(d, p, e, (h.len() + t.len()) as int, (h.len() + t.len() + a.len()) as int);
    assert(e.subrange((h.len() + t.len()) as int, (h.len() + t.len() + a.len()) as int) =~= a);
    lemma_attrs_roundtrip(n.attrs, d, p2);
    lemma_window(d, p, e, (h.len() + t.len() + a.len()) as int, e.len() as int);
    assert(e.subrange((h.len() + t.len() + a.len()) as int, e.len() as int) =~= c);
}

/// A node's encoding decodes back to the node.
#[verifier::rlimit(60)]
#[verifier::spinoff_prover]
pub proof fn lemma_node_roundtrip(n: NodeV, d: Seq<u8>, p: int)
    requires
        structure_ok(n),
        strings_valid(n),
        spec_enc_node(n) is Ok,
        0 <= p,
        p + spec_enc_node(n)->Ok_0.len() <= d.len(),
        d.subrange(p, p + spec_enc_node(n)->Ok_0.len()) == spec_enc_node(n)->Ok_0,
    ensures
        sp_node(d, p) == Ok::<(NodeV, int), DecodeError>((n, p + spec_enc_node(n)->Ok_0.len())),
    decreases n, 1nat,
{
    lemma_node_head(n, d, p);
    let size = node_size(n) as int;
    assert((size - 1) / 2 == n.attrs.len());
    let h = spec_list_start(node_size(n));
    let t = spec_enc_str(n.tag)->Ok_0;
    let a = spec_enc_attrs(n.attrs)->Ok_0;
    let p3 = p + h.len() + t.len() + a.len();
    match n.content {
        ContentV::Empty => {
            assert(size % 2 == 1);
            assert(spec_enc_content(n.content)->Ok_0.len() == 0);
            assert(n == NodeV { tag: n.tag, attrs: n.attrs, content: ContentV::Empty });
        },
        _ => {
            assert(size % 2 == 0);
            lemma_content_roundtrip(n, d, p3);
        },
    }
}

/// A node body's encoding decodes back to the body.
#[verifier::rlimit(60)]
#[verifier::spinoff_prover]
proof fn lemma_content_roundtrip(n: NodeV, d: Seq<u8>, p: int)
    requires
        structure_ok(n),
        strings_valid(n),
        !(n.content is Empty),
        spec_enc_content(n.content) is Ok,
        0 <= p,
        p + spec_enc_content(n.content)->Ok_0.len() <= d.len(),
        d.subrange(p, p + spec_enc_content(n.content)->Ok_0.len()) == spec_enc_content(n.content)->Ok_0,
    ensures
        sp_content(d, p) == Ok::<(ContentV, int), DecodeError>((n.content, p + spec_enc_content(n.content)->Ok_0.len())),
    decreases n, 0nat,
{
    let c = spec_enc_content(n.content)->Ok_0;
    match n.content {
        ContentV::Empty => {},
        ContentV::Bytes(b) => {
            lemma_binary_header(b, d, p);
            let hl = c.len() - b.len();
            assert(sp_bytes(d, p + hl, b.len() as int) == Ok::<(Seq<u8>, int), DecodeError>((b, p + c.len())));
        },
        ContentV::Nodes(ns) => {
            let h = spec_list_start(ns.len());
            let body = spec_enc_nodes(ns)->Ok_0;
            assert(c == h + body);
            lemma_window(d, p, c, 0, h.len() as int);
            assert(c.subrange(0, h.len() as int) =~= h);
            lemma_list_start_roundtrip(ns.len(), d, p);
            lemma_window(d, p, c, h.len() as int, c.len() as int);
            assert(c.subrange(h.len() as int, c.len() as int) =~= body);
            assert forall|i: int| 0 <= i < ns.len() implies structure_ok(#[trigger] ns[i]) && strings_valid(ns[i]) by {}
            lemma_children_roundtrip(ns, d, p + h.len());
        },
    }
}

/// A node list's encoding decodes back to the list.
#[verifier::spinoff_prover]
proof fn lemma_children_roundtrip(ns: Seq<NodeV>, d: Seq<u8>, p: int)
    requires
        forall|i: int| 0 <= i < ns.len() ==> structure_ok(#[trigger] ns[i]) && strings_valid(ns[i]),
        spec_enc_nodes(ns) is Ok,
        0 <= p,
        p + spec_enc_nodes(ns)->Ok_0.len() <= d.len(),
        d.subrange(p, p + spec_enc_nodes(ns)->Ok_0.len()) == spec_enc_nodes(ns)->Ok_0,
    ensures
        sp_children(d, p, ns.len()) == Ok::<(Seq<NodeV>, int), DecodeError>((ns, p + spec_enc_nodes(ns)->Ok_0.len())),
    decreases ns, 0nat,
{
    let e = spec_enc_nodes(ns)->Ok_0;
    if ns.len() == 0 {
        assert(ns =~= Seq::<NodeV>::empty());
    } else {
        lemma_enc_nodes_front(ns);
        let first = spec_enc_node(ns[0])->Ok_0;
        let tail = ns.subrange(1, ns.len() as int);
        let r = spec_enc_nodes(tail)->Ok_0;
        lemma_window(d, p, e, 0, first.len() as int);
        assert(e.subrange(0, first.len() as int) =~= first);
        lemma_node_roundtrip(ns[0], d, p);
        lemma_window(d, p, e, first.len() as int, e.len() as int);
        assert(e.subrange(first.len() as int, e.len() as int) =~= r);
        assert forall|i: int| 0 <= i < tail.len() implies structure_ok(#[trigger] tail[i]) && strings_valid(tail[i]) by {
            assert(tail[i] == ns[i + 1]);
        }
        lemma_children_roundtrip(tail, d, p + first.len());
        assert(seq![ns[0]] + tail =~= ns);
    }
}

/// Every string of an in-memory node tree is valid UTF-8.
#[verifier::spinoff_prover]
#[verifier::rlimit(40)]
pub proof fn lemma_node_strings_valid(n: Node)
    ensures
        strings_valid(node_view(n)),
    decreases n,
{
    let v = node_view(n);
    encode_utf8_valid_utf8(n.tag@);
    assert(valid_utf8(v.tag));
    assert forall|i: int| 0 <= i < v.attrs.len() implies valid_utf8(#[trigger] v.attrs[i].0) && valid_utf8(v.attrs[i].1) by {
        assert(v.attrs[i] == (sbytes(n.attrs@[i].0), sbytes(n.attrs@[i].1)));
        encode_utf8_valid_utf8(n.attrs@[i].0@);
        encode_utf8_valid_utf8(n.attrs@[i].1@);
    }
    match n.content {
        NodeContent::Nodes(kids) => {
            lemma_nodes_view_len(kids@);
            assert(v.content == ContentV::Nodes(nodes_view(kids@)));
            assert forall|i: int| 0 <= i < kids@.len() implies strings_valid(#[trigger] nodes_view(kids@)[i]) by {
                lemma_nodes_view_index(kids@, i);
                lemma_node_strings_valid(kids@[i]);
            }
        },
        _ => {},
    }
}

/// Within the structural limits every list also fits the encoder's arithmetic.
pub proof fn lemma_structure_sizes_fit(n: NodeV)
    requires
        structure_ok(n),
    ensures
        sizes_fit(n),
    decreases n,
{
    if let ContentV::Nodes(ns) = n.content {
        assert forall|i: int| 0 <= i < ns.len() implies sizes_fit(#[trigger] ns[i]) by {
            lemma_structure_sizes_fit(ns[i]);
        }
    }
}

/// Every string and blob of the node tree fits the 32-bit length field: at most `0xffff_ffff`
/// bytes.
pub open spec fn lengths_fit(n: NodeV) -> bool
    decreases n,
{
    &&& n.tag.len() <= 0xffff_ffff
    &&& forall|i: int| 0 <= i < n.attrs.len() ==> (#[trigger] n.attrs[i]).0.len() <= 0xffff_ffff
        && n.attrs[i].1.len() <= 0xffff_ffff
    &&& match n.content {
        ContentV::Bytes(b) => b.len() <= 0xffff_ffff,
        ContentV::Nodes(ns) => forall|i: int| 0 <= i < ns.len() ==> lengths_fit(#[trigger] ns[i]),
        ContentV::Empty => true,
    }
}

proof fn lemma_enc_str_ok(s: Seq<u8>)
    requires
        s.len() <= 0xffff_ffff,
    ensures
        spec_enc_str(s) is Ok,
    decreases s.len(),
{
    if s.len() > 0 && spec_token_index(s) is None && find_at_from(s, 0) is Some {
        let k = find_at_from(s, 0)->Some_0;
        lemma_find_at_from(s, 0);
        lemma_enc_str_ok(s.subrange(0, k));
        lemma_enc_str_ok(s.subrange(k + 1, s.len() as int));
    }
}

proof fn lemma_enc_attrs_ok(a: Seq<(Seq<u8>, Seq<u8>)>)
    requires
        forall|i: int| 0 <= i < a.len() ==> (#[trigger] a[i]).0.len() <= 0xffff_ffff && a[i].1.len() <= 0xffff_ffff,
    ensures
        spec_enc_attrs(a) is Ok,
    decreases a.len(),
{
    if a.len() > 0 {
        let pre = a.subrange(0, a.len() - 1);
        assert forall|i: int| 0 <= i < pre.len() implies (#[trigger] pre[i]).0.len() <= 0xffff_ffff
            && pre[i].1.len() <= 0xffff_ffff by {
            assert(pre[i] == a[i]);
        }
        lemma_enc_attrs_ok(pre);
        let last = a[a.len() - 1];
        lemma_enc_str_ok(last.0);
        lemma_enc_str_ok(last.1);
    }
}

proof fn lemma_enc_node_ok(n: NodeV)
    requires
        lengths_fit(n),
    ensures
        spec_enc_node(n) is Ok,
    decreases n, 1nat,
{
    lemma_enc_str_ok(n.tag);
    lemma_enc_attrs_ok(n.attrs);
    if let ContentV::Nodes(ns) = n.content {
        lemma_enc_nodes_ok(ns);
    }
}

proof fn lemma_enc_nodes_ok(ns: Seq<NodeV>)
    requires
        forall|i: int| 0 <= i < ns.len() ==> lengths_fit(#[trigger] ns[i]),
    ensures
        spec_enc_nodes(ns) is Ok,
    decreases ns, 0nat,
{
    if ns.len() > 0 {
        let pre = ns.subrange(0, ns.len() - 1);
        assert forall|i: int| 0 <= i < pre.len() implies lengths_fit(#[trigger] pre[i]) by {
            assert(pre[i] == ns[i]);
        }
        assert(decreases_to!(ns => ns[ns.len() - 1]));
        lemma_enc_nodes_ok(pre);
        lemma_enc_node_ok(ns[ns.len() - 1]);
    }
}

/// Encoding fails only on what is too long for the 32-bit length field: a node whose strings and
/// blobs are at most `0xffff_ffff` bytes each always encodes (and, with [`marshal_roundtrip`],
/// decodes back).
pub proof fn encoding_succeeds(n: Node)
    requires
        lengths_fit(node_view(n)),
    ensures
        spec_enc_node(node_view(n)) is Ok,
{
    lemma_enc_node_ok(node_view(n));
}

/// Decoding the encoding of a node gives the node back, whenever its description is not the
/// stream-end token and no list of it holds 65536 or more elements.
pub proof fn marshal_roundtrip(n: Node)
    requires
        structure_ok(node_view(n)),
        spec_enc_node(node_view(n)) is Ok,
    ensures
        sizes_fit(node_view(n)),
        spec_unmarshal(spec_enc_node(node_view(n))->Ok_0) == Ok::<NodeV, DecodeError>(node_view(n)),
{
    let e = spec_enc_node(node_view(n))->Ok_0;
    lemma_structure_sizes_fit(node_view(n));
    lemma_node_strings_valid(n);
    assert(e.subrange(0, e.len() as int) =~= e);
    lemma_node_roundtrip(node_view(n), e, 0);
}

} // verus!
