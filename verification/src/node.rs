//! The in-memory binary-XMPP node (stanza) tree.
//!
//! A node is a *list*: `[ list-size ] [ description-token ] [ attr-key attr-value ]* [ content ]?`
//! on the wire. In memory it is a tag, an ordered attribute list and a body that is either
//! absent, a raw binary blob, or a list of child nodes. Attribute order is preserved on the wire
//! and on round-trip.

use vstd::prelude::*;
use crate::bytes::to_vec;
use vstd::utf8::*;
use crate::token::bytes_eq;

verus! {

/// Errors produced while encoding or decoding a [`Node`].
#[derive(Debug)]
pub enum Error {
    /// Ran off the end of the input buffer.
    Eof(usize),
    /// A structurally invalid node was encountered.
    InvalidNode(String),
    /// A token index that is not present in the (partial) dictionary.
    UnknownToken(usize),
    /// A value was too large to be represented by the 32-bit length field.
    TooLarge(usize),
    /// A string field did not contain valid UTF-8.
    Utf8,
}

/// The payload carried by a [`Node`].
#[derive(Debug, PartialEq, Eq)]
pub enum NodeContent {
    /// No content element (the node is self-closing).
    Empty,
    /// A raw binary blob (an encrypted message, a media pointer, a protobuf).
    Bytes(Vec<u8>),
    /// A nested list of child nodes.
    Nodes(Vec<Node>),
}

/// A single binary-XMPP node (stanza element).
#[derive(Debug, PartialEq, Eq)]
pub struct Node {
    /// The element name / description token (e.g. `"message"`, `"iq"`, `"call"`).
    pub tag: String,
    /// Ordered `(key, value)` attribute pairs.
    pub attrs: Vec<(String, String)>,
    /// The node body.
    pub content: NodeContent,
}

/// The mathematical model of a node: every string is taken by its UTF-8 bytes.
pub struct NodeV {
    pub tag: Seq<u8>,
    pub attrs: Seq<(Seq<u8>, Seq<u8>)>,
    pub content: ContentV,
}

/// The model of a node body.
pub enum ContentV {
    Empty,
    Bytes(Seq<u8>),
    Nodes(Seq<NodeV>),
}

/// The UTF-8 bytes of a string.
pub open spec fn sbytes(s: String) -> Seq<u8> {
    encode_utf8(s@)
}

/// The model of an attribute list.
pub open spec fn attrs_view(a: Seq<(String, String)>) -> Seq<(Seq<u8>, Seq<u8>)> {
    a.map_values(|p: (String, String)| (sbytes(p.0), sbytes(p.1)))
}

/// The model of a node.
pub open spec fn node_view(n: Node) -> NodeV
    decreases n,
{
    NodeV {
        tag: sbytes(n.tag),
        attrs: attrs_view(n.attrs@),
        content: match n.content {
            NodeContent::Empty => ContentV::Empty,
            NodeContent::Bytes(b) => ContentV::Bytes(b@),
            NodeContent::Nodes(v) => ContentV::Nodes(nodes_view(v@)),
        },
    }
}

/// The model of a list of nodes.
pub open spec fn nodes_view(s: Seq<Node>) -> Seq<NodeV>
    decreases s,
{
    if s.len() == 0 {
        Seq::empty()
    } else {
        nodes_view(s.subrange(0, s.len() - 1)).push(node_view(s[s.len() - 1]))
    }
}

impl View for Node {
    type V = NodeV;

    open spec fn view(&self) -> NodeV {
        node_view(*self)
    }
}

/// `nodes_view` grows by one element when a node is pushed.
pub proof fn lemma_nodes_view_push(s: Seq<Node>, n: Node)
    ensures
        nodes_view(s.push(n)) == nodes_view(s).push(node_view(n)),
        nodes_view(s).len() == s.len(),
    decreases s.len(),
{
    assert(s.push(n).subrange(0, s.len() as int) =~= s);
    lemma_nodes_view_len(s);
}

/// `nodes_view` keeps the length.
pub proof fn lemma_nodes_view_len(s: Seq<Node>)
    ensures
        nodes_view(s).len() == s.len(),
    decreases s.len(),
{
    if s.len() > 0 {
        lemma_nodes_view_len(s.subrange(0, s.len() - 1));
    }
}

/// `nodes_view` maps each element.
pub proof fn lemma_nodes_view_index(s: Seq<Node>, i: int)
    requires
        0 <= i < s.len(),
    ensures
        nodes_view(s)[i] == node_view(s[i]),
    decreases s.len(),
{
    lemma_nodes_view_len(s);
    if i < s.len() - 1 {
        lemma_nodes_view_index(s.subrange(0, s.len() - 1), i);
    }
}

impl NodeContent {
    /// Whether a content element follows the attributes on the wire.
    pub fn is_present(&self) -> (r: bool)
        ensures
            r == !(self is Empty),
    {
        !matches!(self, NodeContent::Empty)
    }
}

/// The position of the first attribute named `key` at or after position `i`.
pub open spec fn first_attr_from(a: Seq<(String, String)>, key: Seq<char>, i: int) -> Option<int>
    decreases a.len() - i,
{
    if i < 0 || i >= a.len() {
        None
    } else if a[i].0@ == key {
        Some(i)
    } else {
        first_attr_from(a, key, i + 1)
    }
}

/// The value of the last attribute named `key`, if any.
pub open spec fn last_attr_value(a: Seq<(String, String)>, key: Seq<char>) -> Option<Seq<char>>
    decreases a.len(),
{
    if a.len() == 0 {
        None
    } else if a.last().0@ == key {
        Some(a.last().1@)
    } else {
        last_attr_value(a.drop_last(), key)
    }
}

/// A list of key/value pairs in which no key occurs twice, each carrying the last value the
/// attribute list gives that key, and holding every key of the attribute list.
pub open spec fn is_attr_map(r: Seq<(&str, &str)>, a: Seq<(String, String)>) -> bool {
    &&& forall|i: int, j: int| 0 <= i < j < r.len() ==> (#[trigger] r[i]).0@ != (#[trigger] r[j]).0@
    &&& forall|i: int| 0 <= i < r.len() ==> last_attr_value(a, (#[trigger] r[i]).0@) == Some(r[i].1@)
    &&& forall|k: Seq<char>| #[trigger] last_attr_value(a, k) is Some ==> exists|i: int| 0 <= i < r.len() && (#[trigger] r[i]).0@ == k
}

/// The position of the pair whose key is `k`, if any.
fn find_key(out: &Vec<(&str, &str)>, k: &str) -> (r: Option<usize>)
    ensures
        r matches Some(j) ==> j < out@.len() && out@[j as int].0@ == k@,
        r is None ==> forall|m: int| 0 <= m < out@.len() ==> (#[trigger] out@[m]).0@ != k@,
{
    let mut j: usize = 0;
    while j < out.len()
        invariant
            j <= out@.len(),
            forall|m: int| 0 <= m < j ==> (#[trigger] out@[m]).0@ != k@,
        decreases out@.len() - j,
    {
        if str_eq(out[j].0, k) {
            return Some(j);
        }
        j += 1;
    }
    None
}

/// Two strings with the same UTF-8 bytes are the same string.
pub proof fn lemma_sbytes_injective(a: Seq<char>, b: Seq<char>)
    requires
        encode_utf8(a) == encode_utf8(b),
    ensures
        a == b,
{
    encode_utf8_decode_utf8(a);
    encode_utf8_decode_utf8(b);
}

/// Whether two strings are equal, compared by their bytes.
pub fn str_eq(a: &str, b: &str) -> (r: bool)
    ensures
        r == (a@ == b@),
{
    let r = bytes_eq(a.as_bytes(), b.as_bytes());
    proof {
        if r {
            lemma_sbytes_injective(a@, b@);
        }
    }
    r
}

/// The bytes of a `&str` as a freshly owned `String`.
pub(crate) fn owned(s: &str) -> (r: String)
    ensures
        r@ == s@,
{
    s.to_owned()
}

/// A copy of a list of nodes: each copy has the model of its original.
fn clone_nodes(v: &Vec<Node>) -> (r: Vec<Node>)
    ensures
        r@.len() == v@.len(),
        forall|i: int| 0 <= i < v@.len() ==> node_view(#[trigger] r@[i]) == node_view(v@[i]),
    decreases v@, 0nat,
{
    let mut out: Vec<Node> = Vec::new();
    let mut i: usize = 0;
    while i < v.len()
        invariant
            i <= v@.len(),
            out@.len() == i,
            forall|k: int| 0 <= k < i ==> node_view(#[trigger] out@[k]) == node_view(v@[k]),
        decreases v@.len() - i,
    {
        assert(decreases_to!(v@ => v@[i as int]));
        out.push(clone_node(&v[i]));
        i += 1;
    }
    out
}

/// Whether `r` is a copy of `c`: the same variant, with the same bytes or node models.
pub open spec fn same_content(r: NodeContent, c: NodeContent) -> bool {
    match c {
        NodeContent::Empty => r is Empty,
        NodeContent::Bytes(b) => r matches NodeContent::Bytes(x) && x@ == b@,
        NodeContent::Nodes(v) => r matches NodeContent::Nodes(x) && nodes_view(x@) == nodes_view(v@),
    }
}

/// A copy of a node body.
fn clone_content(c: &NodeContent) -> (r: NodeContent)
    ensures
        same_content(r, *c),
    decreases *c, 1nat,
{
    match c {
        NodeContent::Empty => NodeContent::Empty,
        NodeContent::Bytes(b) => NodeContent::Bytes(to_vec(b.as_slice())),
        NodeContent::Nodes(v) => {
            let w = clone_nodes(v);
            proof {
                lemma_nodes_view_len(w@);
                lemma_nodes_view_len(v@);
                assert forall|k: int| 0 <= k < v@.len() implies nodes_view(w@)[k] == nodes_view(v@)[k] by {
                    lemma_nodes_view_index(w@, k);
                    lemma_nodes_view_index(v@, k);
                }
                assert(nodes_view(w@) =~= nodes_view(v@));
            }
            NodeContent::Nodes(w)
        },
    }
}

/// A copy of a node, with the same model.
fn clone_node(n: &Node) -> (r: Node)
    ensures
        node_view(r) == node_view(*n),
    decreases *n, 2nat,
{
    let mut attrs: Vec<(String, String)> = Vec::new();
    let mut i: usize = 0;
    while i < n.attrs.len()
        invariant
            i <= n.attrs@.len(),
            attrs@ == n.attrs@.subrange(0, i as int),
        decreases n.attrs@.len() - i,
    {
        let (k, v) = &n.attrs[i];
        attrs.push((k.clone(), v.clone()));
        assert(attrs@ =~= n.attrs@.subrange(0, i + 1));
        i += 1;
    }
    assert(n.attrs@.subrange(0, i as int) =~= n.attrs@);
    let content = clone_content(&n.content);
    Node { tag: n.tag.clone(), attrs, content }
}

impl Clone for NodeContent {
    /// A deep copy, with the same bytes or node models.
    fn clone(&self) -> (r: NodeContent)
        ensures
            same_content(r, *self),
    {
        clone_content(self)
    }
}

impl Clone for Node {
    /// A deep copy, with the same model.
    fn clone(&self) -> (r: Node)
        ensures
            r@ == self@,
    {
        clone_node(self)
    }
}

impl Node {
    /// Create a childless, attribute-less node with the given tag.
    pub fn new(tag: &str) -> (r: Node)
        ensures
            r.tag@ == tag@,
            r.attrs@.len() == 0,
            r.content is Empty,
    {
        Node { tag: owned(tag), attrs: Vec::new(), content: NodeContent::Empty }
    }

    /// Builder: append an attribute.
    pub fn attr(self, key: &str, value: &str) -> (r: Node)
        ensures
            r.tag == self.tag,
            r.content == self.content,
            r.attrs@.len() == self.attrs@.len() + 1,
            r.attrs@.subrange(0, self.attrs@.len() as int) == self.attrs@,
            r.attrs@.last().0@ == key@,
            r.attrs@.last().1@ == value@,
    {
        let mut n = self;
        n.attrs.push((owned(key), owned(value)));
        n
    }

    /// Builder: set raw binary content.
    pub fn bytes(self, b: Vec<u8>) -> (r: Node)
        ensures
            r.tag == self.tag,
            r.attrs == self.attrs,
            r.content == NodeContent::Bytes(b),
    {
        let mut n = self;
        n.content = NodeContent::Bytes(b);
        n
    }

    /// Builder: set child nodes.
    pub fn children(self, nodes: Vec<Node>) -> (r: Node)
        ensures
            r.tag == self.tag,
            r.attrs == self.attrs,
            r.content == NodeContent::Nodes(nodes),
    {
        let mut n = self;
        n.content = NodeContent::Nodes(nodes);
        n
    }

    /// Look up an attribute value by key (first match).
    pub fn get_attr(&self, key: &str) -> (r: Option<&str>)
        ensures
            first_attr_from(self.attrs@, key@, 0) matches Some(i) ==> r matches Some(v) && v@ == self.attrs@[i].1@,
            first_attr_from(self.attrs@, key@, 0) is None ==> r is None,
    {
        let mut i: usize = 0;
        while i < self.attrs.len()
            invariant
                i <= self.attrs@.len(),
                first_attr_from(self.attrs@, key@, 0) == first_attr_from(self.attrs@, key@, i as int),
            decreases self.attrs@.len() - i,
        {
            if str_eq(self.attrs[i].0.as_str(), key) {
                return Some(self.attrs[i].1.as_str());
            }
            i += 1;
        }
        None
    }

    /// The attributes as a map: each key once, with the value of its last occurrence (attribute
    /// order and duplicates are lost; for convenience only).
    pub fn attr_map(&self) -> (r: Vec<(&str, &str)>)
        ensures
            is_attr_map(r@, self.attrs@),
    {
        let mut out: Vec<(&str, &str)> = Vec::new();
        let mut i: usize = 0;
        while i < self.attrs.len()
            invariant
                i <= self.attrs@.len(),
                is_attr_map(out@, self.attrs@.subrange(0, i as int)),
            decreases self.attrs@.len() - i,
        {
            let k = self.attrs[i].0.as_str();
            let v = self.attrs[i].1.as_str();
            let ghost prefix = self.attrs@.subrange(0, i as int);
            let ghost next = self.attrs@.subrange(0, i + 1);
            assert(next.drop_last() =~= prefix);
            assert(next.last() == self.attrs@[i as int]);
            let ghost before = out@;
            match find_key(&out, k) {
                Some(j) => {
                    out.set(j, (k, v));
                    assert forall|m: int| 0 <= m < out@.len() implies last_attr_value(next, (#[trigger] out@[m]).0@) == Some(out@[m].1@) by {
                        if m != j {
                            assert(out@[m] == before[m]);
                            assert(before[m].0@ != k@);
                        }
                    }
                    assert forall|kk: Seq<char>| #[trigger] last_attr_value(next, kk) is Some implies exists|m: int| 0 <= m < out@.len() && (#[trigger] out@[m]).0@ == kk by {
                        if kk != k@ {
                            assert(last_attr_value(prefix, kk) is Some);
                            let m = choose|m: int| 0 <= m < before.len() && (#[trigger] before[m]).0@ == kk;
                            assert(out@[m].0@ == kk);
                        } else {
                            assert(out@[j as int].0@ == kk);
                        }
                    }
                    assert forall|a: int, b: int| 0 <= a < b < out@.len() implies (#[trigger] out@[a]).0@ != (#[trigger] out@[b]).0@ by {
                        assert(before[a].0@ != before[b].0@);
                    }
                },
                None => {
                    out.push((k, v));
                    assert forall|m: int| 0 <= m < out@.len() implies last_attr_value(next, (#[trigger] out@[m]).0@) == Some(out@[m].1@) by {
                        if m < before.len() {
                            assert(out@[m] == before[m]);
                            assert(before[m].0@ != k@);
                        }
                    }
                    assert forall|kk: Seq<char>| #[trigger] last_attr_value(next, kk) is Some implies exists|m: int| 0 <= m < out@.len() && (#[trigger] out@[m]).0@ == kk by {
                        if kk != k@ {
                            assert(last_attr_value(prefix, kk) is Some);
                            let m = choose|m: int| 0 <= m < before.len() && (#[trigger] before[m]).0@ == kk;
                            assert(out@[m].0@ == kk);
                        } else {
                            assert(out@[out@.len() - 1].0@ == kk);
                        }
                    }
                    assert forall|a: int, b: int| 0 <= a < b < out@.len() implies (#[trigger] out@[a]).0@ != (#[trigger] out@[b]).0@ by {
                        if b < before.len() {
                            assert(before[a].0@ != before[b].0@);
                        } else {
                            assert(before[a].0@ != k@);
                        }
                    }
                },
            }
            i += 1;
        }
        assert(self.attrs@.subrange(0, i as int) =~= self.attrs@);
        out
    }

    /// Borrow the raw content bytes, if this node's content is a binary blob.
    pub fn content_bytes(&self) -> (r: Option<&[u8]>)
        ensures
            self.content matches NodeContent::Bytes(b) ==> r matches Some(x) && x@ == b@,
            !(self.content is Bytes) ==> r is None,
    {
        match &self.content {
            NodeContent::Bytes(b) => Some(b.as_slice()),
            _ => None,
        }
    }

    /// Borrow the child nodes, if this node's content is a node list (otherwise none).
    pub fn child_nodes(&self) -> (r: &[Node])
        ensures
            self.content matches NodeContent::Nodes(v) ==> r@ == v@,
            !(self.content is Nodes) ==> r@.len() == 0,
    {
        match &self.content {
            NodeContent::Nodes(n) => n.as_slice(),
            _ => &[],
        }
    }
}

} // verus!
