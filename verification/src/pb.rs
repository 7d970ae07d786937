//! Protobuf wire primitives: base-128 varints and tagged fields.
//!
//! Just enough of the binary protobuf encoding to read and write the handful of message types
//! that the handshake and login need: varint fields and length-delimited fields. A message is
//! modelled as the sequence of its fields in wire order.

use vstd::prelude::*;
use crate::bytes::{append_bytes, copy_range};
use crate::codec::lemma_window;

verus! {

/// Wire type of a varint field.
pub const WIRE_VARINT: u64 = 0;
/// Wire type of a fixed 64-bit field.
pub const WIRE_I64: u64 = 1;
/// Wire type of a length-delimited field.
pub const WIRE_LEN: u64 = 2;
/// Wire type of a fixed 32-bit field.
pub const WIRE_I32: u64 = 5;

/// Errors from protobuf decoding.
#[derive(Debug)]
pub enum Error {
    /// Hit the end of the buffer mid-field.
    Eof,
    /// A structurally invalid or unexpected message.
    Malformed(&'static str),
    /// A protobuf wire type this minimal decoder does not handle.
    UnsupportedWireType(u64),
}

/// The model of a decoding error.
pub enum PbError {
    Eof,
    Malformed(&'static str),
    UnsupportedWireType(u64),
}

/// The modelled error an error value stands for.
pub open spec fn pb_err(e: Error) -> PbError {
    match e {
        Error::Eof => PbError::Eof,
        Error::Malformed(m) => PbError::Malformed(m),
        Error::UnsupportedWireType(w) => PbError::UnsupportedWireType(w),
    }
}

/// An executable result agrees with its modelled result.
pub open spec fn agrees<T>(r: Result<T, Error>, m: Result<T, PbError>) -> bool {
    match m {
        Ok(v) => r == Ok::<T, Error>(v),
        Err(e) => r matches Err(x) && pb_err(x) == e,
    }
}

// ----------------------------------------------------------------------------------------------
// Varints
// ----------------------------------------------------------------------------------------------

/// The base-128 varint encoding of `v`: seven bits per byte, least significant group first, the
/// high bit set on every byte but the last.
pub open spec fn spec_varint(v: u64) -> Seq<u8>
    decreases v,
{
    if v < 128 {
        seq![v as u8]
    } else {
        seq![((v & 0x7f) | 0x80) as u8] + spec_varint(v / 128)
    }
}

/// Reading a varint whose first `k` groups have been gathered into `acc`, at position `p`:
/// the value and the position after it, or the error and the position where reading stopped.
pub open spec fn varint_from(d: Seq<u8>, p: int, k: nat, acc: u64) -> (Result<u64, PbError>, int)
    decreases 10 - k,
{
    if k >= 10 {
        (Err(PbError::Malformed("varint exceeds 64 bits")), p)
    } else if p < 0 || p >= d.len() {
        (Err(PbError::Eof), p)
    } else {
        let b = d[p];
        let acc2 = acc | (((b & 0x7f) as u64) << ((7 * k) as u64));
        if b & 0x80 == 0 {
            (Ok(acc2), p + 1)
        } else if k >= 9 {
            (Err(PbError::Malformed("varint exceeds 64 bits")), p + 1)
        } else {
            varint_from(d, p + 1, k + 1, acc2)
        }
    }
}

/// The varint at position `p`.
pub open spec fn sp_varint(d: Seq<u8>, p: int) -> (Result<u64, PbError>, int) {
    varint_from(d, p, 0, 0)
}

/// The bit facts behind writing one group of a varint.
proof fn lemma_varint_byte(v: u64)
    by (bit_vector)
    ensures
        v >> 7 == v / 128,
        v >> 7 == 0 <==> v < 128,
        ((v & 0x7f) as u8 | 0x80u8) == ((v & 0x7f) | 0x80) as u8,
        v < 128 ==> (v & 0x7f) as u8 == v as u8,
{
}

/// Append a base-128 varint.
pub fn put_varint(out: &mut Vec<u8>, v: u64)
    ensures
        final(out)@ == old(out)@ + spec_varint(v),
{
    let mut v = v;
    let ghost v0 = v;
    loop
        invariant_except_break
            out@ + spec_varint(v) == old(out)@ + spec_varint(v0),
        ensures
            out@ == old(out)@ + spec_varint(v0),
        decreases v,
    {
        let ghost vv = v;
        let mut byte = (v & 0x7f) as u8;
        v = v >> 7;
        proof {
            lemma_varint_byte(vv);
        }
        if v != 0 {
            byte = byte | 0x80;
        }
        out.push(byte);
        if v == 0 {
            assert(out@ == old(out)@ + spec_varint(v0));
            break;
        }
        assert(out@ + spec_varint(v) =~= old(out)@ + spec_varint(v0));
    }
}

/// A varint takes at most ten bytes.
pub proof fn lemma_varint_len(v: u64)
    ensures
        1 <= spec_varint(v).len() <= 10,
{
    reveal_with_fuel(spec_varint, 11);
}

/// Reading advances the position, by at most ten bytes.
pub proof fn lemma_varint_from_pos(d: Seq<u8>, p: int, k: nat, acc: u64)
    requires
        k <= 9,
    ensures
        varint_from(d, p, k, acc).0 is Ok ==> p < varint_from(d, p, k, acc).1 <= d.len()
            && varint_from(d, p, k, acc).1 <= p + 10 - k,
        varint_from(d, p, k, acc).1 >= p,
    decreases 10 - k,
{
    if 0 <= p < d.len() && d[p] & 0x80 != 0 && k < 9 {
        lemma_varint_from_pos(d, p + 1, k + 1, acc | (((d[p] & 0x7f) as u64) << ((7 * k) as u64)));
    }
}

/// Read a base-128 varint at `*pos`, advancing `*pos` past every byte read.
pub fn read_varint(data: &[u8], pos: &mut usize) -> (r: Result<u64, Error>)
    ensures
        agrees(r, sp_varint(data@, *old(pos) as int).0),
        *final(pos) == sp_varint(data@, *old(pos) as int).1,
{
    let mut shift: u32 = 0;
    let mut val: u64 = 0;
    let ghost mut k: nat = 0;
    loop
        invariant
            k <= 9,
            shift == 7 * k,
            sp_varint(data@, *old(pos) as int) == varint_from(data@, *pos as int, k, val),
        decreases 9 - k,
    {
        if *pos >= data.len() {
            return Err(Error::Eof);
        }
        let b = data[*pos];
        *pos = *pos + 1;
        val = val | (((b & 0x7f) as u64) << shift);
        if b & 0x80 == 0 {
            return Ok(val);
        }
        shift = shift + 7;
        if shift >= 64 {
            return Err(Error::Malformed("varint exceeds 64 bits"));
        }
        proof {
            k = k + 1;
        }
    }
}

/// The bit facts behind decoding one group of a varint's encoding.
proof fn lemma_varint_group(w: u64, s: u64, acc: u64)
    by (bit_vector)
    requires
        s <= 63,
        acc < (1u64 << s),
        s == 0 || w >> ((64 - s) as u64) == 0,
    ensures
        w < 128 ==> acc | ((w & 0x7f) << s) == acc | (w << s),
        w < 128 ==> (w as u8) & 0x80 == 0 && ((w as u8) & 0x7f) as u64 == w & 0x7f,
        w >= 128 ==> s + 7 <= 63,
        w >= 128 ==> (acc | ((w & 0x7f) << s)) < (1u64 << (s + 7)),
        w >= 128 ==> (w >> 7u64) >> ((64 - (s + 7)) as u64) == 0,
        w >= 128 ==> (acc | ((w & 0x7f) << s)) | ((w >> 7u64) << (s + 7)) == acc | (w << s),
        ((((w & 0x7f) | 0x80) as u8) & 0x80) != 0,
        ((((w & 0x7f) | 0x80) as u8) & 0x7f) as u64 == w & 0x7f,
        w >> 7u64 == w / 128,
{
}

/// Decoding continues correctly through the rest of a varint's encoding.
proof fn lemma_varint_from_enc(w: u64, k: nat, acc: u64, d: Seq<u8>, p: int)
    requires
        k <= 9,
        acc < (1u64 << (7 * k) as u64),
        k == 0 || w >> (64 - 7 * k) as u64 == 0,
        0 <= p,
        p + spec_varint(w).len() <= d.len(),
        d.subrange(p, p + spec_varint(w).len()) == spec_varint(w),
    ensures
        varint_from(d, p, k, acc) == (Ok::<u64, PbError>(acc | (w << (7 * k) as u64)), p + spec_varint(w).len()),
    decreases w,
{
    let s = (7 * k) as u64;
    let e = spec_varint(w);
    lemma_varint_group(w, s, acc);
    assert(d[p] == e[0]);
    let b = e[0];
    if w < 128 {
        assert(b == w as u8);
    } else {
        assert(b == ((w & 0x7f) | 0x80) as u8);
        let rest = spec_varint(w / 128);
        assert(e == seq![b] + rest);
        assert(d.subrange(p + 1, p + 1 + rest.len()) =~= rest) by {
            assert forall|i: int| 0 <= i < rest.len() implies d.subrange(p + 1, p + 1 + rest.len())[i] == rest[i] by {
                assert(d.subrange(p, p + e.len())[i + 1] == e[i + 1]);
            }
        }
        assert((7 * (k + 1)) as u64 == s + 7);
        lemma_varint_from_enc(w / 128, k + 1, acc | ((w & 0x7f) << s), d, p + 1);
    }
}

/// Reading the encoding of `v` gives back `v` and stops right after it.
pub proof fn lemma_varint_roundtrip(v: u64, d: Seq<u8>, p: int)
    requires
        0 <= p,
        p + spec_varint(v).len() <= d.len(),
        d.subrange(p, p + spec_varint(v).len()) == spec_varint(v),
    ensures
        sp_varint(d, p) == (Ok::<u64, PbError>(v), p + spec_varint(v).len()),
{
    assert(0u64 < (1u64 << 0u64) && (0u64 | (v << 0u64)) == v) by (bit_vector);
    lemma_varint_from_enc(v, 0, 0, d, p);
}

// ----------------------------------------------------------------------------------------------
// Fields
// ----------------------------------------------------------------------------------------------

/// The value of a decoded field.
#[derive(Debug)]
pub enum Value {
    /// A varint (wire type 0) field.
    Varint(u64),
    /// A length-delimited (wire type 2) field.
    Bytes(Vec<u8>),
}

/// The model of a field value.
pub enum ValueV {
    Varint(u64),
    Bytes(Seq<u8>),
}

/// A decoded length-delimited field: its field number and raw bytes.
pub type LenField = (u64, Vec<u8>);

/// The model of a field value.
pub open spec fn value_view(v: Value) -> ValueV {
    match v {
        Value::Varint(x) => ValueV::Varint(x),
        Value::Bytes(b) => ValueV::Bytes(b@),
    }
}

/// The model of a decoded message: its fields in wire order.
pub open spec fn fields_view(s: Seq<(u64, Value)>) -> Seq<(u64, ValueV)> {
    s.map_values(|f: (u64, Value)| (f.0, value_view(f.1)))
}

/// The model of a list of length-delimited fields.
pub open spec fn len_fields_view(s: Seq<LenField>) -> Seq<(u64, Seq<u8>)> {
    s.map_values(|f: LenField| (f.0, f.1@))
}

/// The key of a field: its number shifted left by three bits, then its wire type.
pub open spec fn field_key(field_no: u64, wire: u64) -> u64 {
    (field_no << 3u64) | wire
}

/// The encoding of one field.
pub open spec fn spec_field(f: (u64, ValueV)) -> Seq<u8> {
    match f.1 {
        ValueV::Varint(v) => spec_varint(field_key(f.0, WIRE_VARINT)) + spec_varint(v),
        ValueV::Bytes(b) => spec_varint(field_key(f.0, WIRE_LEN)) + spec_varint(b.len() as u64) + b,
    }
}

/// The encoding of a message: its fields, one after another.
pub open spec fn spec_fields(s: Seq<(u64, ValueV)>) -> Seq<u8>
    decreases s.len(),
{
    if s.len() == 0 {
        Seq::empty()
    } else {
        spec_field(s[0]) + spec_fields(s.subrange(1, s.len() as int))
    }
}

/// Encoding a list of fields with one more at its end appends that field's encoding.
pub proof fn lemma_spec_fields_push(s: Seq<(u64, ValueV)>, f: (u64, ValueV))
    ensures
        spec_fields(s.push(f)) == spec_fields(s) + spec_field(f),
    decreases s.len(),
{
    if s.len() == 0 {
        let t = s.push(f).subrange(1, 1);
        assert(t =~= Seq::<(u64, ValueV)>::empty());
        assert(spec_fields(t) == Seq::<u8>::empty());
        assert(s.push(f)[0] == f);
        assert(spec_fields(s.push(f)) == spec_field(f) + spec_fields(t));
        assert(spec_fields(s.push(f)) =~= spec_field(f));
        assert(spec_fields(s) + spec_field(f) =~= spec_field(f));
    } else {
        let t = s.subrange(1, s.len() as int);
        lemma_spec_fields_push(t, f);
        assert(s.push(f).subrange(1, s.len() + 1 as int) =~= t.push(f));
        assert(spec_fields(s.push(f)) =~= spec_field(s[0]) + spec_fields(t.push(f)));
        assert(spec_fields(s.push(f)) =~= spec_fields(s) + spec_field(f));
    }
}

/// The encoding of a single field.
pub proof fn lemma_spec_fields_one(f: (u64, ValueV))
    ensures
        spec_fields(seq![f]) == spec_field(f),
{
    lemma_spec_fields_push(Seq::empty(), f);
    assert(Seq::<(u64, ValueV)>::empty().push(f) =~= seq![f]);
    assert(spec_fields(Seq::<(u64, ValueV)>::empty()) == Seq::<u8>::empty());
    assert(Seq::<u8>::empty() + spec_field(f) =~= spec_field(f));
}

/// A field that an encoder can write and a decoder read back: its number fits in 61 bits and a
/// length-delimited value's length in 64.
pub open spec fn field_ok(f: (u64, ValueV)) -> bool {
    &&& f.0 < 0x2000_0000_0000_0000
    &&& f.1 matches ValueV::Bytes(b) ==> b.len() <= u64::MAX
}

/// Append a length-delimited (wire type 2) field: key, length, bytes.
pub fn put_len_field(out: &mut Vec<u8>, field_no: u64, data: &[u8])
    ensures
        final(out)@ == old(out)@ + spec_field((field_no, ValueV::Bytes(data@))),
{
    put_varint(out, (field_no << 3) | WIRE_LEN);
    put_varint(out, data.len() as u64);
    append_bytes(out, data);
}

/// Append a varint (wire type 0) field: key, value. Used for bool, enum and integer fields.
pub fn put_varint_field(out: &mut Vec<u8>, field_no: u64, value: u64)
    ensures
        final(out)@ == old(out)@ + spec_field((field_no, ValueV::Varint(value))),
{
    put_varint(out, (field_no << 3) | WIRE_VARINT);
    put_varint(out, value);
}

/// Append a length-delimited field to a message under construction whose fields so far are `fs`.
pub(crate) fn push_len_field(b: &mut Vec<u8>, n: u64, data: &[u8], Ghost(fs): Ghost<Seq<(u64, ValueV)>>)
    -> (r: Ghost<Seq<(u64, ValueV)>>)
    requires
        old(b)@ == spec_fields(fs),
    ensures
        r@ == fs.push((n, ValueV::Bytes(data@))),
        final(b)@ == spec_fields(r@),
{
    put_len_field(b, n, data);
    proof {
        lemma_spec_fields_push(fs, (n, ValueV::Bytes(data@)));
    }
    Ghost(fs.push((n, ValueV::Bytes(data@))))
}

/// Append a varint field to a message under construction whose fields so far are `fs`.
pub(crate) fn push_varint_field(b: &mut Vec<u8>, n: u64, v: u64, Ghost(fs): Ghost<Seq<(u64, ValueV)>>)
    -> (r: Ghost<Seq<(u64, ValueV)>>)
    requires
        old(b)@ == spec_fields(fs),
    ensures
        r@ == fs.push((n, ValueV::Varint(v))),
        final(b)@ == spec_fields(r@),
{
    put_varint_field(b, n, v);
    proof {
        lemma_spec_fields_push(fs, (n, ValueV::Varint(v)));
    }
    Ghost(fs.push((n, ValueV::Varint(v))))
}

/// A decoded message prefixed with the fields before it.
pub open spec fn pb_prepend<T>(pre: Seq<T>, r: Result<Seq<T>, PbError>) -> Result<Seq<T>, PbError> {
    match r {
        Ok(s) => Ok(pre + s),
        Err(e) => Err(e),
    }
}

/// Prefixing twice is prefixing once with both.
pub proof fn lemma_pb_prepend_assoc<T>(a: Seq<T>, b: Seq<T>, r: Result<Seq<T>, PbError>)
    ensures
        pb_prepend(a, pb_prepend(b, r)) == pb_prepend(a + b, r),
{
    if let Ok(s) = r {
        assert(a + (b + s) =~= (a + b) + s);
    }
}

/// The fields of the message from position `p` to the end of `d`. Fixed-width fields are
/// skipped; a field cut short by the end of the buffer is an end-of-input error.
pub open spec fn sp_parse(d: Seq<u8>, p: int) -> Result<Seq<(u64, ValueV)>, PbError>
    decreases d.len() - p,
{
    if p < 0 || p >= d.len() {
        Ok(Seq::empty())
    } else {
        let (kr, p1) = sp_varint(d, p);
        proof {
            lemma_varint_from_pos(d, p, 0, 0);
        }
        match kr {
            Err(e) => Err(e),
            Ok(key) => {
                let field_no = key >> 3u64;
                let wire = key & 7u64;
                if wire == WIRE_LEN {
                    let (lr, p2) = sp_varint(d, p1);
                    proof {
                        lemma_varint_from_pos(d, p1, 0, 0);
                    }
                    match lr {
                        Err(e) => Err(e),
                        Ok(len) => if p2 + len > d.len() {
                            Err(PbError::Eof)
                        } else {
                            pb_prepend(seq![(field_no, ValueV::Bytes(d.subrange(p2, p2 + len)))], sp_parse(d, p2 + len))
                        },
                    }
                } else if wire == WIRE_VARINT {
                    let (vr, p2) = sp_varint(d, p1);
                    proof {
                        lemma_varint_from_pos(d, p1, 0, 0);
                    }
                    match vr {
                        Err(e) => Err(e),
                        Ok(v) => pb_prepend(seq![(field_no, ValueV::Varint(v))], sp_parse(d, p2)),
                    }
                } else if wire == WIRE_I64 || wire == WIRE_I32 {
                    let q = p1 + if wire == WIRE_I64 { 8int } else { 4int };
                    if q > d.len() {
                        Err(PbError::Eof)
                    } else if q == d.len() {
                        Ok(Seq::empty())
                    } else {
                        sp_parse(d, q)
                    }
                } else {
                    Err(PbError::UnsupportedWireType(wire))
                }
            },
        }
    }
}

/// The decoded fields agree with their model.
pub open spec fn parse_agrees(r: Result<Vec<(u64, Value)>, Error>, m: Result<Seq<(u64, ValueV)>, PbError>) -> bool {
    match m {
        Ok(s) => r matches Ok(v) && fields_view(v@) == s,
        Err(e) => r matches Err(x) && pb_err(x) == e,
    }
}

/// Decode a message into its varint and length-delimited fields, in wire order. Fixed-width
/// fields are skipped.
pub fn parse(data: &[u8]) -> (r: Result<Vec<(u64, Value)>, Error>)
    ensures
        parse_agrees(r, sp_parse(data@, 0)),
{
    let mut out: Vec<(u64, Value)> = Vec::new();
    let mut pos: usize = 0;
    while pos < data.len()
        invariant
            sp_parse(data@, 0) == pb_prepend(fields_view(out@), sp_parse(data@, pos as int)),
        decreases if pos < data@.len() { data@.len() - pos } else { 0 },
    {
        let ghost p = pos as int;
        proof {
            lemma_varint_from_pos(data@, p, 0, 0);
        }
        let key = read_varint(data, &mut pos)?;
        let field_no = key >> 3;
        let wire = key & 7;
        let ghost p1 = pos as int;
        proof {
            lemma_varint_from_pos(data@, p1, 0, 0);
        }
        if wire == WIRE_LEN {
            let len = read_varint(data, &mut pos)?;
            if len > (data.len() - pos) as u64 {
                return Err(Error::Eof);
            }
            let end = pos + len as usize;
            let bytes = copy_range(data, pos, end);
            let ghost before = out@;
            let ghost item = seq![(field_no, ValueV::Bytes(data@.subrange(pos as int, end as int)))];
            out.push((field_no, Value::Bytes(bytes)));
            assert(fields_view(out@) =~= fields_view(before) + item);
            assert(sp_parse(data@, p) == pb_prepend(item, sp_parse(data@, end as int)));
            proof { lemma_pb_prepend_assoc(fields_view(before), item, sp_parse(data@, end as int)); }
            pos = end;
        } else if wire == WIRE_VARINT {
            let v = read_varint(data, &mut pos)?;
            let ghost before = out@;
            let ghost item = seq![(field_no, ValueV::Varint(v))];
            out.push((field_no, Value::Varint(v)));
            assert(fields_view(out@) =~= fields_view(before) + item);
            assert(sp_parse(data@, p) == pb_prepend(item, sp_parse(data@, pos as int)));
            proof { lemma_pb_prepend_assoc(fields_view(before), item, sp_parse(data@, pos as int)); }
        } else if wire == WIRE_I64 || wire == WIRE_I32 {
            let width: usize = if wire == WIRE_I64 { 8 } else { 4 };
            match pos.checked_add(width) {
                Some(q) => {
                    if q > data.len() {
                        return Err(Error::Eof);
                    }
                    pos = q;
                    assert(sp_parse(data@, p) == sp_parse(data@, q as int));
                },
                None => {
                    return Err(Error::Eof);
                },
            }
        } else {
            return Err(Error::UnsupportedWireType(wire));
        }
    }
    assert(fields_view(out@) + Seq::<(u64, ValueV)>::empty() =~= fields_view(out@));
    Ok(out)
}

/// The length-delimited fields among a message's fields, in order.
pub open spec fn only_len(s: Seq<(u64, ValueV)>) -> Seq<(u64, Seq<u8>)>
    decreases s.len(),
{
    if s.len() == 0 {
        Seq::empty()
    } else {
        only_len(s.drop_last()) + match s.last().1 {
            ValueV::Bytes(b) => seq![(s.last().0, b)],
            ValueV::Varint(_) => Seq::empty(),
        }
    }
}

/// Walk a message, returning every length-delimited field as `(field_no, bytes)`. Fields of the
/// other wire types are read over and left out.
pub fn iter_len_fields(data: &[u8]) -> (r: Result<Vec<LenField>, Error>)
    ensures
        sp_parse(data@, 0) matches Ok(s) ==> r matches Ok(v) && len_fields_view(v@) == only_len(s),
        sp_parse(data@, 0) matches Err(e) ==> r matches Err(x) && pb_err(x) == e,
{
    let fields = parse(data)?;
    let mut out: Vec<LenField> = Vec::new();
    let mut i: usize = 0;
    while i < fields.len()
        invariant
            i <= fields@.len(),
            len_fields_view(out@) == only_len(fields_view(fields@).subrange(0, i as int)),
        decreases fields@.len() - i,
    {
        let ghost before = out@;
        assert(fields_view(fields@).subrange(0, i + 1).drop_last() =~= fields_view(fields@).subrange(0, i as int));
        match &fields[i].1 {
            Value::Bytes(b) => {
                out.push((fields[i].0, copy_range(b.as_slice(), 0, b.len())));
                assert(b@.subrange(0, b@.len() as int) =~= b@);
                assert(len_fields_view(out@) =~= len_fields_view(before) + seq![(fields@[i as int].0, b@)]);
            },
            Value::Varint(_) => {
                assert(len_fields_view(out@) =~= len_fields_view(before) + Seq::<(u64, Seq<u8>)>::empty());
            },
        }
        i += 1;
    }
    assert(fields_view(fields@).subrange(0, i as int) =~= fields_view(fields@));
    Ok(out)
}

/// The position of the first length-delimited field numbered `field_no`, at or after `i`.
pub open spec fn first_len_from(s: Seq<(u64, Seq<u8>)>, field_no: u64, i: int) -> Option<int>
    decreases s.len() - i,
{
    if i < 0 || i >= s.len() {
        None
    } else if s[i].0 == field_no {
        Some(i)
    } else {
        first_len_from(s, field_no, i + 1)
    }
}

/// A found field is in range and has the number looked for.
pub proof fn lemma_first_len_from(s: Seq<(u64, Seq<u8>)>, field_no: u64, i: int)
    ensures
        first_len_from(s, field_no, i) matches Some(j) ==> i <= j < s.len() && s[j].0 == field_no,
    decreases s.len() - i,
{
    if 0 <= i < s.len() && s[i].0 != field_no {
        lemma_first_len_from(s, field_no, i + 1);
    }
}

/// Find the first length-delimited field with the given number.
pub fn get_field(fields: &[LenField], field_no: u64) -> (r: Option<&[u8]>)
    ensures
        first_len_from(len_fields_view(fields@), field_no, 0) matches Some(i) ==> r matches Some(b)
            && b@ == fields@[i].1@ && b@ == len_fields_view(fields@)[i].1,
        first_len_from(len_fields_view(fields@), field_no, 0) is None ==> r is None,
{
    let ghost s = len_fields_view(fields@);
    let mut i: usize = 0;
    while i < fields.len()
        invariant
            i <= fields@.len(),
            s == len_fields_view(fields@),
            first_len_from(s, field_no, 0) == first_len_from(s, field_no, i as int),
        decreases fields@.len() - i,
    {
        if fields[i].0 == field_no {
            assert(s[i as int] == (fields@[i as int].0, fields@[i as int].1@));
            return Some(fields[i].1.as_slice());
        }
        i += 1;
    }
    None
}

/// The position of the first length-delimited field numbered `field_no`, at or after `i`.
pub open spec fn first_bytes_from(s: Seq<(u64, ValueV)>, field_no: u64, i: int) -> Option<int>
    decreases s.len() - i,
{
    if i < 0 || i >= s.len() {
        None
    } else if s[i].0 == field_no && s[i].1 is Bytes {
        Some(i)
    } else {
        first_bytes_from(s, field_no, i + 1)
    }
}

/// The position of the first varint field numbered `field_no`, at or after `i`.
pub open spec fn first_varint_from(s: Seq<(u64, ValueV)>, field_no: u64, i: int) -> Option<int>
    decreases s.len() - i,
{
    if i < 0 || i >= s.len() {
        None
    } else if s[i].0 == field_no && s[i].1 is Varint {
        Some(i)
    } else {
        first_varint_from(s, field_no, i + 1)
    }
}

/// The bytes of the first length-delimited field numbered `field_no`.
pub open spec fn spec_first_bytes(s: Seq<(u64, ValueV)>, field_no: u64) -> Option<Seq<u8>> {
    match first_bytes_from(s, field_no, 0) {
        Some(i) => Some(s[i].1->Bytes_0),
        None => None,
    }
}

/// The value of the first varint field numbered `field_no`.
pub open spec fn spec_first_varint(s: Seq<(u64, ValueV)>, field_no: u64) -> Option<u64> {
    match first_varint_from(s, field_no, 0) {
        Some(i) => Some(s[i].1->Varint_0),
        None => None,
    }
}

/// The bytes of the first length-delimited field with the given number.
pub fn first_bytes(fields: &[(u64, Value)], field_no: u64) -> (r: Option<&[u8]>)
    ensures
        spec_first_bytes(fields_view(fields@), field_no) matches Some(b) ==> r matches Some(x) && x@ == b,
        spec_first_bytes(fields_view(fields@), field_no) is None ==> r is None,
{
    let ghost s = fields_view(fields@);
    let mut i: usize = 0;
    while i < fields.len()
        invariant
            i <= fields@.len(),
            s == fields_view(fields@),
            first_bytes_from(s, field_no, 0) == first_bytes_from(s, field_no, i as int),
        decreases fields@.len() - i,
    {
        if fields[i].0 == field_no {
            if let Value::Bytes(b) = &fields[i].1 {
                return Some(b.as_slice());
            }
        }
        i += 1;
    }
    None
}

/// The value of the first varint field with the given number.
pub fn first_varint(fields: &[(u64, Value)], field_no: u64) -> (r: Option<u64>)
    ensures
        r == spec_first_varint(fields_view(fields@), field_no),
{
    let ghost s = fields_view(fields@);
    let mut i: usize = 0;
    while i < fields.len()
        invariant
            i <= fields@.len(),
            s == fields_view(fields@),
            first_varint_from(s, field_no, 0) == first_varint_from(s, field_no, i as int),
        decreases fields@.len() - i,
    {
        if fields[i].0 == field_no {
            if let Value::Varint(v) = &fields[i].1 {
                return Some(*v);
            }
        }
        i += 1;
    }
    None
}

// ----------------------------------------------------------------------------------------------
// Round trip: decoding an encoded message gives back its fields
// ----------------------------------------------------------------------------------------------

/// A field key gives back the field number and the wire type.
proof fn lemma_field_key(field_no: u64, wire: u64)
    by (bit_vector)
    requires
        field_no < 0x2000_0000_0000_0000,
        wire < 8,
    ensures
        ((field_no << 3u64) | wire) >> 3u64 == field_no,
        ((field_no << 3u64) | wire) & 7u64 == wire,
{
}

/// Decoding the encoding of a list of fields that sits at the end of `d` gives back the list.
proof fn lemma_parse_fields_at(s: Seq<(u64, ValueV)>, d: Seq<u8>, p: int)
    requires
        forall|i: int| 0 <= i < s.len() ==> field_ok(#[trigger] s[i]),
        0 <= p <= d.len(),
        d.subrange(p, d.len() as int) == spec_fields(s),
    ensures
        sp_parse(d, p) == Ok::<Seq<(u64, ValueV)>, PbError>(s),
    decreases s.len(),
{
    if s.len() == 0 {
        assert(d.subrange(p, d.len() as int).len() == 0);
        assert(s =~= Seq::<(u64, ValueV)>::empty());
    } else {
        let f = s[0];
        let rest = s.subrange(1, s.len() as int);
        let e = spec_fields(s);
        let fe = spec_field(f);
        assert(e == fe + spec_fields(rest));
        assert forall|i: int| 0 <= i < rest.len() implies field_ok(#[trigger] rest[i]) by {
            assert(rest[i] == s[i + 1]);
        }
        assert(field_ok(s[0]));
        let q = p + fe.len();
        lemma_window(d, p, e, fe.len() as int, e.len() as int);
        assert(e.subrange(fe.len() as int, e.len() as int) =~= spec_fields(rest));
        lemma_parse_fields_at(rest, d, q);
        match f.1 {
            ValueV::Bytes(b) => {
                let key = field_key(f.0, WIRE_LEN);
                lemma_field_key(f.0, WIRE_LEN);
                let kv = spec_varint(key);
                let lv = spec_varint(b.len() as u64);
                assert(fe == kv + lv + b);
                lemma_window(d, p, e, 0, kv.len() as int);
                assert(e.subrange(0, kv.len() as int) =~= kv);
                lemma_varint_roundtrip(key, d, p);
                lemma_window(d, p, e, kv.len() as int, (kv.len() + lv.len()) as int);
                assert(e.subrange(kv.len() as int, (kv.len() + lv.len()) as int) =~= lv);
                lemma_varint_roundtrip(b.len() as u64, d, p + kv.len());
                lemma_window(d, p, e, (kv.len() + lv.len()) as int, fe.len() as int);
                assert(e.subrange((kv.len() + lv.len()) as int, fe.len() as int) =~= b);
                assert(seq![(f.0, ValueV::Bytes(b))] + rest =~= s);
                assert(sp_parse(d, p) == pb_prepend(seq![(f.0, ValueV::Bytes(b))], sp_parse(d, q)));
            },
            ValueV::Varint(v) => {
                let key = field_key(f.0, WIRE_VARINT);
                lemma_field_key(f.0, WIRE_VARINT);
                let kv = spec_varint(key);
                let vv = spec_varint(v);
                assert(fe == kv + vv);
                lemma_window(d, p, e, 0, kv.len() as int);
                assert(e.subrange(0, kv.len() as int) =~= kv);
                lemma_varint_roundtrip(key, d, p);
                lemma_window(d, p, e, kv.len() as int, fe.len() as int);
                assert(e.subrange(kv.len() as int, fe.len() as int) =~= vv);
                lemma_varint_roundtrip(v, d, p + kv.len());
                assert(seq![(f.0, ValueV::Varint(v))] + rest =~= s);
                assert(sp_parse(d, p) == pb_prepend(seq![(f.0, ValueV::Varint(v))], sp_parse(d, q)));
            },
        }
    }
}

/// Decoding an encoded message gives back its fields, in order, whenever every field number fits
/// in 61 bits.
pub proof fn parse_roundtrip(s: Seq<(u64, ValueV)>)
    requires
        forall|i: int| 0 <= i < s.len() ==> field_ok(#[trigger] s[i]),
    ensures
        sp_parse(spec_fields(s), 0) == Ok::<Seq<(u64, ValueV)>, PbError>(s),
{
    let d = spec_fields(s);
    assert(d.subrange(0, d.len() as int) =~= d);
    lemma_parse_fields_at(s, d, 0);
}

} // verus!
