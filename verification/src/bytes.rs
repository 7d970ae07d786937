//! Small byte-buffer helpers shared by the encoders.

use vstd::prelude::*;

verus! {

/// Append every byte of `data` to `out`.
pub fn append_bytes(out: &mut Vec<u8>, data: &[u8])
    ensures
        final(out)@ == old(out)@ + data@,
{
    let mut i: usize = 0;
    while i < data.len()
        invariant
            i <= data@.len(),
            out@ == old(out)@ + data@.subrange(0, i as int),
        decreases data@.len() - i,
    {
        out.push(data[i]);
        i += 1;
        assert(data@.subrange(0, i as int) == data@.subrange(0, i - 1) + seq![data@[i - 1]]);
    }
    assert(data@.subrange(0, data@.len() as int) == data@);
}

/// A fresh vector holding `data[start..end]`.
pub fn copy_range(data: &[u8], start: usize, end: usize) -> (res: Vec<u8>)
    requires
        start <= end <= data@.len(),
    ensures
        res@ == data@.subrange(start as int, end as int),
{
    let mut out: Vec<u8> = Vec::new();
    let mut i: usize = start;
    while i < end
        invariant
            start <= i <= end <= data@.len(),
            out@ == data@.subrange(start as int, i as int),
        decreases end - i,
    {
        out.push(data[i]);
        i += 1;
        assert(data@.subrange(start as int, i as int) == data@.subrange(start as int, i - 1) + seq![data@[i - 1]]);
    }
    out
}

/// The 32 bytes of `data[start..start + 32]` as an array.
pub fn array32(data: &[u8], start: usize) -> (r: [u8; 32])
    requires
        start + 32 <= data.len(),
    ensures
        r@ == data@.subrange(start as int, start + 32),
{
    let mut a = [0u8; 32];
    let mut i: usize = 0;
    while i < 32
        invariant
            i <= 32,
            start + 32 <= data.len(),
            forall|j: int| 0 <= j < i ==> a@[j] == data@[start + j],
        decreases 32 - i,
    {
        a[i] = data[start + i];
        i += 1;
    }
    assert(a@ =~= data@.subrange(start as int, start + 32));
    a
}

/// The 16 bytes of `data[start..start + 16]` as an array.
pub fn array16(data: &[u8], start: usize) -> (r: [u8; 16])
    requires
        start + 16 <= data.len(),
    ensures
        r@ == data@.subrange(start as int, start + 16),
{
    let mut a = [0u8; 16];
    let mut i: usize = 0;
    while i < 16
        invariant
            i <= 16,
            start + 16 <= data.len(),
            forall|j: int| 0 <= j < i ==> a@[j] == data@[start + j],
        decreases 16 - i,
    {
        a[i] = data[start + i];
        i += 1;
    }
    assert(a@ =~= data@.subrange(start as int, start + 16));
    a
}

/// The 12 bytes of `data[start..start + 12]` as an array.
pub fn array12(data: &[u8], start: usize) -> (r: [u8; 12])
    requires
        start + 12 <= data.len(),
    ensures
        r@ == data@.subrange(start as int, start + 12),
{
    let mut a = [0u8; 12];
    let mut i: usize = 0;
    while i < 12
        invariant
            i <= 12,
            start + 12 <= data.len(),
            forall|j: int| 0 <= j < i ==> a@[j] == data@[start + j],
        decreases 12 - i,
    {
        a[i] = data[start + i];
        i += 1;
    }
    assert(a@ =~= data@.subrange(start as int, start + 12));
    a
}

/// The 64 bytes of `data[start..start + 64]` as an array.
pub fn array64(data: &[u8], start: usize) -> (r: [u8; 64])
    requires
        start + 64 <= data.len(),
    ensures
        r@ == data@.subrange(start as int, start + 64),
{
    let mut a = [0u8; 64];
    let mut i: usize = 0;
    while i < 64
        invariant
            i <= 64,
            start + 64 <= data.len(),
            forall|j: int| 0 <= j < i ==> a@[j] == data@[start + j],
        decreases 64 - i,
    {
        a[i] = data[start + i];
        i += 1;
    }
    assert(a@ =~= data@.subrange(start as int, start + 64));
    a
}

/// A fresh vector holding a copy of `data`.
pub fn to_vec(data: &[u8]) -> (r: Vec<u8>)
    ensures
        r@ == data@,
{
    let r = copy_range(data, 0, data.len());
    assert(data@.subrange(0, data@.len() as int) =~= data@);
    r
}

} // verus!
