//! Byte-string helpers used by the protocol code.
use vstd::prelude::*;

verus! {

/// Appends the bytes of `src` to `dst`.
pub fn append_bytes(dst: &mut Vec<u8>, src: &[u8])
    ensures
        final(dst)@ == old(dst)@ + src@,
{
    let n = src.len();
    let ghost start = dst@;
    let mut i: usize = 0;
    while i < n
        invariant
            n == src@.len(),
            i <= n,
            dst@ == start + src@.subrange(0, i as int),
        decreases n - i,
    {
        dst.push(src[i]);
        i = i + 1;
        assert(dst@ =~= start + src@.subrange(0, i as int));
    }
    assert(src@.subrange(0, n as int) =~= src@);
}

/// A fresh vector holding the bytes of `src`.
pub fn to_vec(src: &[u8]) -> (res: Vec<u8>)
    ensures
        res@ == src@,
{
    let mut v: Vec<u8> = Vec::new();
    append_bytes(&mut v, src);
    assert(v@ =~= src@);
    v
}

/// Copies 32 bytes from `src`, starting at `start`, into an array.
pub fn array32_at(src: &[u8], start: usize) -> (res: [u8; 32])
    requires
        start + 32 <= src@.len(),
    ensures
        res@ == src@.subrange(start as int, start + 32),
{
    let mut out = [0u8; 32];
    let len = src.len();
    let mut i: usize = 0;
    while i < 32
        invariant
            start + 32 <= src@.len(),
            len == src@.len(),
            i <= 32,
            forall|j: int| 0 <= j < i ==> out@[j] == src@[start + j],
        decreases 32 - i,
    {
        out[i] = src[start + i];
        i = i + 1;
    }
    assert(out@ =~= src@.subrange(start as int, start + 32));
    out
}

/// Copies 12 bytes from `src`, starting at `start`, into an array.
pub fn array12_at(src: &[u8], start: usize) -> (res: [u8; 12])
    requires
        start + 12 <= src@.len(),
    ensures
        res@ == src@.subrange(start as int, start + 12),
{
    let mut out = [0u8; 12];
    let len = src.len();
    let mut i: usize = 0;
    while i < 12
        invariant
            start + 12 <= src@.len(),
            len == src@.len(),
            i <= 12,
            forall|j: int| 0 <= j < i ==> out@[j] == src@[start + j],
        decreases 12 - i,
    {
        out[i] = src[start + i];
        i = i + 1;
    }
    assert(out@ =~= src@.subrange(start as int, start + 12));
    out
}

/// Copies the bytes of `src` from `start` to its end into a fresh vector.
pub fn tail_from(src: &[u8], start: usize) -> (res: Vec<u8>)
    requires
        start <= src@.len(),
    ensures
        res@ == src@.subrange(start as int, src@.len() as int),
{
    let n = src.len();
    let mut v: Vec<u8> = Vec::new();
    let mut i: usize = start;
    while i < n
        invariant
            n == src@.len(),
            start <= i <= n,
            v@ == src@.subrange(start as int, i as int),
        decreases n - i,
    {
        v.push(src[i]);
        i = i + 1;
        assert(v@ =~= src@.subrange(start as int, i as int));
    }
    v
}

/// Copies the bytes of `src` from `start` up to `end` into a fresh vector.
pub fn copy_range(src: &[u8], start: usize, end: usize) -> (res: Vec<u8>)
    requires
        start <= end <= src@.len(),
    ensures
        res@ == src@.subrange(start as int, end as int),
{
    let mut v: Vec<u8> = Vec::new();
    let mut i: usize = start;
    while i < end
        invariant
            start <= i <= end,
            end <= src@.len(),
            v@ == src@.subrange(start as int, i as int),
        decreases end - i,
    {
        v.push(src[i]);
        i = i + 1;
        assert(v@ =~= src@.subrange(start as int, i as int));
    }
    v
}

/// Whether two byte strings are equal.
pub fn bytes_eq(a: &[u8], b: &[u8]) -> (res: bool)
    ensures
        res == (a@ == b@),
{
    if a.len() != b.len() {
        return false;
    }
    let n = a.len();
    let mut i: usize = 0;
    while i < n
        invariant
            n == a@.len(),
            n == b@.len(),
            i <= n,
            forall|j: int| 0 <= j < i ==> a@[j] == b@[j],
        decreases n - i,
    {
        if a[i] != b[i] {
            return false;
        }
        i = i + 1;
    }
    assert(a@ =~= b@);
    true
}

} // verus!
