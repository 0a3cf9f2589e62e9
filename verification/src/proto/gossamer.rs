//! The Gossamer ledger's wire messages and the protobuf encoding of the signed
//! `Message` contents.
//!
//! `Message` has three optional fields: `provider` (field 1, bytes),
//! `public_key` (field 2, bytes) and `action` (field 3, an enum carried as a
//! varint). Encoding writes the present fields in field order; decoding reads
//! fields in any order, lets a later occurrence of a field replace an earlier
//! one, skips fields it does not know, and rejects malformed input.
use vstd::prelude::*;
use crate::bytes;

verus! {

/// A change to the ledger as it is signed: the provider (a hash of a
/// username), the public key concerned and the action.
#[derive(Clone, Debug)]
pub struct Message {
    pub provider: Option<Vec<u8>>,
    pub public_key: Option<Vec<u8>>,
    pub action: Option<i32>,
}

/// A `Message`, encoded, with the signature over its encoding and the key that
/// made the signature.
#[derive(Clone, Debug)]
pub struct SignedMessage {
    pub contents: Option<Vec<u8>>,
    pub signature: Option<Vec<u8>>,
    pub identity_key: Option<Vec<u8>>,
}

/// One provider in the ledger and its public keys.
#[derive(Clone, Debug)]
pub struct User {
    pub provider: Option<Vec<u8>>,
    pub public_keys: Vec<Vec<u8>>,
}

/// The whole ledger.
#[derive(Clone, Debug)]
pub struct Ledger {
    pub users: Vec<User>,
}

/// The result of the attestation request.
#[derive(Clone, Debug)]
pub struct AttestationResponse {
    pub container_image_digest: Option<Vec<u8>>,
    pub gca_token: Option<String>,
}

/// The fields of a message, by value: provider, public key, action.
pub type Fields = (Option<Seq<u8>>, Option<Seq<u8>>, Option<i32>);

/// The fields of a message.
pub open spec fn fields_of(m: Message) -> Fields {
    (
        match m.provider {
            Some(p) => Some(p@),
            None => None,
        },
        match m.public_key {
            Some(k) => Some(k@),
            None => None,
        },
        m.action,
    )
}

// ---------------------------------------------------------------------------
// Varints.
// ---------------------------------------------------------------------------

/// The position just past the varint that starts `k` bytes after `pos`:
/// at most ten bytes, the last one below 0x80, and a tenth byte below 2.
pub open spec fn varint_end_from(buf: Seq<u8>, pos: int, k: int) -> Option<int>
    decreases 10 - k,
{
    if k < 0 || k >= 10 || pos < 0 || pos + k >= buf.len() {
        None
    } else if buf[pos + k] < 128 {
        if k == 9 && buf[pos + k] >= 2 {
            None
        } else {
            Some(pos + k + 1)
        }
    } else {
        varint_end_from(buf, pos, k + 1)
    }
}

/// The position just past the varint at `pos`, if one is there.
pub open spec fn varint_end(buf: Seq<u8>, pos: int) -> Option<int> {
    varint_end_from(buf, pos, 0)
}

/// The value of the base-128 digits from `pos` up to `end`, least significant first.
pub open spec fn varint_value(buf: Seq<u8>, pos: int, end: int) -> int
    decreases end - pos,
{
    if pos >= end {
        0
    } else {
        (buf[pos] % 128) as int + 128 * varint_value(buf, pos + 1, end)
    }
}

/// The varint at `pos` and the position just past it.
pub open spec fn varint_at(buf: Seq<u8>, pos: int) -> Option<(u64, int)> {
    match varint_end(buf, pos) {
        Some(end) => {
            let v = varint_value(buf, pos, end);
            if v <= u64::MAX {
                Some((v as u64, end))
            } else {
                None
            }
        },
        None => None,
    }
}

/// The varint encoding of `v`: seven bits per byte, least significant first,
/// the high bit set on every byte but the last.
pub open spec fn varint_bytes(v: u64) -> Seq<u8>
    decreases v,
{
    if v < 128 {
        seq![v as u8]
    } else {
        seq![((v % 128) + 128) as u8] + varint_bytes(v / 128)
    }
}

proof fn lemma_varint_value_grows(buf: Seq<u8>, pos: int, k: int, end: int)
    requires
        pos <= k <= end,
    ensures
        varint_value(buf, pos, end) >= varint_value(buf, k, end),
        varint_value(buf, k, end) >= 0,
    decreases k - pos,
{
    lemma_varint_value_nonneg(buf, k, end);
    if pos < k {
        lemma_varint_value_grows(buf, pos + 1, k, end);
        lemma_varint_value_nonneg(buf, pos + 1, end);
    }
}

proof fn lemma_varint_value_nonneg(buf: Seq<u8>, pos: int, end: int)
    ensures
        varint_value(buf, pos, end) >= 0,
    decreases end - pos,
{
    if pos < end {
        lemma_varint_value_nonneg(buf, pos + 1, end);
    }
}

/// Reads the varint at `pos`.
pub fn read_varint(buf: &[u8], pos: usize) -> (res: Option<(u64, usize)>)
    ensures
        match varint_at(buf@, pos as int) {
            Some((v, end)) => res == Some((v, end as usize)),
            None => res is None,
        },
{
    let n = buf.len();
    let mut k: usize = 0;
    let mut end: usize = 0;
    // Find the last byte of the varint.
    loop
        invariant_except_break
            n == buf@.len(),
            k <= 10,
            varint_end(buf@, pos as int) == varint_end_from(buf@, pos as int, k as int),
        ensures
            n == buf@.len(),
            pos < end <= n,
            varint_end(buf@, pos as int) == Some(end as int),
        decreases 10 - k,
    {
        if k >= 10 || pos >= n || k >= n - pos {
            return None;
        }
        let b = buf[pos + k];
        if b < 128 {
            if k == 9 && b >= 2 {
                return None;
            }
            end = pos + k + 1;
            break;
        }
        k = k + 1;
    }
    // Horner's rule from the most significant digit down.
    let mut value: u64 = 0;
    let mut j: usize = end;
    while j > pos
        invariant
            pos <= j <= end,
            end <= n,
            n == buf@.len(),
            value as int == varint_value(buf@, j as int, end as int),
            varint_end(buf@, pos as int) == Some(end as int),
        decreases j - pos,
    {
        j = j - 1;
        let digit = (buf[j] % 128) as u64;
        proof {
            lemma_varint_value_grows(buf@, pos as int, j as int, end as int);
            assert(varint_value(buf@, j as int, end as int)
                == digit as int + 128 * varint_value(buf@, j + 1, end as int));
        }
        match value.checked_mul(128) {
            Some(shifted) => match shifted.checked_add(digit) {
                Some(next) => {
                    value = next;
                },
                None => {
                    return None;
                },
            },
            None => {
                return None;
            },
        }
    }
    Some((value, end))
}

/// Appends the varint encoding of `v`.
pub fn write_varint(out: &mut Vec<u8>, v: u64)
    ensures
        final(out)@ == old(out)@ + varint_bytes(v),
    decreases v,
{
    if v < 128 {
        out.push(v as u8);
        assert(varint_bytes(v) =~= seq![v as u8]);
    } else {
        let ghost start = out@;
        out.push(((v % 128) + 128) as u8);
        write_varint(out, v / 128);
        assert(out@ =~= start + varint_bytes(v));
    }
}

// ---------------------------------------------------------------------------
// Encoding.
// ---------------------------------------------------------------------------

/// A length-delimited field: its key, the length, the bytes.
pub open spec fn bytes_field(tag: u64, data: Seq<u8>) -> Seq<u8> {
    varint_bytes((tag * 8 + 2) as u64) + varint_bytes(data.len() as u64) + data
}

/// A varint field holding an `int32`, sign-extended to 64 bits as protobuf does.
pub open spec fn int32_field(tag: u64, v: i32) -> Seq<u8> {
    varint_bytes((tag * 8) as u64) + varint_bytes(v as i64 as u64)
}

/// The encoding of a message: its present fields in field order.
pub open spec fn encode_fields(f: Fields) -> Seq<u8> {
    (match f.0 {
        Some(p) => bytes_field(1, p),
        None => Seq::empty(),
    }) + (match f.1 {
        Some(k) => bytes_field(2, k),
        None => Seq::empty(),
    }) + (match f.2 {
        Some(a) => int32_field(3, a),
        None => Seq::empty(),
    })
}

pub(crate) fn write_bytes_field(out: &mut Vec<u8>, tag: u64, data: &[u8])
    requires
        tag < 16,
    ensures
        final(out)@ == old(out)@ + bytes_field(tag, data@),
{
    let ghost start = out@;
    write_varint(out, tag * 8 + 2);
    write_varint(out, data.len() as u64);
    bytes::append_bytes(out, data);
    assert(out@ =~= start + bytes_field(tag, data@));
}

impl Message {
    /// The protobuf encoding of this message.
    pub fn encode_to_vec(&self) -> (res: Vec<u8>)
        ensures
            res@ == encode_fields(fields_of(*self)),
    {
        let mut out: Vec<u8> = Vec::new();
        match &self.provider {
            Some(p) => write_bytes_field(&mut out, 1, p.as_slice()),
            None => {},
        }
        let ghost after_provider = out@;
        match &self.public_key {
            Some(k) => write_bytes_field(&mut out, 2, k.as_slice()),
            None => {},
        }
        let ghost after_key = out@;
        match self.action {
            Some(a) => {
                write_varint(&mut out, 24);
                write_varint(&mut out, a as i64 as u64);
            },
            None => {},
        }
        assert(out@ =~= encode_fields(fields_of(*self)));
        out
    }
}

// ---------------------------------------------------------------------------
// Decoding.
// ---------------------------------------------------------------------------

/// The position just past an unknown field's value that starts at `pos`,
/// for the given wire type (groups are not supported).
pub open spec fn skip_value(buf: Seq<u8>, pos: int, wire_type: int) -> Option<int> {
    if wire_type == 0 {
        match varint_at(buf, pos) {
            Some((_, end)) => Some(end),
            None => None,
        }
    } else if wire_type == 1 {
        if pos + 8 <= buf.len() { Some(pos + 8) } else { None }
    } else if wire_type == 2 {
        match varint_at(buf, pos) {
            Some((len, end)) => if end + len <= buf.len() { Some(end + len) } else { None },
            None => None,
        }
    } else if wire_type == 5 {
        if pos + 4 <= buf.len() { Some(pos + 4) } else { None }
    } else {
        None
    }
}

/// Decodes the fields from `pos` on, starting from the values in `acc`.
pub open spec fn decode_from(buf: Seq<u8>, pos: int, acc: Fields) -> Option<Fields>
    decreases buf.len() - pos,
{
    if pos < 0 || pos >= buf.len() {
        if pos == buf.len() { Some(acc) } else { None }
    } else {
        match varint_at(buf, pos) {
            None => None,
            Some((key, after_key)) => {
                let wire_type = (key % 8) as int;
                let tag = (key / 8) as int;
                if key > u32::MAX || wire_type > 5 || tag == 0 || after_key <= pos || after_key > buf.len() {
                    None
                } else if tag == 1 || tag == 2 {
                    if wire_type != 2 {
                        None
                    } else {
                        match varint_at(buf, after_key) {
                            None => None,
                            Some((len, start)) => {
                                if start + len > buf.len() || start <= pos {
                                    None
                                } else {
                                    let value = buf.subrange(start, start + len);
                                    let next = if tag == 1 {
                                        (Some(value), acc.1, acc.2)
                                    } else {
                                        (acc.0, Some(value), acc.2)
                                    };
                                    decode_from(buf, start + len, next)
                                }
                            },
                        }
                    }
                } else if tag == 3 {
                    if wire_type != 0 {
                        None
                    } else {
                        match varint_at(buf, after_key) {
                            None => None,
                            Some((v, end)) => if end <= pos || end > buf.len() { None } else {
                                decode_from(buf, end, (acc.0, acc.1, Some(#[verifier::truncate] (v as i32))))
                            },
                        }
                    }
                } else {
                    match skip_value(buf, after_key, wire_type) {
                        None => None,
                        Some(end) => if end <= pos || end > buf.len() { None } else { decode_from(buf, end, acc) },
                    }
                }
            },
        }
    }
}

/// The message that `buf` encodes, if it is well-formed.
pub open spec fn decode_fields(buf: Seq<u8>) -> Option<Fields> {
    decode_from(buf, 0, (None, None, None))
}

proof fn lemma_varint_end_after(buf: Seq<u8>, pos: int, k: int)
    requires
        0 <= k,
        varint_end_from(buf, pos, k) is Some,
    ensures
        pos + k < varint_end_from(buf, pos, k).unwrap() <= buf.len(),
    decreases 10 - k,
{
    if buf[pos + k] >= 128 {
        lemma_varint_end_after(buf, pos, k + 1);
    }
}

/// Reads a varint, and learns that it ends after `pos` and within the buffer.
fn read_varint_bounded(buf: &[u8], pos: usize) -> (res: Option<(u64, usize)>)
    ensures
        match varint_at(buf@, pos as int) {
            Some((v, end)) => res == Some((v, end as usize)) && pos < end <= buf@.len(),
            None => res is None,
        },
{
    let r = read_varint(buf, pos);
    proof {
        if varint_at(buf@, pos as int) is Some {
            lemma_varint_end_after(buf@, pos as int, 0);
        }
    }
    r
}

impl Message {
    /// Decodes a message from its protobuf encoding.
    pub fn decode(buf: &[u8]) -> (res: Option<Message>)
        ensures
            match decode_fields(buf@) {
                Some(f) => res matches Some(m) && fields_of(m) == f,
                None => res is None,
            },
    {
        let n = buf.len();
        let mut provider: Option<Vec<u8>> = None;
        let mut public_key: Option<Vec<u8>> = None;
        let mut action: Option<i32> = None;
        let mut pos: usize = 0;
        while pos < n
            invariant
                n == buf@.len(),
                pos <= n,
                decode_fields(buf@) == decode_from(
                    buf@,
                    pos as int,
                    fields_of(Message { provider, public_key, action }),
                ),
            decreases n - pos,
        {
            let ghost acc = fields_of(Message { provider, public_key, action });
            let (key, after_key) = match read_varint_bounded(buf, pos) {
                Some(r) => r,
                None => return None,
            };
            let wire_type = key % 8;
            let tag = key / 8;
            if key > 0xffff_ffffu64 || wire_type > 5 || tag == 0 {
                return None;
            }
            if tag == 1 || tag == 2 {
                if wire_type != 2 {
                    return None;
                }
                let (len, start) = match read_varint_bounded(buf, after_key) {
                    Some(r) => r,
                    None => return None,
                };
                if len > (n - start) as u64 {
                    return None;
                }
                let end = start + len as usize;
                let value = bytes::copy_range(buf, start, end);
                if tag == 1 {
                    provider = Some(value);
                } else {
                    public_key = Some(value);
                }
                pos = end;
            } else if tag == 3 {
                if wire_type != 0 {
                    return None;
                }
                let (v, end) = match read_varint_bounded(buf, after_key) {
                    Some(r) => r,
                    None => return None,
                };
                action = Some(#[verifier::truncate] (v as i32));
                pos = end;
            } else {
                if wire_type == 0 {
                    match read_varint_bounded(buf, after_key) {
                        Some((_, end)) => {
                            pos = end;
                        },
                        None => return None,
                    }
                } else if wire_type == 1 {
                    if n - after_key < 8 {
                        return None;
                    }
                    pos = after_key + 8;
                } else if wire_type == 2 {
                    let (len, start) = match read_varint_bounded(buf, after_key) {
                        Some(r) => r,
                        None => return None,
                    };
                    if len > (n - start) as u64 {
                        return None;
                    }
                    pos = start + len as usize;
                } else if wire_type == 5 {
                    if n - after_key < 4 {
                        return None;
                    }
                    pos = after_key + 4;
                } else {
                    return None;
                }
            }
        }
        Some(Message { provider, public_key, action })
    }
}

// ---------------------------------------------------------------------------
// Decoding undoes encoding.
// ---------------------------------------------------------------------------

/// 128 to the power `j`.
pub open spec fn p128(j: nat) -> nat
    decreases j,
{
    if j == 0 {
        1
    } else {
        128 * p128((j - 1) as nat)
    }
}

/// The shape of a varint: one to `j` bytes, every byte but the last with its
/// high bit set, and the last below `c` when all `j` bytes are used.
proof fn lemma_varint_bytes_shape(v: u64, j: nat, c: nat)
    requires
        1 <= j,
        1 <= c <= 128,
        v < c * p128((j - 1) as nat),
    ensures
        1 <= varint_bytes(v).len() <= j,
        forall|k: int| 0 <= k < varint_bytes(v).len() - 1 ==> varint_bytes(v)[k] >= 128,
        varint_bytes(v).last() < 128,
        varint_bytes(v).len() == j ==> varint_bytes(v).last() < c,
    decreases v,
{
    assert(p128(0) == 1);
    if j == 1 {
        let p0 = p128(0);
        assert(c * p0 == c) by (nonlinear_arith)
            requires
                p0 == 1,
        ;
        assert(v < c);
    }
    if v >= 128 {
        if j == 1 {
            assert(false);
        }
        let jj = (j - 2) as nat;
        let pp = p128(jj);
        assert(p128((j - 1) as nat) == 128 * pp);
        assert(v / 128 < c * pp) by (nonlinear_arith)
            requires
                v < c * (128 * pp),
                v >= 0,
        ;
        lemma_varint_bytes_shape(v / 128, (j - 1) as nat, c);
        let rest = varint_bytes(v / 128);
        let b = varint_bytes(v);
        assert(b == seq![((v % 128) + 128) as u8] + rest);
        assert forall|k: int| 0 <= k < b.len() - 1 implies b[k] >= 128 by {
            if k > 0 {
                assert(b[k] == rest[k - 1]);
            }
        }
        assert(b.last() == rest.last());
    }
}

/// The digits of a varint add up to its value.
proof fn lemma_varint_value_of(buf: Seq<u8>, pos: int, v: u64)
    requires
        0 <= pos,
        pos + varint_bytes(v).len() <= buf.len(),
        buf.subrange(pos, pos + varint_bytes(v).len()) == varint_bytes(v),
    ensures
        varint_value(buf, pos, pos + varint_bytes(v).len()) == v,
    decreases v,
{
    let b = varint_bytes(v);
    assert(buf[pos] == b[0]);
    if v < 128 {
        assert(varint_value(buf, pos + 1, pos + 1) == 0);
    } else {
        let rest = varint_bytes(v / 128);
        assert(b == seq![((v % 128) + 128) as u8] + rest);
        assert(buf.subrange(pos + 1, pos + 1 + rest.len()) =~= rest) by {
            assert forall|k: int| 0 <= k < rest.len() implies buf.subrange(pos + 1, pos + 1 + rest.len())[k] == rest[k] by {
                assert(buf.subrange(pos, pos + b.len())[k + 1] == b[k + 1]);
            }
        }
        lemma_varint_value_of(buf, pos + 1, v / 128);
        assert(buf[pos] % 128 == v % 128);
    }
}

/// A varint's end is found where its last byte is.
proof fn lemma_varint_end_of(buf: Seq<u8>, pos: int, v: u64, k: int)
    requires
        0 <= pos,
        0 <= k < varint_bytes(v).len(),
        varint_bytes(v).len() <= 10,
        forall|i: int| 0 <= i < varint_bytes(v).len() - 1 ==> varint_bytes(v)[i] >= 128,
        varint_bytes(v).last() < 128,
        varint_bytes(v).len() == 10 ==> varint_bytes(v).last() < 2,
        pos + varint_bytes(v).len() <= buf.len(),
        buf.subrange(pos, pos + varint_bytes(v).len()) == varint_bytes(v),
    ensures
        varint_end_from(buf, pos, k) == Some(pos + varint_bytes(v).len()),
    decreases varint_bytes(v).len() - k,
{
    let b = varint_bytes(v);
    assert(buf[pos + k] == buf.subrange(pos, pos + b.len())[k]);
    if k < b.len() - 1 {
        lemma_varint_end_of(buf, pos, v, k + 1);
    }
}

/// Reading the varint encoding of `v` gives `v` back, and the position after it.
proof fn lemma_varint_at_of(buf: Seq<u8>, pos: int, v: u64)
    requires
        0 <= pos,
        pos + varint_bytes(v).len() <= buf.len(),
        buf.subrange(pos, pos + varint_bytes(v).len()) == varint_bytes(v),
    ensures
        varint_at(buf, pos) == Some((v, pos + varint_bytes(v).len())),
        1 <= varint_bytes(v).len() <= 10,
{
    assert(p128(9) == 9223372036854775808) by {
        reveal_with_fuel(p128, 10);
    }
    lemma_varint_bytes_shape(v, 10, 2);
    lemma_varint_end_of(buf, pos, v, 0);
    lemma_varint_value_of(buf, pos, v);
}

/// The bytes of `buf` from `pos` on begin with `part`.
pub open spec fn holds_at(buf: Seq<u8>, pos: int, part: Seq<u8>) -> bool {
    0 <= pos && pos + part.len() <= buf.len() && buf.subrange(pos, pos + part.len()) == part
}

proof fn lemma_holds_split(buf: Seq<u8>, pos: int, a: Seq<u8>, b: Seq<u8>)
    requires
        holds_at(buf, pos, a + b),
    ensures
        holds_at(buf, pos, a),
        holds_at(buf, pos + a.len(), b),
{
    assert(buf.subrange(pos, pos + a.len()) =~= a) by {
        assert forall|k: int| 0 <= k < a.len() implies buf.subrange(pos, pos + a.len())[k] == (a + b)[k] by {
            assert(buf.subrange(pos, pos + (a + b).len())[k] == (a + b)[k]);
        }
    }
    assert(buf.subrange(pos + a.len(), pos + a.len() + b.len()) =~= b) by {
        assert forall|k: int| 0 <= k < b.len() implies buf.subrange(pos + a.len(), pos + a.len() + b.len())[k] == b[k] by {
            assert(buf.subrange(pos, pos + (a + b).len())[a.len() + k] == (a + b)[a.len() + k]);
        }
    }
}

/// Decoding steps over a length-delimited field of tag 1 or 2.
proof fn lemma_decode_bytes_field(buf: Seq<u8>, pos: int, tag: u64, data: Seq<u8>, acc: Fields)
    requires
        tag == 1 || tag == 2,
        data.len() <= u64::MAX,
        holds_at(buf, pos, bytes_field(tag, data)),
    ensures
        decode_from(buf, pos, acc) == decode_from(
            buf,
            pos + bytes_field(tag, data).len(),
            if tag == 1 {
                (Some(data), acc.1, acc.2)
            } else {
                (acc.0, Some(data), acc.2)
            },
        ),
{
    let key = (tag * 8 + 2) as u64;
    let kb = varint_bytes(key);
    let lb = varint_bytes(data.len() as u64);
    assert(bytes_field(tag, data) == kb + lb + data);
    lemma_holds_split(buf, pos, kb + lb, data);
    lemma_holds_split(buf, pos, kb, lb);
    lemma_varint_at_of(buf, pos, key);
    let after_key = pos + kb.len();
    lemma_varint_at_of(buf, after_key, data.len() as u64);
    let start = after_key + lb.len();
    assert(key % 8 == 2 && key / 8 == tag);
    assert(buf.subrange(start, start + data.len()) == data);
}

/// Decoding steps over the `int32` field of tag 3.
proof fn lemma_decode_int32_field(buf: Seq<u8>, pos: int, a: i32, acc: Fields)
    requires
        holds_at(buf, pos, int32_field(3, a)),
    ensures
        decode_from(buf, pos, acc) == decode_from(buf, pos + int32_field(3, a).len(), (acc.0, acc.1, Some(a))),
{
    let kb = varint_bytes(24u64);
    let v = a as i64 as u64;
    let vb = varint_bytes(v);
    assert(int32_field(3, a) == kb + vb);
    lemma_holds_split(buf, pos, kb, vb);
    lemma_varint_at_of(buf, pos, 24u64);
    lemma_varint_at_of(buf, pos + kb.len(), v);
    assert((#[verifier::truncate] (v as i32)) == a) by (bit_vector)
        requires
            v == a as i64 as u64,
    ;
}

/// Decoding the encoding of a message gives the message's fields back
/// (for byte fields whose length fits in 64 bits, as every real one does).
pub proof fn lemma_decode_encode(f: Fields)
    requires
        f.0 matches Some(p) ==> p.len() <= u64::MAX,
        f.1 matches Some(k) ==> k.len() <= u64::MAX,
    ensures
        decode_fields(encode_fields(f)) == Some(f),
{
    let s0 = match f.0 {
        Some(p) => bytes_field(1, p),
        None => Seq::empty(),
    };
    let s1 = match f.1 {
        Some(k) => bytes_field(2, k),
        None => Seq::empty(),
    };
    let s2 = match f.2 {
        Some(a) => int32_field(3, a),
        None => Seq::empty(),
    };
    let buf = encode_fields(f);
    assert(buf == s0 + s1 + s2);
    assert(holds_at(buf, 0, s0 + s1 + s2)) by {
        assert(buf.subrange(0, buf.len() as int) =~= buf);
    }
    lemma_holds_split(buf, 0, s0 + s1, s2);
    lemma_holds_split(buf, 0, s0, s1);
    let acc0: Fields = (None, None, None);
    let acc1: Fields = (f.0, None, None);
    let acc2: Fields = (f.0, f.1, None);
    match f.0 {
        Some(p) => lemma_decode_bytes_field(buf, 0, 1, p, acc0),
        None => {},
    }
    assert(decode_from(buf, 0, acc0) == decode_from(buf, s0.len() as int, acc1));
    match f.1 {
        Some(k) => lemma_decode_bytes_field(buf, s0.len() as int, 2, k, acc1),
        None => {},
    }
    assert(decode_from(buf, s0.len() as int, acc1) == decode_from(buf, (s0.len() + s1.len()) as int, acc2));
    match f.2 {
        Some(a) => lemma_decode_int32_field(buf, (s0.len() + s1.len()) as int, a, acc2),
        None => {},
    }
    assert(decode_from(buf, (s0.len() + s1.len()) as int, acc2) == decode_from(buf, buf.len() as int, f));
}

} // verus!
