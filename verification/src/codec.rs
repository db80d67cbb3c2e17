//! Primitives of the length-delimited, field-tagged binary wire format
//! (protobuf-compatible): base-128 varints, little-endian 64-bit fields,
//! and field keys.
//!
//! Encoders append to a byte vector; the byte sequence they produce is
//! given exactly by spec functions. Parsers read from a position in a
//! byte slice and are proved equal to spec-level parse functions, with
//! round-trip lemmas connecting the two.

use vstd::prelude::*;
use vstd::string::StringSliceAdditionalSpecFns;

verus! {

/// The base-128 varint encoding of a value: 7 bits per byte, least
/// significant group first, high bit set on all but the last byte.
pub open spec fn varint_bytes(n: u64) -> Seq<u8>
    decreases n,
{
    if n < 128 {
        seq![n as u8]
    } else {
        seq![(n % 128 + 128) as u8] + varint_bytes(n / 128)
    }
}

/// Parse a varint at `pos`: the value and the position after it, or
/// `None` if the buffer ends first or the value would not fit in 64 bits.
pub open spec fn parse_varint(bytes: Seq<u8>, pos: int) -> Option<(u64, int)>
    decreases bytes.len() - pos,
{
    if pos < 0 || pos >= bytes.len() {
        None
    } else if bytes[pos] < 128 {
        Some((bytes[pos] as u64, pos + 1))
    } else {
        match parse_varint(bytes, pos + 1) {
            None => None,
            Some((v, p)) => {
                if v <= (u64::MAX - 127) / 128 {
                    Some((((bytes[pos] - 128) + 128 * v) as u64, p))
                } else {
                    None
                }
            },
        }
    }
}

/// Parsing at the start of an encoded varint yields the value back and
/// stops right after it, whatever follows.
pub proof fn lemma_parse_varint(bytes: Seq<u8>, pos: int, n: u64)
    requires
        0 <= pos,
        pos + varint_bytes(n).len() <= bytes.len(),
        bytes.subrange(pos, pos + varint_bytes(n).len() as int) == varint_bytes(n),
    ensures
        parse_varint(bytes, pos) == Some((n, pos + varint_bytes(n).len())),
    decreases n,
{
    let enc = varint_bytes(n);
    assert(bytes[pos] == enc[0]);
    if n < 128 {
        assert(enc.len() == 1);
    } else {
        let rest = varint_bytes(n / 128);
        assert(enc == seq![(n % 128 + 128) as u8] + rest);
        assert(bytes.subrange(pos + 1, pos + 1 + rest.len() as int) =~= rest) by {
            assert forall|i: int| 0 <= i < rest.len() implies bytes.subrange(
                pos + 1,
                pos + 1 + rest.len() as int,
            )[i] == rest[i] by {
                assert(bytes[pos + 1 + i] == enc[1 + i]);
                assert(enc[1 + i] == rest[i]);
            }
        }
        lemma_parse_varint(bytes, pos + 1, n / 128);
        assert(bytes[pos] == (n % 128 + 128) as u8);
        assert(n / 128 <= (u64::MAX - 127) / 128);
        assert((bytes[pos] - 128) as u64 + 128 * (n / 128) == n);
    }
}

/// Append the varint encoding of `n`.
pub fn encode_varint(out: &mut Vec<u8>, n: u64)
    ensures
        final(out)@ == old(out)@ + varint_bytes(n),
    decreases n,
{
    if n < 128 {
        out.push(n as u8);
        assert(final(out)@ =~= old(out)@ + varint_bytes(n));
    } else {
        out.push((n % 128 + 128) as u8);
        encode_varint(out, n / 128);
        assert(final(out)@ =~= old(out)@ + varint_bytes(n));
    }
}

/// Parse a varint at `pos`, exactly as `parse_varint` does.
pub fn decode_varint(buf: &[u8], pos: usize) -> (r: Option<(u64, usize)>)
    ensures
        match r {
            Some((v, p)) => parse_varint(buf@, pos as int) == Some((v, p as int)),
            None => parse_varint(buf@, pos as int) is None,
        },
    decreases buf.len() - pos,
{
    if pos >= buf.len() {
        return None;
    }
    let b = buf[pos];
    if b < 128 {
        Some((b as u64, pos + 1))
    } else {
        match decode_varint(buf, pos + 1) {
            None => None,
            Some((v, p)) => {
                if v <= (u64::MAX - 127) / 128 {
                    Some(((b - 128) as u64 + 128 * v, p))
                } else {
                    None
                }
            },
        }
    }
}

/// The 8 little-endian bytes of a 64-bit value.
pub open spec fn le8_bytes(n: u64) -> Seq<u8> {
    vstd::bytes::spec_u64_to_le_bytes(n)
}

/// Parse 8 little-endian bytes at `pos` into a 64-bit value.
pub open spec fn parse_le8(bytes: Seq<u8>, pos: int) -> Option<(u64, int)> {
    if 0 <= pos && pos + 8 <= bytes.len() {
        Some((vstd::bytes::spec_u64_from_le_bytes(bytes.subrange(pos, pos + 8)), pos + 8))
    } else {
        None
    }
}

/// Parsing at the start of an encoded 64-bit value yields it back.
pub proof fn lemma_parse_le8(bytes: Seq<u8>, pos: int, n: u64)
    requires
        0 <= pos,
        pos + 8 <= bytes.len(),
        bytes.subrange(pos, pos + 8) == le8_bytes(n),
    ensures
        parse_le8(bytes, pos) == Some((n, pos + 8)),
{
    vstd::bytes::lemma_auto_spec_u64_to_from_le_bytes();
}

/// Append the 8 little-endian bytes of `n`.
pub fn encode_le8(out: &mut Vec<u8>, n: u64)
    ensures
        final(out)@ == old(out)@ + le8_bytes(n),
{
    let bytes = vstd::bytes::u64_to_le_bytes(n);
    let mut i: usize = 0;
    while i < 8
        invariant
            bytes@ == le8_bytes(n),
            bytes@.len() == 8,
            0 <= i <= 8,
            out@ == old(out)@ + bytes@.subrange(0, i as int),
        decreases 8 - i,
    {
        out.push(bytes[i]);
        assert(out@ =~= old(out)@ + bytes@.subrange(0, i + 1));
        i = i + 1;
    }
    proof {
        vstd::bytes::lemma_auto_spec_u64_to_from_le_bytes();
        assert(bytes@.subrange(0, 8) =~= bytes@);
    }
}

/// Parse 8 little-endian bytes at `pos`, exactly as `parse_le8` does.
pub fn decode_le8(buf: &[u8], pos: usize) -> (r: Option<(u64, usize)>)
    ensures
        match r {
            Some((v, p)) => parse_le8(buf@, pos as int) == Some((v, p as int)),
            None => parse_le8(buf@, pos as int) is None,
        },
{
    if pos >= buf.len() || buf.len() - pos < 8 {
        return None;
    }
    let sub = vstd::slice::slice_subrange(buf, pos, pos + 8);
    let v = vstd::bytes::u64_from_le_bytes(sub);
    Some((v, pos + 8))
}



/// The key introducing a field: the varint of (tag << 3 | wire type).
pub open spec fn key_bytes(tag: u64, wt: u64) -> Seq<u8> {
    varint_bytes((tag * 8 + wt) as u64)
}

/// Parse the exact key of (tag, wire type) at `pos`; `None` if the bytes
/// there are anything else.
pub open spec fn parse_key(bytes: Seq<u8>, pos: int, end: int, tag: u64, wt: u64) -> Option<int> {
    let k = key_bytes(tag, wt);
    if 0 <= pos && pos + k.len() <= end && end <= bytes.len() && bytes.subrange(
        pos,
        pos + k.len() as int,
    ) == k {
        Some(pos + k.len())
    } else {
        None
    }
}

/// True when a field with the given tag (any wire type) starts at `pos`.
/// Tags up to 15 have one-byte keys; tag 16 has the two-byte key.
pub open spec fn starts_with_key(bytes: Seq<u8>, pos: int, end: int, tag: u64, wt: u64) -> bool {
    parse_key(bytes, pos, end, tag, wt) is Some
}

/// Consume the key of (tag, wire type) at `pos`, exactly as `parse_key`.
pub fn eat_key(buf: &[u8], pos: usize, end: usize, tag: u64, wt: u64) -> (r: Option<usize>)
    requires
        end <= buf@.len(),
        1 <= tag * 8 + wt < 16384,
    ensures
        match r {
            Some(p) => parse_key(buf@, pos as int, end as int, tag, wt) == Some(p as int),
            None => parse_key(buf@, pos as int, end as int, tag, wt) is None,
        },
{
    let k: u64 = tag * 8 + wt;
    if k < 128 {
        assert(key_bytes(tag, wt) =~= seq![k as u8]);
        if pos < end && buf[pos] == k as u8 {
            assert(buf@.subrange(pos as int, pos + 1) =~= seq![k as u8]);
            Some(pos + 1)
        } else {
            proof {
                if pos < end {
                    assert(buf@.subrange(pos as int, pos + 1)[0] == buf@[pos as int]);
                }
            }
            None
        }
    } else {
        let b0: u8 = (k % 128 + 128) as u8;
        let b1: u8 = (k / 128) as u8;
        assert(key_bytes(tag, wt) =~= seq![b0, b1]) by {
            assert(varint_bytes(k) == seq![(k % 128 + 128) as u8] + varint_bytes(k / 128));
            assert(k / 128 < 128);
            assert(varint_bytes(k / 128) =~= seq![(k / 128) as u8]);
        }
        if pos < end && pos + 1 < end && buf[pos] == b0 && buf[pos + 1] == b1 {
            assert(buf@.subrange(pos as int, pos + 2) =~= seq![b0, b1]);
            Some(pos + 2)
        } else {
            proof {
                if pos + 2 <= end {
                    assert(buf@.subrange(pos as int, pos + 2)[0] == buf@[pos as int]);
                    assert(buf@.subrange(pos as int, pos + 2)[1] == buf@[pos as int + 1]);
                }
            }
            None
        }
    }
}

/// An always-present varint field: key, then value.
pub open spec fn enc_u64_field(tag: u64, v: u64) -> Seq<u8> {
    key_bytes(tag, 0) + varint_bytes(v)
}

/// Parse a varint field with the given tag at `pos`.
pub open spec fn parse_u64_field(bytes: Seq<u8>, pos: int, end: int, tag: u64) -> Option<
    (u64, int),
> {
    match parse_key(bytes, pos, end, tag, 0) {
        None => None,
        Some(p) => match parse_varint(bytes, p) {
            Some((v, p2)) => if p2 <= end {
                Some((v, p2))
            } else {
                None
            },
            None => None,
        },
    }
}

/// Parsing at the start of an encoded varint field yields the value back.
pub proof fn lemma_parse_u64_field(bytes: Seq<u8>, pos: int, end: int, tag: u64, v: u64)
    requires
        0 <= pos,
        pos + enc_u64_field(tag, v).len() <= end <= bytes.len(),
        bytes.subrange(pos, pos + enc_u64_field(tag, v).len() as int) == enc_u64_field(tag, v),
    ensures
        parse_u64_field(bytes, pos, end, tag) == Some(
            (v, pos + enc_u64_field(tag, v).len()),
        ),
{
    let k = key_bytes(tag, 0);
    let enc = enc_u64_field(tag, v);
    lemma_subrange_of_concat(bytes, pos, k, varint_bytes(v));
    lemma_parse_varint(bytes, pos + k.len(), v);
}

/// From `bytes.subrange(pos, pos+|a|+|b|) == a + b`, extract the two parts.
pub proof fn lemma_subrange_of_concat(bytes: Seq<u8>, pos: int, a: Seq<u8>, b: Seq<u8>)
    requires
        0 <= pos,
        pos + a.len() + b.len() <= bytes.len(),
        bytes.subrange(pos, pos + a.len() + b.len()) == a + b,
    ensures
        bytes.subrange(pos, pos + a.len() as int) == a,
        bytes.subrange(pos + a.len() as int, pos + a.len() + b.len()) == b,
{
    let whole = bytes.subrange(pos, pos + a.len() + b.len());
    assert(bytes.subrange(pos, pos + a.len() as int) =~= a) by {
        assert forall|i: int| 0 <= i < a.len() implies bytes.subrange(
            pos,
            pos + a.len() as int,
        )[i] == a[i] by {
            assert(bytes[pos + i] == whole[i]);
            assert(whole[i] == (a + b)[i]);
        }
    }
    assert(bytes.subrange(pos + a.len() as int, pos + a.len() + b.len()) =~= b) by {
        assert forall|i: int| 0 <= i < b.len() implies bytes.subrange(
            pos + a.len() as int,
            pos + a.len() + b.len(),
        )[i] == b[i] by {
            assert(bytes[pos + a.len() + i] == whole[a.len() + i]);
            assert(whole[a.len() + i] == (a + b)[a.len() + i]);
        }
    }
}

/// Append an always-present varint field.
pub fn encode_u64_field(out: &mut Vec<u8>, tag: u64, v: u64)
    requires
        1 <= tag * 8 < 16384,
    ensures
        final(out)@ == old(out)@ + enc_u64_field(tag, v),
{
    encode_key(out, tag, 0);
    encode_varint(out, v);
    assert(final(out)@ =~= old(out)@ + enc_u64_field(tag, v));
}

/// Append the key of (tag, wire type).
pub fn encode_key(out: &mut Vec<u8>, tag: u64, wt: u64)
    requires
        1 <= tag * 8 + wt < 16384,
    ensures
        final(out)@ == old(out)@ + key_bytes(tag, wt),
{
    encode_varint(out, tag * 8 + wt);
}

/// Parse a varint field, exactly as `parse_u64_field` does.
pub fn decode_u64_field(buf: &[u8], pos: usize, end: usize, tag: u64) -> (r: Option<(u64, usize)>)
    requires
        end <= buf@.len(),
        1 <= tag * 8 < 16384,
    ensures
        match r {
            Some((v, p)) => parse_u64_field(buf@, pos as int, end as int, tag) == Some(
                (v, p as int),
            ),
            None => parse_u64_field(buf@, pos as int, end as int, tag) is None,
        },
{
    let p = match eat_key(buf, pos, end, tag, 0) {
        Some(p) => p,
        None => { return None; },
    };
    match decode_varint(buf, p) {
        Some((v, p2)) => if p2 <= end {
            Some((v, p2))
        } else {
            None
        },
        None => None,
    }
}

/// An always-present 64-bit field (a double on the wire): key, then the
/// 8 little-endian bytes of the bit pattern.
pub open spec fn enc_double_field(tag: u64, bits: u64) -> Seq<u8> {
    key_bytes(tag, 1) + le8_bytes(bits)
}

/// Parse a 64-bit field with the given tag at `pos`.
pub open spec fn parse_double_field(bytes: Seq<u8>, pos: int, end: int, tag: u64) -> Option<
    (u64, int),
> {
    match parse_key(bytes, pos, end, tag, 1) {
        None => None,
        Some(p) => if p + 8 <= end {
            parse_le8(bytes, p)
        } else {
            None
        },
    }
}

/// Parsing at the start of an encoded 64-bit field yields the bits back.
pub proof fn lemma_parse_double_field(bytes: Seq<u8>, pos: int, end: int, tag: u64, bits: u64)
    requires
        0 <= pos,
        pos + enc_double_field(tag, bits).len() <= end <= bytes.len(),
        bytes.subrange(pos, pos + enc_double_field(tag, bits).len() as int) == enc_double_field(
            tag,
            bits,
        ),
    ensures
        parse_double_field(bytes, pos, end, tag) == Some(
            (bits, pos + enc_double_field(tag, bits).len()),
        ),
{
    let k = key_bytes(tag, 1);
    vstd::bytes::lemma_auto_spec_u64_to_from_le_bytes();
    lemma_subrange_of_concat(bytes, pos, k, le8_bytes(bits));
    lemma_parse_le8(bytes, pos + k.len(), bits);
}

/// Append an always-present 64-bit field.
pub fn encode_double_field(out: &mut Vec<u8>, tag: u64, bits: u64)
    requires
        1 <= tag * 8 + 1 < 16384,
    ensures
        final(out)@ == old(out)@ + enc_double_field(tag, bits),
{
    encode_key(out, tag, 1);
    encode_le8(out, bits);
    assert(final(out)@ =~= old(out)@ + enc_double_field(tag, bits));
}

/// Parse a 64-bit field, exactly as `parse_double_field` does.
pub fn decode_double_field(buf: &[u8], pos: usize, end: usize, tag: u64) -> (r: Option<
    (u64, usize),
>)
    requires
        end <= buf@.len(),
        1 <= tag * 8 + 1 < 16384,
    ensures
        match r {
            Some((v, p)) => parse_double_field(buf@, pos as int, end as int, tag) == Some(
                (v, p as int),
            ),
            None => parse_double_field(buf@, pos as int, end as int, tag) is None,
        },
{
    let p = match eat_key(buf, pos, end, tag, 1) {
        Some(p) => p,
        None => { return None; },
    };
    if end - p < 8 {
        return None;
    }
    decode_le8(buf, p)
}

/// The header of a length-delimited field: key, then the payload length.
pub open spec fn enc_len_header(tag: u64, len: u64) -> Seq<u8> {
    key_bytes(tag, 2) + varint_bytes(len)
}

/// Parse a length-delimited field header with the given tag: the result
/// is (payload start, payload end).
pub open spec fn parse_len_header(bytes: Seq<u8>, pos: int, end: int, tag: u64) -> Option<
    (int, int),
> {
    match parse_key(bytes, pos, end, tag, 2) {
        None => None,
        Some(p) => match parse_varint(bytes, p) {
            Some((len, p2)) => if p2 <= end && p2 + len <= end {
                Some((p2, p2 + len))
            } else {
                None
            },
            None => None,
        },
    }
}

/// Parsing at the start of an encoded header yields the payload bounds.
pub proof fn lemma_parse_len_header(bytes: Seq<u8>, pos: int, end: int, tag: u64, len: u64)
    requires
        0 <= pos,
        pos + enc_len_header(tag, len).len() + len <= end <= bytes.len(),
        bytes.subrange(pos, pos + enc_len_header(tag, len).len() as int) == enc_len_header(
            tag,
            len,
        ),
    ensures
        parse_len_header(bytes, pos, end, tag) == Some(
            (
                pos + enc_len_header(tag, len).len(),
                pos + enc_len_header(tag, len).len() + len,
            ),
        ),
{
    let k = key_bytes(tag, 2);
    lemma_subrange_of_concat(bytes, pos, k, varint_bytes(len));
    lemma_parse_varint(bytes, pos + k.len(), len);
}

/// Append a length-delimited field header.
pub fn encode_len_header(out: &mut Vec<u8>, tag: u64, len: u64)
    requires
        1 <= tag * 8 + 2 < 16384,
    ensures
        final(out)@ == old(out)@ + enc_len_header(tag, len),
{
    encode_key(out, tag, 2);
    encode_varint(out, len);
    assert(final(out)@ =~= old(out)@ + enc_len_header(tag, len));
}

/// Parse a length-delimited field header, exactly as `parse_len_header`.
pub fn decode_len_header(buf: &[u8], pos: usize, end: usize, tag: u64) -> (r: Option<
    (usize, usize),
>)
    requires
        end <= buf@.len(),
        1 <= tag * 8 + 2 < 16384,
    ensures
        match r {
            Some((a, b)) => parse_len_header(buf@, pos as int, end as int, tag) == Some(
                (a as int, b as int),
            ) && a <= b <= end,
            None => parse_len_header(buf@, pos as int, end as int, tag) is None,
        },
{
    let p = match eat_key(buf, pos, end, tag, 2) {
        Some(p) => p,
        None => { return None; },
    };
    match decode_varint(buf, p) {
        Some((len, p2)) => {
            if p2 <= end && len <= (end - p2) as u64 {
                Some((p2, p2 + (len as usize)))
            } else {
                None
            }
        },
        None => None,
    }
}

/// The packed payload of 64-bit values: each as 8 little-endian bytes.
pub open spec fn packed_le8(vals: Seq<u64>) -> Seq<u8>
    decreases vals.len(),
{
    if vals.len() == 0 {
        Seq::empty()
    } else {
        le8_bytes(vals[0]) + packed_le8(vals.subrange(1, vals.len() as int))
    }
}

/// Parse 64-bit values until exactly `limit`.
pub open spec fn parse_packed_le8(bytes: Seq<u8>, pos: int, limit: int) -> Option<
    (Seq<u64>, int),
>
    decreases limit - pos,
{
    if pos == limit {
        Some((Seq::empty(), pos))
    } else if pos > limit || pos + 8 > limit {
        None
    } else {
        match parse_le8(bytes, pos) {
            None => None,
            Some((v, p)) => match parse_packed_le8(bytes, p, limit) {
                None => None,
                Some((rest, p2)) => Some((seq![v] + rest, p2)),
            },
        }
    }
}

/// A packed payload of one more value grows on the left.
pub proof fn lemma_parse_packed_le8(bytes: Seq<u8>, pos: int, vals: Seq<u64>)
    requires
        0 <= pos,
        pos + packed_le8(vals).len() <= bytes.len(),
        bytes.subrange(pos, pos + packed_le8(vals).len() as int) == packed_le8(vals),
    ensures
        packed_le8(vals).len() == 8 * vals.len(),
        parse_packed_le8(bytes, pos, pos + packed_le8(vals).len()) == Some(
            (vals, pos + packed_le8(vals).len()),
        ),
    decreases vals.len(),
{
    if vals.len() == 0 {
        assert(vals =~= Seq::<u64>::empty());
    } else {
        let rest = vals.subrange(1, vals.len() as int);
        lemma_subrange_of_concat(bytes, pos, le8_bytes(vals[0]), packed_le8(rest));
        assert(le8_bytes(vals[0]).len() == 8) by {
            vstd::bytes::lemma_auto_spec_u64_to_from_le_bytes();
        }
        lemma_parse_le8(bytes, pos, vals[0]);
        lemma_parse_packed_le8(bytes, pos + 8, rest);
        assert(seq![vals[0]] + rest =~= vals);
    }
}

/// Append the packed 64-bit payload of the values.
pub fn encode_packed_le8(out: &mut Vec<u8>, vals: &Vec<u64>)
    ensures
        final(out)@ == old(out)@ + packed_le8(vals@),
        packed_le8(vals@).len() == 8 * vals@.len(),
{
    let n = vals.len();
    for i in 0..n
        invariant
            n == vals@.len(),
            out@ == old(out)@ + packed_le8(vals@.subrange(0, i as int)),
            packed_le8(vals@.subrange(0, i as int)).len() == 8 * i,
    {
        encode_le8(out, vals[i]);
        proof {
            vstd::bytes::lemma_auto_spec_u64_to_from_le_bytes();
            lemma_packed_le8_snoc(vals@.subrange(0, i as int), vals@[i as int]);
            assert(vals@.subrange(0, i as int).push(vals@[i as int]) =~= vals@.subrange(
                0,
                i + 1,
            ));
            assert(out@ =~= old(out)@ + packed_le8(vals@.subrange(0, i + 1)));
        }
    }
    proof {
        assert(vals@.subrange(0, n as int) =~= vals@);
    }
}

/// One more value appends its 8 bytes.
pub proof fn lemma_packed_le8_snoc(vals: Seq<u64>, v: u64)
    ensures
        packed_le8(vals.push(v)) == packed_le8(vals) + le8_bytes(v),
        packed_le8(vals).len() == 8 * vals.len(),
    decreases vals.len(),
{
    vstd::bytes::lemma_auto_spec_u64_to_from_le_bytes();
    if vals.len() == 0 {
        assert(vals.push(v)[0] == v);
        assert(vals.push(v).subrange(1, 1) =~= Seq::<u64>::empty());
        assert(packed_le8(Seq::<u64>::empty()) =~= Seq::<u8>::empty());
        assert(packed_le8(vals.push(v)) == le8_bytes(v) + packed_le8(
            vals.push(v).subrange(1, 1),
        ));
        assert(packed_le8(vals.push(v)) =~= le8_bytes(v));
        assert(packed_le8(vals) + le8_bytes(v) =~= le8_bytes(v));
    } else {
        assert(vals.push(v)[0] == vals[0]);
        assert(vals.push(v).subrange(1, vals.len() as int + 1) =~= vals.subrange(
            1,
            vals.len() as int,
        ).push(v));
        lemma_packed_le8_snoc(vals.subrange(1, vals.len() as int), v);
        assert(le8_bytes(vals[0]) + (packed_le8(vals.subrange(1, vals.len() as int))
            + le8_bytes(v)) =~= (le8_bytes(vals[0]) + packed_le8(
            vals.subrange(1, vals.len() as int),
        )) + le8_bytes(v));
    }
}

/// Parse packed 64-bit values, exactly as `parse_packed_le8` does.
pub fn decode_packed_le8(buf: &[u8], pos: usize, limit: usize) -> (r: Option<(Vec<u64>, usize)>)
    requires
        limit <= buf@.len(),
    ensures
        match r {
            Some((vals, p)) => parse_packed_le8(buf@, pos as int, limit as int) == Some(
                (vals@, p as int),
            ),
            None => parse_packed_le8(buf@, pos as int, limit as int) is None,
        },
{
    let mut vals: Vec<u64> = Vec::new();
    let mut cur = pos;
    loop
        invariant
            limit <= buf@.len(),
            pos <= cur || cur == pos,
            parse_packed_le8(buf@, pos as int, limit as int) == (match parse_packed_le8(
                buf@,
                cur as int,
                limit as int,
            ) {
                Some((rest, p)) => Some((vals@ + rest, p)),
                None => None,
            }),
        decreases limit - cur + 1,
    {
        if cur == limit {
            proof {
                assert(vals@ + Seq::<u64>::empty() =~= vals@);
            }
            return Some((vals, cur));
        }
        if cur > limit || limit - cur < 8 {
            return None;
        }
        let v = match decode_le8(buf, cur) {
            Some((v, p)) => {
                proof {
                    if parse_packed_le8(buf@, p as int, limit as int) is Some {
                        let (rest, p2) = parse_packed_le8(
                            buf@,
                            p as int,
                            limit as int,
                        ).unwrap();
                        assert(vals@ + (seq![v] + rest) =~= vals@.push(v) + rest);
                    }
                }
                vals.push(v);
                cur = p;
            },
            None => { return None; },
        };
    }
}

/// The packed payload of varints (u32 repeated fields on the wire).
pub open spec fn packed_varints(vals: Seq<u32>) -> Seq<u8>
    decreases vals.len(),
{
    if vals.len() == 0 {
        Seq::empty()
    } else {
        varint_bytes(vals[0] as u64) + packed_varints(vals.subrange(1, vals.len() as int))
    }
}

/// Parse varints until exactly `limit`, each bounded to 32 bits.
pub open spec fn parse_packed_varints(bytes: Seq<u8>, pos: int, limit: int) -> Option<
    (Seq<u32>, int),
>
    decreases limit - pos,
{
    if pos == limit {
        Some((Seq::empty(), pos))
    } else if pos > limit {
        None
    } else {
        match parse_varint(bytes, pos) {
            None => None,
            Some((v, p)) => if p <= limit && v <= u32::MAX && p > pos {
                match parse_packed_varints(bytes, p, limit) {
                    None => None,
                    Some((rest, p2)) => Some((seq![v as u32] + rest, p2)),
                }
            } else {
                None
            },
        }
    }
}

/// Parsing at the start of a packed varint payload yields the values.
pub proof fn lemma_parse_packed_varints(bytes: Seq<u8>, pos: int, vals: Seq<u32>)
    requires
        0 <= pos,
        pos + packed_varints(vals).len() <= bytes.len(),
        bytes.subrange(pos, pos + packed_varints(vals).len() as int) == packed_varints(vals),
    ensures
        parse_packed_varints(bytes, pos, pos + packed_varints(vals).len()) == Some(
            (vals, pos + packed_varints(vals).len()),
        ),
    decreases vals.len(),
{
    if vals.len() == 0 {
        assert(vals =~= Seq::<u32>::empty());
    } else {
        let rest = vals.subrange(1, vals.len() as int);
        let head = varint_bytes(vals[0] as u64);
        lemma_subrange_of_concat(bytes, pos, head, packed_varints(rest));
        lemma_parse_varint(bytes, pos, vals[0] as u64);
        assert(head.len() >= 1) by {
            if vals[0] as u64 >= 128 {
            }
        }
        lemma_parse_packed_varints(bytes, pos + head.len(), rest);
        assert(seq![vals[0]] + rest =~= vals);
    }
}

/// One more value appends its varint bytes.
pub proof fn lemma_packed_varints_snoc(vals: Seq<u32>, v: u32)
    ensures
        packed_varints(vals.push(v)) == packed_varints(vals) + varint_bytes(v as u64),
    decreases vals.len(),
{
    if vals.len() == 0 {
        assert(vals.push(v)[0] == v);
        assert(vals.push(v).subrange(1, 1) =~= Seq::<u32>::empty());
        assert(packed_varints(Seq::<u32>::empty()) =~= Seq::<u8>::empty());
        assert(packed_varints(vals.push(v)) == varint_bytes(v as u64) + packed_varints(
            vals.push(v).subrange(1, 1),
        ));
        assert(packed_varints(vals.push(v)) =~= varint_bytes(v as u64));
        assert(packed_varints(vals) + varint_bytes(v as u64) =~= varint_bytes(v as u64));
    } else {
        assert(vals.push(v)[0] == vals[0]);
        assert(vals.push(v).subrange(1, vals.len() as int + 1) =~= vals.subrange(
            1,
            vals.len() as int,
        ).push(v));
        lemma_packed_varints_snoc(vals.subrange(1, vals.len() as int), v);
        assert(varint_bytes(vals[0] as u64) + (packed_varints(
            vals.subrange(1, vals.len() as int),
        ) + varint_bytes(v as u64)) =~= (varint_bytes(vals[0] as u64) + packed_varints(
            vals.subrange(1, vals.len() as int),
        )) + varint_bytes(v as u64));
    }
}

/// Append the packed varint payload of the values.
pub fn encode_packed_varints(out: &mut Vec<u8>, vals: &Vec<u32>)
    ensures
        final(out)@ == old(out)@ + packed_varints(vals@),
{
    let n = vals.len();
    for i in 0..n
        invariant
            n == vals@.len(),
            out@ == old(out)@ + packed_varints(vals@.subrange(0, i as int)),
    {
        encode_varint(out, vals[i] as u64);
        proof {
            lemma_packed_varints_snoc(vals@.subrange(0, i as int), vals@[i as int]);
            assert(vals@.subrange(0, i as int).push(vals@[i as int]) =~= vals@.subrange(
                0,
                i + 1,
            ));
            assert(out@ =~= old(out)@ + packed_varints(vals@.subrange(0, i + 1)));
        }
    }
    proof {
        assert(vals@.subrange(0, n as int) =~= vals@);
    }
}

/// Parse packed varints, exactly as `parse_packed_varints` does.
pub fn decode_packed_varints(buf: &[u8], pos: usize, limit: usize) -> (r: Option<
    (Vec<u32>, usize),
>)
    requires
        limit <= buf@.len(),
    ensures
        match r {
            Some((vals, p)) => parse_packed_varints(buf@, pos as int, limit as int) == Some(
                (vals@, p as int),
            ),
            None => parse_packed_varints(buf@, pos as int, limit as int) is None,
        },
{
    let mut vals: Vec<u32> = Vec::new();
    let mut cur = pos;
    loop
        invariant
            limit <= buf@.len(),
            parse_packed_varints(buf@, pos as int, limit as int) == (match parse_packed_varints(
                buf@,
                cur as int,
                limit as int,
            ) {
                Some((rest, p)) => Some((vals@ + rest, p)),
                None => None,
            }),
        decreases limit - cur + 1,
    {
        if cur == limit {
            proof {
                assert(vals@ + Seq::<u32>::empty() =~= vals@);
            }
            return Some((vals, cur));
        }
        if cur > limit {
            return None;
        }
        match decode_varint(buf, cur) {
            Some((v, p)) => {
                if p <= limit && v <= u32::MAX as u64 && p > cur {
                    proof {
                        if parse_packed_varints(buf@, p as int, limit as int) is Some {
                            let (rest, p2) = parse_packed_varints(
                                buf@,
                                p as int,
                                limit as int,
                            ).unwrap();
                            assert(vals@ + (seq![v as u32] + rest) =~= vals@.push(v as u32)
                                + rest);
                        }
                    }
                    vals.push(v as u32);
                    cur = p;
                } else {
                    return None;
                }
            },
            None => { return None; },
        }
    }
}

/// Append the bytes of a slice.
pub fn push_bytes(out: &mut Vec<u8>, bytes: &[u8])
    ensures
        final(out)@ == old(out)@ + bytes@,
{
    let n = bytes.len();
    for i in 0..n
        invariant
            n == bytes@.len(),
            out@ == old(out)@ + bytes@.subrange(0, i as int),
    {
        out.push(bytes[i]);
        assert(out@ =~= old(out)@ + bytes@.subrange(0, i + 1));
    }
    proof {
        assert(bytes@.subrange(0, n as int) =~= bytes@);
    }
}

/// Relies on core::str::from_utf8: succeeds exactly on valid UTF-8 and
/// returns the string slice viewing those bytes.
#[verifier::external_body]
pub fn try_str_from_utf8(v: &[u8]) -> (r: Option<&str>)
    ensures
        match r {
            Some(s) => vstd::utf8::valid_utf8(v@) && s.spec_bytes() == v@,
            None => !vstd::utf8::valid_utf8(v@),
        },
{
    core::str::from_utf8(v).ok()
}


/// A value below 2^(7k) encodes in at most k varint bytes.
pub proof fn lemma_varint_bytes_len_bound(n: u64, k: nat)
    requires
        k >= 1,
        n < vstd::arithmetic::power2::pow2(7 * k),
    ensures
        varint_bytes(n).len() <= k,
    decreases k,
{
    if n < 128 {
    } else {
        assert(vstd::arithmetic::power2::pow2(7) == 128) by {
            vstd::arithmetic::power2::lemma2_to64();
        }
        assert(vstd::arithmetic::power2::pow2(7 * k) == 128 * vstd::arithmetic::power2::pow2(
            (7 * (k - 1)) as nat,
        )) by {
            vstd::arithmetic::power2::lemma_pow2_adds(7, (7 * (k - 1)) as nat);
        }
        assert(k >= 2) by {
            if k == 1 {
                assert(vstd::arithmetic::power2::pow2(7) == 128) by {
                    vstd::arithmetic::power2::lemma2_to64();
                }
            }
        }
        assert(n / 128 < vstd::arithmetic::power2::pow2(((7 * (k - 1))) as nat)) by (
        nonlinear_arith)
            requires
                n < 128 * vstd::arithmetic::power2::pow2((7 * (k - 1)) as nat),
        ;
        lemma_varint_bytes_len_bound(n / 128, (k - 1) as nat);
    }
}

/// Every varint is at most 10 bytes.
pub proof fn lemma_varint_bytes_len10(n: u64)
    ensures
        1 <= varint_bytes(n).len() <= 10,
{
    assert(vstd::arithmetic::power2::pow2(70) == 0x40000000000000000 * 0x10) by {
        vstd::arithmetic::power2::lemma_pow2_adds(64, 6);
        vstd::arithmetic::power2::lemma2_to64();
        vstd::arithmetic::power2::lemma2_to64_rest();
    }
    lemma_varint_bytes_len_bound(n, 10);
    if n < 128 {
    }
}

} // verus!

