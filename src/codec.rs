//! Fixed-width little-endian integers and null-padded text fields.

use vstd::prelude::*;
use vstd::utf8::{decode_utf8, encode_utf8, encode_utf8_decode_utf8, encode_utf8_valid_utf8, valid_utf8};
use vstd::slice::slice_subrange;
use vstd::string::StringSliceAdditionalSpecFns;

verus! {

/// The two little-endian bytes of `x`.
pub open spec fn u16_le(x: u16) -> Seq<u8> {
    seq![(x & 0xff) as u8, (x >> 8) as u8]
}

/// The 16-bit value whose little-endian bytes start at `b[i]`.
pub open spec fn le_u16_at(b: Seq<u8>, i: int) -> u16 {
    (b[i] as u16) | ((b[i + 1] as u16) << 8u16)
}

/// The four little-endian bytes of `x`.
pub open spec fn u32_le(x: u32) -> Seq<u8> {
    seq![(x & 0xff) as u8, ((x >> 8u32) & 0xff) as u8, ((x >> 16u32) & 0xff) as u8, (x >> 24u32) as u8]
}

/// The 32-bit value whose little-endian bytes start at `b[i]`.
pub open spec fn le_u32_at(b: Seq<u8>, i: int) -> u32 {
    (b[i] as u32) | ((b[i + 1] as u32) << 8u32) | ((b[i + 2] as u32) << 16u32) | ((b[i + 3] as u32)
        << 24u32)
}

pub proof fn lemma_u16_round_trip(x: u16)
    ensures
        le_u16_at(u16_le(x), 0) == x,
{
    let b = u16_le(x);
    let b0 = b[0];
    let b1 = b[1];
    assert(b0 == (x & 0xff) as u8 && b1 == (x >> 8) as u8);
    assert(((x & 0xff) as u8 as u16) | (((x >> 8) as u8 as u16) << 8u16) == x) by (bit_vector);
}

pub proof fn lemma_u32_round_trip(x: u32)
    ensures
        le_u32_at(u32_le(x), 0) == x,
{
    let b = u32_le(x);
    assert(b[0] == (x & 0xff) as u8);
    assert(b[1] == ((x >> 8u32) & 0xff) as u8);
    assert(b[2] == ((x >> 16u32) & 0xff) as u8);
    assert(b[3] == (x >> 24u32) as u8);
    assert(((x & 0xff) as u8 as u32) | ((((x >> 8u32) & 0xff) as u8 as u32) << 8u32) | ((((x
        >> 16u32) & 0xff) as u8 as u32) << 16u32) | (((x >> 24u32) as u8 as u32) << 24u32) == x)
        by (bit_vector);
}

/// Reading four bytes as an integer and writing it back gives the same bytes.
pub proof fn lemma_le_u32_bytes(b: Seq<u8>, i: int)
    requires
        0 <= i,
        i + 4 <= b.len(),
    ensures
        u32_le(le_u32_at(b, i)) == b.subrange(i, i + 4),
{
    let b0 = b[i];
    let b1 = b[i + 1];
    let b2 = b[i + 2];
    let b3 = b[i + 3];
    let v = le_u32_at(b, i);
    assert(v == (b0 as u32) | ((b1 as u32) << 8u32) | ((b2 as u32) << 16u32) | ((b3 as u32)
        << 24u32));
    assert(((v & 0xff) as u8) == b0 && (((v >> 8u32) & 0xff) as u8) == b1 && (((v >> 16u32)
        & 0xff) as u8) == b2 && ((v >> 24u32) as u8) == b3) by (bit_vector)
        requires
            v == (b0 as u32) | ((b1 as u32) << 8u32) | ((b2 as u32) << 16u32) | ((b3 as u32)
                << 24u32),
    ;
    assert(u32_le(v) =~= b.subrange(i, i + 4));
}

/// Reading two bytes as an integer and writing it back gives the same bytes.
pub proof fn lemma_le_u16_bytes(b: Seq<u8>, i: int)
    requires
        0 <= i,
        i + 2 <= b.len(),
    ensures
        u16_le(le_u16_at(b, i)) == b.subrange(i, i + 2),
{
    let b0 = b[i];
    let b1 = b[i + 1];
    let v = le_u16_at(b, i);
    assert(v == (b0 as u16) | ((b1 as u16) << 8u16));
    assert(((v & 0xff) as u8) == b0 && ((v >> 8u16) as u8) == b1) by (bit_vector)
        requires
            v == (b0 as u16) | ((b1 as u16) << 8u16),
    ;
    assert(u16_le(v) =~= b.subrange(i, i + 2));
}

/// Zero is stored as four zero bytes.
pub proof fn lemma_u32_le_zero()
    ensures
        u32_le(0) == seq![0u8, 0u8, 0u8, 0u8],
{
    let z = 0u32;
    assert((z & 0xff) as u8 == 0 && ((z >> 8u32) & 0xff) as u8 == 0 && ((z >> 16u32) & 0xff) as u8
        == 0 && (z >> 24u32) as u8 == 0) by (bit_vector)
        requires
            z == 0,
    ;
    assert(u32_le(0) =~= seq![0u8, 0u8, 0u8, 0u8]);
}

/// Four bytes that spell `x` little-endian read back as `x`.
pub proof fn lemma_le_u32_of(b: Seq<u8>, i: int, x: u32)
    requires
        0 <= i,
        i + 4 <= b.len(),
        b.subrange(i, i + 4) == u32_le(x),
    ensures
        le_u32_at(b, i) == x,
{
    lemma_u32_round_trip(x);
    let u = u32_le(x);
    assert(b[i] == u[0] && b[i + 1] == u[1] && b[i + 2] == u[2] && b[i + 3] == u[3]) by {
        assert(b.subrange(i, i + 4)[0] == b[i]);
        assert(b.subrange(i, i + 4)[1] == b[i + 1]);
        assert(b.subrange(i, i + 4)[2] == b[i + 2]);
        assert(b.subrange(i, i + 4)[3] == b[i + 3]);
    }
}

/// Two bytes that spell `x` little-endian read back as `x`.
pub proof fn lemma_le_u16_of(b: Seq<u8>, i: int, x: u16)
    requires
        0 <= i,
        i + 2 <= b.len(),
        b.subrange(i, i + 2) == u16_le(x),
    ensures
        le_u16_at(b, i) == x,
{
    lemma_u16_round_trip(x);
    let u = u16_le(x);
    assert(b[i] == u[0] && b[i + 1] == u[1]) by {
        assert(b.subrange(i, i + 2)[0] == b[i]);
        assert(b.subrange(i, i + 2)[1] == b[i + 1]);
    }
}

/// Appends the little-endian bytes of `x`.
pub fn push_u16_le(out: &mut Vec<u8>, x: u16)
    ensures
        final(out)@ == old(out)@ + u16_le(x),
{
    out.push((x & 0xff) as u8);
    out.push((x >> 8) as u8);
    assert(final(out)@ =~= old(out)@ + u16_le(x));
}

/// Appends the little-endian bytes of `x`.
pub fn push_u32_le(out: &mut Vec<u8>, x: u32)
    ensures
        final(out)@ == old(out)@ + u32_le(x),
{
    out.push((x & 0xff) as u8);
    out.push(((x >> 8) & 0xff) as u8);
    out.push(((x >> 16) & 0xff) as u8);
    out.push((x >> 24) as u8);
    assert(final(out)@ =~= old(out)@ + u32_le(x));
}

/// Appends every byte of `src`.
pub fn push_bytes(out: &mut Vec<u8>, src: &[u8])
    ensures
        final(out)@ == old(out)@ + src@,
{
    let ghost start = out@;
    let mut i: usize = 0;
    while i < src.len()
        invariant
            i <= src@.len(),
            out@ == start + src@.subrange(0, i as int),
        decreases src@.len() - i,
    {
        out.push(src[i]);
        i += 1;
        assert(out@ =~= start + src@.subrange(0, i as int));
    }
    assert(src@.subrange(0, src@.len() as int) =~= src@);
}

/// The 16-bit value stored little-endian at `data[start..start + 2]`.
pub fn u16_at(data: &[u8], start: usize) -> (r: u16)
    requires
        start + 2 <= data@.len(),
    ensures
        r == le_u16_at(data@, start as int),
{
    (data[start] as u16) | ((data[start + 1] as u16) << 8u16)
}

/// The 32-bit value stored little-endian at `data[start..start + 4]`.
pub fn u32_at(data: &[u8], start: usize) -> (r: u32)
    requires
        start + 4 <= data@.len(),
    ensures
        r == le_u32_at(data@, start as int),
{
    (data[start] as u32) | ((data[start + 1] as u32) << 8u32) | ((data[start + 2] as u32) << 16u32)
        | ((data[start + 3] as u32) << 24u32)
}

/// Whether `a` and `b` hold the same bytes.
pub fn same_bytes(a: &[u8], b: &[u8]) -> (r: bool)
    ensures
        r == (a@ == b@),
{
    if a.len() != b.len() {
        return false;
    }
    let mut i: usize = 0;
    while i < a.len()
        invariant
            i <= a@.len(),
            a@.len() == b@.len(),
            forall|j: int| 0 <= j < i ==> a@[j] == b@[j],
        decreases a@.len() - i,
    {
        if a[i] != b[i] {
            return false;
        }
        i += 1;
    }
    assert(a@ =~= b@);
    true
}

/// The bytes of `v` as an array of `N`.
pub fn to_array<const N: usize>(v: &Vec<u8>) -> (r: [u8; N])
    requires
        v@.len() == N,
    ensures
        r@ == v@,
{
    let r = take_array::<N>(v.as_slice(), 0);
    assert(v@.subrange(0, N as int) =~= v@);
    r
}

/// The `N` bytes at `data[start..start + N]`.
pub fn take_array<const N: usize>(data: &[u8], start: usize) -> (r: [u8; N])
    requires
        start + N <= data@.len(),
    ensures
        r@ == data@.subrange(start as int, start + N),
{
    let mut out = [0u8; N];
    let mut i: usize = 0;
    while i < N
        invariant
            i <= N,
            start + N <= data.len(),
            out@.len() == N,
            forall|j: int| 0 <= j < i ==> out@[j] == data@[start + j],
        decreases N - i,
    {
        out[i] = data[start + i];
        i += 1;
    }
    assert(out@ =~= data@.subrange(start as int, start + N));
    out
}

/// `s` laid out in an `n`-byte field: its first `n` bytes, then zeros.
pub open spec fn text_field(s: Seq<u8>, n: nat) -> Seq<u8> {
    Seq::new(n, |i: int| if i < s.len() { s[i] } else { 0u8 })
}

/// How many bytes of a null-padded field hold text: those before the first zero.
pub open spec fn text_end(b: Seq<u8>) -> nat
    decreases b.len(),
{
    if b.len() == 0 || b[0] == 0 {
        0
    } else {
        1 + text_end(b.drop_first())
    }
}

/// The text that a null-padded field holds. Bytes that are not UTF-8 read as
/// the empty text.
pub open spec fn field_text(b: Seq<u8>) -> Seq<char> {
    let t = b.subrange(0, text_end(b) as int);
    if valid_utf8(t) {
        decode_utf8(t)
    } else {
        Seq::empty()
    }
}

proof fn lemma_text_end(b: Seq<u8>, n: int)
    requires
        0 <= n <= b.len(),
        forall|j: int| 0 <= j < n ==> b[j] != 0,
        n == b.len() || b[n] == 0,
    ensures
        text_end(b) == n,
    decreases n,
{
    if n > 0 {
        let rest = b.drop_first();
        assert forall|j: int| 0 <= j < n - 1 implies rest[j] != 0 by {
            assert(rest[j] == b[j + 1]);
        }
        if n < b.len() {
            assert(rest[n - 1] == b[n]);
        }
        lemma_text_end(rest, n - 1);
    }
}

/// A text without zero bytes that fits its field reads back unchanged.
pub proof fn lemma_text_round_trip(s: Seq<char>, n: nat)
    requires
        encode_utf8(s).len() <= n,
        forall|i: int| 0 <= i < encode_utf8(s).len() ==> encode_utf8(s)[i] != 0,
    ensures
        field_text(text_field(encode_utf8(s), n)) == s,
{
    let b = encode_utf8(s);
    let f = text_field(b, n);
    lemma_text_end(f, b.len() as int);
    assert(f.subrange(0, b.len() as int) =~= b);
    encode_utf8_valid_utf8(s);
    encode_utf8_decode_utf8(s);
}

/// Relies on `core::str::from_utf8`: it accepts exactly the valid UTF-8 byte
/// strings, and the accepted string holds the characters they encode.
#[verifier::external_body]
fn utf8_to_string(b: &[u8]) -> (r: Option<String>)
    ensures
        r is Some <==> valid_utf8(b@),
        r matches Some(s) ==> s@ == decode_utf8(b@),
{
    match core::str::from_utf8(b) {
        Ok(s) => Some(s.to_string()),
        Err(_) => None,
    }
}

/// Lays `s` out in an `N`-byte field: zero-filled, then its first
/// `min(len, N)` UTF-8 bytes. Longer text is cut without error.
pub fn encode_text<const N: usize>(s: &str) -> (r: [u8; N])
    ensures
        r@ == text_field(s.spec_bytes(), N as nat),
{
    let bytes = s.as_bytes();
    let mut out = [0u8; N];
    let mut i: usize = 0;
    while i < N && i < bytes.len()
        invariant
            i <= N,
            i <= bytes@.len(),
            bytes@ == s.spec_bytes(),
            out@.len() == N,
            forall|j: int| 0 <= j < i ==> out@[j] == bytes@[j],
            forall|j: int| i <= j < N ==> out@[j] == 0,
        decreases N - i,
    {
        out[i] = bytes[i];
        i += 1;
    }
    assert(out@ =~= text_field(s.spec_bytes(), N as nat));
    out
}

/// The text held in a null-padded field: the bytes before the first zero,
/// read as UTF-8; the empty text where they are not valid UTF-8.
pub fn decode_text(field: &[u8]) -> (r: String)
    ensures
        r@ == field_text(field@),
{
    let mut end: usize = 0;
    while end < field.len() && field[end] != 0
        invariant
            end <= field@.len(),
            forall|j: int| 0 <= j < end ==> field@[j] != 0,
        decreases field@.len() - end,
    {
        end += 1;
    }
    proof {
        lemma_text_end(field@, end as int);
    }
    match utf8_to_string(slice_subrange(field, 0, end)) {
        Some(t) => t,
        None => String::new(),
    }
}

} // verus!
