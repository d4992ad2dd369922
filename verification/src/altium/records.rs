//! Low-level Altium record stream parsing shared by SchLib and PcbLib.
//!
//! Records in schematic-style streams are length-prefixed: a 4-byte
//! little-endian value whose highest byte is zero for text records and
//! non-zero (mode 0x01) for binary records. Text records are null-terminated
//! pipe-separated `KEY=VALUE` pairs.

use vstd::prelude::*;
use vstd::utf8::{decode_utf8, valid_utf8};
use crate::text::{
    ascii_lower, chars_eq_ignore_ascii_case, chars_of, digits_value, eq_ignore_ascii_case, find_first,
    lemma_find_first, parse_i64_chars, parse_i64_radix, split_seq, trim_chars, trim_seq,
};

verus! {

broadcast use vstd::string::group_string_axioms;

// ---------------------------------------------------------------------------
// Little-endian integers
// ---------------------------------------------------------------------------

/// Unsigned little-endian value of the two bytes at `i`.
pub open spec fn le_u16(s: Seq<u8>, i: int) -> int {
    s[i] + 256 * s[i + 1]
}

/// Unsigned little-endian value of the four bytes at `i`.
pub open spec fn le_u32(s: Seq<u8>, i: int) -> int {
    s[i] + 256 * s[i + 1] + 65536 * s[i + 2] + 16777216 * s[i + 3]
}

/// Unsigned little-endian value of the eight bytes at `i`.
pub open spec fn le_u64(s: Seq<u8>, i: int) -> int {
    le_u32(s, i) + 4294967296 * le_u32(s, i + 4)
}

/// Two's-complement little-endian value of the two bytes at `i`.
pub open spec fn le_i16(s: Seq<u8>, i: int) -> int {
    if le_u16(s, i) >= 32768 {
        le_u16(s, i) - 65536
    } else {
        le_u16(s, i)
    }
}

/// Two's-complement little-endian value of the four bytes at `i`.
pub open spec fn le_i32(s: Seq<u8>, i: int) -> int {
    if le_u32(s, i) >= 0x8000_0000 {
        le_u32(s, i) - 0x1_0000_0000
    } else {
        le_u32(s, i)
    }
}

/// The four little-endian bytes of an unsigned value below 2^32.
pub open spec fn u32_bytes(v: int) -> Seq<u8> {
    seq![
        (v % 256) as u8,
        ((v / 256) % 256) as u8,
        ((v / 65536) % 256) as u8,
        ((v / 16777216) % 256) as u8,
    ]
}

/// The four little-endian two's-complement bytes of an `i32`.
pub open spec fn i32_bytes(v: i32) -> Seq<u8> {
    u32_bytes(if v < 0 { v + 0x1_0000_0000 } else { v as int })
}

/// The eight little-endian bytes of a `u64`.
pub open spec fn u64_bytes(v: u64) -> Seq<u8> {
    u32_bytes((v % 0x1_0000_0000) as int) + u32_bytes((v / 0x1_0000_0000) as int)
}

/// Four bytes written little-endian read back as the value written.
pub proof fn lemma_u32_bytes(v: int)
    requires
        0 <= v < 0x1_0000_0000,
    ensures
        u32_bytes(v).len() == 4,
        le_u32(u32_bytes(v), 0) == v,
{
    let b = u32_bytes(v);
    assert(b[0] == v % 256);
    assert(b[1] == (v / 256) % 256);
    assert(b[2] == (v / 65536) % 256);
    assert(b[3] == (v / 16777216) % 256);
    assert(v % 256 + 256 * ((v / 256) % 256) + 65536 * ((v / 65536) % 256) + 16777216 * ((v
        / 16777216) % 256) == v) by (nonlinear_arith)
        requires
            0 <= v < 0x1_0000_0000,
    {}
}

/// The little-endian value at `pre.len()` of `pre + i32_bytes(x) + post`
/// is `x`.
pub proof fn lemma_i32_bytes_at(pre: Seq<u8>, x: i32, post: Seq<u8>)
    ensures
        le_i32(pre + i32_bytes(x) + post, pre.len() as int) == x,
        (pre + i32_bytes(x) + post).len() == pre.len() + 4 + post.len(),
{
    let u: int = if x < 0 { x + 0x1_0000_0000 } else { x as int };
    lemma_u32_bytes(u);
    let s = pre + i32_bytes(x) + post;
    let n = pre.len() as int;
    assert(s[n] == i32_bytes(x)[0]);
    assert(s[n + 1] == i32_bytes(x)[1]);
    assert(s[n + 2] == i32_bytes(x)[2]);
    assert(s[n + 3] == i32_bytes(x)[3]);
    assert(le_u32(s, n) == le_u32(i32_bytes(x), 0));
}

/// The two little-endian two's-complement bytes of an `i16`.
pub open spec fn i16_bytes(v: i16) -> Seq<u8> {
    let u: int = if v < 0 { v + 0x1_0000 } else { v as int };
    seq![(u % 256) as u8, (u / 256) as u8]
}

/// The little-endian value at `pre.len()` of `pre + i16_bytes(x) + post`
/// is `x`.
pub proof fn lemma_i16_bytes_at(pre: Seq<u8>, x: i16, post: Seq<u8>)
    ensures
        le_i16(pre + i16_bytes(x) + post, pre.len() as int) == x,
        (pre + i16_bytes(x) + post).len() == pre.len() + 2 + post.len(),
{
    let u: int = if x < 0 { x + 0x1_0000 } else { x as int };
    let s = pre + i16_bytes(x) + post;
    let n = pre.len() as int;
    assert(s[n] == i16_bytes(x)[0]);
    assert(s[n + 1] == i16_bytes(x)[1]);
    assert(u % 256 + 256 * (u / 256) == u) by (nonlinear_arith)
        requires
            0 <= u < 0x1_0000,
    {}
    assert(le_u16(s, n) == u);
}

/// The little-endian value at `pre.len()` of `pre + u32_bytes(x) + post`
/// is `x`.
pub proof fn lemma_u32_bytes_at(pre: Seq<u8>, x: u32, post: Seq<u8>)
    ensures
        le_u32(pre + u32_bytes(x as int) + post, pre.len() as int) == x,
        (pre + u32_bytes(x as int) + post).len() == pre.len() + 4 + post.len(),
{
    lemma_u32_bytes(x as int);
    let s = pre + u32_bytes(x as int) + post;
    let n = pre.len() as int;
    let b = u32_bytes(x as int);
    assert(s[n] == b[0] && s[n + 1] == b[1] && s[n + 2] == b[2] && s[n + 3] == b[3]);
}

/// The little-endian value at `pre.len()` of `pre + u64_bytes(x) + post`
/// is `x`.
pub proof fn lemma_u64_bytes_at(pre: Seq<u8>, x: u64, post: Seq<u8>)
    ensures
        le_u64(pre + u64_bytes(x) + post, pre.len() as int) == x,
        (pre + u64_bytes(x) + post).len() == pre.len() + 8 + post.len(),
{
    let lo: int = (x % 0x1_0000_0000) as int;
    let hi: int = (x / 0x1_0000_0000) as int;
    lemma_u32_bytes(lo);
    lemma_u32_bytes(hi);
    let s = pre + u64_bytes(x) + post;
    let n = pre.len() as int;
    let b = u64_bytes(x);
    assert(b.len() == 8);
    assert forall|k: int| 0 <= k < 8 implies s[n + k] == b[k] by {}
    assert(le_u32(s, n) == le_u32(u32_bytes(lo), 0)) by {
        assert(s[n] == b[0] && s[n + 1] == b[1] && s[n + 2] == b[2] && s[n + 3] == b[3]);
    }
    assert(le_u32(s, n + 4) == le_u32(u32_bytes(hi), 0)) by {
        assert(s[n + 4] == b[4] && s[n + 5] == b[5] && s[n + 6] == b[6] && s[n + 7] == b[7]);
    }
    assert(lo + 4294967296 * hi == x) by (nonlinear_arith)
        requires
            lo == x % 0x1_0000_0000,
            hi == x / 0x1_0000_0000,
    {}
}

pub fn u16_le(b: &[u8]) -> (r: u16)
    requires
        b@.len() >= 2,
    ensures
        r == le_u16(b@, 0),
{
    (b[0] as u16) + (b[1] as u16) * 256
}

pub fn u32_le(b: &[u8]) -> (r: u32)
    requires
        b@.len() >= 4,
    ensures
        r == le_u32(b@, 0),
{
    (b[0] as u32) + (b[1] as u32) * 256 + (b[2] as u32) * 65536 + (b[3] as u32) * 16777216
}

pub fn i16_le(b: &[u8]) -> (r: i16)
    requires
        b@.len() >= 2,
    ensures
        r == le_i16(b@, 0),
{
    let u = u16_le(b);
    if u >= 32768 {
        (u as i32 - 65536) as i16
    } else {
        u as i16
    }
}

pub fn i32_le(b: &[u8]) -> (r: i32)
    requires
        b@.len() >= 4,
    ensures
        r == le_i32(b@, 0),
{
    let u = u32_le(b);
    if u >= 0x8000_0000 {
        (u as i64 - 0x1_0000_0000) as i32
    } else {
        u as i32
    }
}

pub fn u64_le(b: &[u8]) -> (r: u64)
    requires
        b@.len() >= 8,
    ensures
        r == le_u64(b@, 0),
{
    let lo = u32_le(b) as u64;
    let hi = u32_le(&b[4..8]) as u64;
    assert(le_u32(b@.subrange(4, 8), 0) == le_u32(b@, 4));
    lo + hi * 4294967296
}

// ---------------------------------------------------------------------------
// Reader
// ---------------------------------------------------------------------------

/// A cursor over a byte slice. Reads that do not fit leave the position
/// unchanged and return `None`.
pub struct Reader<'a> {
    data: &'a [u8],
    pos: usize,
}

impl<'a> Reader<'a> {
    #[verifier::type_invariant]
    spec fn inv(self) -> bool {
        self.pos <= self.data@.len()
    }

    /// The bytes being read.
    pub closed spec fn input(self) -> Seq<u8> {
        self.data@
    }

    /// The current offset into `input()`.
    pub closed spec fn at(self) -> int {
        self.pos as int
    }

    /// The offset is never negative.
    pub proof fn lemma_at_nonneg(&self)
        ensures
            0 <= self.at(),
    {
    }

    /// The bytes not yet consumed.
    pub open spec fn rest(self) -> Seq<u8> {
        self.input().skip(self.at())
    }

    pub fn new(data: &'a [u8]) -> (r: Self)
        ensures
            r.input() == data@,
            r.at() == 0,
    {
        Reader { data, pos: 0 }
    }

    pub fn remaining(&self) -> (n: usize)
        ensures
            n == self.input().len() - self.at(),
            self.at() <= self.input().len(),
    {
        proof {
            use_type_invariant(self);
        }
        self.data.len() - self.pos
    }

    pub fn pos(&self) -> (p: usize)
        ensures
            p == self.at(),
    {
        self.pos
    }

    /// Moves to `pos`, clamped to the end of the input.
    pub fn seek(&mut self, pos: usize)
        ensures
            final(self).input() == old(self).input(),
            final(self).at() <= final(self).input().len(),
            final(self).at() == if pos <= old(self).input().len() {
                pos as int
            } else {
                old(self).input().len() as int
            },
    {
        if pos <= self.data.len() {
            self.pos = pos;
        } else {
            self.pos = self.data.len();
        }
    }

    /// Peek at a pending little-endian u32 without consuming it.
    pub fn peek_u32(&self) -> (r: Option<u32>)
        ensures
            r == if self.input().len() - self.at() >= 4 {
                Some(le_u32(self.input(), self.at()) as u32)
            } else {
                None::<u32>
            },
    {
        proof {
            use_type_invariant(self);
        }
        if self.data.len() - self.pos < 4 {
            return None;
        }
        let b = &self.data[self.pos..self.pos + 4];
        Some(u32_le(b))
    }

    /// Peek at the pending byte without consuming it.
    pub fn peek_u8(&self) -> (r: Option<u8>)
        ensures
            r == if self.at() < self.input().len() {
                Some(self.input()[self.at()])
            } else {
                None::<u8>
            },
    {
        proof {
            use_type_invariant(self);
        }
        if self.pos < self.data.len() {
            Some(self.data[self.pos])
        } else {
            None
        }
    }

    pub fn u8(&mut self) -> (r: Option<u8>)
        ensures
            final(self).input() == old(self).input(),
            final(self).at() <= final(self).input().len(),
            old(self).at() < old(self).input().len() ==> r == Some(old(self).input()[old(self).at()])
                && final(self).at() == old(self).at() + 1,
            old(self).at() >= old(self).input().len() ==> r is None && final(self).at() == old(self).at(),
    {
        proof {
            use_type_invariant(&*self);
        }
        if self.pos < self.data.len() {
            let v = self.data[self.pos];
            self.pos = self.pos + 1;
            Some(v)
        } else {
            None
        }
    }

    /// Consumes `n` bytes when that many remain.
    pub fn bytes(&mut self, n: usize) -> (r: Option<&'a [u8]>)
        ensures
            final(self).input() == old(self).input(),
            final(self).at() <= final(self).input().len(),
            old(self).input().len() - old(self).at() >= n ==> (r matches Some(s) && s@
                == old(self).input().subrange(old(self).at(), old(self).at() + n) && final(self).at() == old(self).at() + n),
            old(self).input().len() - old(self).at() < n ==> r is None && final(self).at() == old(self).at(),
    {
        proof {
            use_type_invariant(&*self);
        }
        if self.data.len() - self.pos < n {
            return None;
        }
        let s = &self.data[self.pos..self.pos + n];
        self.pos = self.pos + n;
        Some(s)
    }

    pub fn i16(&mut self) -> (r: Option<i16>)
        ensures
            final(self).input() == old(self).input(),
            final(self).at() <= final(self).input().len(),
            old(self).input().len() - old(self).at() >= 2 ==> r == Some(
                le_i16(old(self).input(), old(self).at()) as i16,
            ) && final(self).at() == old(self).at() + 2,
            old(self).input().len() - old(self).at() < 2 ==> r is None && final(self).at() == old(self).at(),
    {
        let b = self.bytes(2)?;
        Some(i16_le(b))
    }

    pub fn u16(&mut self) -> (r: Option<u16>)
        ensures
            final(self).input() == old(self).input(),
            final(self).at() <= final(self).input().len(),
            old(self).input().len() - old(self).at() >= 2 ==> r == Some(
                le_u16(old(self).input(), old(self).at()) as u16,
            ) && final(self).at() == old(self).at() + 2,
            old(self).input().len() - old(self).at() < 2 ==> r is None && final(self).at() == old(self).at(),
    {
        let b = self.bytes(2)?;
        Some(u16_le(b))
    }

    pub fn i32(&mut self) -> (r: Option<i32>)
        ensures
            final(self).input() == old(self).input(),
            final(self).at() <= final(self).input().len(),
            old(self).input().len() - old(self).at() >= 4 ==> r == Some(
                le_i32(old(self).input(), old(self).at()) as i32,
            ) && final(self).at() == old(self).at() + 4,
            old(self).input().len() - old(self).at() < 4 ==> r is None && final(self).at() == old(self).at(),
    {
        let b = self.bytes(4)?;
        Some(i32_le(b))
    }

    pub fn u32(&mut self) -> (r: Option<u32>)
        ensures
            final(self).input() == old(self).input(),
            final(self).at() <= final(self).input().len(),
            old(self).input().len() - old(self).at() >= 4 ==> r == Some(
                le_u32(old(self).input(), old(self).at()) as u32,
            ) && final(self).at() == old(self).at() + 4,
            old(self).input().len() - old(self).at() < 4 ==> r is None && final(self).at() == old(self).at(),
    {
        let b = self.bytes(4)?;
        Some(u32_le(b))
    }

    /// Reads an 8-byte little-endian IEEE-754 double and returns its bit
    /// pattern (`f64::from_bits` gives the value).
    pub fn f64_bits(&mut self) -> (r: Option<u64>)
        ensures
            final(self).input() == old(self).input(),
            final(self).at() <= final(self).input().len(),
            old(self).input().len() - old(self).at() >= 8 ==> r == Some(
                le_u64(old(self).input(), old(self).at()) as u64,
            ) && final(self).at() == old(self).at() + 8,
            old(self).input().len() - old(self).at() < 8 ==> r is None && final(self).at() == old(self).at(),
    {
        let b = self.bytes(8)?;
        Some(u64_le(b))
    }

    /// Pascal string: 1-byte length followed by that many bytes.
    pub fn pascal_string(&mut self) -> (r: Option<String>)
        ensures
            final(self).input() == old(self).input(),
            final(self).at() <= final(self).input().len(),
            ({
                let s = old(self).input();
                let p = old(self).at();
                if p >= s.len() {
                    r is None && final(self).at() == p
                } else if s.len() - (p + 1) < s[p] {
                    r is None && final(self).at() == p + 1
                } else {
                    (r matches Some(t) && t@ == decode_text_spec(s.subrange(p + 1, p + 1 + s[p]))
                        && final(self).at() == p + 1 + s[p])
                }
            }),
    {
        let len = self.u8()? as usize;
        let bytes = self.bytes(len)?;
        Some(decode_text(bytes))
    }
}

/// Reading `a` bytes and then `b` more gives, one after the other, the bytes
/// that reading `a + b` at once gives, and ends at the same offset.
pub proof fn split_reads_join(r: Reader, a: int, b: int)
    requires
        0 <= a,
        0 <= b,
        r.at() + a + b <= r.input().len(),
    ensures
        r.input().subrange(r.at(), r.at() + a) + r.input().subrange(r.at() + a, r.at() + a + b)
            == r.input().subrange(r.at(), r.at() + (a + b)),
        (r.at() + a) + b == r.at() + (a + b),
{
    r.lemma_at_nonneg();
    assert(r.input().subrange(r.at(), r.at() + a) + r.input().subrange(r.at() + a, r.at() + a + b)
        =~= r.input().subrange(r.at(), r.at() + (a + b)));
}

// ---------------------------------------------------------------------------
// Text decoding
// ---------------------------------------------------------------------------

/// `std::str::from_utf8`: the text of `bytes` when they are valid UTF-8.
#[verifier::external_body]
fn utf8_str<'b>(bytes: &'b [u8]) -> (r: Option<&'b str>)
    ensures
        r is Some <==> valid_utf8(bytes@),
        r matches Some(s) ==> s@ == decode_utf8(bytes@),
{
    std::str::from_utf8(bytes).ok()
}

/// The Windows-1252 character for a byte (undefined slots map to the
/// same code point, as Latin-1 does).
pub open spec fn cp1252(b: u8) -> char {
    match b {
        0x80u8 => '\u{20AC}',
        0x82u8 => '\u{201A}',
        0x83u8 => '\u{0192}',
        0x84u8 => '\u{201E}',
        0x85u8 => '\u{2026}',
        0x86u8 => '\u{2020}',
        0x87u8 => '\u{2021}',
        0x88u8 => '\u{02C6}',
        0x89u8 => '\u{2030}',
        0x8Au8 => '\u{0160}',
        0x8Bu8 => '\u{2039}',
        0x8Cu8 => '\u{0152}',
        0x8Eu8 => '\u{017D}',
        0x91u8 => '\u{2018}',
        0x92u8 => '\u{2019}',
        0x93u8 => '\u{201C}',
        0x94u8 => '\u{201D}',
        0x95u8 => '\u{2022}',
        0x96u8 => '\u{2013}',
        0x97u8 => '\u{2014}',
        0x98u8 => '\u{02DC}',
        0x99u8 => '\u{2122}',
        0x9Au8 => '\u{0161}',
        0x9Bu8 => '\u{203A}',
        0x9Cu8 => '\u{0153}',
        0x9Eu8 => '\u{017E}',
        0x9Fu8 => '\u{0178}',
        _ => b as char,
    }
}

pub fn cp1252_byte(b: u8) -> (c: char)
    ensures
        c == cp1252(b),
{
    match b {
        0x80 => '\u{20AC}',
        0x82 => '\u{201A}',
        0x83 => '\u{0192}',
        0x84 => '\u{201E}',
        0x85 => '\u{2026}',
        0x86 => '\u{2020}',
        0x87 => '\u{2021}',
        0x88 => '\u{02C6}',
        0x89 => '\u{2030}',
        0x8A => '\u{0160}',
        0x8B => '\u{2039}',
        0x8C => '\u{0152}',
        0x8E => '\u{017D}',
        0x91 => '\u{2018}',
        0x92 => '\u{2019}',
        0x93 => '\u{201C}',
        0x94 => '\u{201D}',
        0x95 => '\u{2022}',
        0x96 => '\u{2013}',
        0x97 => '\u{2014}',
        0x98 => '\u{02DC}',
        0x99 => '\u{2122}',
        0x9A => '\u{0161}',
        0x9B => '\u{203A}',
        0x9C => '\u{0153}',
        0x9E => '\u{017E}',
        0x9F => '\u{0178}',
        _ => b as char,
    }
}

/// Text of an Altium payload: UTF-8 when the bytes are valid UTF-8,
/// otherwise Windows-1252 byte by byte.
pub open spec fn decode_text_spec(bytes: Seq<u8>) -> Seq<char> {
    if valid_utf8(bytes) {
        decode_utf8(bytes)
    } else {
        bytes.map_values(|b: u8| cp1252(b))
    }
}

/// Decode an Altium text payload (cp1252 with `%UTF8%` sidecars).
pub fn decode_text(bytes: &[u8]) -> (s: String)
    ensures
        s@ == decode_text_spec(bytes@),
{
    if let Some(s) = utf8_str(bytes) {
        return s.to_owned();
    }
    let mut out = String::new();
    let mut i: usize = 0;
    while i < bytes.len()
        invariant
            i <= bytes@.len(),
            out@ == bytes@.take(i as int).map_values(|b: u8| cp1252(b)),
        decreases bytes@.len() - i,
    {
        crate::text::push_char(&mut out, cp1252_byte(bytes[i]));
        i += 1;
        assert(bytes@.take(i as int).map_values(|b: u8| cp1252(b)) =~= bytes@.take(
            (i - 1) as int,
        ).map_values(|b: u8| cp1252(b)).push(cp1252(bytes@[i - 1])));
    }
    assert(bytes@.take(bytes@.len() as int) =~= bytes@);
    out
}

// ---------------------------------------------------------------------------
// Records
// ---------------------------------------------------------------------------

/// One record from a schematic-style stream.
pub enum StreamRecord {
    Text(Vec<(String, String)>),
    Binary(Vec<u8>),
}

/// The mathematical content of a [`StreamRecord`].
pub enum RecordSpec {
    Text(Seq<(Seq<char>, Seq<char>)>),
    Binary(Seq<u8>),
}

/// The characters of each key/value pair.
pub open spec fn pairs_view(p: Seq<(String, String)>) -> Seq<(Seq<char>, Seq<char>)> {
    p.map_values(|x: (String, String)| (x.0@, x.1@))
}

impl View for StreamRecord {
    type V = RecordSpec;

    open spec fn view(&self) -> RecordSpec {
        match self {
            StreamRecord::Text(p) => RecordSpec::Text(pairs_view(p@)),
            StreamRecord::Binary(d) => RecordSpec::Binary(d@),
        }
    }
}

/// Whether a pair's key equals `key`, ignoring ASCII case.
pub open spec fn key_is(key: Seq<char>) -> spec_fn((Seq<char>, Seq<char>)) -> bool {
    |p: (Seq<char>, Seq<char>)| eq_ignore_ascii_case(p.0, key)
}

/// The value of the first pair whose key equals `key` ignoring ASCII case;
/// binary records have no properties.
pub open spec fn record_prop(r: RecordSpec, key: Seq<char>) -> Option<Seq<char>> {
    match r {
        RecordSpec::Text(ps) => match find_first(ps, key_is(key)) {
            Some(i) => Some(ps[i].1),
            None => None,
        },
        RecordSpec::Binary(_) => None,
    }
}

/// Property names are matched without regard to ASCII case: two names
/// that differ only in case read the same property.
pub proof fn record_prop_ignores_case(r: RecordSpec, k1: Seq<char>, k2: Seq<char>)
    requires
        eq_ignore_ascii_case(k1, k2),
    ensures
        record_prop(r, k1) == record_prop(r, k2),
        record_prop_i64(r, k1) == record_prop_i64(r, k2),
{
    assert forall|p: (Seq<char>, Seq<char>)| #[trigger] key_is(k1)(p) == key_is(k2)(p) by {
        if key_is(k1)(p) {
            assert forall|i: int| 0 <= i < p.0.len() implies ascii_lower(#[trigger] p.0[i]) == ascii_lower(k2[i]) by {
                assert(ascii_lower(p.0[i]) == ascii_lower(k1[i]));
                assert(ascii_lower(k1[i]) == ascii_lower(k2[i]));
            }
        }
        if key_is(k2)(p) {
            assert forall|i: int| 0 <= i < p.0.len() implies ascii_lower(#[trigger] p.0[i]) == ascii_lower(k1[i]) by {
                assert(ascii_lower(p.0[i]) == ascii_lower(k2[i]));
                assert(ascii_lower(k1[i]) == ascii_lower(k2[i]));
            }
        }
    }
    assert(key_is(k1) =~= key_is(k2));
}

/// `parse_int`: trimmed, `$`-prefixed hexadecimal or decimal.
pub open spec fn parse_int_spec(v: Seq<char>) -> Option<i64> {
    let t = trim_seq(v);
    if t.len() > 0 && t[0] == '$' {
        parse_i64_radix(t.drop_first(), 16)
    } else {
        parse_i64_radix(t, 10)
    }
}

/// The integer value of a property, when present and parsable.
pub open spec fn record_prop_i64(r: RecordSpec, key: Seq<char>) -> Option<i64> {
    match record_prop(r, key) {
        Some(v) => parse_int_spec(v),
        None => None,
    }
}

impl StreamRecord {
    pub fn prop(&self, key: &str) -> (r: Option<&str>)
        ensures
            match r {
                Some(v) => record_prop(self@, key@) == Some(v@),
                None => record_prop(self@, key@) is None,
            },
    {
        match self {
            StreamRecord::Text(pairs) => {
                let k = chars_of(key);
                let ghost ps = pairs_view(pairs@);
                assert(self@ == RecordSpec::Text(ps));
                let mut i: usize = 0;
                while i < pairs.len()
                    invariant
                        i <= pairs@.len(),
                        ps == pairs_view(pairs@),
                        self@ == RecordSpec::Text(ps),
                        k@ == key@,
                        find_first(ps.take(i as int), key_is(key@)) is None,
                    decreases pairs@.len() - i,
                {
                    let kc = chars_of(pairs[i].0.as_str());
                    let hit = chars_eq_ignore_ascii_case(&kc, &k);
                    proof {
                        assert(ps.take(i + 1).drop_last() =~= ps.take(i as int));
                        assert(ps.take(i + 1).last() == ps[i as int]);
                    }
                    if hit {
                        proof {
                            lemma_find_first(ps.take(i as int), key_is(key@));
                            assert forall|j: int| 0 <= j < i implies !key_is(key@)(#[trigger] ps[j]) by {
                                assert(ps.take(i as int)[j] == ps[j]);
                            }
                            assert(key_is(key@)(ps[i as int]));
                            crate::text::lemma_find_first_at(ps, key_is(key@), i as int);
                            assert(ps[i as int].1 == pairs@[i as int].1@);
                            assert(self@ == RecordSpec::Text(ps));
                        }
                        return Some(pairs[i].1.as_str());
                    }
                    i += 1;
                }
                proof {
                    assert(ps.take(pairs@.len() as int) =~= ps);
                }
                None
            },
            StreamRecord::Binary(_) => None,
        }
    }

    pub fn prop_i64(&self, key: &str) -> (r: Option<i64>)
        ensures
            r == record_prop_i64(self@, key@),
    {
        match self.prop(key) {
            Some(v) => parse_int(v),
            None => None,
        }
    }

    pub fn binary_data(&self) -> (r: Option<&[u8]>)
        ensures
            match self@ {
                RecordSpec::Binary(d) => (r matches Some(s) && s@ == d),
                RecordSpec::Text(_) => r is None,
            },
    {
        match self {
            StreamRecord::Binary(d) => Some(d.as_slice()),
            _ => None,
        }
    }
}

/// Integer property text: optional surrounding whitespace, then either
/// `$` and hexadecimal digits or a decimal number.
pub fn parse_int(v: &str) -> (r: Option<i64>)
    ensures
        r == parse_int_spec(v@),
{
    let t = trim_chars(&chars_of(v));
    if t.len() > 0 && t[0] == '$' {
        let hex = crate::text::string_from_range(&t, 1, t.len());
        let hv = chars_of(hex.as_str());
        assert(hv@ =~= t@.drop_first());
        return parse_i64_chars(&hv, 16);
    }
    parse_i64_chars(&t, 10)
}

// ---------------------------------------------------------------------------
// Streams
// ---------------------------------------------------------------------------

/// Drops one trailing NUL byte.
pub open spec fn strip_nul(p: Seq<u8>) -> Seq<u8> {
    if p.len() > 0 && p.last() == 0 {
        p.drop_last()
    } else {
        p
    }
}

/// Pipe-separated chunks of a text record body; an empty first chunk (the
/// body usually starts with `|`) is dropped.
pub open spec fn split_pipes_spec(body: Seq<u8>) -> Seq<Seq<u8>> {
    let parts = split_seq(body, 0x7Cu8);
    if parts.len() > 0 && parts[0].len() == 0 {
        parts.drop_first()
    } else {
        parts
    }
}

/// The key/value pair of one chunk, split at its first `=`; chunks without
/// `=` contribute nothing.
pub open spec fn chunk_pair(c: Seq<u8>) -> Seq<(Seq<char>, Seq<char>)> {
    match find_first(c, |b: u8| b == 0x3Du8) {
        Some(eq) => seq![(decode_text_spec(c.take(eq)), decode_text_spec(c.skip(eq + 1)))],
        None => seq![],
    }
}

/// Pairs of all chunks, in order.
pub open spec fn chunks_pairs(cs: Seq<Seq<u8>>) -> Seq<(Seq<char>, Seq<char>)>
    decreases cs.len(),
{
    if cs.len() == 0 {
        seq![]
    } else {
        chunks_pairs(cs.drop_last()) + chunk_pair(cs.last())
    }
}

/// Key/value pairs of a text record body.
pub open spec fn parse_pairs_spec(body: Seq<u8>) -> Seq<(Seq<char>, Seq<char>)> {
    chunks_pairs(split_pipes_spec(body))
}

/// The record of one payload.
pub open spec fn payload_record(raw: int, payload: Seq<u8>) -> RecordSpec {
    if raw >= 0x100_0000 {
        RecordSpec::Binary(payload)
    } else {
        RecordSpec::Text(parse_pairs_spec(strip_nul(payload)))
    }
}

/// All records of a schematic-style stream: each is a 4-byte header (low
/// 24 bits length, high byte non-zero for binary) and a payload; parsing
/// stops at the first empty or truncated record.
pub open spec fn stream_records(data: Seq<u8>) -> Seq<RecordSpec>
    decreases data.len(),
{
    if data.len() < 4 {
        seq![]
    } else {
        let raw = le_u32(data, 0);
        let len = raw % 0x100_0000;
        let rest = data.skip(4);
        if rest.len() < len || len == 0 {
            seq![]
        } else {
            seq![payload_record(raw, rest.take(len))] + stream_records(rest.skip(len))
        }
    }
}

/// Reading a stream cut short yields the leading records of the whole
/// stream, record for record; and every record takes at least five bytes.
pub proof fn stream_records_prefix(data: Seq<u8>, k: int)
    requires
        0 <= k <= data.len(),
    ensures
        stream_records(data.take(k)).len() <= stream_records(data).len(),
        stream_records(data.take(k)) == stream_records(data).take(stream_records(data.take(k)).len() as int),
        stream_records(data).len() <= data.len() / 5,
    decreases data.len(),
{
    lemma_stream_records_size(data);
    let t = data.take(k);
    if t.len() >= 4 {
        let raw = le_u32(data, 0);
        assert(le_u32(t, 0) == raw);
        let len = raw % 0x100_0000;
        let rest = data.skip(4);
        let rest_t = t.skip(4);
        assert(rest_t =~= rest.take(k - 4));
        if !(rest_t.len() < len || len == 0) {
            assert(rest_t.take(len) =~= rest.take(len));
            let tail = rest.skip(len);
            assert(rest_t.skip(len) =~= tail.take(k - 4 - len));
            stream_records_prefix(tail, k - 4 - len);
            let p = stream_records(tail.take(k - 4 - len));
            let w = stream_records(tail);
            assert(stream_records(t) == seq![payload_record(raw, rest.take(len))] + p);
            assert(stream_records(data) == seq![payload_record(raw, rest.take(len))] + w);
            assert(stream_records(t) =~= stream_records(data).take(stream_records(t).len() as int));
        } else {
            assert(stream_records(t) =~= stream_records(data).take(0));
        }
    } else {
        assert(stream_records(t) =~= stream_records(data).take(0));
    }
}

proof fn lemma_stream_records_size(data: Seq<u8>)
    ensures
        5 * stream_records(data).len() <= data.len(),
        stream_records(data).len() <= data.len() / 5,
    decreases data.len(),
{
    if data.len() >= 4 {
        let raw = le_u32(data, 0);
        let len = raw % 0x100_0000;
        let rest = data.skip(4);
        if !(rest.len() < len || len == 0) {
            lemma_stream_records_size(rest.skip(len));
        }
    }
    let n = stream_records(data).len();
    let m = data.len();
    assert(n <= m / 5) by (nonlinear_arith)
        requires
            5 * n <= m,
    {}
}

/// Views of a vector of records.
pub open spec fn records_view(v: Seq<StreamRecord>) -> Seq<RecordSpec> {
    v.map_values(|r: StreamRecord| r@)
}

/// Parse a full schematic-style stream into records.
pub fn parse_stream_records(data: &[u8]) -> (records: Vec<StreamRecord>)
    ensures
        records_view(records@) == stream_records(data@),
{
    let mut records: Vec<StreamRecord> = Vec::new();
    let mut r = Reader::new(data);
    proof {
        assert(data@.skip(0) =~= data@);
    }
    while r.remaining() >= 4
        invariant_except_break
            r.input() == data@,
            0 <= r.at() <= data@.len(),
            records_view(records@) + stream_records(data@.skip(r.at())) == stream_records(data@),
        ensures
            records_view(records@) == stream_records(data@),
        decreases data@.len() - r.at(),
    {
        let ghost at0 = r.at();
        let ghost d = data@.skip(at0);
        let raw_len = r.u32().unwrap();
        proof {
            assert(le_u32(data@, at0) == le_u32(d, 0));
        }
        let is_binary = raw_len >= 0x100_0000;
        let len = (raw_len % 0x100_0000) as usize;
        if r.remaining() < len || len == 0 {
            proof {
                assert(d.skip(4).len() == r.input().len() - r.at());
                assert(stream_records(d) == Seq::<RecordSpec>::empty());
                assert(records_view(records@) + Seq::<RecordSpec>::empty() =~= records_view(
                    records@,
                ));
            }
            break;
        }
        let payload = r.bytes(len).unwrap();
        proof {
            assert(d.skip(4) =~= data@.skip(at0 + 4));
            assert(payload@ =~= d.skip(4).take(len as int));
            assert(d.skip(4).skip(len as int) =~= data@.skip(r.at()));
        }
        let rec = if is_binary {
            StreamRecord::Binary(vstd::slice::slice_to_vec(payload))
        } else {
            let body_len = if payload.len() > 0 && payload[payload.len() - 1] == 0 {
                payload.len() - 1
            } else {
                payload.len()
            };
            let body = &payload[0..body_len];
            proof {
                assert(body@ =~= strip_nul(payload@));
            }
            StreamRecord::Text(parse_pairs(body))
        };
        proof {
            assert(rec@ == payload_record(raw_len as int, payload@));
            assert(records_view(records@.push(rec)) =~= records_view(records@).push(rec@));
        }
        records.push(rec);
    }
    records
}

/// Chunks of `body` separated by `|`, as index ranges, without an empty
/// first chunk.
fn split_pipes(body: &[u8]) -> (r: Vec<(usize, usize)>)
    ensures
        r@.len() == split_pipes_spec(body@).len(),
        forall|k: int|
            0 <= k < r@.len() ==> (#[trigger] r@[k]).0 <= r@[k].1 <= body@.len() && body@.subrange(
                r@[k].0 as int,
                r@[k].1 as int,
            ) == split_pipes_spec(body@)[k],
{
    let mut parts: Vec<(usize, usize)> = Vec::new();
    let mut start: usize = 0;
    let mut i: usize = 0;
    while i < body.len()
        invariant
            start <= i <= body@.len(),
            parts@.len() + 1 == split_seq(body@.take(i as int), 0x7Cu8).len(),
            forall|k: int|
                0 <= k < parts@.len() ==> (#[trigger] parts@[k]).0 <= parts@[k].1 <= body@.len()
                    && body@.subrange(parts@[k].0 as int, parts@[k].1 as int) == split_seq(
                    body@.take(i as int),
                    0x7Cu8,
                )[k],
            body@.subrange(start as int, i as int) == split_seq(body@.take(i as int), 0x7Cu8).last(),
        decreases body@.len() - i,
    {
        proof {
            crate::text::lemma_split_seq_nonempty(body@.take(i as int), 0x7Cu8);
            assert(body@.take(i + 1).drop_last() =~= body@.take(i as int));
            assert(body@.take(i + 1).last() == body@[i as int]);
        }
        if body[i] == 0x7C {
            parts.push((start, i));
            start = i + 1;
            i += 1;
            proof {
                assert(body@.subrange(start as int, i as int) =~= Seq::<u8>::empty());
            }
        } else {
            i += 1;
            proof {
                assert(body@.subrange(start as int, i as int) =~= body@.subrange(
                    start as int,
                    (i - 1) as int,
                ).push(body@[i - 1]));
            }
        }
    }
    parts.push((start, i));
    assert(body@.take(body@.len() as int) =~= body@);
    let ghost all = split_seq(body@, 0x7Cu8);
    if parts[0].0 == parts[0].1 {
        let mut out: Vec<(usize, usize)> = Vec::new();
        let mut k: usize = 1;
        while k < parts.len()
            invariant
                1 <= k <= parts@.len(),
                parts@.len() == all.len(),
                out@.len() == k - 1,
                forall|j: int|
                    0 <= j < parts@.len() ==> (#[trigger] parts@[j]).0 <= parts@[j].1 <= body@.len()
                        && body@.subrange(parts@[j].0 as int, parts@[j].1 as int) == all[j],
                forall|j: int| 0 <= j < out@.len() ==> #[trigger] out@[j] == parts@[j + 1],
            decreases parts@.len() - k,
        {
            out.push(parts[k]);
            k += 1;
        }
        proof {
            assert(all[0].len() == 0);
            assert forall|j: int| 0 <= j < out@.len() implies (#[trigger] out@[j]).0 <= out@[j].1
                <= body@.len() && body@.subrange(out@[j].0 as int, out@[j].1 as int)
                == split_pipes_spec(body@)[j] by {
                assert(out@[j] == parts@[j + 1]);
            }
        }
        out
    } else {
        proof {
            assert(all[0].len() != 0);
        }
        parts
    }
}

/// Key/value pairs of a text record body.
fn parse_pairs(body: &[u8]) -> (pairs: Vec<(String, String)>)
    ensures
        pairs_view(pairs@) == parse_pairs_spec(body@),
{
    let chunks = split_pipes(body);
    let ghost cs = split_pipes_spec(body@);
    let mut pairs: Vec<(String, String)> = Vec::new();
    let mut k: usize = 0;
    while k < chunks.len()
        invariant
            k <= chunks@.len(),
            chunks@.len() == cs.len(),
            cs == split_pipes_spec(body@),
            forall|j: int|
                0 <= j < chunks@.len() ==> (#[trigger] chunks@[j]).0 <= chunks@[j].1 <= body@.len()
                    && body@.subrange(chunks@[j].0 as int, chunks@[j].1 as int) == cs[j],
            pairs_view(pairs@) == chunks_pairs(cs.take(k as int)),
        decreases chunks@.len() - k,
    {
        let (a, b) = chunks[k];
        let chunk = &body[a..b];
        assert(chunk@ == cs[k as int]);
        proof {
            assert(cs.take(k + 1).drop_last() =~= cs.take(k as int));
            assert(cs.take(k + 1).last() == cs[k as int]);
        }
        let mut e: usize = 0;
        while e < chunk.len() && chunk[e] != 0x3D
            invariant
                e <= chunk@.len(),
                find_first(chunk@.take(e as int), |x: u8| x == 0x3Du8) is None,
            decreases chunk@.len() - e,
        {
            proof {
                assert(chunk@.take(e + 1).drop_last() =~= chunk@.take(e as int));
            }
            e += 1;
        }
        if e < chunk.len() {
            proof {
                assert(chunk@.take(e + 1).drop_last() =~= chunk@.take(e as int));
                assert(find_first(chunk@.take(e + 1), |x: u8| x == 0x3Du8) == Some(e as int));
                crate::text::lemma_find_first(chunk@, |x: u8| x == 0x3Du8);
                crate::text::lemma_find_first(chunk@.take(e + 1), |x: u8| x == 0x3Du8);
                crate::text::lemma_find_first(chunk@.take(e as int), |x: u8| x == 0x3Du8);
                if let Some(j) = find_first(chunk@, |x: u8| x == 0x3Du8) {
                    if j < e {
                        assert(chunk@.take(e as int)[j] == chunk@[j]);
                    }
                    if j > e {
                        assert(chunk@.take(e + 1)[e as int] == chunk@[e as int]);
                    }
                }
                assert(find_first(chunk@, |x: u8| x == 0x3Du8) == Some(e as int));
            }
            let key = decode_text(&chunk[0..e]);
            let val = decode_text(&chunk[e + 1..chunk.len()]);
            proof {
                assert(chunk@.subrange(0, e as int) =~= chunk@.take(e as int));
                assert(chunk@.subrange(e + 1, chunk@.len() as int) =~= chunk@.skip(e + 1));
                assert(pairs_view(pairs@.push((key, val))) =~= pairs_view(pairs@).push(
                    (key@, val@),
                ));
            }
            pairs.push((key, val));
        } else {
            proof {
                assert(chunk@.take(e as int) =~= chunk@);
            }
        }
        k += 1;
    }
    proof {
        assert(cs.take(chunks@.len() as int) =~= cs);
    }
    pairs
}

} // verus!
