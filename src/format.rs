//! The MessagePack tag space, its byte-level encodings, and the lenient
//! decoding rules, stated as spec functions over byte sequences.
use vstd::prelude::*;
use vstd::utf8::{decode_utf8, encode_utf8, valid_utf8};

verus! {

/// The class of a leading byte on the wire.
#[derive(Clone, Copy, Debug, PartialEq, Eq, Structural)]
pub enum Format {
    Nil,
    False,
    True,
    PositiveFixInt(u8),
    NegativeFixInt(i8),
    Uint8,
    Uint16,
    Uint32,
    Uint64,
    Int8,
    Int16,
    Int32,
    Int64,
    Float32,
    Float64,
    FixStr(u8),
    Str8,
    Str16,
    Str32,
    Bin8,
    Bin16,
    Bin32,
    FixArray(u8),
    Array16,
    Array32,
    FixMap(u8),
    Map16,
    Map32,
}

/// Why a read could not produce a value.
#[derive(Clone, Copy, Debug, PartialEq, Eq, Structural)]
pub enum Fault {
    /// The buffer ended before the value did.
    Exhausted,
    /// The leading byte is no tag of the format.
    UnknownTag,
    /// The leading byte is a tag of another type than the one expected.
    WrongType,
    /// The value does not fit the integer type asked for.
    OutOfRange,
    /// A string payload is not valid UTF-8.
    InvalidText,
}

/// What a read yields from a byte sequence: the value and the number of
/// bytes it spans, or the fault that stopped it.
pub type Scan<T> = Result<(T, int), Fault>;

/// A successful scan of `v` over `n` bytes.
pub open spec fn got<T>(v: T, n: int) -> Scan<T> {
    Ok((v, n))
}

impl Format {
    /// Whether the payload of a fixed variant lies in its range.
    pub open spec fn wf(self) -> bool {
        match self {
            Format::PositiveFixInt(v) => v < 0x80,
            Format::NegativeFixInt(v) => -32 <= v < 0,
            Format::FixStr(n) => n < 32,
            Format::FixArray(n) => n < 16,
            Format::FixMap(n) => n < 16,
            _ => true,
        }
    }

    /// The leading byte of a tag.
    pub open spec fn spec_byte(self) -> u8 {
        match self {
            Format::Nil => 0xc0,
            Format::False => 0xc2,
            Format::True => 0xc3,
            Format::PositiveFixInt(v) => v,
            Format::NegativeFixInt(v) => (v + 256) as u8,
            Format::Uint8 => 0xcc,
            Format::Uint16 => 0xcd,
            Format::Uint32 => 0xce,
            Format::Uint64 => 0xcf,
            Format::Int8 => 0xd0,
            Format::Int16 => 0xd1,
            Format::Int32 => 0xd2,
            Format::Int64 => 0xd3,
            Format::Float32 => 0xca,
            Format::Float64 => 0xcb,
            Format::FixStr(n) => (0xa0 + n) as u8,
            Format::Str8 => 0xd9,
            Format::Str16 => 0xda,
            Format::Str32 => 0xdb,
            Format::Bin8 => 0xc4,
            Format::Bin16 => 0xc5,
            Format::Bin32 => 0xc6,
            Format::FixArray(n) => (0x90 + n) as u8,
            Format::Array16 => 0xdc,
            Format::Array32 => 0xdd,
            Format::FixMap(n) => (0x80 + n) as u8,
            Format::Map16 => 0xde,
            Format::Map32 => 0xdf,
        }
    }

    /// The tag that a leading byte stands for, if any.
    pub open spec fn spec_of_byte(b: u8) -> Option<Format> {
        if b < 0x80 {
            Some(Format::PositiveFixInt(b))
        } else if b < 0x90 {
            Some(Format::FixMap((b - 0x80) as u8))
        } else if b < 0xa0 {
            Some(Format::FixArray((b - 0x90) as u8))
        } else if b < 0xc0 {
            Some(Format::FixStr((b - 0xa0) as u8))
        } else if b >= 0xe0 {
            Some(Format::NegativeFixInt((b - 256) as i8))
        } else if b == 0xc0 {
            Some(Format::Nil)
        } else if b == 0xc2 {
            Some(Format::False)
        } else if b == 0xc3 {
            Some(Format::True)
        } else if b == 0xc4 {
            Some(Format::Bin8)
        } else if b == 0xc5 {
            Some(Format::Bin16)
        } else if b == 0xc6 {
            Some(Format::Bin32)
        } else if b == 0xca {
            Some(Format::Float32)
        } else if b == 0xcb {
            Some(Format::Float64)
        } else if b == 0xcc {
            Some(Format::Uint8)
        } else if b == 0xcd {
            Some(Format::Uint16)
        } else if b == 0xce {
            Some(Format::Uint32)
        } else if b == 0xcf {
            Some(Format::Uint64)
        } else if b == 0xd0 {
            Some(Format::Int8)
        } else if b == 0xd1 {
            Some(Format::Int16)
        } else if b == 0xd2 {
            Some(Format::Int32)
        } else if b == 0xd3 {
            Some(Format::Int64)
        } else if b == 0xd9 {
            Some(Format::Str8)
        } else if b == 0xda {
            Some(Format::Str16)
        } else if b == 0xdb {
            Some(Format::Str32)
        } else if b == 0xdc {
            Some(Format::Array16)
        } else if b == 0xdd {
            Some(Format::Array32)
        } else if b == 0xde {
            Some(Format::Map16)
        } else if b == 0xdf {
            Some(Format::Map32)
        } else {
            None
        }
    }

    /// The leading byte of this tag.
    pub fn to_byte(&self) -> (r: u8)
        requires
            self.wf(),
        ensures
            r == self.spec_byte(),
    {
        match *self {
            Format::Nil => 0xc0,
            Format::False => 0xc2,
            Format::True => 0xc3,
            Format::PositiveFixInt(v) => v,
            Format::NegativeFixInt(v) => (v as i16 + 256) as u8,
            Format::Uint8 => 0xcc,
            Format::Uint16 => 0xcd,
            Format::Uint32 => 0xce,
            Format::Uint64 => 0xcf,
            Format::Int8 => 0xd0,
            Format::Int16 => 0xd1,
            Format::Int32 => 0xd2,
            Format::Int64 => 0xd3,
            Format::Float32 => 0xca,
            Format::Float64 => 0xcb,
            Format::FixStr(n) => 0xa0 + n,
            Format::Str8 => 0xd9,
            Format::Str16 => 0xda,
            Format::Str32 => 0xdb,
            Format::Bin8 => 0xc4,
            Format::Bin16 => 0xc5,
            Format::Bin32 => 0xc6,
            Format::FixArray(n) => 0x90 + n,
            Format::Array16 => 0xdc,
            Format::Array32 => 0xdd,
            Format::FixMap(n) => 0x80 + n,
            Format::Map16 => 0xde,
            Format::Map32 => 0xdf,
        }
    }

    /// Classifies a leading byte; `None` where it is no tag of the format.
    pub fn from_byte(b: u8) -> (r: Option<Format>)
        ensures
            r == Format::spec_of_byte(b),
    {
        if b < 0x80 {
            Some(Format::PositiveFixInt(b))
        } else if b < 0x90 {
            Some(Format::FixMap(b - 0x80))
        } else if b < 0xa0 {
            Some(Format::FixArray(b - 0x90))
        } else if b < 0xc0 {
            Some(Format::FixStr(b - 0xa0))
        } else if b >= 0xe0 {
            Some(Format::NegativeFixInt((b as i16 - 256) as i8))
        } else if b == 0xc0 {
            Some(Format::Nil)
        } else if b == 0xc2 {
            Some(Format::False)
        } else if b == 0xc3 {
            Some(Format::True)
        } else if b == 0xc4 {
            Some(Format::Bin8)
        } else if b == 0xc5 {
            Some(Format::Bin16)
        } else if b == 0xc6 {
            Some(Format::Bin32)
        } else if b == 0xca {
            Some(Format::Float32)
        } else if b == 0xcb {
            Some(Format::Float64)
        } else if b == 0xcc {
            Some(Format::Uint8)
        } else if b == 0xcd {
            Some(Format::Uint16)
        } else if b == 0xce {
            Some(Format::Uint32)
        } else if b == 0xcf {
            Some(Format::Uint64)
        } else if b == 0xd0 {
            Some(Format::Int8)
        } else if b == 0xd1 {
            Some(Format::Int16)
        } else if b == 0xd2 {
            Some(Format::Int32)
        } else if b == 0xd3 {
            Some(Format::Int64)
        } else if b == 0xd9 {
            Some(Format::Str8)
        } else if b == 0xda {
            Some(Format::Str16)
        } else if b == 0xdb {
            Some(Format::Str32)
        } else if b == 0xdc {
            Some(Format::Array16)
        } else if b == 0xdd {
            Some(Format::Array32)
        } else if b == 0xde {
            Some(Format::Map16)
        } else if b == 0xdf {
            Some(Format::Map32)
        } else {
            None
        }
    }
}

// ---------------------------------------------------------------------------
// Big-endian integers

pub open spec fn be16(v: nat) -> Seq<u8> {
    seq![(v / 256) as u8, (v % 256) as u8]
}

pub open spec fn be32(v: nat) -> Seq<u8> {
    be16(v / 0x10000) + be16(v % 0x10000)
}

pub open spec fn be64(v: nat) -> Seq<u8> {
    be32(v / 0x1_0000_0000) + be32(v % 0x1_0000_0000)
}

/// The unsigned value of the two bytes at `i`.
pub open spec fn be16_at(s: Seq<u8>, i: int) -> nat {
    s[i] as nat * 256 + s[i + 1] as nat
}

pub open spec fn be32_at(s: Seq<u8>, i: int) -> nat {
    be16_at(s, i) * 0x10000 + be16_at(s, i + 2)
}

pub open spec fn be64_at(s: Seq<u8>, i: int) -> nat {
    be32_at(s, i) * 0x1_0000_0000 + be32_at(s, i + 4)
}

// ---------------------------------------------------------------------------
// Encodings (the write side picks the smallest tag)

pub open spec fn enc_uint(v: nat) -> Seq<u8> {
    if v < 0x80 {
        seq![v as u8]
    } else if v < 0x100 {
        seq![0xccu8, v as u8]
    } else if v < 0x10000 {
        seq![0xcdu8] + be16(v)
    } else if v < 0x1_0000_0000 {
        seq![0xceu8] + be32(v)
    } else {
        seq![0xcfu8] + be64(v)
    }
}

pub open spec fn enc_int(v: int) -> Seq<u8> {
    if v >= 0 {
        enc_uint(v as nat)
    } else if v >= -32 {
        seq![(v + 0x100) as u8]
    } else if v >= -0x80 {
        seq![0xd0u8, (v + 0x100) as u8]
    } else if v >= -0x8000 {
        seq![0xd1u8] + be16((v + 0x10000) as nat)
    } else if v >= -0x8000_0000 {
        seq![0xd2u8] + be32((v + 0x1_0000_0000) as nat)
    } else {
        seq![0xd3u8] + be64((v + 0x1_0000_0000_0000_0000) as nat)
    }
}

pub open spec fn enc_nil() -> Seq<u8> {
    seq![0xc0u8]
}

pub open spec fn enc_bool(b: bool) -> Seq<u8> {
    if b {
        seq![0xc3u8]
    } else {
        seq![0xc2u8]
    }
}

pub open spec fn enc_str_header(n: nat) -> Seq<u8> {
    if n < 32 {
        seq![(0xa0 + n) as u8]
    } else if n < 0x100 {
        seq![0xd9u8, n as u8]
    } else if n < 0x10000 {
        seq![0xdau8] + be16(n)
    } else {
        seq![0xdbu8] + be32(n)
    }
}

pub open spec fn enc_bin_header(n: nat) -> Seq<u8> {
    if n < 0x100 {
        seq![0xc4u8, n as u8]
    } else if n < 0x10000 {
        seq![0xc5u8] + be16(n)
    } else {
        seq![0xc6u8] + be32(n)
    }
}

pub open spec fn enc_array_header(n: nat) -> Seq<u8> {
    if n < 16 {
        seq![(0x90 + n) as u8]
    } else if n < 0x10000 {
        seq![0xdcu8] + be16(n)
    } else {
        seq![0xddu8] + be32(n)
    }
}

pub open spec fn enc_map_header(n: nat) -> Seq<u8> {
    if n < 16 {
        seq![(0x80 + n) as u8]
    } else if n < 0x10000 {
        seq![0xdeu8] + be16(n)
    } else {
        seq![0xdfu8] + be32(n)
    }
}

/// A string on the wire: the length of its UTF-8 bytes, then the bytes.
pub open spec fn enc_str(text: Seq<char>) -> Seq<u8> {
    enc_str_header(encode_utf8(text).len()) + encode_utf8(text)
}

/// A byte buffer on the wire: nil when empty, else a binary tag and the bytes.
pub open spec fn enc_bin(b: Seq<u8>) -> Seq<u8> {
    if b.len() == 0 {
        enc_nil()
    } else {
        enc_bin_header(b.len()) + b
    }
}

// ---------------------------------------------------------------------------
// Decodings (the read side accepts every tag of the expected type)

/// The fault of a leading byte that is not of the expected type.
pub open spec fn mismatch(s: Seq<u8>) -> Fault {
    if Format::spec_of_byte(s[0]) is Some {
        Fault::WrongType
    } else {
        Fault::UnknownTag
    }
}

/// An integer of any integer tag, as a mathematical value; a `Uint64`
/// payload is taken as unsigned.
pub open spec fn dec_int(s: Seq<u8>) -> Scan<int> {
    if s.len() == 0 {
        Err(Fault::Exhausted)
    } else {
        let b = s[0];
        if b < 0x80 {
            Ok((b as int, 1))
        } else if b >= 0xe0 {
            Ok((b as int - 0x100, 1))
        } else if b == 0xcc || b == 0xd0 {
            if s.len() < 2 {
                Err(Fault::Exhausted)
            } else if b == 0xcc || s[1] < 0x80 {
                Ok((s[1] as int, 2))
            } else {
                Ok((s[1] as int - 0x100, 2))
            }
        } else if b == 0xcd || b == 0xd1 {
            if s.len() < 3 {
                Err(Fault::Exhausted)
            } else if b == 0xcd || be16_at(s, 1) < 0x8000 {
                Ok((be16_at(s, 1) as int, 3))
            } else {
                Ok((be16_at(s, 1) as int - 0x10000, 3))
            }
        } else if b == 0xce || b == 0xd2 {
            if s.len() < 5 {
                Err(Fault::Exhausted)
            } else if b == 0xce || be32_at(s, 1) < 0x8000_0000 {
                Ok((be32_at(s, 1) as int, 5))
            } else {
                Ok((be32_at(s, 1) as int - 0x1_0000_0000, 5))
            }
        } else if b == 0xcf || b == 0xd3 {
            if s.len() < 9 {
                Err(Fault::Exhausted)
            } else if b == 0xcf || be64_at(s, 1) < 0x8000_0000_0000_0000 {
                Ok((be64_at(s, 1) as int, 9))
            } else {
                Ok((be64_at(s, 1) as int - 0x1_0000_0000_0000_0000, 9))
            }
        } else {
            Err(mismatch(s))
        }
    }
}

/// An integer that must lie in `[lo, hi]`.
pub open spec fn dec_int_in(s: Seq<u8>, lo: int, hi: int) -> Scan<int> {
    match dec_int(s) {
        Ok((v, n)) => if lo <= v <= hi {
            Ok((v, n))
        } else {
            Err(Fault::OutOfRange)
        },
        Err(f) => Err(f),
    }
}

/// A signed 64-bit integer: a `Uint64` payload above `i64::MAX` is taken
/// in two's complement.
pub open spec fn dec_i64(s: Seq<u8>) -> Scan<int> {
    match dec_int(s) {
        Ok((v, n)) => if v > i64::MAX {
            Ok((v - 0x1_0000_0000_0000_0000, n))
        } else {
            Ok((v, n))
        },
        Err(f) => Err(f),
    }
}

pub open spec fn dec_nil(s: Seq<u8>) -> Scan<()> {
    if s.len() == 0 {
        Err(Fault::Exhausted)
    } else if s[0] == 0xc0 {
        Ok(((), 1))
    } else {
        Err(mismatch(s))
    }
}

pub open spec fn dec_bool(s: Seq<u8>) -> Scan<bool> {
    if s.len() == 0 {
        Err(Fault::Exhausted)
    } else if s[0] == 0xc3 {
        Ok((true, 1))
    } else if s[0] == 0xc2 {
        Ok((false, 1))
    } else {
        Err(mismatch(s))
    }
}

/// A length of a tag family: `fix_lo..fix_lo+fix_n` hold the length
/// inline; `t8`, `t16`, `t32` are followed by a 1, 2 or 4-byte length
/// (a family without an 8-bit form passes 0 for `t8`).
pub open spec fn dec_len(s: Seq<u8>, fix_lo: u8, fix_n: u8, t8: u8, t16: u8, t32: u8) -> Scan<nat> {
    if s.len() == 0 {
        Err(Fault::Exhausted)
    } else {
        let b = s[0];
        if fix_lo <= b < fix_lo + fix_n {
            Ok(((b - fix_lo) as nat, 1))
        } else if t8 != 0 && b == t8 {
            if s.len() < 2 {
                Err(Fault::Exhausted)
            } else {
                Ok((s[1] as nat, 2))
            }
        } else if b == t16 {
            if s.len() < 3 {
                Err(Fault::Exhausted)
            } else {
                Ok((be16_at(s, 1), 3))
            }
        } else if b == t32 {
            if s.len() < 5 {
                Err(Fault::Exhausted)
            } else {
                Ok((be32_at(s, 1), 5))
            }
        } else {
            Err(mismatch(s))
        }
    }
}

pub open spec fn dec_str_len(s: Seq<u8>) -> Scan<nat> {
    dec_len(s, 0xa0, 32, 0xd9, 0xda, 0xdb)
}

/// A binary length; nil stands for an empty buffer.
pub open spec fn dec_bin_len(s: Seq<u8>) -> Scan<nat> {
    if s.len() > 0 && s[0] == 0xc0 {
        Ok((0, 1))
    } else {
        dec_len(s, 0, 0, 0xc4, 0xc5, 0xc6)
    }
}

pub open spec fn dec_array_len(s: Seq<u8>) -> Scan<nat> {
    dec_len(s, 0x90, 16, 0, 0xdc, 0xdd)
}

pub open spec fn dec_map_len(s: Seq<u8>) -> Scan<nat> {
    dec_len(s, 0x80, 16, 0, 0xde, 0xdf)
}

/// The payload of `n` bytes after a header of `h` bytes.
pub open spec fn dec_payload(s: Seq<u8>, h: int, n: nat) -> Scan<Seq<u8>> {
    if s.len() < h + n {
        Err(Fault::Exhausted)
    } else {
        Ok((s.subrange(h, h + n), h + n))
    }
}

pub open spec fn dec_str(s: Seq<u8>) -> Scan<Seq<char>> {
    match dec_str_len(s) {
        Ok((n, h)) => match dec_payload(s, h, n) {
            Ok((b, k)) => if valid_utf8(b) {
                Ok((decode_utf8(b), k))
            } else {
                Err(Fault::InvalidText)
            },
            Err(f) => Err(f),
        },
        Err(f) => Err(f),
    }
}

pub open spec fn dec_bin(s: Seq<u8>) -> Scan<Seq<u8>> {
    match dec_bin_len(s) {
        Ok((n, h)) => dec_payload(s, h, n),
        Err(f) => Err(f),
    }
}

/// A 32-bit float's IEEE 754 bits after its `Float32` tag.
pub open spec fn dec_f32_bits(s: Seq<u8>) -> Scan<nat> {
    if s.len() == 0 {
        Err(Fault::Exhausted)
    } else if s[0] != 0xca {
        Err(mismatch(s))
    } else if s.len() < 5 {
        Err(Fault::Exhausted)
    } else {
        Ok((be32_at(s, 1), 5))
    }
}

/// A 64-bit float's IEEE 754 bits after its `Float64` tag.
pub open spec fn dec_f64_bits(s: Seq<u8>) -> Scan<nat> {
    if s.len() == 0 {
        Err(Fault::Exhausted)
    } else if s[0] != 0xcb {
        Err(mismatch(s))
    } else if s.len() < 9 {
        Err(Fault::Exhausted)
    } else {
        Ok((be64_at(s, 1), 9))
    }
}

/// Whether the next value is nil.
pub open spec fn next_is_nil(s: Seq<u8>) -> bool {
    s.len() > 0 && s[0] == 0xc0
}

/// Whether the next value carries a string tag.
pub open spec fn next_is_str(s: Seq<u8>) -> bool {
    s.len() > 0 && ((0xa0 <= s[0] < 0xc0) || s[0] == 0xd9 || s[0] == 0xda || s[0] == 0xdb)
}

// ---------------------------------------------------------------------------
// Round trips of the byte-level encodings

proof fn lemma_be16_at(v: nat, s: Seq<u8>, i: int)
    requires
        v < 0x10000,
        0 <= i,
        i + 2 <= s.len(),
        s.subrange(i, i + 2) == be16(v),
    ensures
        be16_at(s, i) == v,
{
    assert(s[i] == s.subrange(i, i + 2)[0]);
    assert(s[i + 1] == s.subrange(i, i + 2)[1]);
}

pub proof fn lemma_be32_at(v: nat, s: Seq<u8>, i: int)
    requires
        v < 0x1_0000_0000,
        0 <= i,
        i + 4 <= s.len(),
        s.subrange(i, i + 4) == be32(v),
    ensures
        be32_at(s, i) == v,
{
    assert(s.subrange(i, i + 2) =~= s.subrange(i, i + 4).subrange(0, 2));
    assert(s.subrange(i + 2, i + 4) =~= s.subrange(i, i + 4).subrange(2, 4));
    assert(be32(v).subrange(0, 2) =~= be16(v / 0x10000));
    assert(be32(v).subrange(2, 4) =~= be16(v % 0x10000));
    lemma_be16_at(v / 0x10000, s, i);
    lemma_be16_at(v % 0x10000, s, i + 2);
}

pub proof fn lemma_be64_at(v: nat, s: Seq<u8>, i: int)
    requires
        v < 0x1_0000_0000_0000_0000,
        0 <= i,
        i + 8 <= s.len(),
        s.subrange(i, i + 8) == be64(v),
    ensures
        be64_at(s, i) == v,
{
    assert(s.subrange(i, i + 4) =~= s.subrange(i, i + 8).subrange(0, 4));
    assert(s.subrange(i + 4, i + 8) =~= s.subrange(i, i + 8).subrange(4, 8));
    assert(be64(v).subrange(0, 4) =~= be32(v / 0x1_0000_0000));
    assert(be64(v).subrange(4, 8) =~= be32(v % 0x1_0000_0000));
    lemma_be32_at(v / 0x1_0000_0000, s, i);
    lemma_be32_at(v % 0x1_0000_0000, s, i + 4);
}

/// An unsigned integer reads back as itself, whatever follows it.
pub proof fn lemma_uint_round_trip(v: nat, rest: Seq<u8>)
    requires
        v <= u64::MAX,
    ensures
        dec_int(enc_uint(v) + rest) == got(v as int, enc_uint(v).len() as int),
{
    let s = enc_uint(v) + rest;
    if v < 0x80 {
    } else if v < 0x100 {
    } else if v < 0x10000 {
        assert(s.subrange(1, 3) =~= be16(v));
        lemma_be16_at(v, s, 1);
    } else if v < 0x1_0000_0000 {
        assert(s.subrange(1, 5) =~= be32(v));
        lemma_be32_at(v, s, 1);
    } else {
        assert(s.subrange(1, 9) =~= be64(v));
        lemma_be64_at(v, s, 1);
    }
}

/// A signed 64-bit integer reads back as itself, whatever follows it.
pub proof fn lemma_int_round_trip(v: int, rest: Seq<u8>)
    requires
        i64::MIN <= v <= i64::MAX,
    ensures
        dec_int(enc_int(v) + rest) == got(v, enc_int(v).len() as int),
{
    let s = enc_int(v) + rest;
    if v >= 0 {
        lemma_uint_round_trip(v as nat, rest);
    } else if v >= -32 {
    } else if v >= -0x80 {
    } else if v >= -0x8000 {
        assert(s.subrange(1, 3) =~= be16((v + 0x10000) as nat));
        lemma_be16_at((v + 0x10000) as nat, s, 1);
    } else if v >= -0x8000_0000 {
        assert(s.subrange(1, 5) =~= be32((v + 0x1_0000_0000) as nat));
        lemma_be32_at((v + 0x1_0000_0000) as nat, s, 1);
    } else {
        assert(s.subrange(1, 9) =~= be64((v + 0x1_0000_0000_0000_0000) as nat));
        lemma_be64_at((v + 0x1_0000_0000_0000_0000) as nat, s, 1);
    }
}

/// The unsigned ladder: each width is used only where the narrower ones
/// cannot hold the value.
pub proof fn lemma_uint_width(v: nat)
    requires
        v <= u64::MAX,
    ensures
        v < 0x80 ==> enc_uint(v).len() == 1,
        0x80 <= v < 0x100 ==> enc_uint(v).len() == 2,
        0x100 <= v < 0x10000 ==> enc_uint(v).len() == 3,
        0x10000 <= v < 0x1_0000_0000 ==> enc_uint(v).len() == 5,
        0x1_0000_0000 <= v ==> enc_uint(v).len() == 9,
{
}

proof fn lemma_len_header(n: nat, h: Seq<u8>, rest: Seq<u8>, fix_lo: u8, fix_n: u8, t8: u8, t16: u8, t32: u8)
    requires
        n <= u32::MAX,
        fix_lo as int + fix_n as int <= 0xff,
        h == if n < fix_n {
            seq![(fix_lo + n) as u8]
        } else if t8 != 0 && n < 0x100 {
            seq![t8, n as u8]
        } else if n < 0x10000 {
            seq![t16] + be16(n)
        } else {
            seq![t32] + be32(n)
        },
        !(fix_lo <= t8 < fix_lo + fix_n),
        !(fix_lo <= t16 < fix_lo + fix_n),
        !(fix_lo <= t32 < fix_lo + fix_n),
        t16 != t8,
        t32 != t8,
        t32 != t16,
    ensures
        dec_len(h + rest, fix_lo, fix_n, t8, t16, t32) == got(n, h.len() as int),
{
    let s = h + rest;
    if n < fix_n {
    } else if t8 != 0 && n < 0x100 {
    } else if n < 0x10000 {
        assert(s.subrange(1, 3) =~= be16(n));
        lemma_be16_at(n, s, 1);
    } else {
        assert(s.subrange(1, 5) =~= be32(n));
        lemma_be32_at(n, s, 1);
    }
}

pub proof fn lemma_str_header_round_trip(n: nat, rest: Seq<u8>)
    requires
        n <= u32::MAX,
    ensures
        dec_str_len(enc_str_header(n) + rest) == got(n, enc_str_header(n).len() as int),
{
    lemma_len_header(n, enc_str_header(n), rest, 0xa0, 32, 0xd9, 0xda, 0xdb);
}

pub proof fn lemma_bin_header_round_trip(n: nat, rest: Seq<u8>)
    requires
        n <= u32::MAX,
    ensures
        dec_len(enc_bin_header(n) + rest, 0, 0, 0xc4, 0xc5, 0xc6) == got(n, enc_bin_header(n).len() as int),
{
    lemma_len_header(n, enc_bin_header(n), rest, 0, 0, 0xc4, 0xc5, 0xc6);
}

pub proof fn lemma_array_header_round_trip(n: nat, rest: Seq<u8>)
    requires
        n <= u32::MAX,
    ensures
        dec_array_len(enc_array_header(n) + rest) == got(n, enc_array_header(n).len() as int),
{
    lemma_len_header(n, enc_array_header(n), rest, 0x90, 16, 0, 0xdc, 0xdd);
}

pub proof fn lemma_map_header_round_trip(n: nat, rest: Seq<u8>)
    requires
        n <= u32::MAX,
    ensures
        dec_map_len(enc_map_header(n) + rest) == got(n, enc_map_header(n).len() as int),
{
    lemma_len_header(n, enc_map_header(n), rest, 0x80, 16, 0, 0xde, 0xdf);
}

/// A string reads back as itself, whatever follows it.
pub proof fn lemma_str_round_trip(text: Seq<char>, rest: Seq<u8>)
    requires
        encode_utf8(text).len() <= u32::MAX,
    ensures
        dec_str(enc_str(text) + rest) == got(text, enc_str(text).len() as int),
{
    let b = encode_utf8(text);
    let h = enc_str_header(b.len());
    let s = enc_str(text) + rest;
    assert(s =~= h + (b + rest));
    lemma_str_header_round_trip(b.len(), b + rest);
    assert(s.subrange(h.len() as int, (h.len() + b.len()) as int) =~= b);
    vstd::utf8::encode_utf8_valid_utf8(text);
    vstd::utf8::encode_utf8_decode_utf8(text);
}

/// A byte buffer reads back as itself, whatever follows it; the empty one
/// goes through nil.
pub proof fn lemma_bin_round_trip(b: Seq<u8>, rest: Seq<u8>)
    requires
        b.len() <= u32::MAX,
    ensures
        dec_bin(enc_bin(b) + rest) == got(b, enc_bin(b).len() as int),
{
    let s = enc_bin(b) + rest;
    if b.len() == 0 {
        assert(s.subrange(1, 1) =~= b);
    } else {
        let h = enc_bin_header(b.len());
        assert(s =~= h + (b + rest));
        lemma_bin_header_round_trip(b.len(), b + rest);
        assert(s.subrange(h.len() as int, (h.len() + b.len()) as int) =~= b);
    }
}

} // verus!
