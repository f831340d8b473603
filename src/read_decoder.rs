//! The decoder: reads values from a cursor over a byte buffer, accepting
//! every tag of the type asked for, whatever its width.
use vstd::prelude::*;
use vstd::utf8::{decode_utf8, valid_utf8};

use crate::context::Context;
use crate::error::{reports, DecodeError};
use crate::format::{
    be16_at, be32_at, be64_at, dec_array_len, dec_bin, dec_bin_len, dec_bool, dec_f32_bits, dec_f64_bits, dec_i64, dec_int,
    dec_int_in, dec_len, dec_map_len, dec_nil, dec_str, dec_str_len, mismatch, next_is_nil,
    next_is_str, Fault, Format, Scan,
};

verus! {

/// Relies on `String::from_utf8`: it succeeds exactly on valid UTF-8, and
/// the string then holds the characters that the bytes encode.
#[verifier::external_body]
pub(crate) fn string_from_utf8(bytes: Vec<u8>) -> (r: Option<String>)
    ensures
        r is Some <==> valid_utf8(bytes@),
        r matches Some(s) ==> s@ == decode_utf8(bytes@),
{
    String::from_utf8(bytes).ok()
}

#[derive(Clone, Debug)]
pub struct ReadDecoder {
    pub context: Context,
    pub buffer: Vec<u8>,
    pub pos: usize,
}

impl ReadDecoder {
    pub open spec fn wf(&self) -> bool {
        self.pos <= self.buffer@.len()
    }

    /// The bytes not yet read.
    pub open spec fn rest(&self) -> Seq<u8> {
        self.buffer@.subrange(self.pos as int, self.buffer@.len() as int)
    }

    /// This decoder is `before` after a read that did what `scan` says:
    /// on success it moved past the value and returned it (as `model` sees
    /// it); on a fault it returned the error that reports it.
    pub open spec fn reads<T, U>(
        &self,
        before: ReadDecoder,
        scan: Scan<T>,
        r: Result<U, DecodeError>,
        model: spec_fn(U) -> T,
    ) -> bool {
        &&& self.wf()
        &&& before.pos <= self.pos
        &&& self.buffer@ == before.buffer@
        &&& self.context == before.context
        &&& match scan {
            Ok((v, n)) => r matches Ok(x) && model(x) == v && self.pos == before.pos + n,
            Err(f) => r matches Err(e) && reports(e, f),
        }
    }

    /// A decoder over a copy of `buf`.
    pub fn new(buf: &[u8], context: Context) -> (r: ReadDecoder)
        ensures
            r.wf(),
            r.rest() == buf@,
            r.context == context,
    {
        let mut buffer: Vec<u8> = Vec::new();
        let mut i: usize = 0;
        while i < buf.len()
            invariant
                i <= buf@.len(),
                buffer@ == buf@.subrange(0, i as int),
            decreases buf@.len() - i,
        {
            buffer.push(buf[i]);
            i = i + 1;
            assert(buffer@ =~= buf@.subrange(0, i as int));
        }
        let r = ReadDecoder { context, buffer, pos: 0 };
        assert(r.rest() =~= buf@);
        r
    }

    /// Whether the cursor lies within the buffer.
    pub fn is_wf(&self) -> (r: bool)
        ensures
            r == self.wf(),
    {
        self.pos <= self.buffer.len()
    }

    /// The number of bytes not yet read.
    pub fn remaining(&self) -> (r: usize)
        requires
            self.wf(),
        ensures
            r == self.rest().len(),
    {
        self.buffer.len() - self.pos
    }

    fn error(&self, f: Fault, message: &str) -> (e: DecodeError)
        ensures
            reports(e, f),
    {
        DecodeError::from_fault(f, self.context.print_with_context(message))
    }

    /// The fault of a leading byte that is not of the type expected.
    fn mismatch_error(&self, b: u8, expected: &str) -> (e: DecodeError)
        requires
            self.wf(),
            self.rest().len() > 0,
            self.rest()[0] == b,
        ensures
            reports(e, mismatch(self.rest())),
    {
        match Format::from_byte(b) {
            Some(_) => self.error(Fault::WrongType, expected),
            None => self.error(Fault::UnknownTag, "unknown format byte"),
        }
    }

    fn be16_at(&self, i: usize) -> (r: u16)
        requires
            i + 2 <= self.buffer.len(),
        ensures
            r as nat == be16_at(self.buffer@, i as int),
    {
        self.buffer[i] as u16 * 256 + self.buffer[i + 1] as u16
    }

    fn be32_at(&self, i: usize) -> (r: u32)
        requires
            i + 4 <= self.buffer.len(),
        ensures
            r as nat == be32_at(self.buffer@, i as int),
    {
        self.be16_at(i) as u32 * 0x10000 + self.be16_at(i + 2) as u32
    }

    fn be64_at(&self, i: usize) -> (r: u64)
        requires
            i + 8 <= self.buffer.len(),
        ensures
            r as nat == be64_at(self.buffer@, i as int),
    {
        self.be32_at(i) as u64 * 0x1_0000_0000 + self.be32_at(i + 4) as u64
    }

    /// Reads and classifies the leading byte.
    pub fn read_format(&mut self) -> (r: Result<Format, DecodeError>)
        requires
            old(self).wf(),
        ensures
            final(self).reads(
                *old(self),
                if old(self).rest().len() == 0 {
                    Err(Fault::Exhausted)
                } else {
                    match Format::spec_of_byte(old(self).rest()[0]) {
                        Some(f) => Ok((f, 1int)),
                        None => Err(Fault::UnknownTag),
                    }
                },
                r,
                |f: Format| f,
            ),
    {
        if self.pos >= self.buffer.len() {
            return Err(self.error(Fault::Exhausted, "buffer ended before a format byte"));
        }
        let b = self.buffer[self.pos];
        match Format::from_byte(b) {
            Some(f) => {
                self.pos = self.pos + 1;
                Ok(f)
            },
            None => Err(self.error(Fault::UnknownTag, "unknown format byte")),
        }
    }

    /// Reads an integer of any integer tag as its mathematical value.
    fn read_int_any(&mut self) -> (r: Result<i128, DecodeError>)
        requires
            old(self).wf(),
        ensures
            final(self).reads(*old(self), dec_int(old(self).rest()), r, |x: i128| x as int),
    {
        let ghost s = self.rest();
        if self.pos >= self.buffer.len() {
            return Err(self.error(Fault::Exhausted, "buffer ended before an integer"));
        }
        let p = self.pos;
        let avail = self.buffer.len() - p;
        let b = self.buffer[p];
        assert(s[0] == b);
        if b < 0x80 {
            self.pos = p + 1;
            Ok(b as i128)
        } else if b >= 0xe0 {
            self.pos = p + 1;
            Ok(b as i128 - 0x100)
        } else if b == 0xcc || b == 0xd0 {
            if avail < 2 {
                return Err(self.error(Fault::Exhausted, "buffer ended inside an integer"));
            }
            let x = self.buffer[p + 1];
            assert(s[1] == x);
            self.pos = p + 2;
            if b == 0xcc || x < 0x80 {
                Ok(x as i128)
            } else {
                Ok(x as i128 - 0x100)
            }
        } else if b == 0xcd || b == 0xd1 {
            if avail < 3 {
                return Err(self.error(Fault::Exhausted, "buffer ended inside an integer"));
            }
            let x = self.be16_at(p + 1);
            assert(be16_at(s, 1) == be16_at(self.buffer@, p + 1));
            self.pos = p + 3;
            if b == 0xcd || x < 0x8000 {
                Ok(x as i128)
            } else {
                Ok(x as i128 - 0x10000)
            }
        } else if b == 0xce || b == 0xd2 {
            if avail < 5 {
                return Err(self.error(Fault::Exhausted, "buffer ended inside an integer"));
            }
            let x = self.be32_at(p + 1);
            assert(be32_at(s, 1) == be32_at(self.buffer@, p + 1));
            self.pos = p + 5;
            if b == 0xce || x < 0x8000_0000 {
                Ok(x as i128)
            } else {
                Ok(x as i128 - 0x1_0000_0000)
            }
        } else if b == 0xcf || b == 0xd3 {
            if avail < 9 {
                return Err(self.error(Fault::Exhausted, "buffer ended inside an integer"));
            }
            let x = self.be64_at(p + 1);
            assert(be64_at(s, 1) == be64_at(self.buffer@, p + 1));
            self.pos = p + 9;
            if b == 0xcf || x < 0x8000_0000_0000_0000 {
                Ok(x as i128)
            } else {
                Ok(x as i128 - 0x1_0000_0000_0000_0000)
            }
        } else {
            Err(self.mismatch_error(b, "expected an integer"))
        }
    }

    /// Reads an integer that must lie in `[lo, hi]`.
    fn read_int_in(&mut self, lo: i128, hi: i128) -> (r: Result<i128, DecodeError>)
        requires
            old(self).wf(),
        ensures
            final(self).reads(
                *old(self),
                dec_int_in(old(self).rest(), lo as int, hi as int),
                r,
                |x: i128| x as int,
            ),
            r matches Ok(x) ==> lo <= x <= hi,
    {
        let v = self.read_int_any()?;
        if lo <= v && v <= hi {
            Ok(v)
        } else {
            Err(self.error(Fault::OutOfRange, "integer out of the range of its type"))
        }
    }

    pub fn read_i8(&mut self) -> (r: Result<i8, DecodeError>)
        requires
            old(self).wf(),
        ensures
            final(self).reads(
                *old(self),
                dec_int_in(old(self).rest(), i8::MIN as int, i8::MAX as int),
                r,
                |x: i8| x as int,
            ),
    {
        let v = self.read_int_in(i8::MIN as i128, i8::MAX as i128)?;
        Ok(v as i8)
    }

    pub fn read_i16(&mut self) -> (r: Result<i16, DecodeError>)
        requires
            old(self).wf(),
        ensures
            final(self).reads(
                *old(self),
                dec_int_in(old(self).rest(), i16::MIN as int, i16::MAX as int),
                r,
                |x: i16| x as int,
            ),
    {
        let v = self.read_int_in(i16::MIN as i128, i16::MAX as i128)?;
        Ok(v as i16)
    }

    pub fn read_i32(&mut self) -> (r: Result<i32, DecodeError>)
        requires
            old(self).wf(),
        ensures
            final(self).reads(
                *old(self),
                dec_int_in(old(self).rest(), i32::MIN as int, i32::MAX as int),
                r,
                |x: i32| x as int,
            ),
    {
        let v = self.read_int_in(i32::MIN as i128, i32::MAX as i128)?;
        Ok(v as i32)
    }

    /// Reads a signed 64-bit integer; a `Uint64` payload above `i64::MAX`
    /// is taken in two's complement.
    pub fn read_i64(&mut self) -> (r: Result<i64, DecodeError>)
        requires
            old(self).wf(),
        ensures
            final(self).reads(*old(self), dec_i64(old(self).rest()), r, |x: i64| x as int),
    {
        let v = self.read_int_any()?;
        if v > i64::MAX as i128 {
            Ok((v - 0x1_0000_0000_0000_0000) as i64)
        } else {
            Ok(v as i64)
        }
    }

    pub fn read_u8(&mut self) -> (r: Result<u8, DecodeError>)
        requires
            old(self).wf(),
        ensures
            final(self).reads(
                *old(self),
                dec_int_in(old(self).rest(), 0, u8::MAX as int),
                r,
                |x: u8| x as int,
            ),
    {
        let v = self.read_int_in(0, u8::MAX as i128)?;
        Ok(v as u8)
    }

    pub fn read_u16(&mut self) -> (r: Result<u16, DecodeError>)
        requires
            old(self).wf(),
        ensures
            final(self).reads(
                *old(self),
                dec_int_in(old(self).rest(), 0, u16::MAX as int),
                r,
                |x: u16| x as int,
            ),
    {
        let v = self.read_int_in(0, u16::MAX as i128)?;
        Ok(v as u16)
    }

    pub fn read_u32(&mut self) -> (r: Result<u32, DecodeError>)
        requires
            old(self).wf(),
        ensures
            final(self).reads(
                *old(self),
                dec_int_in(old(self).rest(), 0, u32::MAX as int),
                r,
                |x: u32| x as int,
            ),
    {
        let v = self.read_int_in(0, u32::MAX as i128)?;
        Ok(v as u32)
    }

    pub fn read_u64(&mut self) -> (r: Result<u64, DecodeError>)
        requires
            old(self).wf(),
        ensures
            final(self).reads(
                *old(self),
                dec_int_in(old(self).rest(), 0, u64::MAX as int),
                r,
                |x: u64| x as int,
            ),
    {
        let v = self.read_int_in(0, u64::MAX as i128)?;
        Ok(v as u64)
    }

    /// Reads a 32-bit float as its IEEE 754 bits.
    pub fn read_f32_bits(&mut self) -> (r: Result<u32, DecodeError>)
        requires
            old(self).wf(),
        ensures
            final(self).reads(*old(self), dec_f32_bits(old(self).rest()), r, |x: u32| x as nat),
    {
        let ghost s = self.rest();
        if self.pos >= self.buffer.len() {
            return Err(self.error(Fault::Exhausted, "buffer ended before a float"));
        }
        let p = self.pos;
        let b = self.buffer[p];
        if b != 0xca {
            return Err(self.mismatch_error(b, "expected a 32-bit float"));
        }
        if self.buffer.len() - p < 5 {
            return Err(self.error(Fault::Exhausted, "buffer ended inside a float"));
        }
        let x = self.be32_at(p + 1);
        assert(be32_at(s, 1) == be32_at(self.buffer@, p + 1));
        self.pos = p + 5;
        Ok(x)
    }

    /// Reads a 64-bit float as its IEEE 754 bits.
    pub fn read_f64_bits(&mut self) -> (r: Result<u64, DecodeError>)
        requires
            old(self).wf(),
        ensures
            final(self).reads(*old(self), dec_f64_bits(old(self).rest()), r, |x: u64| x as nat),
    {
        let ghost s = self.rest();
        if self.pos >= self.buffer.len() {
            return Err(self.error(Fault::Exhausted, "buffer ended before a float"));
        }
        let p = self.pos;
        let b = self.buffer[p];
        if b != 0xcb {
            return Err(self.mismatch_error(b, "expected a 64-bit float"));
        }
        if self.buffer.len() - p < 9 {
            return Err(self.error(Fault::Exhausted, "buffer ended inside a float"));
        }
        let x = self.be64_at(p + 1);
        assert(be64_at(s, 1) == be64_at(self.buffer@, p + 1));
        self.pos = p + 9;
        Ok(x)
    }

    pub fn read_nil(&mut self) -> (r: Result<(), DecodeError>)
        requires
            old(self).wf(),
        ensures
            final(self).reads(*old(self), dec_nil(old(self).rest()), r, |x: ()| x),
    {
        if self.pos >= self.buffer.len() {
            return Err(self.error(Fault::Exhausted, "buffer ended before nil"));
        }
        let b = self.buffer[self.pos];
        if b == 0xc0 {
            self.pos = self.pos + 1;
            Ok(())
        } else {
            Err(self.mismatch_error(b, "expected nil"))
        }
    }

    pub fn read_bool(&mut self) -> (r: Result<bool, DecodeError>)
        requires
            old(self).wf(),
        ensures
            final(self).reads(*old(self), dec_bool(old(self).rest()), r, |x: bool| x),
    {
        if self.pos >= self.buffer.len() {
            return Err(self.error(Fault::Exhausted, "buffer ended before a boolean"));
        }
        let b = self.buffer[self.pos];
        if b == 0xc3 {
            self.pos = self.pos + 1;
            Ok(true)
        } else if b == 0xc2 {
            self.pos = self.pos + 1;
            Ok(false)
        } else {
            Err(self.mismatch_error(b, "expected a boolean"))
        }
    }

    /// Whether the next value is nil; reads nothing.
    pub fn is_next_nil(&mut self) -> (r: Result<bool, DecodeError>)
        requires
            old(self).wf(),
        ensures
            final(self).reads(
                *old(self),
                if old(self).rest().len() == 0 {
                    Err(Fault::Exhausted)
                } else {
                    Ok((next_is_nil(old(self).rest()), 0int))
                },
                r,
                |x: bool| x,
            ),
    {
        if self.pos >= self.buffer.len() {
            return Err(self.error(Fault::Exhausted, "buffer ended before the next value"));
        }
        Ok(self.buffer[self.pos] == 0xc0)
    }

    /// Whether the next value carries a string tag; reads nothing.
    pub fn is_next_string(&mut self) -> (r: Result<bool, DecodeError>)
        requires
            old(self).wf(),
        ensures
            final(self).reads(
                *old(self),
                if old(self).rest().len() == 0 {
                    Err(Fault::Exhausted)
                } else {
                    Ok((next_is_str(old(self).rest()), 0int))
                },
                r,
                |x: bool| x,
            ),
    {
        if self.pos >= self.buffer.len() {
            return Err(self.error(Fault::Exhausted, "buffer ended before the next value"));
        }
        let b = self.buffer[self.pos];
        Ok((0xa0 <= b && b < 0xc0) || b == 0xd9 || b == 0xda || b == 0xdb)
    }

    /// Reads the length of a tag family (see `dec_len`).
    fn read_len(&mut self, fix_lo: u8, fix_n: u8, t8: u8, t16: u8, t32: u8, expected: &str) -> (r:
        Result<u32, DecodeError>)
        requires
            old(self).wf(),
            fix_lo as int + fix_n as int <= 0xff,
        ensures
            final(self).reads(
                *old(self),
                dec_len(old(self).rest(), fix_lo, fix_n, t8, t16, t32),
                r,
                |x: u32| x as nat,
            ),
    {
        let ghost s = self.rest();
        if self.pos >= self.buffer.len() {
            return Err(self.error(Fault::Exhausted, "buffer ended before a length"));
        }
        let p = self.pos;
        let avail = self.buffer.len() - p;
        let b = self.buffer[p];
        assert(s[0] == b);
        if fix_lo <= b && b < fix_lo + fix_n {
            self.pos = p + 1;
            Ok((b - fix_lo) as u32)
        } else if t8 != 0 && b == t8 {
            if avail < 2 {
                return Err(self.error(Fault::Exhausted, "buffer ended inside a length"));
            }
            let x = self.buffer[p + 1];
            assert(s[1] == x);
            self.pos = p + 2;
            Ok(x as u32)
        } else if b == t16 {
            if avail < 3 {
                return Err(self.error(Fault::Exhausted, "buffer ended inside a length"));
            }
            let x = self.be16_at(p + 1);
            assert(be16_at(s, 1) == be16_at(self.buffer@, p + 1));
            self.pos = p + 3;
            Ok(x as u32)
        } else if b == t32 {
            if avail < 5 {
                return Err(self.error(Fault::Exhausted, "buffer ended inside a length"));
            }
            let x = self.be32_at(p + 1);
            assert(be32_at(s, 1) == be32_at(self.buffer@, p + 1));
            self.pos = p + 5;
            Ok(x)
        } else {
            Err(self.mismatch_error(b, expected))
        }
    }

    pub fn read_string_length(&mut self) -> (r: Result<u32, DecodeError>)
        requires
            old(self).wf(),
        ensures
            final(self).reads(*old(self), dec_str_len(old(self).rest()), r, |x: u32| x as nat),
    {
        self.read_len(0xa0, 32, 0xd9, 0xda, 0xdb, "expected a string")
    }

    /// Reads a binary length; nil stands for an empty buffer.
    pub fn read_bytes_length(&mut self) -> (r: Result<u32, DecodeError>)
        requires
            old(self).wf(),
        ensures
            final(self).reads(*old(self), dec_bin_len(old(self).rest()), r, |x: u32| x as nat),
    {
        if self.pos < self.buffer.len() && self.buffer[self.pos] == 0xc0 {
            self.pos = self.pos + 1;
            return Ok(0);
        }
        self.read_len(0, 0, 0xc4, 0xc5, 0xc6, "expected binary data")
    }

    pub fn read_array_length(&mut self) -> (r: Result<u32, DecodeError>)
        requires
            old(self).wf(),
        ensures
            final(self).reads(*old(self), dec_array_len(old(self).rest()), r, |x: u32| x as nat),
    {
        self.read_len(0x90, 16, 0, 0xdc, 0xdd, "expected an array")
    }

    pub fn read_map_length(&mut self) -> (r: Result<u32, DecodeError>)
        requires
            old(self).wf(),
        ensures
            final(self).reads(*old(self), dec_map_len(old(self).rest()), r, |x: u32| x as nat),
    {
        self.read_len(0x80, 16, 0, 0xde, 0xdf, "expected a map")
    }

    /// Takes the next `n` bytes.
    fn take_bytes(&mut self, n: u32) -> (r: Result<Vec<u8>, DecodeError>)
        requires
            old(self).wf(),
        ensures
            final(self).reads(
                *old(self),
                if old(self).rest().len() < n {
                    Err(Fault::Exhausted)
                } else {
                    Ok((old(self).rest().subrange(0, n as int), n as int))
                },
                r,
                |x: Vec<u8>| x@,
            ),
    {
        let n = n as usize;
        if self.buffer.len() - self.pos < n {
            return Err(self.error(Fault::Exhausted, "buffer ended inside a payload"));
        }
        let mut out: Vec<u8> = Vec::new();
        let mut i: usize = 0;
        while i < n
            invariant
                self.wf(),
                i <= n,
                self.pos + n <= self.buffer.len(),
                self.pos == old(self).pos,
                self.buffer@ == old(self).buffer@,
                self.context == old(self).context,
                out@ == self.buffer@.subrange(self.pos as int, self.pos + i),
            decreases n - i,
        {
            out.push(self.buffer[self.pos + i]);
            i = i + 1;
            assert(out@ =~= self.buffer@.subrange(self.pos as int, self.pos + i));
        }
        assert(out@ =~= old(self).rest().subrange(0, n as int));
        self.pos = self.pos + n;
        Ok(out)
    }

    pub fn read_string(&mut self) -> (r: Result<String, DecodeError>)
        requires
            old(self).wf(),
        ensures
            final(self).reads(*old(self), dec_str(old(self).rest()), r, |x: String| x@),
    {
        let ghost s = self.rest();
        let n = self.read_string_length()?;
        let ghost h = self.pos - old(self).pos;
        assert(self.rest() =~= s.subrange(h, s.len() as int));
        let bytes = self.take_bytes(n)?;
        assert(bytes@ =~= s.subrange(h, h + n));
        match string_from_utf8(bytes) {
            Some(text) => Ok(text),
            None => Err(self.error(Fault::InvalidText, "string is not valid UTF-8")),
        }
    }

    /// Reads a byte buffer; nil reads as an empty one.
    pub fn read_bytes(&mut self) -> (r: Result<Vec<u8>, DecodeError>)
        requires
            old(self).wf(),
        ensures
            final(self).reads(*old(self), dec_bin(old(self).rest()), r, |x: Vec<u8>| x@),
    {
        let ghost s = self.rest();
        let n = self.read_bytes_length()?;
        let ghost h = self.pos - old(self).pos;
        assert(self.rest() =~= s.subrange(h, s.len() as int));
        let bytes = self.take_bytes(n)?;
        assert(bytes@ =~= s.subrange(h, h + n));
        Ok(bytes)
    }
}

} // verus!
