//! The encoder: appends values to a growable buffer, always in the
//! smallest form that holds them.
use vstd::prelude::*;
use vstd::utf8::encode_utf8;

use crate::context::Context;
use crate::error::EncodeError;
use crate::format::{
    be16, be32, be64, enc_array_header, enc_bin, enc_bin_header, enc_bool, enc_int, enc_map_header,
    enc_nil, enc_str, enc_str_header, enc_uint, Format,
};

verus! {

#[derive(Clone, Debug)]
pub struct WriteEncoder {
    pub context: Context,
    pub buffer: Vec<u8>,
}

impl View for WriteEncoder {
    type V = Seq<u8>;

    open spec fn view(&self) -> Seq<u8> {
        self.buffer@
    }
}

impl WriteEncoder {
    /// An encoder whose buffer starts as a copy of `buf`.
    pub fn new(buf: &[u8], context: Context) -> (r: WriteEncoder)
        ensures
            r@ == buf@,
            r.context == context,
    {
        let mut w = WriteEncoder { context, buffer: Vec::new() };
        w.append_bytes(buf);
        assert(w@ =~= buf@);
        w
    }

    /// A copy of the bytes written so far.
    pub fn get_buffer(&self) -> (r: Vec<u8>)
        ensures
            r@ == self@,
    {
        let mut out: Vec<u8> = Vec::new();
        let mut i: usize = 0;
        while i < self.buffer.len()
            invariant
                i <= self.buffer.len(),
                out@ == self.buffer@.subrange(0, i as int),
            decreases self.buffer.len() - i,
        {
            out.push(self.buffer[i]);
            i = i + 1;
            assert(out@ =~= self.buffer@.subrange(0, i as int));
        }
        assert(out@ =~= self@);
        out
    }

    pub(crate) fn append_bytes(&mut self, bytes: &[u8])
        ensures
            final(self)@ == old(self)@ + bytes@,
            final(self).context == old(self).context,
    {
        let mut i: usize = 0;
        while i < bytes.len()
            invariant
                i <= bytes@.len(),
                self@ == old(self)@ + bytes@.subrange(0, i as int),
                self.context == old(self).context,
            decreases bytes@.len() - i,
        {
            self.buffer.push(bytes[i]);
            i = i + 1;
            assert(self@ =~= old(self)@ + bytes@.subrange(0, i as int));
        }
        assert(bytes@.subrange(0, bytes@.len() as int) =~= bytes@);
    }

    fn push_byte(&mut self, b: u8)
        ensures
            final(self)@ == old(self)@.push(b),
            final(self).context == old(self).context,
    {
        self.buffer.push(b);
    }

    fn push_be16(&mut self, v: u16)
        ensures
            final(self)@ == old(self)@ + be16(v as nat),
            final(self).context == old(self).context,
    {
        self.buffer.push((v / 256) as u8);
        self.buffer.push((v % 256) as u8);
        assert(self@ =~= old(self)@ + be16(v as nat));
    }

    fn push_be32(&mut self, v: u32)
        ensures
            final(self)@ == old(self)@ + be32(v as nat),
            final(self).context == old(self).context,
    {
        self.push_be16((v / 0x10000) as u16);
        self.push_be16((v % 0x10000) as u16);
        assert(self@ =~= old(self)@ + be32(v as nat));
    }

    fn push_be64(&mut self, v: u64)
        ensures
            final(self)@ == old(self)@ + be64(v as nat),
            final(self).context == old(self).context,
    {
        self.push_be32((v / 0x1_0000_0000) as u32);
        self.push_be32((v % 0x1_0000_0000) as u32);
        assert(self@ =~= old(self)@ + be64(v as nat));
    }

    /// Writes the leading byte of a tag.
    pub fn set_format(&mut self, format: Format)
        requires
            format.wf(),
        ensures
            final(self)@ == old(self)@.push(format.spec_byte()),
            final(self).context == old(self).context,
    {
        let b = format.to_byte();
        self.push_byte(b);
    }

    /// Writes a value of `-32..=-1` as a single byte.
    pub fn write_negative_fixed_int(&mut self, value: i8) -> (r: Result<(), EncodeError>)
        requires
            -32 <= value < 0,
        ensures
            r is Ok,
            final(self)@ == old(self)@ + enc_int(value as int),
            final(self).context == old(self).context,
    {
        self.set_format(Format::NegativeFixInt(value));
        assert(self@ =~= old(self)@ + enc_int(value as int));
        Ok(())
    }

    /// Writes a value of `0..=127` as a single byte.
    pub fn write_positive_fixed_int(&mut self, value: u8) -> (r: Result<(), EncodeError>)
        requires
            value < 128,
        ensures
            r is Ok,
            final(self)@ == old(self)@ + enc_uint(value as nat),
            final(self).context == old(self).context,
    {
        self.set_format(Format::PositiveFixInt(value));
        assert(self@ =~= old(self)@ + enc_uint(value as nat));
        Ok(())
    }

    /// Writes an unsigned integer in the smallest of its forms.
    pub fn write_unsigned_int(&mut self, value: &u64) -> (r: Result<(), EncodeError>)
        ensures
            r is Ok,
            final(self)@ == old(self)@ + enc_uint(*value as nat),
            final(self).context == old(self).context,
    {
        let val = *value;
        if val < 0x80 {
            return self.write_positive_fixed_int(val as u8);
        } else if val <= 0xff {
            self.set_format(Format::Uint8);
            self.push_byte(val as u8);
        } else if val <= 0xffff {
            self.set_format(Format::Uint16);
            self.push_be16(val as u16);
        } else if val <= 0xffff_ffff {
            self.set_format(Format::Uint32);
            self.push_be32(val as u32);
        } else {
            self.set_format(Format::Uint64);
            self.push_be64(val);
        }
        assert(self@ =~= old(self)@ + enc_uint(val as nat));
        Ok(())
    }

    /// Writes a signed integer in the smallest of its forms; a non-negative
    /// value takes the unsigned ladder.
    pub fn write_signed_int(&mut self, value: &i64) -> (r: Result<(), EncodeError>)
        ensures
            r is Ok,
            final(self)@ == old(self)@ + enc_int(*value as int),
            final(self).context == old(self).context,
    {
        let val = *value;
        if val >= 0 {
            return self.write_unsigned_int(&(val as u64));
        } else if val >= -32 {
            return self.write_negative_fixed_int(val as i8);
        } else if val >= -0x80 {
            self.set_format(Format::Int8);
            self.push_byte((val + 0x100) as u8);
        } else if val >= -0x8000 {
            self.set_format(Format::Int16);
            self.push_be16((val + 0x10000) as u16);
        } else if val >= -0x8000_0000 {
            self.set_format(Format::Int32);
            self.push_be32((val + 0x1_0000_0000) as u32);
        } else {
            self.set_format(Format::Int64);
            // two's complement of a negative value below -2^31
            let bits: u64 = ((val + 0x4000_0000_0000_0000) + 0x4000_0000_0000_0000) as u64
                + 0x8000_0000_0000_0000;
            self.push_be64(bits);
        }
        assert(self@ =~= old(self)@ + enc_int(val as int));
        Ok(())
    }

    pub fn write_nil(&mut self) -> (r: Result<(), EncodeError>)
        ensures
            r is Ok,
            final(self)@ == old(self)@ + enc_nil(),
            final(self).context == old(self).context,
    {
        self.set_format(Format::Nil);
        assert(self@ =~= old(self)@ + enc_nil());
        Ok(())
    }

    pub fn write_bool(&mut self, value: &bool) -> (r: Result<(), EncodeError>)
        ensures
            r is Ok,
            final(self)@ == old(self)@ + enc_bool(*value),
            final(self).context == old(self).context,
    {
        let format = if *value {
            Format::True
        } else {
            Format::False
        };
        self.set_format(format);
        assert(self@ =~= old(self)@ + enc_bool(*value));
        Ok(())
    }

    pub fn write_i8(&mut self, value: &i8) -> (r: Result<(), EncodeError>)
        ensures
            r is Ok,
            final(self)@ == old(self)@ + enc_int(*value as int),
            final(self).context == old(self).context,
    {
        self.write_signed_int(&(*value as i64))
    }

    pub fn write_i16(&mut self, value: &i16) -> (r: Result<(), EncodeError>)
        ensures
            r is Ok,
            final(self)@ == old(self)@ + enc_int(*value as int),
            final(self).context == old(self).context,
    {
        self.write_signed_int(&(*value as i64))
    }

    pub fn write_i32(&mut self, value: &i32) -> (r: Result<(), EncodeError>)
        ensures
            r is Ok,
            final(self)@ == old(self)@ + enc_int(*value as int),
            final(self).context == old(self).context,
    {
        self.write_signed_int(&(*value as i64))
    }

    pub fn write_i64(&mut self, value: &i64) -> (r: Result<(), EncodeError>)
        ensures
            r is Ok,
            final(self)@ == old(self)@ + enc_int(*value as int),
            final(self).context == old(self).context,
    {
        self.write_signed_int(value)
    }

    pub fn write_u8(&mut self, value: &u8) -> (r: Result<(), EncodeError>)
        ensures
            r is Ok,
            final(self)@ == old(self)@ + enc_uint(*value as nat),
            final(self).context == old(self).context,
    {
        self.write_unsigned_int(&(*value as u64))
    }

    pub fn write_u16(&mut self, value: &u16) -> (r: Result<(), EncodeError>)
        ensures
            r is Ok,
            final(self)@ == old(self)@ + enc_uint(*value as nat),
            final(self).context == old(self).context,
    {
        self.write_unsigned_int(&(*value as u64))
    }

    pub fn write_u32(&mut self, value: &u32) -> (r: Result<(), EncodeError>)
        ensures
            r is Ok,
            final(self)@ == old(self)@ + enc_uint(*value as nat),
            final(self).context == old(self).context,
    {
        self.write_unsigned_int(&(*value as u64))
    }

    pub fn write_u64(&mut self, value: &u64) -> (r: Result<(), EncodeError>)
        ensures
            r is Ok,
            final(self)@ == old(self)@ + enc_uint(*value as nat),
            final(self).context == old(self).context,
    {
        self.write_unsigned_int(value)
    }

    /// Writes a 32-bit float given by its IEEE 754 bits.
    pub fn write_f32_bits(&mut self, bits: &u32) -> (r: Result<(), EncodeError>)
        ensures
            r is Ok,
            final(self)@ == old(self)@ + seq![0xcau8] + be32(*bits as nat),
            final(self).context == old(self).context,
    {
        self.set_format(Format::Float32);
        self.push_be32(*bits);
        assert(self@ =~= old(self)@ + seq![0xcau8] + be32(*bits as nat));
        Ok(())
    }

    /// Writes a 64-bit float given by its IEEE 754 bits.
    pub fn write_f64_bits(&mut self, bits: &u64) -> (r: Result<(), EncodeError>)
        ensures
            r is Ok,
            final(self)@ == old(self)@ + seq![0xcbu8] + be64(*bits as nat),
            final(self).context == old(self).context,
    {
        self.set_format(Format::Float64);
        self.push_be64(*bits);
        assert(self@ =~= old(self)@ + seq![0xcbu8] + be64(*bits as nat));
        Ok(())
    }

    pub fn write_string_length(&mut self, length: &u32) -> (r: Result<(), EncodeError>)
        ensures
            r is Ok,
            final(self)@ == old(self)@ + enc_str_header(*length as nat),
            final(self).context == old(self).context,
    {
        let length = *length;
        if length < 32 {
            self.set_format(Format::FixStr(length as u8));
        } else if length <= 0xff {
            self.set_format(Format::Str8);
            self.push_byte(length as u8);
        } else if length <= 0xffff {
            self.set_format(Format::Str16);
            self.push_be16(length as u16);
        } else {
            self.set_format(Format::Str32);
            self.push_be32(length);
        }
        assert(self@ =~= old(self)@ + enc_str_header(length as nat));
        Ok(())
    }

    /// Writes a string; fails, writing nothing, where its UTF-8 form is
    /// longer than a 32-bit length can say.
    pub fn write_str(&mut self, value: &str) -> (r: Result<(), EncodeError>)
        ensures
            r is Ok <==> encode_utf8(value@).len() <= u32::MAX,
            r is Ok ==> final(self)@ == old(self)@ + enc_str(value@),
            r matches Err(e) ==> e is StrWriteError && final(self)@ == old(self)@,
            final(self).context == old(self).context,
    {
        let bytes = value.as_bytes();
        if bytes.len() as u64 > 0xffff_ffff {
            return Err(EncodeError::StrWriteError(self.context.print_with_context("string longer than 2^32 - 1 bytes")));
        }
        self.write_string_length(&(bytes.len() as u32));
        self.append_bytes(bytes);
        assert(self@ =~= old(self)@ + enc_str(value@));
        Ok(())
    }

    pub fn write_string(&mut self, value: &String) -> (r: Result<(), EncodeError>)
        ensures
            r is Ok <==> encode_utf8(value@).len() <= u32::MAX,
            r is Ok ==> final(self)@ == old(self)@ + enc_str(value@),
            r matches Err(e) ==> e is StrWriteError && final(self)@ == old(self)@,
            final(self).context == old(self).context,
    {
        self.write_str(value.as_str())
    }

    pub fn write_bytes_length(&mut self, length: &u32) -> (r: Result<(), EncodeError>)
        ensures
            r is Ok,
            final(self)@ == old(self)@ + enc_bin_header(*length as nat),
            final(self).context == old(self).context,
    {
        let length = *length;
        if length <= 0xff {
            self.set_format(Format::Bin8);
            self.push_byte(length as u8);
        } else if length <= 0xffff {
            self.set_format(Format::Bin16);
            self.push_be16(length as u16);
        } else {
            self.set_format(Format::Bin32);
            self.push_be32(length);
        }
        assert(self@ =~= old(self)@ + enc_bin_header(length as nat));
        Ok(())
    }

    /// Writes a byte buffer; an empty one is written as nil. Fails, writing
    /// nothing, where it is longer than a 32-bit length can say.
    pub fn write_bytes(&mut self, buf: &[u8]) -> (r: Result<(), EncodeError>)
        ensures
            r is Ok <==> buf@.len() <= u32::MAX,
            r is Ok ==> final(self)@ == old(self)@ + enc_bin(buf@),
            r matches Err(e) ==> e is BinWriteError && final(self)@ == old(self)@,
            final(self).context == old(self).context,
    {
        if buf.len() == 0 {
            return self.write_nil();
        }
        if buf.len() as u64 > 0xffff_ffff {
            return Err(EncodeError::BinWriteError(self.context.print_with_context("byte buffer longer than 2^32 - 1 bytes")));
        }
        self.write_bytes_length(&(buf.len() as u32));
        self.append_bytes(buf);
        assert(self@ =~= old(self)@ + enc_bin(buf@));
        Ok(())
    }

    pub fn write_array_length(&mut self, length: &u32) -> (r: Result<(), EncodeError>)
        ensures
            r is Ok,
            final(self)@ == old(self)@ + enc_array_header(*length as nat),
            final(self).context == old(self).context,
    {
        let length = *length;
        if length < 16 {
            self.set_format(Format::FixArray(length as u8));
        } else if length <= 0xffff {
            self.set_format(Format::Array16);
            self.push_be16(length as u16);
        } else {
            self.set_format(Format::Array32);
            self.push_be32(length);
        }
        assert(self@ =~= old(self)@ + enc_array_header(length as nat));
        Ok(())
    }

    pub fn write_map_length(&mut self, length: &u32) -> (r: Result<(), EncodeError>)
        ensures
            r is Ok,
            final(self)@ == old(self)@ + enc_map_header(*length as nat),
            final(self).context == old(self).context,
    {
        let length = *length;
        if length < 16 {
            self.set_format(Format::FixMap(length as u8));
        } else if length <= 0xffff {
            self.set_format(Format::Map16);
            self.push_be16(length as u16);
        } else {
            self.set_format(Format::Map32);
            self.push_be32(length);
        }
        assert(self@ =~= old(self)@ + enc_map_header(length as nat));
        Ok(())
    }

    pub fn write_nullable_bool(&mut self, value: &Option<bool>) -> (r: Result<(), EncodeError>)
        ensures
            r is Ok,
            final(self)@ == old(self)@ + match *value {
                None => enc_nil(),
                Some(v) => enc_bool(v),
            },
            final(self).context == old(self).context,
    {
        match value {
            None => self.write_nil(),
            Some(v) => self.write_bool(v),
        }
    }

    pub fn write_nullable_i8(&mut self, value: &Option<i8>) -> (r: Result<(), EncodeError>)
        ensures
            r is Ok,
            final(self)@ == old(self)@ + match *value {
                None => enc_nil(),
                Some(v) => enc_int(v as int),
            },
            final(self).context == old(self).context,
    {
        match value {
            None => self.write_nil(),
            Some(v) => self.write_i8(v),
        }
    }

    pub fn write_nullable_i16(&mut self, value: &Option<i16>) -> (r: Result<(), EncodeError>)
        ensures
            r is Ok,
            final(self)@ == old(self)@ + match *value {
                None => enc_nil(),
                Some(v) => enc_int(v as int),
            },
            final(self).context == old(self).context,
    {
        match value {
            None => self.write_nil(),
            Some(v) => self.write_i16(v),
        }
    }

    pub fn write_nullable_i32(&mut self, value: &Option<i32>) -> (r: Result<(), EncodeError>)
        ensures
            r is Ok,
            final(self)@ == old(self)@ + match *value {
                None => enc_nil(),
                Some(v) => enc_int(v as int),
            },
            final(self).context == old(self).context,
    {
        match value {
            None => self.write_nil(),
            Some(v) => self.write_i32(v),
        }
    }

    pub fn write_nullable_u8(&mut self, value: &Option<u8>) -> (r: Result<(), EncodeError>)
        ensures
            r is Ok,
            final(self)@ == old(self)@ + match *value {
                None => enc_nil(),
                Some(v) => enc_uint(v as nat),
            },
            final(self).context == old(self).context,
    {
        match value {
            None => self.write_nil(),
            Some(v) => self.write_u8(v),
        }
    }

    pub fn write_nullable_u16(&mut self, value: &Option<u16>) -> (r: Result<(), EncodeError>)
        ensures
            r is Ok,
            final(self)@ == old(self)@ + match *value {
                None => enc_nil(),
                Some(v) => enc_uint(v as nat),
            },
            final(self).context == old(self).context,
    {
        match value {
            None => self.write_nil(),
            Some(v) => self.write_u16(v),
        }
    }

    pub fn write_nullable_u32(&mut self, value: &Option<u32>) -> (r: Result<(), EncodeError>)
        ensures
            r is Ok,
            final(self)@ == old(self)@ + match *value {
                None => enc_nil(),
                Some(v) => enc_uint(v as nat),
            },
            final(self).context == old(self).context,
    {
        match value {
            None => self.write_nil(),
            Some(v) => self.write_u32(v),
        }
    }

    pub fn write_nullable_string(&mut self, value: &Option<String>) -> (r: Result<(), EncodeError>)
        ensures
            r is Ok <==> (value matches Some(s) ==> encode_utf8(s@).len() <= u32::MAX),
            r is Ok ==> final(self)@ == old(self)@ + match *value {
                None => enc_nil(),
                Some(s) => enc_str(s@),
            },
            r matches Err(e) ==> e is StrWriteError && final(self)@ == old(self)@,
            final(self).context == old(self).context,
    {
        match value {
            None => self.write_nil(),
            Some(s) => self.write_string(s),
        }
    }

    pub fn write_nullable_bytes(&mut self, value: &Option<Vec<u8>>) -> (r: Result<(), EncodeError>)
        ensures
            r is Ok <==> (value matches Some(b) ==> b@.len() <= u32::MAX),
            r is Ok ==> final(self)@ == old(self)@ + match *value {
                None => enc_nil(),
                Some(b) => enc_bin(b@),
            },
            r matches Err(e) ==> e is BinWriteError && final(self)@ == old(self)@,
            final(self).context == old(self).context,
    {
        match value {
            None => self.write_nil(),
            Some(b) => self.write_bytes(b.as_slice()),
        }
    }
}

} // verus!
