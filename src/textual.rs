//! Values that travel as their text: arbitrary-precision integers as
//! base-10 strings, structured (JSON) values as their serialized text.
use vstd::prelude::*;

use crate::error::{reports, DecodeError, EncodeError};
use vstd::utf8::encode_utf8;

use crate::format::{dec_str, enc_nil, enc_str, next_is_nil};
use crate::read_decoder::ReadDecoder;
use crate::write_encoder::WriteEncoder;

verus! {

#[verifier::external_type_specification]
#[verifier::external_body]
pub struct ExBigInt(num_bigint::BigInt);

#[verifier::external_type_specification]
#[verifier::external_body]
pub struct ExJsonValue(serde_json::Value);

/// The text after an optional `-` that base-10 parsing takes as a sign
/// (a `-` followed by `+` is not one), and whether there was one.
pub open spec fn split_minus(s: Seq<char>) -> (bool, Seq<char>) {
    if s.len() > 0 && s[0] == '-' && !(s.len() > 1 && s[1] == '+') {
        (true, s.drop_first())
    } else {
        (false, s)
    }
}

/// The digits part of a base-10 text: after the optional `-`, then after
/// an optional `+` (a `+` followed by `+` is not one).
pub open spec fn decimal_digits(s: Seq<char>) -> Seq<char> {
    let t = split_minus(s).1;
    if t.len() > 0 && t[0] == '+' && !(t.len() > 1 && t[1] == '+') {
        t.drop_first()
    } else {
        t
    }
}

/// The text that base-10 parsing of a big integer accepts: an optional
/// `-`, then an optional `+`, then digits, which may be separated by `_`
/// but do not start with one.
pub open spec fn decimal_ok(s: Seq<char>) -> bool {
    let u = decimal_digits(s);
    &&& u.len() > 0
    &&& u[0] != '_'
    &&& forall|i: int| 0 <= i < u.len() ==> ('0' <= #[trigger] u[i] <= '9' || u[i] == '_')
}

pub open spec fn without_leading_zeros(d: Seq<char>) -> Seq<char>
    decreases d.len(),
{
    if d.len() > 0 && d[0] == '0' {
        without_leading_zeros(d.drop_first())
    } else {
        d
    }
}

/// The canonical text of the integer that an accepted base-10 text stands
/// for: separators and leading zeros dropped, `-` kept only before a
/// non-zero magnitude, zero written `0`.
pub open spec fn canonical_decimal(s: Seq<char>) -> Seq<char> {
    let d = without_leading_zeros(decimal_digits(s).filter(|c: char| c != '_'));
    if d.len() == 0 {
        seq!['0']
    } else if split_minus(s).0 {
        seq!['-'] + d
    } else {
        d
    }
}

/// The base-10 text that num-bigint writes for a big integer.
pub uninterp spec fn decimal_of(b: num_bigint::BigInt) -> Seq<char>;

/// The compact JSON text that serde_json writes for a value.
pub uninterp spec fn json_of(v: serde_json::Value) -> Seq<char>;

/// Whether a text is a JSON document that serde_json accepts (well-formed,
/// and nested at most 128 levels deep).
pub uninterp spec fn json_text_ok(s: Seq<char>) -> bool;

/// Relies on `num_bigint::BigInt::from_str` (base 10): it accepts exactly
/// the text that `decimal_ok` describes, and the integer it gives is the
/// one that text stands for, so its own text is the canonical one.
#[verifier::external_body]
fn parse_decimal(s: &str) -> (r: Option<num_bigint::BigInt>)
    ensures
        r is Some <==> decimal_ok(s@),
        r matches Some(b) ==> decimal_of(b) == canonical_decimal(s@),
{
    s.parse::<num_bigint::BigInt>().ok()
}

/// Relies on `Display` for `num_bigint::BigInt`: an optional `-`, then the
/// base-10 digits of the magnitude.
#[verifier::external_body]
fn decimal_text(b: &num_bigint::BigInt) -> (r: String)
    ensures
        r@ == decimal_of(*b),
        decimal_ok(r@),
{
    b.to_string()
}

/// Relies on `serde_json::from_str` into a `Value`: it succeeds exactly on
/// the JSON text it accepts (well-formed, nested at most 128 levels deep),
/// which is never empty.
#[verifier::external_body]
fn parse_json(s: &str) -> (r: Option<serde_json::Value>)
    ensures
        r is Some <==> json_text_ok(s@),
        s@.len() == 0 ==> r is None,
{
    serde_json::from_str::<serde_json::Value>(s).ok()
}

/// Relies on `serde_json::to_string` of a `Value`: it never fails (a
/// `Value` has only string keys) and gives the value's compact JSON text.
#[verifier::external_body]
fn json_text(v: &serde_json::Value) -> (r: Option<String>)
    ensures
        r is Some,
        r matches Some(t) ==> t@ == json_of(*v),
{
    serde_json::to_string(v).ok()
}

/// The decoder after reading a string whose text `accept` judges: it moved
/// past the string where the text passed, and failed with `rejected` (or
/// the fault of the string read) otherwise.
pub open spec fn reads_text<U>(
    after: ReadDecoder,
    before: ReadDecoder,
    accept: spec_fn(Seq<char>) -> bool,
    r: Result<U, DecodeError>,
    rejected: spec_fn(DecodeError) -> bool,
) -> bool {
    &&& after.wf()
    &&& after.buffer@ == before.buffer@
    &&& after.context == before.context
    &&& match dec_str(before.rest()) {
        Ok((t, n)) => if accept(t) {
            r is Ok && after.pos == before.pos + n
        } else {
            r matches Err(e) && rejected(e)
        },
        Err(f) => r matches Err(e) && reports(e, f),
    }
}

impl WriteEncoder {
    /// Writes a big integer as its base-10 text.
    pub fn write_bigint(&mut self, value: &num_bigint::BigInt) -> (r: Result<(), EncodeError>)
        ensures
            decimal_ok(decimal_of(*value)),
            r is Ok <==> encode_utf8(decimal_of(*value)).len() <= u32::MAX,
            r is Ok ==> final(self)@ == old(self)@ + enc_str(decimal_of(*value)),
            r matches Err(e) ==> e is StrWriteError && final(self)@ == old(self)@,
            final(self).context == old(self).context,
    {
        let text = decimal_text(value);
        self.write_string(&text)
    }

    /// Writes a structured value as its JSON text.
    pub fn write_json(&mut self, value: &serde_json::Value) -> (r: Result<(), EncodeError>)
        ensures
            r is Ok <==> encode_utf8(json_of(*value)).len() <= u32::MAX,
            r is Ok ==> final(self)@ == old(self)@ + enc_str(json_of(*value)),
            r matches Err(e) ==> e is StrWriteError && final(self)@ == old(self)@,
            final(self).context == old(self).context,
    {
        match json_text(value) {
            Some(text) => self.write_string(&text),
            None => Err(
                EncodeError::JSONWriteError(
                    self.context.print_with_context("value could not be rendered as JSON"),
                ),
            ),
        }
    }

    pub fn write_nullable_bigint(&mut self, value: &Option<num_bigint::BigInt>) -> (r: Result<
        (),
        EncodeError,
    >)
        ensures
            value is None ==> r is Ok && final(self)@ == old(self)@ + enc_nil(),
            *value matches Some(b) ==> decimal_ok(decimal_of(b)) && (r is Ok <==> encode_utf8(
                decimal_of(b),
            ).len() <= u32::MAX) && (r is Ok ==> final(self)@ == old(self)@ + enc_str(
                decimal_of(b),
            )),
            r matches Err(e) ==> e is StrWriteError && final(self)@ == old(self)@,
            final(self).context == old(self).context,
    {
        match value {
            None => self.write_nil(),
            Some(b) => self.write_bigint(b),
        }
    }

    pub fn write_nullable_json(&mut self, value: &Option<serde_json::Value>) -> (r: Result<
        (),
        EncodeError,
    >)
        ensures
            value is None ==> r is Ok && final(self)@ == old(self)@ + enc_nil(),
            *value matches Some(v) ==> (r is Ok <==> encode_utf8(json_of(v)).len() <= u32::MAX)
                && (r is Ok ==> final(self)@ == old(self)@ + enc_str(json_of(v))),
            r matches Err(e) ==> e is StrWriteError && final(self)@ == old(self)@,
            final(self).context == old(self).context,
    {
        match value {
            None => self.write_nil(),
            Some(v) => self.write_json(v),
        }
    }
}

impl ReadDecoder {
    /// Reads a big integer from its base-10 text.
    pub fn read_bigint(&mut self) -> (r: Result<num_bigint::BigInt, DecodeError>)
        requires
            old(self).wf(),
        ensures
            reads_text(
                *final(self),
                *old(self),
                |t: Seq<char>| decimal_ok(t),
                r,
                |e: DecodeError| e is ParseBigIntError,
            ),
            r matches Ok(b) ==> (dec_str(old(self).rest()) matches Ok((t, _)) && decimal_of(b)
                == canonical_decimal(t)),
    {
        let text = self.read_string()?;
        match parse_decimal(text.as_str()) {
            Some(b) => Ok(b),
            None => Err(
                DecodeError::ParseBigIntError(
                    self.context.print_with_context("text is not a base-10 integer"),
                ),
            ),
        }
    }

    /// Reads a structured value from its JSON text.
    pub fn read_json(&mut self) -> (r: Result<serde_json::Value, DecodeError>)
        requires
            old(self).wf(),
        ensures
            reads_text(
                *final(self),
                *old(self),
                |t: Seq<char>| json_text_ok(t),
                r,
                |e: DecodeError| e is JSONReadError,
            ),
    {
        let text = self.read_string()?;
        match parse_json(text.as_str()) {
            Some(v) => Ok(v),
            None => Err(
                DecodeError::JSONReadError(self.context.print_with_context("text is not JSON")),
            ),
        }
    }

    pub fn read_nullable_bigint(&mut self) -> (r: Result<Option<num_bigint::BigInt>, DecodeError>)
        requires
            old(self).wf(),
        ensures
            next_is_nil(old(self).rest()) ==> (r matches Ok(v) && v is None && final(self).pos
                == old(self).pos + 1),
            old(self).rest().len() > 0 && !next_is_nil(old(self).rest()) ==> reads_text(
                *final(self),
                *old(self),
                |t: Seq<char>| decimal_ok(t),
                r,
                |e: DecodeError| e is ParseBigIntError,
            ) && (r matches Ok(v) ==> v is Some),
            old(self).rest().len() == 0 ==> (r matches Err(e) && e is IOError),
            final(self).wf(),
    {
        if self.is_next_nil()? {
            self.read_nil()?;
            Ok(None)
        } else {
            let b = self.read_bigint()?;
            Ok(Some(b))
        }
    }

    pub fn read_nullable_json(&mut self) -> (r: Result<Option<serde_json::Value>, DecodeError>)
        requires
            old(self).wf(),
        ensures
            next_is_nil(old(self).rest()) ==> (r matches Ok(v) && v is None && final(self).pos
                == old(self).pos + 1),
            old(self).rest().len() > 0 && !next_is_nil(old(self).rest()) ==> reads_text(
                *final(self),
                *old(self),
                |t: Seq<char>| json_text_ok(t),
                r,
                |e: DecodeError| e is JSONReadError,
            ) && (r matches Ok(v) ==> v is Some),
            old(self).rest().len() == 0 ==> (r matches Err(e) && e is IOError),
            final(self).wf(),
    {
        if self.is_next_nil()? {
            self.read_nil()?;
            Ok(None)
        } else {
            let v = self.read_json()?;
            Ok(Some(v))
        }
    }
}

} // verus!
