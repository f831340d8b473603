//! Types of a module's schema and their wire forms: an object read field by
//! field, an enum that travels as its name or its index, and the inputs of
//! a few module methods.
use vstd::prelude::*;
use vstd::utf8::encode_utf8;

use crate::context::Context;
use crate::error::{reports, DecodeError, EncodeError};
use crate::format::{
    dec_int_in, dec_map_len, dec_str, next_is_str, enc_map_header, enc_str, got, lemma_map_header_round_trip,
    lemma_str_round_trip, Fault,
};
use crate::read_decoder::ReadDecoder;
use crate::sorted_map::{same_text, SortedMap};
use vstd::string::StringExecFns;
use crate::write_encoder::WriteEncoder;

verus! {

/// Why an object could not be read.
pub enum ObjectFault {
    /// The bytes themselves are not what the field loop expects.
    Wire(Fault),
    /// A field name that the type does not declare.
    Unknown(Seq<char>),
    /// A required field that never came; the text names it.
    Missing(Seq<char>),
}

/// An object of one required string property, `prop`.
#[derive(Clone, Debug)]
pub struct TestImportAnotherObject {
    pub prop: String,
}

/// The object on the wire: a map of one entry.
pub open spec fn enc_another_object(prop: Seq<char>) -> Seq<u8> {
    enc_map_header(1) + enc_str("prop"@) + enc_str(prop)
}

/// The field loop over `n` fields at the start of `s`: the last value of
/// `prop` seen, and the bytes read; any other name stops the loop.
pub open spec fn another_object_fields(s: Seq<u8>, n: nat) -> Result<
    (Option<Seq<char>>, int),
    ObjectFault,
>
    decreases n,
{
    if n == 0 {
        Ok((None, 0))
    } else {
        match another_object_fields(s, (n - 1) as nat) {
            Ok((p, k)) => match dec_str(s.subrange(k, s.len() as int)) {
                Ok((name, j)) => if name == "prop"@ {
                    match dec_str(s.subrange(k + j, s.len() as int)) {
                        Ok((v, l)) => Ok((Some(v), k + j + l)),
                        Err(f) => Err(ObjectFault::Wire(f)),
                    }
                } else {
                    Err(ObjectFault::Unknown(name))
                },
                Err(f) => Err(ObjectFault::Wire(f)),
            },
            Err(e) => Err(e),
        }
    }
}

/// The object read from the start of `s`, with the bytes it spans. Unknown
/// names stop the loop first; a missing field is told only after it.
pub open spec fn unpack_another_object(s: Seq<u8>) -> Result<(Seq<char>, int), ObjectFault> {
    match dec_map_len(s) {
        Ok((n, h)) => match another_object_fields(s.subrange(h, s.len() as int), n) {
            Ok((Some(p), k)) => Ok((p, h + k)),
            Ok((None, _)) => Err(ObjectFault::Missing("prop: String."@)),
            Err(e) => Err(e),
        },
        Err(f) => Err(ObjectFault::Wire(f)),
    }
}

proof fn lemma_another_object_fields_fail(s: Seq<u8>, i: nat, n: nat)
    requires
        i <= n,
        another_object_fields(s, i) is Err,
    ensures
        another_object_fields(s, n) == another_object_fields(s, i),
    decreases n,
{
    if n > i {
        lemma_another_object_fields_fail(s, i, (n - 1) as nat);
    }
}

/// Two contexts with the same description and path.
pub open spec fn same_context(a: Context, b: Context) -> bool {
    a.description == b.description && a.path() == b.path()
}

/// The decoder after reading a `TestImportAnotherObject` from where
/// `before` stood.
pub open spec fn reads_another_object(
    after: ReadDecoder,
    before: ReadDecoder,
    r: Result<TestImportAnotherObject, DecodeError>,
) -> bool {
    &&& after.wf()
    &&& after.buffer@ == before.buffer@
    &&& same_context(after.context, before.context)
    &&& match unpack_another_object(before.rest()) {
        Ok((p, n)) => r matches Ok(o) && o.prop@ == p && after.pos == before.pos + n,
        Err(ObjectFault::Wire(f)) => r matches Err(e) && reports(e, f),
        Err(ObjectFault::Unknown(name)) => r matches Err(DecodeError::UnknownFieldName(m)) && m@
            == name,
        Err(ObjectFault::Missing(field)) => r matches Err(DecodeError::MissingField(m)) && m@
            == field,
    }
}

proof fn lemma_prop_is_short()
    ensures
        encode_utf8("prop"@).len() == 4,
{
    reveal_strlit("prop");
    vstd::utf8::is_ascii_chars_encode_utf8("prop"@);
}

impl TestImportAnotherObject {
    pub fn new() -> (r: TestImportAnotherObject)
        ensures
            r.prop@ == Seq::<char>::empty(),
    {
        TestImportAnotherObject { prop: String::new() }
    }

    /// The object's bytes on the wire.
    pub fn to_buffer(input: &TestImportAnotherObject) -> (r: Result<Vec<u8>, EncodeError>)
        ensures
            r is Ok <==> encode_utf8(input.prop@).len() <= u32::MAX,
            r matches Ok(b) ==> b@ == enc_another_object(input.prop@),
    {
        let context = Context::with_description(
            "Serializing (encoding) object-type: TestImportAnotherObject",
        );
        let empty: Vec<u8> = Vec::new();
        let mut encoder = WriteEncoder::new(empty.as_slice(), context);
        TestImportAnotherObject::write(input, &mut encoder)?;
        Ok(encoder.get_buffer())
    }

    /// The object that a whole buffer starts with.
    pub fn from_buffer(input: &[u8]) -> (r: Result<TestImportAnotherObject, DecodeError>)
        ensures
            match unpack_another_object(input@) {
                Ok((p, _)) => r matches Ok(o) && o.prop@ == p,
                Err(ObjectFault::Wire(f)) => r matches Err(e) && reports(e, f),
                Err(ObjectFault::Unknown(name)) => r matches Err(DecodeError::UnknownFieldName(m))
                    && m@ == name,
                Err(ObjectFault::Missing(field)) => r matches Err(DecodeError::MissingField(m))
                    && m@ == field,
            },
    {
        let context = Context::with_description(
            "Deserializing object-type: TestImportAnotherObject",
        );
        let mut reader = ReadDecoder::new(input, context);
        TestImportAnotherObject::read(&mut reader)
    }

    /// Writes the object as a map of its one field.
    pub fn write(input: &TestImportAnotherObject, writer: &mut WriteEncoder) -> (r: Result<
        (),
        EncodeError,
    >)
        ensures
            r is Ok <==> encode_utf8(input.prop@).len() <= u32::MAX,
            r is Ok ==> final(writer)@ == old(writer)@ + enc_another_object(input.prop@),
            same_context(final(writer).context, old(writer).context),
    {
        proof {
            lemma_prop_is_short();
        }
        writer.write_map_length(&1)?;
        writer.context.push("prop", "String", "writing property");
        let _ = writer.write_str("prop");
        let written = writer.write_string(&input.prop);
        writer.context.pop();
        assert(writer.context.path() =~= old(writer).context.path());
        written?;
        assert(writer@ =~= old(writer)@ + enc_another_object(input.prop@));
        Ok(())
    }

    /// Reads the object's field loop: each name, then its value. An unknown
    /// name fails at once; a missing field fails after the loop.
    #[verifier::rlimit(100)]
    pub fn read(reader: &mut ReadDecoder) -> (r: Result<TestImportAnotherObject, DecodeError>)
        requires
            old(reader).wf(),
        ensures
            reads_another_object(*final(reader), *old(reader), r),
    {
        let ghost s = reader.rest();
        let n = match reader.read_map_length() {
            Ok(n) => n,
            Err(e) => {
                return Err(e);
            },
        };
        let ghost h = reader.pos - old(reader).pos;
        let ghost body = s.subrange(h, s.len() as int);
        let mut prop: String = String::new();
        let mut prop_set = false;
        let ghost mut cur: Option<Seq<char>> = None;
        let mut i: u32 = 0;
        while i < n
            invariant
                reader.wf(),
                reader.buffer@ == old(reader).buffer@,
                same_context(reader.context, old(reader).context),
                s == old(reader).rest(),
                0 <= h,
                old(reader).pos + h <= reader.pos,
                body == s.subrange(h, s.len() as int),
                i <= n,
                dec_map_len(s) == got(n as nat, h),
                prop_set ==> cur == Some(prop@),
                !prop_set ==> cur is None,
                another_object_fields(body, i as nat) == Ok::<_, ObjectFault>(
                    (cur, reader.pos - old(reader).pos - h),
                ),
            decreases n - i,
        {
            let ghost k = reader.pos - old(reader).pos - h;
            assert(reader.rest() =~= body.subrange(k, body.len() as int));
            let field = match reader.read_string() {
                Ok(field) => field,
                Err(e) => {
                    proof {
                        lemma_another_object_fields_fail(body, (i + 1) as nat, n as nat);
                    }
                    return Err(e);
                },
            };
            if same_text(field.as_str(), "prop") {
                let ghost j = reader.pos - old(reader).pos - h - k;
                assert(reader.rest() =~= body.subrange(k + j, body.len() as int));
                reader.context.push(field.as_str(), "String", "type found, reading property");
                let value = reader.read_string();
                reader.context.pop();
                assert(reader.context.path() =~= old(reader).context.path());
                match value {
                    Ok(v) => {
                        prop = v;
                        prop_set = true;
                        proof {
                            cur = Some(prop@);
                        }
                    },
                    Err(e) => {
                        proof {
                            lemma_another_object_fields_fail(body, (i + 1) as nat, n as nat);
                        }
                        return Err(e);
                    },
                }
            } else {
                proof {
                    lemma_another_object_fields_fail(body, (i + 1) as nat, n as nat);
                }
                return Err(DecodeError::UnknownFieldName(field));
            }
            i = i + 1;
        }
        if !prop_set {
            proof {
                reveal_strlit("prop: String.");
            }
            return Err(DecodeError::MissingField("prop: String.".to_string()));
        }
        Ok(TestImportAnotherObject { prop })
    }
}

/// An object written by `write` reads back as itself, whatever follows it.
pub proof fn law_another_object_round_trip(prop: Seq<char>, rest: Seq<u8>)
    requires
        encode_utf8(prop).len() <= u32::MAX,
    ensures
        unpack_another_object(enc_another_object(prop) + rest) == Ok::<_, ObjectFault>(
            (prop, enc_another_object(prop).len() as int),
        ),
{
    lemma_prop_is_short();
    let name = enc_str("prop"@);
    let value = enc_str(prop);
    let s = enc_another_object(prop) + rest;
    let body = name + value + rest;
    assert(s =~= enc_map_header(1) + body);
    lemma_map_header_round_trip(1, body);
    assert(s.subrange(1, s.len() as int) =~= body);
    assert(another_object_fields(body, 0) == Ok::<_, ObjectFault>((None::<Seq<char>>, 0int)));
    assert(body.subrange(0, body.len() as int) =~= name + (value + rest));
    lemma_str_round_trip("prop"@, value + rest);
    assert(body.subrange(name.len() as int, body.len() as int) =~= value + rest);
    lemma_str_round_trip(prop, rest);
}

/// An enum of the schema; `_MAX_` marks the end of its range of indices.
#[allow(non_camel_case_types)]
#[derive(Clone, Copy, Debug, PartialEq, Eq, Structural)]
pub enum TestImportEnum {
    STRING,
    BYTES,
    _MAX_,
}

impl TestImportEnum {
    pub open spec fn index(self) -> int {
        match self {
            TestImportEnum::STRING => 0,
            TestImportEnum::BYTES => 1,
            TestImportEnum::_MAX_ => 2,
        }
    }

    pub open spec fn name(self) -> Seq<char> {
        match self {
            TestImportEnum::STRING => "STRING"@,
            TestImportEnum::BYTES => "BYTES"@,
            TestImportEnum::_MAX_ => "_MAX_"@,
        }
    }

    pub fn to_i32(&self) -> (r: i32)
        ensures
            r == self.index(),
    {
        match self {
            TestImportEnum::STRING => 0,
            TestImportEnum::BYTES => 1,
            TestImportEnum::_MAX_ => 2,
        }
    }

    /// The variant at an index, the end marker included.
    pub fn try_from(v: i32) -> (r: Result<TestImportEnum, String>)
        ensures
            r is Ok <==> 0 <= v <= 2,
            r matches Ok(e) ==> e.index() == v,
    {
        if v == 0 {
            Ok(TestImportEnum::STRING)
        } else if v == 1 {
            Ok(TestImportEnum::BYTES)
        } else if v == 2 {
            Ok(TestImportEnum::_MAX_)
        } else {
            Err("Error converting 'TestImportEnum' to i32".to_string())
        }
    }
}

/// Accepts the indices of the declared variants, and nothing else.
pub fn sanitize_test_import_enum_value(value: i32) -> (r: Result<(), String>)
    ensures
        r is Ok <==> 0 <= value < 2,
{
    if value < 0 || value >= 2 {
        let mut message = "Invalid value for enum 'TestImportEnum': ".to_string();
        message.append(value.to_string().as_str());
        return Err(message);
    }
    Ok(())
}

/// The variant of a name.
pub fn get_test_import_enum_value(key: &str) -> (r: Result<TestImportEnum, String>)
    ensures
        r is Ok <==> (key@ == "STRING"@ || key@ == "BYTES"@ || key@ == "_MAX_"@),
        r matches Ok(e) ==> e.name() == key@,
{
    if same_text(key, "STRING") {
        Ok(TestImportEnum::STRING)
    } else if same_text(key, "BYTES") {
        Ok(TestImportEnum::BYTES)
    } else if same_text(key, "_MAX_") {
        Ok(TestImportEnum::_MAX_)
    } else {
        let mut message = "Invalid key for enum 'TestImportEnum': ".to_string();
        message.append(key);
        Err(message)
    }
}

/// The name of a declared variant; the end marker has none.
pub fn get_test_import_enum_key(value: TestImportEnum) -> (r: Result<String, String>)
    ensures
        r is Ok <==> value != TestImportEnum::_MAX_,
        r matches Ok(s) ==> s@ == value.name(),
{
    proof {
        reveal_strlit("STRING");
        reveal_strlit("BYTES");
    }
    if sanitize_test_import_enum_value(value.to_i32()).is_ok() {
        match value {
            TestImportEnum::STRING => Ok("STRING".to_string()),
            TestImportEnum::BYTES => Ok("BYTES".to_string()),
            TestImportEnum::_MAX_ => Ok("_MAX_".to_string()),
        }
    } else {
        let mut message = "Invalid value for enum 'TestImportEnum': ".to_string();
        message.append(value.to_i32().to_string().as_str());
        Err(message)
    }
}

/// What reading an enum from the start of `s` yields: by name where a
/// string comes, else by index, which must be a declared variant's.
pub open spec fn unpack_test_import_enum(s: Seq<u8>) -> Result<(TestImportEnum, int), Option<Fault>> {
    if s.len() == 0 {
        Err(Some(Fault::Exhausted))
    } else if next_is_str(s) {
        match dec_str(s) {
            Ok((t, n)) => if t == "STRING"@ {
                Ok((TestImportEnum::STRING, n))
            } else if t == "BYTES"@ {
                Ok((TestImportEnum::BYTES, n))
            } else if t == "_MAX_"@ {
                Ok((TestImportEnum::_MAX_, n))
            } else {
                Err(None)
            },
            Err(f) => Err(Some(f)),
        }
    } else {
        match dec_int_in(s, i32::MIN as int, i32::MAX as int) {
            Ok((v, n)) => if v == 0 {
                Ok((TestImportEnum::STRING, n))
            } else if v == 1 {
                Ok((TestImportEnum::BYTES, n))
            } else {
                Err(None)
            },
            Err(f) => Err(Some(f)),
        }
    }
}

/// Reads an enum written as its name or as its index. A name or an index
/// of no declared variant fails with an enum error (`Err(None)` above).
pub fn read_test_import_enum(reader: &mut ReadDecoder) -> (r: Result<TestImportEnum, DecodeError>)
    requires
        old(reader).wf(),
    ensures
        final(reader).wf(),
        final(reader).buffer@ == old(reader).buffer@,
        final(reader).context == old(reader).context,
        match unpack_test_import_enum(old(reader).rest()) {
            Ok((e, n)) => r == Ok::<_, DecodeError>(e) && final(reader).pos == old(reader).pos + n,
            Err(Some(f)) => r matches Err(x) && reports(x, f),
            Err(None) => r matches Err(x) && x is EnumProcessingError,
        },
{
    proof {
        reveal_strlit("STRING");
        reveal_strlit("BYTES");
        reveal_strlit("_MAX_");
        assert("BYTES"@.len() != "STRING"@.len());
        assert("_MAX_"@[0] != "BYTES"@[0]);
        assert("_MAX_"@.len() != "STRING"@.len());
    }
    if reader.is_next_string()? {
        let key = reader.read_string()?;
        match get_test_import_enum_value(key.as_str()) {
            Ok(e) => Ok(e),
            Err(message) => Err(DecodeError::EnumProcessingError(message)),
        }
    } else {
        let v = reader.read_i32()?;
        match TestImportEnum::try_from(v) {
            Ok(e) => match sanitize_test_import_enum_value(v) {
                Ok(()) => Ok(e),
                Err(message) => Err(DecodeError::EnumProcessingError(message)),
            },
            Err(message) => Err(DecodeError::EnumProcessingError(message)),
        }
    }
}

/// Writes an enum as its index.
pub fn write_test_import_enum(value: &TestImportEnum, writer: &mut WriteEncoder) -> (r: Result<
    (),
    EncodeError,
>)
    ensures
        r is Ok,
        final(writer)@ == old(writer)@ + crate::format::enc_int(value.index()),
        final(writer).context == old(writer).context,
{
    writer.write_i32(&value.to_i32())
}

/// A module of the schema that is called by sub-invocation.
#[derive(Clone, Debug)]
pub struct TestImportMutation {}

impl TestImportMutation {
    pub fn new() -> (r: TestImportMutation) {
        TestImportMutation {  }
    }
}

/// An enum of another schema.
#[derive(Clone, Copy, Debug, PartialEq, Eq, Structural)]
pub enum SanityEnum {
    OPTION1,
    OPTION2,
    OPTION3,
}

pub struct InputMethod1 {
    pub en: SanityEnum,
}

pub struct InputMethod2 {
    pub enum_array: Vec<SanityEnum>,
}

/// Hands the enum of its input back.
pub fn method1(input: InputMethod1) -> (r: SanityEnum)
    ensures
        r == input.en,
{
    input.en
}

/// Hands the enum array of its input back.
pub fn method2(input: InputMethod2) -> (r: Vec<SanityEnum>)
    ensures
        r@ == input.enum_array@,
{
    input.enum_array
}

pub struct InputGetKey {
    pub map: SortedMap<i32>,
    pub key: String,
}

/// The value that the input's map holds at the input's key.
pub fn get_key(input: InputGetKey) -> (r: i32)
    requires
        input.map.view_map().contains_key(input.key@),
    ensures
        r == input.map.view_map()[input.key@],
{
    match input.map.get(input.key.as_str()) {
        Some(v) => *v,
        None => 0,
    }
}

} // verus!
