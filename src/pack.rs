//! Values that know their own wire form: scalars, strings, optionals and
//! arrays of them, nested to any depth.
use vstd::prelude::*;
use vstd::utf8::encode_utf8;

use crate::error::{DecodeError, EncodeError};
use crate::format::{
    dec_array_len, dec_bool, dec_i64, dec_int_in, dec_str, enc_array_header, enc_bool, enc_int,
    enc_nil, enc_str, enc_uint, got, lemma_array_header_round_trip, lemma_int_round_trip,
    lemma_str_round_trip, lemma_uint_round_trip, Fault, Scan,
};
use crate::read_decoder::ReadDecoder;
use crate::write_encoder::WriteEncoder;

verus! {

/// A type with a wire form. `Model` is what a value means; `pack_spec` is
/// its encoding and `unpack_spec` the lenient decoding.
pub trait Pack: Sized {
    type Model;

    spec fn model(&self) -> Self::Model;

    /// Whether writing the value succeeds (every length fits 32 bits).
    spec fn encodable(m: Self::Model) -> bool;

    /// Whether the encoding reads back unambiguously: it fails only where
    /// an optional holds a present value that is itself written as nil.
    spec fn faithful(m: Self::Model) -> bool;

    /// Whether the value is written as nil (only an absent optional is).
    spec fn nil_form(m: Self::Model) -> bool;

    /// Whether `e` is the error that writing `m` fails with: the one of the
    /// first part (a length or an item) that does not fit.
    spec fn write_fault(m: Self::Model, e: EncodeError) -> bool;

    spec fn pack_spec(m: Self::Model) -> Seq<u8>;

    spec fn unpack_spec(s: Seq<u8>) -> Scan<Self::Model>;

    fn pack(&self, writer: &mut WriteEncoder) -> (r: Result<(), EncodeError>)
        ensures
            r is Ok <==> Self::encodable(self.model()),
            r is Ok ==> final(writer)@ == old(writer)@ + Self::pack_spec(self.model()),
            r matches Err(e) ==> Self::write_fault(self.model(), e) && old(writer)@.is_prefix_of(
                final(writer)@,
            ),
            final(writer).context == old(writer).context,
    ;

    fn unpack(reader: &mut ReadDecoder) -> (r: Result<Self, DecodeError>)
        requires
            old(reader).wf(),
        ensures
            final(reader).reads(
                *old(reader),
                Self::unpack_spec(old(reader).rest()),
                r,
                |x: Self| x.model(),
            ),
    ;

    proof fn lemma_round_trip(m: Self::Model, rest: Seq<u8>)
        requires
            Self::encodable(m),
            Self::faithful(m),
        ensures
            Self::unpack_spec(Self::pack_spec(m) + rest) == got(m, Self::pack_spec(m).len() as int),
    ;

    /// The encoding is never empty, and starts with the nil byte exactly
    /// where the value is written as nil.
    proof fn lemma_nil_form(m: Self::Model)
        ensures
            Self::pack_spec(m).len() > 0,
            (Self::pack_spec(m)[0] == 0xc0) == Self::nil_form(m),
    ;
}

impl Pack for bool {
    type Model = bool;

    open spec fn model(&self) -> bool {
        *self
    }

    open spec fn encodable(m: bool) -> bool {
        true
    }

    open spec fn faithful(m: bool) -> bool {
        true
    }

    open spec fn nil_form(m: bool) -> bool {
        false
    }

    open spec fn write_fault(m: bool, e: EncodeError) -> bool {
        false
    }

    open spec fn pack_spec(m: bool) -> Seq<u8> {
        enc_bool(m)
    }

    open spec fn unpack_spec(s: Seq<u8>) -> Scan<bool> {
        dec_bool(s)
    }

    fn pack(&self, writer: &mut WriteEncoder) -> (r: Result<(), EncodeError>) {
        writer.write_bool(self)
    }

    fn unpack(reader: &mut ReadDecoder) -> (r: Result<bool, DecodeError>) {
        reader.read_bool()
    }

    proof fn lemma_round_trip(m: bool, rest: Seq<u8>) {
    }

    proof fn lemma_nil_form(m: bool) {
    }
}

impl Pack for String {
    type Model = Seq<char>;

    open spec fn model(&self) -> Seq<char> {
        self@
    }

    open spec fn encodable(m: Seq<char>) -> bool {
        encode_utf8(m).len() <= u32::MAX
    }

    open spec fn faithful(m: Seq<char>) -> bool {
        true
    }

    open spec fn nil_form(m: Seq<char>) -> bool {
        false
    }

    open spec fn write_fault(m: Seq<char>, e: EncodeError) -> bool {
        e is StrWriteError
    }

    open spec fn pack_spec(m: Seq<char>) -> Seq<u8> {
        enc_str(m)
    }

    open spec fn unpack_spec(s: Seq<u8>) -> Scan<Seq<char>> {
        dec_str(s)
    }

    fn pack(&self, writer: &mut WriteEncoder) -> (r: Result<(), EncodeError>) {
        let r = writer.write_string(self);
        assert(old(writer)@ =~= writer@.subrange(0, old(writer)@.len() as int) || r is Ok);
        r
    }

    fn unpack(reader: &mut ReadDecoder) -> (r: Result<String, DecodeError>) {
        reader.read_string()
    }

    proof fn lemma_round_trip(m: Seq<char>, rest: Seq<u8>) {
        lemma_str_round_trip(m, rest);
    }

    proof fn lemma_nil_form(m: Seq<char>) {
    }
}

impl Pack for u8 {
    type Model = int;

    open spec fn model(&self) -> int {
        *self as int
    }

    open spec fn encodable(m: int) -> bool {
        0 <= m <= u8::MAX as int
    }

    open spec fn faithful(m: int) -> bool {
        true
    }

    open spec fn nil_form(m: int) -> bool {
        false
    }

    open spec fn write_fault(m: int, e: EncodeError) -> bool {
        false
    }

    open spec fn pack_spec(m: int) -> Seq<u8> {
        enc_uint(m as nat)
    }

    open spec fn unpack_spec(s: Seq<u8>) -> Scan<int> {
        dec_int_in(s, 0, u8::MAX as int)
    }

    fn pack(&self, writer: &mut WriteEncoder) -> (r: Result<(), EncodeError>) {
        writer.write_u8(self)
    }

    fn unpack(reader: &mut ReadDecoder) -> (r: Result<u8, DecodeError>) {
        reader.read_u8()
    }

    proof fn lemma_round_trip(m: int, rest: Seq<u8>) {
        lemma_uint_round_trip(m as nat, rest);
    }

    proof fn lemma_nil_form(m: int) {
    }
}

impl Pack for u16 {
    type Model = int;

    open spec fn model(&self) -> int {
        *self as int
    }

    open spec fn encodable(m: int) -> bool {
        0 <= m <= u16::MAX as int
    }

    open spec fn faithful(m: int) -> bool {
        true
    }

    open spec fn nil_form(m: int) -> bool {
        false
    }

    open spec fn write_fault(m: int, e: EncodeError) -> bool {
        false
    }

    open spec fn pack_spec(m: int) -> Seq<u8> {
        enc_uint(m as nat)
    }

    open spec fn unpack_spec(s: Seq<u8>) -> Scan<int> {
        dec_int_in(s, 0, u16::MAX as int)
    }

    fn pack(&self, writer: &mut WriteEncoder) -> (r: Result<(), EncodeError>) {
        writer.write_u16(self)
    }

    fn unpack(reader: &mut ReadDecoder) -> (r: Result<u16, DecodeError>) {
        reader.read_u16()
    }

    proof fn lemma_round_trip(m: int, rest: Seq<u8>) {
        lemma_uint_round_trip(m as nat, rest);
    }

    proof fn lemma_nil_form(m: int) {
    }
}

impl Pack for u32 {
    type Model = int;

    open spec fn model(&self) -> int {
        *self as int
    }

    open spec fn encodable(m: int) -> bool {
        0 <= m <= u32::MAX as int
    }

    open spec fn faithful(m: int) -> bool {
        true
    }

    open spec fn nil_form(m: int) -> bool {
        false
    }

    open spec fn write_fault(m: int, e: EncodeError) -> bool {
        false
    }

    open spec fn pack_spec(m: int) -> Seq<u8> {
        enc_uint(m as nat)
    }

    open spec fn unpack_spec(s: Seq<u8>) -> Scan<int> {
        dec_int_in(s, 0, u32::MAX as int)
    }

    fn pack(&self, writer: &mut WriteEncoder) -> (r: Result<(), EncodeError>) {
        writer.write_u32(self)
    }

    fn unpack(reader: &mut ReadDecoder) -> (r: Result<u32, DecodeError>) {
        reader.read_u32()
    }

    proof fn lemma_round_trip(m: int, rest: Seq<u8>) {
        lemma_uint_round_trip(m as nat, rest);
    }

    proof fn lemma_nil_form(m: int) {
    }
}

impl Pack for u64 {
    type Model = int;

    open spec fn model(&self) -> int {
        *self as int
    }

    open spec fn encodable(m: int) -> bool {
        0 <= m <= u64::MAX as int
    }

    open spec fn faithful(m: int) -> bool {
        true
    }

    open spec fn nil_form(m: int) -> bool {
        false
    }

    open spec fn write_fault(m: int, e: EncodeError) -> bool {
        false
    }

    open spec fn pack_spec(m: int) -> Seq<u8> {
        enc_uint(m as nat)
    }

    open spec fn unpack_spec(s: Seq<u8>) -> Scan<int> {
        dec_int_in(s, 0, u64::MAX as int)
    }

    fn pack(&self, writer: &mut WriteEncoder) -> (r: Result<(), EncodeError>) {
        writer.write_u64(self)
    }

    fn unpack(reader: &mut ReadDecoder) -> (r: Result<u64, DecodeError>) {
        reader.read_u64()
    }

    proof fn lemma_round_trip(m: int, rest: Seq<u8>) {
        lemma_uint_round_trip(m as nat, rest);
    }

    proof fn lemma_nil_form(m: int) {
    }
}

impl Pack for i8 {
    type Model = int;

    open spec fn model(&self) -> int {
        *self as int
    }

    open spec fn encodable(m: int) -> bool {
        i8::MIN as int <= m <= i8::MAX as int
    }

    open spec fn faithful(m: int) -> bool {
        true
    }

    open spec fn nil_form(m: int) -> bool {
        false
    }

    open spec fn write_fault(m: int, e: EncodeError) -> bool {
        false
    }

    open spec fn pack_spec(m: int) -> Seq<u8> {
        enc_int(m)
    }

    open spec fn unpack_spec(s: Seq<u8>) -> Scan<int> {
        dec_int_in(s, i8::MIN as int, i8::MAX as int)
    }

    fn pack(&self, writer: &mut WriteEncoder) -> (r: Result<(), EncodeError>) {
        writer.write_i8(self)
    }

    fn unpack(reader: &mut ReadDecoder) -> (r: Result<i8, DecodeError>) {
        reader.read_i8()
    }

    proof fn lemma_round_trip(m: int, rest: Seq<u8>) {
        lemma_int_round_trip(m, rest);
    }

    proof fn lemma_nil_form(m: int) {
    }
}

impl Pack for i16 {
    type Model = int;

    open spec fn model(&self) -> int {
        *self as int
    }

    open spec fn encodable(m: int) -> bool {
        i16::MIN as int <= m <= i16::MAX as int
    }

    open spec fn faithful(m: int) -> bool {
        true
    }

    open spec fn nil_form(m: int) -> bool {
        false
    }

    open spec fn write_fault(m: int, e: EncodeError) -> bool {
        false
    }

    open spec fn pack_spec(m: int) -> Seq<u8> {
        enc_int(m)
    }

    open spec fn unpack_spec(s: Seq<u8>) -> Scan<int> {
        dec_int_in(s, i16::MIN as int, i16::MAX as int)
    }

    fn pack(&self, writer: &mut WriteEncoder) -> (r: Result<(), EncodeError>) {
        writer.write_i16(self)
    }

    fn unpack(reader: &mut ReadDecoder) -> (r: Result<i16, DecodeError>) {
        reader.read_i16()
    }

    proof fn lemma_round_trip(m: int, rest: Seq<u8>) {
        lemma_int_round_trip(m, rest);
    }

    proof fn lemma_nil_form(m: int) {
    }
}

impl Pack for i32 {
    type Model = int;

    open spec fn model(&self) -> int {
        *self as int
    }

    open spec fn encodable(m: int) -> bool {
        i32::MIN as int <= m <= i32::MAX as int
    }

    open spec fn faithful(m: int) -> bool {
        true
    }

    open spec fn nil_form(m: int) -> bool {
        false
    }

    open spec fn write_fault(m: int, e: EncodeError) -> bool {
        false
    }

    open spec fn pack_spec(m: int) -> Seq<u8> {
        enc_int(m)
    }

    open spec fn unpack_spec(s: Seq<u8>) -> Scan<int> {
        dec_int_in(s, i32::MIN as int, i32::MAX as int)
    }

    fn pack(&self, writer: &mut WriteEncoder) -> (r: Result<(), EncodeError>) {
        writer.write_i32(self)
    }

    fn unpack(reader: &mut ReadDecoder) -> (r: Result<i32, DecodeError>) {
        reader.read_i32()
    }

    proof fn lemma_round_trip(m: int, rest: Seq<u8>) {
        lemma_int_round_trip(m, rest);
    }

    proof fn lemma_nil_form(m: int) {
    }
}

impl Pack for i64 {
    type Model = int;

    open spec fn model(&self) -> int {
        *self as int
    }

    open spec fn encodable(m: int) -> bool {
        i64::MIN as int <= m <= i64::MAX as int
    }

    open spec fn faithful(m: int) -> bool {
        true
    }

    open spec fn nil_form(m: int) -> bool {
        false
    }

    open spec fn write_fault(m: int, e: EncodeError) -> bool {
        false
    }

    open spec fn pack_spec(m: int) -> Seq<u8> {
        enc_int(m)
    }

    open spec fn unpack_spec(s: Seq<u8>) -> Scan<int> {
        dec_i64(s)
    }

    fn pack(&self, writer: &mut WriteEncoder) -> (r: Result<(), EncodeError>) {
        writer.write_i64(self)
    }

    fn unpack(reader: &mut ReadDecoder) -> (r: Result<i64, DecodeError>) {
        reader.read_i64()
    }

    proof fn lemma_round_trip(m: int, rest: Seq<u8>) {
        lemma_int_round_trip(m, rest);
    }

    proof fn lemma_nil_form(m: int) {
    }
}

/// What extends a prefix of a sequence keeps the prefix.
pub proof fn lemma_prefix_extends(a: Seq<u8>, x: Seq<u8>, c: Seq<u8>)
    requires
        (a + x).is_prefix_of(c),
    ensures
        a.is_prefix_of(c),
{
    assert forall|i: int| 0 <= i < a.len() implies a[i] == c.subrange(0, a.len() as int)[i] by {
        assert((a + x)[i] == c.subrange(0, (a + x).len() as int)[i]);
    }
    assert(a =~= c.subrange(0, a.len() as int));
}

/// The items of a sequence, each in its wire form, one after another.
pub open spec fn pack_items<T: Pack>(m: Seq<T::Model>) -> Seq<u8>
    decreases m.len(),
{
    if m.len() == 0 {
        Seq::empty()
    } else {
        pack_items::<T>(m.drop_last()) + T::pack_spec(m.last())
    }
}

/// `n` items read one after another from the start of `s`.
pub open spec fn unpack_items<T: Pack>(s: Seq<u8>, n: nat) -> Scan<Seq<T::Model>>
    decreases n,
{
    if n == 0 {
        Ok((Seq::empty(), 0))
    } else {
        match unpack_items::<T>(s, (n - 1) as nat) {
            Ok((items, k)) => match T::unpack_spec(s.subrange(k, s.len() as int)) {
                Ok((x, j)) => Ok((items.push(x), k + j)),
                Err(f) => Err(f),
            },
            Err(f) => Err(f),
        }
    }
}

/// Once an item fails, every longer read fails the same way.
proof fn lemma_unpack_items_fails<T: Pack>(s: Seq<u8>, i: nat, n: nat)
    requires
        i <= n,
        unpack_items::<T>(s, i) is Err,
    ensures
        unpack_items::<T>(s, n) == unpack_items::<T>(s, i),
    decreases n,
{
    if n > i {
        lemma_unpack_items_fails::<T>(s, i, (n - 1) as nat);
    }
}

proof fn lemma_items_round_trip<T: Pack>(m: Seq<T::Model>, rest: Seq<u8>)
    requires
        forall|i: int| 0 <= i < m.len() ==> T::encodable(#[trigger] m[i]) && T::faithful(m[i]),
    ensures
        unpack_items::<T>(pack_items::<T>(m) + rest, m.len()) == got(
            m,
            pack_items::<T>(m).len() as int,
        ),
    decreases m.len(),
{
    if m.len() > 0 {
        let init = m.drop_last();
        let x = m.last();
        let tail = T::pack_spec(x) + rest;
        assert(pack_items::<T>(m) + rest =~= pack_items::<T>(init) + tail);
        assert forall|i: int| 0 <= i < init.len() implies T::encodable(#[trigger] init[i])
            && T::faithful(init[i]) by {
            assert(init[i] == m[i]);
        }
        lemma_items_round_trip::<T>(init, tail);
        let s = pack_items::<T>(m) + rest;
        let k = pack_items::<T>(init).len() as int;
        assert(s.subrange(k, s.len() as int) =~= tail);
        T::lemma_round_trip(x, rest);
        assert(init.push(x) =~= m);
    } else {
        assert(m =~= Seq::<T::Model>::empty());
    }
}

/// What a vector of values means, item by item.
pub open spec fn models<T: Pack>(v: Seq<T>) -> Seq<T::Model> {
    Seq::new(v.len(), |i: int| v[i].model())
}

impl<T: Pack> Pack for Vec<T> {
    type Model = Seq<T::Model>;

    open spec fn model(&self) -> Seq<T::Model> {
        models(self@)
    }

    open spec fn encodable(m: Seq<T::Model>) -> bool {
        &&& m.len() <= u32::MAX
        &&& forall|i: int| 0 <= i < m.len() ==> T::encodable(#[trigger] m[i])
    }

    open spec fn faithful(m: Seq<T::Model>) -> bool {
        forall|i: int| 0 <= i < m.len() ==> T::faithful(#[trigger] m[i])
    }

    open spec fn nil_form(m: Seq<T::Model>) -> bool {
        false
    }

    open spec fn write_fault(m: Seq<T::Model>, e: EncodeError) -> bool {
        if m.len() > u32::MAX {
            e is ArrayWriteError
        } else {
            exists|i: int|
                0 <= i < m.len() && (forall|j: int| 0 <= j < i ==> T::encodable(#[trigger] m[j]))
                    && !T::encodable(m[i]) && #[trigger] T::write_fault(m[i], e)
        }
    }

    open spec fn pack_spec(m: Seq<T::Model>) -> Seq<u8> {
        enc_array_header(m.len()) + pack_items::<T>(m)
    }

    open spec fn unpack_spec(s: Seq<u8>) -> Scan<Seq<T::Model>> {
        match dec_array_len(s) {
            Ok((n, h)) => match unpack_items::<T>(s.subrange(h, s.len() as int), n) {
                Ok((items, k)) => Ok((items, h + k)),
                Err(f) => Err(f),
            },
            Err(f) => Err(f),
        }
    }

    fn pack(&self, writer: &mut WriteEncoder) -> (r: Result<(), EncodeError>) {
        if self.len() as u64 > 0xffff_ffff {
            assert(old(writer)@ =~= writer@.subrange(0, old(writer)@.len() as int));
            return Err(
                EncodeError::ArrayWriteError(
                    writer.context.print_with_context("array longer than 2^32 - 1 items"),
                ),
            );
        }
        let ghost m = self.model();
        writer.write_array_length(&(self.len() as u32));
        let mut i: usize = 0;
        while i < self.len()
            invariant
                i <= self@.len(),
                m == self.model(),
                m.len() == self@.len(),
                m.len() <= u32::MAX,
                writer@ == old(writer)@ + enc_array_header(m.len()) + pack_items::<T>(
                    m.subrange(0, i as int),
                ),
                writer.context == old(writer).context,
                forall|j: int| 0 <= j < i ==> T::encodable(#[trigger] m[j]),
            decreases self@.len() - i,
        {
            assert(m[i as int] == self@[i as int].model());
            let ghost before = writer@;
            match self[i].pack(writer) {
                Ok(()) => {},
                Err(e) => {
                    assert(!T::encodable(m[i as int]));
                    assert(m.len() <= u32::MAX);
                    assert(Self::write_fault(m, e)) by {
                        let k = i as int;
                        assert(0 <= k < m.len() && (forall|j: int|
                            0 <= j < k ==> T::encodable(#[trigger] m[j])) && !T::encodable(m[k])
                            && T::write_fault(m[k], e));
                    }
                    proof {
                        lemma_prefix_extends(
                            old(writer)@,
                            enc_array_header(m.len()) + pack_items::<T>(m.subrange(0, i as int)),
                            writer@,
                        );
                    }
                    return Err(e);
                },
            }
            proof {
                assert(m.subrange(0, i + 1).drop_last() =~= m.subrange(0, i as int));
                assert(m.subrange(0, i + 1).last() == m[i as int]);
            }
            i = i + 1;
            assert(writer@ =~= old(writer)@ + enc_array_header(m.len()) + pack_items::<T>(
                m.subrange(0, i as int),
            ));
        }
        assert(m.subrange(0, m.len() as int) =~= m);
        Ok(())
    }

    fn unpack(reader: &mut ReadDecoder) -> (r: Result<Vec<T>, DecodeError>) {
        let ghost s = reader.rest();
        let n = reader.read_array_length()?;
        let ghost h = reader.pos - old(reader).pos;
        let ghost body = s.subrange(h, s.len() as int);
        let mut items: Vec<T> = Vec::new();
        assert(models(items@) =~= Seq::<T::Model>::empty());
        let mut i: u32 = 0;
        while i < n
            invariant
                reader.wf(),
                reader.buffer@ == old(reader).buffer@,
                reader.context == old(reader).context,
                s == old(reader).rest(),
                0 <= h,
                old(reader).pos + h <= reader.pos,
                body == s.subrange(h, s.len() as int),
                i <= n,
                dec_array_len(s) == got(n as nat, h),
                unpack_items::<T>(body, i as nat) == got(
                    models(items@),
                    reader.pos - old(reader).pos - h,
                ),
            decreases n - i,
        {
            let ghost k = reader.pos - old(reader).pos - h;
            assert(reader.rest() =~= body.subrange(k, body.len() as int));
            let x = match T::unpack(reader) {
                Ok(x) => x,
                Err(e) => {
                    proof {
                        lemma_unpack_items_fails::<T>(body, (i + 1) as nat, n as nat);
                    }
                    return Err(e);
                },
            };
            let ghost prev = models(items@);
            items.push(x);
            assert(models(items@) =~= prev.push(x.model()));
            i = i + 1;
        }
        Ok(items)
    }

    proof fn lemma_round_trip(m: Seq<T::Model>, rest: Seq<u8>) {
        let body = pack_items::<T>(m) + rest;
        let s = Self::pack_spec(m) + rest;
        assert(s =~= enc_array_header(m.len()) + body);
        lemma_array_header_round_trip(m.len(), body);
        let h = enc_array_header(m.len()).len() as int;
        assert(s.subrange(h, s.len() as int) =~= body);
        lemma_items_round_trip::<T>(m, rest);
    }

    proof fn lemma_nil_form(m: Seq<T::Model>) {
    }
}

impl<T: Pack> Pack for Option<T> {
    type Model = Option<T::Model>;

    open spec fn model(&self) -> Option<T::Model> {
        match self {
            None => None,
            Some(x) => Some(x.model()),
        }
    }

    open spec fn encodable(m: Option<T::Model>) -> bool {
        match m {
            None => true,
            Some(x) => T::encodable(x),
        }
    }

    open spec fn faithful(m: Option<T::Model>) -> bool {
        match m {
            None => true,
            Some(x) => T::faithful(x) && !T::nil_form(x),
        }
    }

    open spec fn write_fault(m: Option<T::Model>, e: EncodeError) -> bool {
        match m {
            None => false,
            Some(x) => T::write_fault(x, e),
        }
    }

    open spec fn nil_form(m: Option<T::Model>) -> bool {
        match m {
            None => true,
            Some(x) => T::nil_form(x),
        }
    }

    open spec fn pack_spec(m: Option<T::Model>) -> Seq<u8> {
        match m {
            None => enc_nil(),
            Some(x) => T::pack_spec(x),
        }
    }

    open spec fn unpack_spec(s: Seq<u8>) -> Scan<Option<T::Model>> {
        if s.len() == 0 {
            Err(Fault::Exhausted)
        } else if s[0] == 0xc0 {
            Ok((None, 1))
        } else {
            match T::unpack_spec(s) {
                Ok((x, n)) => Ok((Some(x), n)),
                Err(f) => Err(f),
            }
        }
    }

    fn pack(&self, writer: &mut WriteEncoder) -> (r: Result<(), EncodeError>) {
        match self {
            None => writer.write_nil(),
            Some(x) => x.pack(writer),
        }
    }

    fn unpack(reader: &mut ReadDecoder) -> (r: Result<Option<T>, DecodeError>) {
        if reader.is_next_nil()? {
            reader.read_nil()?;
            Ok(None)
        } else {
            let x = T::unpack(reader)?;
            Ok(Some(x))
        }
    }

    proof fn lemma_round_trip(m: Option<T::Model>, rest: Seq<u8>) {
        match m {
            None => {},
            Some(x) => {
                T::lemma_nil_form(x);
                T::lemma_round_trip(x, rest);
            },
        }
    }

    proof fn lemma_nil_form(m: Option<T::Model>) {
        match m {
            None => {},
            Some(x) => {
                T::lemma_nil_form(x);
            },
        }
    }
}

impl WriteEncoder {
    /// Writes any value with a wire form.
    pub fn write<T: Pack>(&mut self, value: &T) -> (r: Result<(), EncodeError>)
        ensures
            r is Ok <==> T::encodable(value.model()),
            r is Ok ==> final(self)@ == old(self)@ + T::pack_spec(value.model()),
            r matches Err(e) ==> T::write_fault(value.model(), e) && old(self)@.is_prefix_of(
                final(self)@,
            ),
            final(self).context == old(self).context,
    {
        value.pack(self)
    }

    /// Writes the array length, then each item in order.
    pub fn write_array<T: Pack>(&mut self, array: &Vec<T>) -> (r: Result<(), EncodeError>)
        ensures
            r is Ok <==> Vec::<T>::encodable(array.model()),
            r is Ok ==> final(self)@ == old(self)@ + enc_array_header(array@.len())
                + pack_items::<T>(array.model()),
            r matches Err(e) ==> Vec::<T>::write_fault(array.model(), e) && old(
                self,
            )@.is_prefix_of(final(self)@),
            final(self).context == old(self).context,
    {
        array.pack(self)
    }

    /// Writes nil for an absent array, else the array.
    pub fn write_nullable_array<T: Pack>(&mut self, opt_array: &Option<Vec<T>>) -> (r: Result<
        (),
        EncodeError,
    >)
        ensures
            r is Ok <==> Option::<Vec<T>>::encodable(opt_array.model()),
            r is Ok ==> final(self)@ == old(self)@ + Option::<Vec<T>>::pack_spec(
                opt_array.model(),
            ),
            r matches Err(e) ==> Option::<Vec<T>>::write_fault(opt_array.model(), e) && old(
                self,
            )@.is_prefix_of(final(self)@),
            final(self).context == old(self).context,
    {
        opt_array.pack(self)
    }
}

impl ReadDecoder {
    /// Reads any value with a wire form.
    pub fn read<T: Pack>(&mut self) -> (r: Result<T, DecodeError>)
        requires
            old(self).wf(),
        ensures
            final(self).reads(*old(self), T::unpack_spec(old(self).rest()), r, |x: T| x.model()),
    {
        T::unpack(self)
    }

    /// Reads the array length, then that many items.
    pub fn read_array<T: Pack>(&mut self) -> (r: Result<Vec<T>, DecodeError>)
        requires
            old(self).wf(),
        ensures
            final(self).reads(
                *old(self),
                Vec::<T>::unpack_spec(old(self).rest()),
                r,
                |x: Vec<T>| x.model(),
            ),
    {
        Vec::<T>::unpack(self)
    }

    /// Reads nil as an absent array, else an array.
    pub fn read_nullable_array<T: Pack>(&mut self) -> (r: Result<Option<Vec<T>>, DecodeError>)
        requires
            old(self).wf(),
        ensures
            final(self).reads(
                *old(self),
                Option::<Vec<T>>::unpack_spec(old(self).rest()),
                r,
                |x: Option<Vec<T>>| x.model(),
            ),
    {
        Option::<Vec<T>>::unpack(self)
    }

    pub fn read_nullable_bool(&mut self) -> (r: Result<Option<bool>, DecodeError>)
        requires
            old(self).wf(),
        ensures
            final(self).reads(
                *old(self),
                Option::<bool>::unpack_spec(old(self).rest()),
                r,
                |x: Option<bool>| x.model(),
            ),
    {
        Option::<bool>::unpack(self)
    }

    pub fn read_nullable_i8(&mut self) -> (r: Result<Option<i8>, DecodeError>)
        requires
            old(self).wf(),
        ensures
            final(self).reads(
                *old(self),
                Option::<i8>::unpack_spec(old(self).rest()),
                r,
                |x: Option<i8>| x.model(),
            ),
    {
        Option::<i8>::unpack(self)
    }

    pub fn read_nullable_i16(&mut self) -> (r: Result<Option<i16>, DecodeError>)
        requires
            old(self).wf(),
        ensures
            final(self).reads(
                *old(self),
                Option::<i16>::unpack_spec(old(self).rest()),
                r,
                |x: Option<i16>| x.model(),
            ),
    {
        Option::<i16>::unpack(self)
    }

    pub fn read_nullable_i32(&mut self) -> (r: Result<Option<i32>, DecodeError>)
        requires
            old(self).wf(),
        ensures
            final(self).reads(
                *old(self),
                Option::<i32>::unpack_spec(old(self).rest()),
                r,
                |x: Option<i32>| x.model(),
            ),
    {
        Option::<i32>::unpack(self)
    }

    pub fn read_nullable_i64(&mut self) -> (r: Result<Option<i64>, DecodeError>)
        requires
            old(self).wf(),
        ensures
            final(self).reads(
                *old(self),
                Option::<i64>::unpack_spec(old(self).rest()),
                r,
                |x: Option<i64>| x.model(),
            ),
    {
        Option::<i64>::unpack(self)
    }

    pub fn read_nullable_u8(&mut self) -> (r: Result<Option<u8>, DecodeError>)
        requires
            old(self).wf(),
        ensures
            final(self).reads(
                *old(self),
                Option::<u8>::unpack_spec(old(self).rest()),
                r,
                |x: Option<u8>| x.model(),
            ),
    {
        Option::<u8>::unpack(self)
    }

    pub fn read_nullable_u16(&mut self) -> (r: Result<Option<u16>, DecodeError>)
        requires
            old(self).wf(),
        ensures
            final(self).reads(
                *old(self),
                Option::<u16>::unpack_spec(old(self).rest()),
                r,
                |x: Option<u16>| x.model(),
            ),
    {
        Option::<u16>::unpack(self)
    }

    pub fn read_nullable_u32(&mut self) -> (r: Result<Option<u32>, DecodeError>)
        requires
            old(self).wf(),
        ensures
            final(self).reads(
                *old(self),
                Option::<u32>::unpack_spec(old(self).rest()),
                r,
                |x: Option<u32>| x.model(),
            ),
    {
        Option::<u32>::unpack(self)
    }

    pub fn read_nullable_u64(&mut self) -> (r: Result<Option<u64>, DecodeError>)
        requires
            old(self).wf(),
        ensures
            final(self).reads(
                *old(self),
                Option::<u64>::unpack_spec(old(self).rest()),
                r,
                |x: Option<u64>| x.model(),
            ),
    {
        Option::<u64>::unpack(self)
    }

    pub fn read_nullable_string(&mut self) -> (r: Result<Option<String>, DecodeError>)
        requires
            old(self).wf(),
        ensures
            final(self).reads(
                *old(self),
                Option::<String>::unpack_spec(old(self).rest()),
                r,
                |x: Option<String>| x.model(),
            ),
    {
        Option::<String>::unpack(self)
    }
}

} // verus!
