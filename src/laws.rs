//! What holds of the codec as a whole.
use vstd::prelude::*;

use crate::format::{
    be32, be64, dec_bin, dec_f32_bits, dec_f64_bits, dec_nil, enc_bin, enc_nil, enc_uint, got,
    lemma_be32_at, lemma_be64_at, lemma_bin_round_trip, lemma_uint_width,
};
use crate::pack::{pack_items, Pack};
use crate::format::enc_array_header;
use crate::sorted_map::{entries_map, lemma_sorted_entries_unique, SortedMap};

verus! {

/// Writing a value and reading it back as the same type gives the value
/// again, and the read stops exactly where the value ends: for booleans,
/// every integer width, strings, optionals, arrays nested to any depth and
/// sorted maps, empty ones and absent ones included.
pub proof fn law_round_trip<T: Pack>(v: T::Model, rest: Seq<u8>)
    requires
        T::encodable(v),
        T::faithful(v),
    ensures
        T::unpack_spec(T::pack_spec(v) + rest) == got(v, T::pack_spec(v).len() as int),
{
    T::lemma_round_trip(v, rest);
}

/// What `write_array` appends for an array, `read_array` reads back as the
/// same items in the same order, the empty array included.
pub proof fn law_array_round_trip<T: Pack>(xs: Seq<T::Model>, rest: Seq<u8>)
    requires
        Vec::<T>::encodable(xs),
        Vec::<T>::faithful(xs),
    ensures
        Vec::<T>::unpack_spec(enc_array_header(xs.len()) + pack_items::<T>(xs) + rest) == got(
            xs,
            (enc_array_header(xs.len()) + pack_items::<T>(xs)).len() as int,
        ),
{
    Vec::<T>::lemma_round_trip(xs, rest);
}

/// What `write_nullable_array` appends, `read_nullable_array` reads back:
/// an absent array as absent, a present one (nested or empty) as itself.
pub proof fn law_nullable_array_round_trip<T: Pack>(o: Option<Seq<T::Model>>, rest: Seq<u8>)
    requires
        Option::<Vec<T>>::encodable(o),
        Option::<Vec<T>>::faithful(o),
    ensures
        Option::<Vec<T>>::unpack_spec(Option::<Vec<T>>::pack_spec(o) + rest) == got(
            o,
            Option::<Vec<T>>::pack_spec(o).len() as int,
        ),
{
    Option::<Vec<T>>::lemma_round_trip(o, rest);
}

/// What `write_map` appends for a map, `read_map` reads back as a map with
/// the same keys, each with the same value.
pub proof fn law_map_round_trip<V: Pack>(m: SortedMap<V>, rest: Seq<u8>)
    requires
        m.wf(),
        SortedMap::<V>::encodable(m.model()),
        forall|i: int| 0 <= i < m.model().len() ==> V::faithful(#[trigger] m.model()[i].1),
    ensures
        SortedMap::<V>::unpack_spec(SortedMap::<V>::pack_spec(m.model()) + rest) matches Ok(
            (e, n),
        ) && e == m.model() && entries_map(e) == m.view_map() && n == SortedMap::<
            V,
        >::pack_spec(m.model()).len(),
{
    SortedMap::<V>::lemma_round_trip(m.model(), rest);
}

/// A byte buffer reads back as itself; the empty one is written as nil and
/// read back as empty.
pub proof fn law_bytes_round_trip(b: Seq<u8>, rest: Seq<u8>)
    requires
        b.len() <= u32::MAX,
    ensures
        dec_bin(enc_bin(b) + rest) == got(b, enc_bin(b).len() as int),
{
    lemma_bin_round_trip(b, rest);
}

/// Nil reads back as nil.
pub proof fn law_nil_round_trip(rest: Seq<u8>)
    ensures
        dec_nil(enc_nil() + rest) == got((), 1),
{
}

/// A float's bits read back as themselves, at either width.
pub proof fn law_float_bits_round_trip(bits32: u32, bits64: u64, rest: Seq<u8>)
    ensures
        dec_f32_bits(seq![0xcau8] + be32(bits32 as nat) + rest) == got(bits32 as nat, 5),
        dec_f64_bits(seq![0xcbu8] + be64(bits64 as nat) + rest) == got(bits64 as nat, 9),
{
    let s = seq![0xcau8] + be32(bits32 as nat) + rest;
    assert(s.subrange(1, 5) =~= be32(bits32 as nat));
    lemma_be32_at(bits32 as nat, s, 1);
    let t = seq![0xcbu8] + be64(bits64 as nat) + rest;
    assert(t.subrange(1, 9) =~= be64(bits64 as nat));
    lemma_be64_at(bits64 as nat, t, 1);
}

/// An unsigned integer takes the narrowest form that holds it: one byte
/// below 128, two below 256, three below 65536, five below 2^32, else nine.
pub proof fn law_minimal_uint(v: nat)
    requires
        v <= u64::MAX,
    ensures
        v < 0x80 ==> enc_uint(v).len() == 1,
        0x80 <= v < 0x100 ==> enc_uint(v).len() == 2,
        0x100 <= v < 0x10000 ==> enc_uint(v).len() == 3,
        0x10000 <= v < 0x1_0000_0000 ==> enc_uint(v).len() == 5,
        0x1_0000_0000 <= v ==> enc_uint(v).len() == 9,
{
    lemma_uint_width(v);
}

/// Two maps that hold the same keys and values are written as the same
/// bytes, whatever order their keys were inserted in.
pub proof fn law_map_bytes_follow_content<V: Pack>(m1: SortedMap<V>, m2: SortedMap<V>)
    requires
        m1.wf(),
        m2.wf(),
        m1.view_map() == m2.view_map(),
    ensures
        m1.model() == m2.model(),
        SortedMap::<V>::pack_spec(m1.model()) == SortedMap::<V>::pack_spec(m2.model()),
{
    lemma_sorted_entries_unique(m1.model(), m2.model());
}

} // verus!
