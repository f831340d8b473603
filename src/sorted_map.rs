//! A map from string keys that keeps its entries sorted by the keys' UTF-8
//! bytes, so that equal maps are written as equal bytes.
use vstd::prelude::*;
use vstd::pervasive::VecAdditionalExecFns;
use vstd::utf8::encode_utf8;

use crate::error::{DecodeError, EncodeError};
use crate::format::{
    dec_map_len, dec_str, enc_map_header, enc_str, got, lemma_map_header_round_trip,
    lemma_str_round_trip, Scan,
};
use crate::pack::{lemma_prefix_extends, Pack};
use crate::read_decoder::ReadDecoder;
use crate::write_encoder::WriteEncoder;

verus! {

broadcast use vstd::set::group_set_axioms;

/// Byte-wise lexicographic order, the order of `str`'s `Ord`.
pub open spec fn bytes_lt(a: Seq<u8>, b: Seq<u8>) -> bool
    decreases a.len(),
{
    if a.len() == 0 {
        b.len() > 0
    } else if b.len() == 0 {
        false
    } else if a[0] != b[0] {
        a[0] < b[0]
    } else {
        bytes_lt(a.drop_first(), b.drop_first())
    }
}

/// The order of keys: that of their UTF-8 bytes.
pub open spec fn key_lt(a: Seq<char>, b: Seq<char>) -> bool {
    bytes_lt(encode_utf8(a), encode_utf8(b))
}

pub proof fn lemma_bytes_lt_irreflexive(a: Seq<u8>)
    ensures
        !bytes_lt(a, a),
    decreases a.len(),
{
    if a.len() > 0 {
        lemma_bytes_lt_irreflexive(a.drop_first());
    }
}

pub proof fn lemma_bytes_lt_transitive(a: Seq<u8>, b: Seq<u8>, c: Seq<u8>)
    requires
        bytes_lt(a, b),
        bytes_lt(b, c),
    ensures
        bytes_lt(a, c),
    decreases a.len(),
{
    if a.len() > 0 && b.len() > 0 && c.len() > 0 && a[0] == b[0] && b[0] == c[0] {
        lemma_bytes_lt_transitive(a.drop_first(), b.drop_first(), c.drop_first());
    }
}

pub proof fn lemma_bytes_lt_asymmetric(a: Seq<u8>, b: Seq<u8>)
    ensures
        !(bytes_lt(a, b) && bytes_lt(b, a)),
{
    if bytes_lt(a, b) && bytes_lt(b, a) {
        lemma_bytes_lt_transitive(a, b, a);
        lemma_bytes_lt_irreflexive(a);
    }
}

/// Two keys are equal exactly when their bytes are.
pub proof fn lemma_key_bytes_injective(a: Seq<char>, b: Seq<char>)
    ensures
        (encode_utf8(a) == encode_utf8(b)) == (a == b),
{
    vstd::utf8::encode_utf8_decode_utf8(a);
    vstd::utf8::encode_utf8_decode_utf8(b);
}

/// After a common prefix, the order is that of what follows.
proof fn lemma_bytes_lt_after_prefix(a: Seq<u8>, b: Seq<u8>, i: int)
    requires
        0 <= i <= a.len(),
        i <= b.len(),
        a.subrange(0, i) == b.subrange(0, i),
    ensures
        bytes_lt(a, b) == bytes_lt(a.subrange(i, a.len() as int), b.subrange(i, b.len() as int)),
    decreases i,
{
    if i > 0 {
        assert(a[0] == a.subrange(0, i)[0]);
        assert(b[0] == b.subrange(0, i)[0]);
        assert(a.drop_first().subrange(0, i - 1) =~= a.subrange(0, i).drop_first());
        assert(b.drop_first().subrange(0, i - 1) =~= b.subrange(0, i).drop_first());
        lemma_bytes_lt_after_prefix(a.drop_first(), b.drop_first(), i - 1);
        assert(a.drop_first().subrange(i - 1, a.len() - 1) =~= a.subrange(i, a.len() as int));
        assert(b.drop_first().subrange(i - 1, b.len() - 1) =~= b.subrange(i, b.len() as int));
    } else {
        assert(a.subrange(0, a.len() as int) =~= a);
        assert(b.subrange(0, b.len() as int) =~= b);
    }
}

/// Compares two byte strings: negative, zero or positive as `a` is below,
/// equal to, or above `b`.
pub fn compare_bytes(a: &[u8], b: &[u8]) -> (r: i8)
    ensures
        r < 0 <==> bytes_lt(a@, b@),
        r == 0 <==> a@ == b@,
        r > 0 <==> bytes_lt(b@, a@),
{
    let mut i: usize = 0;
    while i < a.len() && i < b.len() && a[i] == b[i]
        invariant
            i <= a@.len(),
            i <= b@.len(),
            a@.subrange(0, i as int) == b@.subrange(0, i as int),
        decreases a@.len() - i,
    {
        i = i + 1;
        assert(a@.subrange(0, i as int) =~= a@.subrange(0, i - 1).push(a@[i - 1]));
        assert(b@.subrange(0, i as int) =~= b@.subrange(0, i - 1).push(b@[i - 1]));
    }
    proof {
        lemma_bytes_lt_after_prefix(a@, b@, i as int);
        lemma_bytes_lt_after_prefix(b@, a@, i as int);
        lemma_bytes_lt_asymmetric(a@, b@);
        lemma_bytes_lt_irreflexive(a@);
    }
    if i < a.len() && i < b.len() {
        if a[i] < b[i] {
            -1
        } else {
            1
        }
    } else if i < b.len() {
        -1
    } else if i < a.len() {
        1
    } else {
        assert(a@ =~= a@.subrange(0, i as int));
        assert(b@ =~= b@.subrange(0, i as int));
        0
    }
}

/// Whether two texts are the same.
pub fn same_text(a: &str, b: &str) -> (r: bool)
    ensures
        r == (a@ == b@),
{
    let c = compare_bytes(a.as_bytes(), b.as_bytes());
    proof {
        lemma_key_bytes_injective(a@, b@);
    }
    c == 0
}

/// Entries as text keys and values.
pub type Entries<M> = Seq<(Seq<char>, M)>;

/// Keys strictly increase along the entries.
pub open spec fn sorted<M>(e: Entries<M>) -> bool {
    forall|i: int, j: int| 0 <= i < j < e.len() ==> key_lt(#[trigger] e[i].0, #[trigger] e[j].0)
}

pub open spec fn has_key<M>(e: Entries<M>, k: Seq<char>) -> bool {
    exists|i: int| 0 <= i < e.len() && e[i].0 == k
}

/// An index at which the key sits, where it does.
pub open spec fn index_of<M>(e: Entries<M>, k: Seq<char>) -> int {
    choose|i: int| 0 <= i < e.len() && e[i].0 == k
}

/// The mapping that the entries stand for.
pub open spec fn entries_map<M>(e: Entries<M>) -> Map<Seq<char>, M> {
    Map::new(|k: Seq<char>| has_key(e, k), |k: Seq<char>| e[index_of(e, k)].1)
}

/// In sorted entries, a key sits at one index only.
pub proof fn lemma_sorted_index_unique<M>(e: Entries<M>, i: int, j: int)
    requires
        sorted(e),
        0 <= i < e.len(),
        0 <= j < e.len(),
        e[i].0 == e[j].0,
    ensures
        i == j,
{
    lemma_bytes_lt_irreflexive(encode_utf8(e[i].0));
    if i < j {
        assert(key_lt(e[i].0, e[j].0));
    } else if j < i {
        assert(key_lt(e[j].0, e[i].0));
    }
}

/// Each entry of sorted entries is in their mapping.
pub proof fn lemma_entries_map_at<M>(e: Entries<M>, i: int)
    requires
        sorted(e),
        0 <= i < e.len(),
    ensures
        entries_map(e).contains_key(e[i].0),
        entries_map(e)[e[i].0] == e[i].1,
{
    let k = e[i].0;
    assert(has_key(e, k));
    let j = index_of(e, k);
    lemma_sorted_index_unique(e, i, j);
    assert(entries_map(e)[k] == e[j].1);
}

/// Sorted entries are determined by their mapping: whatever order the
/// keys went in, equal maps have equal entries.
pub proof fn lemma_sorted_entries_unique<M>(e1: Entries<M>, e2: Entries<M>)
    requires
        sorted(e1),
        sorted(e2),
        entries_map(e1) == entries_map(e2),
    ensures
        e1 == e2,
    decreases e1.len(),
{
    if e1.len() == 0 {
        if e2.len() > 0 {
            lemma_entries_map_at(e2, 0);
        }
        assert(e1 =~= e2);
    } else {
        lemma_entries_map_at(e1, 0);
        let k1 = e1[0].0;
        assert(has_key(e2, k1));
        let j = choose|j: int| 0 <= j < e2.len() && e2[j].0 == k1;
        lemma_entries_map_at(e2, 0);
        let k2 = e2[0].0;
        assert(has_key(e1, k2));
        let i = choose|i: int| 0 <= i < e1.len() && e1[i].0 == k2;
        if j > 0 && i > 0 {
            assert(key_lt(e2[0].0, e2[j].0));
            assert(key_lt(e1[0].0, e1[i].0));
            lemma_bytes_lt_asymmetric(encode_utf8(k1), encode_utf8(k2));
        }
        if j == 0 {
            assert(k1 == k2);
        } else {
            assert(k1 == k2);
        }
        lemma_entries_map_at(e2, 0);
        assert(e1[0] == e2[0]);
        let t1 = e1.drop_first();
        let t2 = e2.drop_first();
        assert(sorted(t1)) by {
            assert forall|a: int, b: int| 0 <= a < b < t1.len() implies key_lt(
                #[trigger] t1[a].0,
                #[trigger] t1[b].0,
            ) by {
                assert(t1[a] == e1[a + 1] && t1[b] == e1[b + 1]);
            }
        }
        assert(sorted(t2)) by {
            assert forall|a: int, b: int| 0 <= a < b < t2.len() implies key_lt(
                #[trigger] t2[a].0,
                #[trigger] t2[b].0,
            ) by {
                assert(t2[a] == e2[a + 1] && t2[b] == e2[b + 1]);
            }
        }
        assert forall|k: Seq<char>| has_key(t1, k) implies has_key(t2, k) && entries_map(t1)[k]
            == entries_map(t2)[k] by {
            let a = choose|a: int| 0 <= a < t1.len() && t1[a].0 == k;
            lemma_entries_map_at(t1, a);
            lemma_entries_map_at(e1, a + 1);
            assert(has_key(e2, k));
            let b = choose|b: int| 0 <= b < e2.len() && e2[b].0 == k;
            lemma_entries_map_at(e2, b);
            if b == 0 {
                lemma_sorted_index_unique(e1, 0, a + 1);
            }
            assert(t2[b - 1] == e2[b]);
            lemma_entries_map_at(t2, b - 1);
        }
        assert forall|k: Seq<char>| has_key(t2, k) implies has_key(t1, k) by {
            let b = choose|b: int| 0 <= b < t2.len() && t2[b].0 == k;
            lemma_entries_map_at(e2, b + 1);
            let a = choose|a: int| 0 <= a < e1.len() && e1[a].0 == k;
            if a == 0 {
                lemma_sorted_index_unique(e2, 0, b + 1);
            }
            assert(t1[a - 1] == e1[a]);
        }
        assert(entries_map(t1) =~= entries_map(t2));
        lemma_sorted_entries_unique(t1, t2);
        assert(e1 =~= seq![e1[0]] + t1);
        assert(e2 =~= seq![e2[0]] + t2);
    }
}

/// The sorted entries of the mapping that `e` stands for, with `k` set to `v`.
pub open spec fn entries_insert<M>(e: Entries<M>, k: Seq<char>, v: M) -> Entries<M> {
    choose|r: Entries<M>| sorted(r) && entries_map(r) == entries_map(e).insert(k, v)
}

/// Sorted entries with the right mapping are the ones `entries_insert` names.
proof fn lemma_entries_insert_is<M>(e: Entries<M>, k: Seq<char>, v: M, r: Entries<M>)
    requires
        sorted(r),
        entries_map(r) == entries_map(e).insert(k, v),
    ensures
        r == entries_insert(e, k, v),
{
    let c = entries_insert(e, k, v);
    assert(sorted(c) && entries_map(c) == entries_map(e).insert(k, v));
    lemma_sorted_entries_unique(r, c);
}

/// A map from string keys, its entries sorted by the keys' bytes.
#[derive(Debug)]
pub struct SortedMap<V: Pack> {
    entries: Vec<(String, V)>,
}

/// Stored entries as text keys and value models, in order.
pub open spec fn entry_models<V: Pack>(v: Seq<(String, V)>) -> Entries<V::Model> {
    Seq::new(v.len(), |i: int| (v[i].0@, v[i].1.model()))
}

impl<V: Pack> SortedMap<V> {
    /// The entries as text keys and value models, in order.
    pub closed spec fn model(&self) -> Entries<V::Model> {
        entry_models(self.entries@)
    }

    /// Every map keeps its keys sorted.
    #[verifier::type_invariant]
    spec fn keys_sorted(&self) -> bool {
        sorted(self.model())
    }

    pub open spec fn wf(&self) -> bool {
        sorted(self.model())
    }

    /// The mapping from keys to value models.
    pub open spec fn view_map(&self) -> Map<Seq<char>, V::Model> {
        entries_map(self.model())
    }

    pub fn new() -> (r: SortedMap<V>)
        ensures
            r.wf(),
            r.model().len() == 0,
    {
        SortedMap { entries: Vec::new() }
    }

    pub fn len(&self) -> (r: usize)
        ensures
            r == self.model().len(),
    {
        proof {
            use_type_invariant(self);
        }
        self.entries.len()
    }

    /// The index of the first key not below `key`, and whether it is `key`.
    fn locate(entries: &Vec<(String, V)>, key: &str) -> (r: (usize, bool))
        requires
            sorted(entry_models(entries@)),
        ensures
            r.0 <= entry_models(entries@).len(),
            forall|j: int| 0 <= j < r.0 ==> key_lt(#[trigger] entry_models(entries@)[j].0, key@),
            r.1 <==> (r.0 < entry_models(entries@).len() && entry_models(entries@)[r.0 as int].0 == key@),
            !r.1 ==> forall|j: int|
                r.0 <= j < entry_models(entries@).len() ==> key_lt(key@, #[trigger] entry_models(entries@)[j].0),
    {
        let kb = key.as_bytes();
        let n = entries.len();
        let mut i: usize = 0;
        let mut c: i8 = -1;
        while i < n && c < 0
            invariant
                n == entry_models(entries@).len(),
                kb@ == encode_utf8(key@),
                i <= n,
                forall|j: int| 0 <= j < i ==> key_lt(#[trigger] entry_models(entries@)[j].0, key@),
                c >= 0 ==> i < n,
                c == 0 ==> entry_models(entries@)[i as int].0 == key@,
                c > 0 ==> key_lt(key@, entry_models(entries@)[i as int].0),
            decreases n - i + (if c < 0 { 1int } else { 0int }),
        {
            assert(entry_models(entries@)[i as int].0 == entries@[i as int].0@);
            let eb = entries[i].0.as_str().as_bytes();
            assert(eb@ == encode_utf8(entry_models(entries@)[i as int].0));
            assert(kb@ == encode_utf8(key@));
            c = compare_bytes(eb, kb);
            proof {
                lemma_key_bytes_injective(entry_models(entries@)[i as int].0, key@);
                lemma_bytes_lt_irreflexive(encode_utf8(key@));
            }
            if c < 0 {
                i = i + 1;
            }
        }
        let ghost m = entry_models(entries@);
        proof {
            lemma_bytes_lt_irreflexive(encode_utf8(key@));
        }
        if c != 0 {
            assert forall|j: int| i <= j < m.len() implies key_lt(key@, #[trigger] m[j].0) by {
                if j > i {
                    lemma_bytes_lt_transitive(
                        encode_utf8(key@),
                        encode_utf8(m[i as int].0),
                        encode_utf8(m[j].0),
                    );
                }
            }
        }
        (i, c == 0)
    }

    /// Sets `key` to `value`, keeping the keys sorted.
    pub fn insert(&mut self, key: String, value: V)
        ensures
            final(self).wf(),
            final(self).view_map() == old(self).view_map().insert(key@, value.model()),
            final(self).model() == entries_insert(old(self).model(), key@, value.model()),
    {
        proof {
            use_type_invariant(&*self);
        }
        let mut entries: Vec<(String, V)> = Vec::new();
        std::mem::swap(&mut entries, &mut self.entries);
        let (i, found) = Self::locate(&entries, key.as_str());
        let ghost m = entry_models(entries@);
        let ghost k = key@;
        let ghost v = value.model();
        if found {
            entries.set(i, (key, value));
            let ghost r = entry_models(entries@);
            assert(r =~= m.update(i as int, (k, v)));
            assert(sorted(r)) by {
                assert forall|a: int, b: int| 0 <= a < b < r.len() implies key_lt(
                    #[trigger] r[a].0,
                    #[trigger] r[b].0,
                ) by {
                    assert(r[a].0 == m[a].0 && r[b].0 == m[b].0);
                }
            }
            assert forall|key2: Seq<char>| has_key(r, key2) <==> has_key(m, key2) || key2 == k by {
                if has_key(m, key2) {
                    let j = index_of(m, key2);
                    assert(r[j].0 == key2);
                }
                if has_key(r, key2) {
                    let j = index_of(r, key2);
                    assert(m[j].0 == key2);
                }
                if key2 == k {
                    assert(r[i as int].0 == key2);
                }
            }
            assert forall|key2: Seq<char>| #[trigger] has_key(r, key2) implies entries_map(r)[key2]
                == entries_map(m).insert(k, v)[key2] by {
                let j = index_of(r, key2);
                lemma_entries_map_at(r, j);
                if key2 != k {
                    assert(m[j] == r[j]);
                    lemma_entries_map_at(m, j);
                } else {
                    lemma_sorted_index_unique(r, i as int, j);
                }
            }
            assert(entries_map(r) =~= entries_map(m).insert(k, v));
            proof {
                lemma_entries_insert_is(m, k, v, r);
            }
        } else {
            entries.insert(i, (key, value));
            let ghost r = entry_models(entries@);
            assert(r =~= m.insert(i as int, (k, v)));
            assert(sorted(r)) by {
                assert forall|a: int, b: int| 0 <= a < b < r.len() implies key_lt(
                    #[trigger] r[a].0,
                    #[trigger] r[b].0,
                ) by {
                    if b < i {
                    } else if b == i {
                    } else if a < i {
                        assert(r[b] == m[b - 1]);
                        lemma_bytes_lt_transitive(
                            encode_utf8(m[a].0),
                            encode_utf8(k),
                            encode_utf8(m[b - 1].0),
                        );
                    } else if a == i {
                        assert(r[b] == m[b - 1]);
                    } else {
                        assert(r[a] == m[a - 1] && r[b] == m[b - 1]);
                    }
                }
            }
            assert forall|key2: Seq<char>| has_key(r, key2) <==> has_key(m, key2) || key2 == k by {
                if has_key(m, key2) {
                    let j = index_of(m, key2);
                    if j < i {
                        assert(r[j].0 == key2);
                    } else {
                        assert(r[j + 1].0 == key2);
                    }
                }
                if has_key(r, key2) {
                    let j = index_of(r, key2);
                    if j < i {
                        assert(m[j].0 == key2);
                    } else if j > i {
                        assert(m[j - 1].0 == key2);
                    }
                }
                if key2 == k {
                    assert(r[i as int].0 == key2);
                }
            }
            assert forall|key2: Seq<char>| #[trigger] has_key(r, key2) implies entries_map(r)[key2]
                == entries_map(m).insert(k, v)[key2] by {
                let j = index_of(r, key2);
                lemma_entries_map_at(r, j);
                if j < i {
                    assert(m[j] == r[j]);
                    lemma_entries_map_at(m, j);
                    lemma_bytes_lt_irreflexive(encode_utf8(k));
                } else if j > i {
                    assert(m[j - 1] == r[j]);
                    lemma_entries_map_at(m, j - 1);
                    lemma_bytes_lt_irreflexive(encode_utf8(k));
                }
            }
            assert(entries_map(r) =~= entries_map(m).insert(k, v));
            proof {
                lemma_entries_insert_is(m, k, v, r);
            }
        }
        self.entries = entries;
    }

    /// The value at `key`, if the map holds it.
    pub fn get(&self, key: &str) -> (r: Option<&V>)
        ensures
            r is Some <==> self.view_map().contains_key(key@),
            r matches Some(v) ==> v.model() == self.view_map()[key@],
    {
        proof {
            use_type_invariant(self);
        }
        let (i, found) = Self::locate(&self.entries, key);
        let ghost m = self.model();
        if found {
            proof {
                lemma_entries_map_at(m, i as int);
            }
            Some(&self.entries[i].1)
        } else {
            proof {
                if has_key(m, key@) {
                    let j = index_of(m, key@);
                    lemma_bytes_lt_irreflexive(encode_utf8(key@));
                    if j < i {
                        assert(key_lt(m[j].0, key@));
                    } else {
                        assert(key_lt(key@, m[j].0));
                    }
                }
            }
            None
        }
    }
}

/// Whether `e` is the error that writing one entry fails with: its key
/// too long for a 32-bit length, else its value's error.
pub open spec fn entry_write_fault<V: Pack>(entry: (Seq<char>, V::Model), e: EncodeError) -> bool {
    if encode_utf8(entry.0).len() > u32::MAX {
        e is StrWriteError
    } else {
        !V::encodable(entry.1) && V::write_fault(entry.1, e)
    }
}

/// Entries in their wire form: each key, then its value.
pub open spec fn pack_entries<V: Pack>(m: Entries<V::Model>) -> Seq<u8>
    decreases m.len(),
{
    if m.len() == 0 {
        Seq::empty()
    } else {
        pack_entries::<V>(m.drop_last()) + enc_str(m.last().0) + V::pack_spec(m.last().1)
    }
}

/// `n` key-value pairs read from the start of `s`, each set in the map in
/// turn (a later pair with an earlier key replaces its value).
pub open spec fn unpack_entries<V: Pack>(s: Seq<u8>, n: nat) -> Scan<Entries<V::Model>>
    decreases n,
{
    if n == 0 {
        Ok((Seq::empty(), 0))
    } else {
        match unpack_entries::<V>(s, (n - 1) as nat) {
            Ok((e, k)) => match dec_str(s.subrange(k, s.len() as int)) {
                Ok((key, j)) => match V::unpack_spec(s.subrange(k + j, s.len() as int)) {
                    Ok((v, l)) => Ok((entries_insert(e, key, v), k + j + l)),
                    Err(f) => Err(f),
                },
                Err(f) => Err(f),
            },
            Err(f) => Err(f),
        }
    }
}

proof fn lemma_unpack_entries_fails<V: Pack>(s: Seq<u8>, i: nat, n: nat)
    requires
        i <= n,
        unpack_entries::<V>(s, i) is Err,
    ensures
        unpack_entries::<V>(s, n) == unpack_entries::<V>(s, i),
    decreases n,
{
    if n > i {
        lemma_unpack_entries_fails::<V>(s, i, (n - 1) as nat);
    }
}

/// The last of sorted entries is set on top of the others.
proof fn lemma_entries_map_last<M>(m: Entries<M>)
    requires
        sorted(m),
        m.len() > 0,
    ensures
        entries_map(m) == entries_map(m.drop_last()).insert(m.last().0, m.last().1),
{
    let init = m.drop_last();
    let n = m.len() - 1;
    assert(sorted(init)) by {
        assert forall|a: int, b: int| 0 <= a < b < init.len() implies key_lt(
            #[trigger] init[a].0,
            #[trigger] init[b].0,
        ) by {
            assert(init[a] == m[a] && init[b] == m[b]);
        }
    }
    assert forall|x: Seq<char>| has_key(m, x) <==> has_key(init, x) || x == m.last().0 by {
        if has_key(init, x) {
            let j = index_of(init, x);
            assert(m[j] == init[j]);
        }
        if has_key(m, x) && x != m.last().0 {
            let j = index_of(m, x);
            assert(init[j] == m[j]);
        }
        if x == m.last().0 {
            assert(m[n].0 == x);
        }
    }
    assert forall|x: Seq<char>| #[trigger] has_key(m, x) implies entries_map(m)[x] == entries_map(
        init,
    ).insert(m.last().0, m.last().1)[x] by {
        let j = index_of(m, x);
        lemma_entries_map_at(m, j);
        if j < n {
            assert(init[j] == m[j]);
            lemma_entries_map_at(init, j);
            assert(key_lt(m[j].0, m[n].0));
            lemma_bytes_lt_irreflexive(encode_utf8(m[j].0));
        }
    }
    assert(entries_map(m) =~= entries_map(init).insert(m.last().0, m.last().1));
}

proof fn lemma_entries_round_trip<V: Pack>(m: Entries<V::Model>, rest: Seq<u8>)
    requires
        sorted(m),
        forall|i: int|
            0 <= i < m.len() ==> encode_utf8(#[trigger] m[i].0).len() <= u32::MAX && V::encodable(
                m[i].1,
            ) && V::faithful(m[i].1),
    ensures
        unpack_entries::<V>(pack_entries::<V>(m) + rest, m.len()) == got(
            m,
            pack_entries::<V>(m).len() as int,
        ),
    decreases m.len(),
{
    if m.len() > 0 {
        let init = m.drop_last();
        let (k, v) = m.last();
        let tail = enc_str(k) + V::pack_spec(v) + rest;
        assert(pack_entries::<V>(m) + rest =~= pack_entries::<V>(init) + tail);
        assert(sorted(init)) by {
            assert forall|a: int, b: int| 0 <= a < b < init.len() implies key_lt(
                #[trigger] init[a].0,
                #[trigger] init[b].0,
            ) by {
                assert(init[a] == m[a] && init[b] == m[b]);
            }
        }
        assert forall|i: int| 0 <= i < init.len() implies encode_utf8(#[trigger] init[i].0).len()
            <= u32::MAX && V::encodable(init[i].1) && V::faithful(init[i].1) by {
            assert(init[i] == m[i]);
        }
        lemma_entries_round_trip::<V>(init, tail);
        let s = pack_entries::<V>(m) + rest;
        let p = pack_entries::<V>(init).len() as int;
        assert(s.subrange(p, s.len() as int) =~= enc_str(k) + (V::pack_spec(v) + rest));
        assert(m[m.len() - 1] == m.last());
        lemma_str_round_trip(k, V::pack_spec(v) + rest);
        let j = enc_str(k).len() as int;
        assert(s.subrange(p + j, s.len() as int) =~= V::pack_spec(v) + rest);
        V::lemma_round_trip(v, rest);
        lemma_entries_map_last(m);
        assert(init.push((k, v)) =~= m);
        lemma_entries_insert_is(init, k, v, m);
    } else {
        assert(m =~= Seq::<(Seq<char>, V::Model)>::empty());
    }
}

impl<V: Pack> Pack for SortedMap<V> {
    type Model = Entries<V::Model>;

    open spec fn model(&self) -> Entries<V::Model> {
        SortedMap::model(self)
    }

    open spec fn encodable(m: Entries<V::Model>) -> bool {
        &&& m.len() <= u32::MAX
        &&& forall|i: int|
            0 <= i < m.len() ==> encode_utf8(#[trigger] m[i].0).len() <= u32::MAX && V::encodable(
                m[i].1,
            )
    }

    open spec fn faithful(m: Entries<V::Model>) -> bool {
        &&& sorted(m)
        &&& forall|i: int| 0 <= i < m.len() ==> V::faithful(#[trigger] m[i].1)
    }

    open spec fn nil_form(m: Entries<V::Model>) -> bool {
        false
    }

    open spec fn write_fault(m: Entries<V::Model>, e: EncodeError) -> bool {
        if m.len() > u32::MAX {
            e is MapWriteError
        } else {
            exists|i: int|
                0 <= i < m.len() && (forall|j: int|
                    0 <= j < i ==> encode_utf8(#[trigger] m[j].0).len() <= u32::MAX
                        && V::encodable(m[j].1)) && #[trigger] entry_write_fault::<V>(m[i], e)
        }
    }

    open spec fn pack_spec(m: Entries<V::Model>) -> Seq<u8> {
        enc_map_header(m.len()) + pack_entries::<V>(m)
    }

    open spec fn unpack_spec(s: Seq<u8>) -> Scan<Entries<V::Model>> {
        match dec_map_len(s) {
            Ok((n, h)) => match unpack_entries::<V>(s.subrange(h, s.len() as int), n) {
                Ok((e, k)) => Ok((e, h + k)),
                Err(f) => Err(f),
            },
            Err(f) => Err(f),
        }
    }

    fn pack(&self, writer: &mut WriteEncoder) -> (r: Result<(), EncodeError>) {
        if self.entries.len() as u64 > 0xffff_ffff {
            assert(old(writer)@ =~= writer@.subrange(0, old(writer)@.len() as int));
            return Err(
                EncodeError::MapWriteError(
                    writer.context.print_with_context("map larger than 2^32 - 1 entries"),
                ),
            );
        }
        let ghost m = SortedMap::model(self);
        writer.write_map_length(&(self.entries.len() as u32));
        let mut i: usize = 0;
        while i < self.entries.len()
            invariant
                i <= self.entries@.len(),
                m == SortedMap::model(self),
                m.len() == self.entries@.len(),
                m.len() <= u32::MAX,
                writer@ == old(writer)@ + enc_map_header(m.len()) + pack_entries::<V>(
                    m.subrange(0, i as int),
                ),
                writer.context == old(writer).context,
                forall|j: int|
                    0 <= j < i ==> encode_utf8(#[trigger] m[j].0).len() <= u32::MAX
                        && V::encodable(m[j].1),
            decreases self.entries@.len() - i,
        {
            assert(m[i as int] == (self.entries@[i as int].0@, self.entries@[i as int].1.model()));
            let ghost written = enc_map_header(m.len()) + pack_entries::<V>(m.subrange(0, i as int));
            match writer.write_string(&self.entries[i].0) {
                Ok(()) => {},
                Err(e) => {
                    assert(!(encode_utf8(m[i as int].0).len() <= u32::MAX && V::encodable(
                        m[i as int].1,
                    )));
                    assert(m.len() <= u32::MAX);
                    assert(Self::write_fault(m, e)) by {
                        let k = i as int;
                        assert(0 <= k < m.len() && (forall|j: int|
                            0 <= j < k ==> encode_utf8(#[trigger] m[j].0).len() <= u32::MAX
                                && V::encodable(m[j].1)) && entry_write_fault::<V>(m[k], e));
                    }
                    proof {
                        lemma_prefix_extends(old(writer)@, written, old(writer)@ + written);
                    }
                    return Err(e);
                },
            }
            match self.entries[i].1.pack(writer) {
                Ok(()) => {},
                Err(e) => {
                    assert(!(encode_utf8(m[i as int].0).len() <= u32::MAX && V::encodable(
                        m[i as int].1,
                    )));
                    assert(m.len() <= u32::MAX);
                    assert(Self::write_fault(m, e)) by {
                        let k = i as int;
                        assert(0 <= k < m.len() && (forall|j: int|
                            0 <= j < k ==> encode_utf8(#[trigger] m[j].0).len() <= u32::MAX
                                && V::encodable(m[j].1)) && entry_write_fault::<V>(m[k], e));
                    }
                    proof {
                        lemma_prefix_extends(
                            old(writer)@,
                            written + enc_str(m[i as int].0),
                            writer@,
                        );
                    }
                    return Err(e);
                },
            }
            proof {
                assert(m.subrange(0, i + 1).drop_last() =~= m.subrange(0, i as int));
                assert(m.subrange(0, i + 1).last() == m[i as int]);
            }
            i = i + 1;
            assert(writer@ =~= old(writer)@ + enc_map_header(m.len()) + pack_entries::<V>(
                m.subrange(0, i as int),
            ));
        }
        assert(m.subrange(0, m.len() as int) =~= m);
        Ok(())
    }

    fn unpack(reader: &mut ReadDecoder) -> (r: Result<SortedMap<V>, DecodeError>) {
        reader.read_map()
    }

    proof fn lemma_round_trip(m: Entries<V::Model>, rest: Seq<u8>) {
        let body = pack_entries::<V>(m) + rest;
        let s = Self::pack_spec(m) + rest;
        assert(s =~= enc_map_header(m.len()) + body);
        lemma_map_header_round_trip(m.len(), body);
        let h = enc_map_header(m.len()).len() as int;
        assert(s.subrange(h, s.len() as int) =~= body);
        lemma_entries_round_trip::<V>(m, rest);
    }

    proof fn lemma_nil_form(m: Entries<V::Model>) {
    }
}

impl WriteEncoder {
    /// Writes the map length, then each key and its value in key order.
    pub fn write_map<V: Pack>(&mut self, map: &SortedMap<V>) -> (r: Result<(), EncodeError>)
        ensures
            map.wf(),
            r is Ok <==> SortedMap::<V>::encodable(map.model()),
            r is Ok ==> final(self)@ == old(self)@ + enc_map_header(map.model().len())
                + pack_entries::<V>(map.model()),
            r matches Err(e) ==> SortedMap::<V>::write_fault(map.model(), e) && old(
                self,
            )@.is_prefix_of(final(self)@),
            final(self).context == old(self).context,
    {
        proof {
            use_type_invariant(map);
        }
        map.pack(self)
    }

    /// Writes nil for an absent map, else the map.
    pub fn write_nullable_map<V: Pack>(&mut self, opt_map: &Option<SortedMap<V>>) -> (r: Result<
        (),
        EncodeError,
    >)
        ensures
            r is Ok <==> Option::<SortedMap<V>>::encodable(opt_map.model()),
            r is Ok ==> final(self)@ == old(self)@ + Option::<SortedMap<V>>::pack_spec(
                opt_map.model(),
            ),
            r matches Err(e) ==> Option::<SortedMap<V>>::write_fault(opt_map.model(), e) && old(
                self,
            )@.is_prefix_of(final(self)@),
            final(self).context == old(self).context,
    {
        opt_map.pack(self)
    }
}

impl ReadDecoder {
    /// Reads the map length, then that many keys and values; a repeated
    /// key keeps its last value.
    pub fn read_map<V: Pack>(&mut self) -> (r: Result<SortedMap<V>, DecodeError>)
        requires
            old(self).wf(),
        ensures
            final(self).reads(
                *old(self),
                SortedMap::<V>::unpack_spec(old(self).rest()),
                r,
                |x: SortedMap<V>| x.model(),
            ),
            r matches Ok(m) ==> m.wf(),
    {
        let ghost s = self.rest();
        let n = self.read_map_length()?;
        let ghost h = self.pos - old(self).pos;
        let ghost body = s.subrange(h, s.len() as int);
        let mut map: SortedMap<V> = SortedMap::new();
        assert(SortedMap::model(&map) =~= Seq::<(Seq<char>, V::Model)>::empty());
        let mut i: u32 = 0;
        while i < n
            invariant
                self.wf(),
                self.buffer@ == old(self).buffer@,
                self.context == old(self).context,
                s == old(self).rest(),
                0 <= h,
                old(self).pos + h <= self.pos,
                body == s.subrange(h, s.len() as int),
                i <= n,
                dec_map_len(s) == got(n as nat, h),
                map.wf(),
                unpack_entries::<V>(body, i as nat) == got(
                    SortedMap::model(&map),
                    self.pos - old(self).pos - h,
                ),
            decreases n - i,
        {
            let ghost k = self.pos - old(self).pos - h;
            assert(self.rest() =~= body.subrange(k, body.len() as int));
            let key = match self.read_string() {
                Ok(key) => key,
                Err(e) => {
                    proof {
                        lemma_unpack_entries_fails::<V>(body, (i + 1) as nat, n as nat);
                    }
                    return Err(e);
                },
            };
            let ghost j = self.pos - old(self).pos - h - k;
            assert(self.rest() =~= body.subrange(k + j, body.len() as int));
            let value = match V::unpack(self) {
                Ok(value) => value,
                Err(e) => {
                    proof {
                        lemma_unpack_entries_fails::<V>(body, (i + 1) as nat, n as nat);
                    }
                    return Err(e);
                },
            };
            map.insert(key, value);
            i = i + 1;
        }
        Ok(map)
    }

    /// Reads nil as an absent map, else a map.
    pub fn read_nullable_map<V: Pack>(&mut self) -> (r: Result<Option<SortedMap<V>>, DecodeError>)
        requires
            old(self).wf(),
        ensures
            final(self).reads(
                *old(self),
                Option::<SortedMap<V>>::unpack_spec(old(self).rest()),
                r,
                |x: Option<SortedMap<V>>| x.model(),
            ),
    {
        Option::<SortedMap<V>>::unpack(self)
    }
}

} // verus!
