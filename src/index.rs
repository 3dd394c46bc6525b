use crate::codec::{lemma_u64s_round_trip, u64s_of_bytes, BincodeCodec, ValueCodec};
use crate::error::{Error, Result};
use crate::store::error_message;
use core::marker::PhantomData;
use vstd::prelude::*;

verus! {

/// Derives the secondary key of a value.
pub trait IndexExtractor<V: View, SK: View> {
    /// The secondary key of `v`.
    spec fn extract_spec(v: V::V) -> SK::V;

    /// Extracts the secondary key of a value.
    fn extract(value: &V) -> (r: SK)
        ensures
            r@ == Self::extract_spec(value@),
    ;
}

/// What to do with an index entry after a delete.
#[derive(Debug)]
pub enum IndexWrite {
    /// The entry is absent: leave the index as it is.
    Keep,
    /// The set became empty: delete the entry.
    Remove,
    /// Store these bytes as the entry's new set.
    Write(Vec<u8>),
}

/// The bytes the engine returned, if any.
pub open spec fn raw_view(raw: Option<Vec<u8>>) -> Option<Seq<u8>> {
    match raw {
        Some(b) => Some(b@),
        None => None,
    }
}

/// The primary keys that an index entry holds: none when the entry is
/// absent, `None` when its bytes do not decode.
pub open spec fn stored_keys(raw: Option<Seq<u8>>) -> Option<Seq<u64>> {
    match raw {
        None => Some(Seq::empty()),
        Some(b) => u64s_of_bytes(b),
    }
}

/// The primary keys after `key` is added: unchanged when it is there already.
pub open spec fn keys_with(ks: Seq<u64>, key: u64) -> Seq<u64> {
    if ks.contains(key) {
        ks
    } else {
        ks.push(key)
    }
}

/// The primary keys after `key` is taken out, others kept in order.
pub open spec fn keys_without(ks: Seq<u64>, key: u64) -> Seq<u64>
    decreases ks.len(),
{
    if ks.len() == 0 {
        ks
    } else if ks.last() == key {
        keys_without(ks.drop_last(), key)
    } else {
        keys_without(ks.drop_last(), key).push(ks.last())
    }
}

/// The values that were found, in order, with the absent ones left out.
pub open spec fn present<V>(found: Seq<Option<V>>) -> Seq<V>
    decreases found.len(),
{
    if found.len() == 0 {
        Seq::empty()
    } else {
        match found[0] {
            Some(v) => seq![v] + present(found.drop_first()),
            None => present(found.drop_first()),
        }
    }
}

/// Taking a key out leaves exactly the others.
pub proof fn lemma_keys_without(ks: Seq<u64>, key: u64)
    ensures
        forall|x: u64| #[trigger] keys_without(ks, key).contains(x) <==> ks.contains(x) && x != key,
        ks.no_duplicates() ==> keys_without(ks, key).no_duplicates(),
    decreases ks.len(),
{
    if ks.len() > 0 {
        let rest = ks.drop_last();
        lemma_keys_without(rest, key);
        let w = keys_without(rest, key);
        if ks.last() != key {
            assert forall|x: u64| #[trigger] w.push(ks.last()).contains(x) <==> w.contains(x) || x == ks.last() by {
                if w.push(ks.last()).contains(x) {
                    let i = choose|i: int| 0 <= i < w.push(ks.last()).len() && w.push(ks.last())[i] == x;
                    if i < w.len() {
                        assert(w[i] == x);
                    }
                }
                if w.contains(x) {
                    let i = choose|i: int| 0 <= i < w.len() && w[i] == x;
                    assert(w.push(ks.last())[i] == x);
                }
                if x == ks.last() {
                    assert(w.push(ks.last())[w.len() as int] == x);
                }
            }
        }
        assert forall|x: u64| #[trigger] ks.contains(x) <==> rest.contains(x) || x == ks.last() by {
            if ks.contains(x) {
                let i = choose|i: int| 0 <= i < ks.len() && ks[i] == x;
                if i < rest.len() {
                    assert(rest[i] == x);
                }
            }
            if rest.contains(x) {
                let i = choose|i: int| 0 <= i < rest.len() && rest[i] == x;
                assert(ks[i] == x);
            }
            if x == ks.last() {
                assert(ks[ks.len() - 1] == x);
            }
        }
        if ks.no_duplicates() {
            assert(rest.no_duplicates()) by {
                assert forall|i: int, j: int|
                    0 <= i < rest.len() && 0 <= j < rest.len() && i != j implies rest[i] != rest[j] by {
                    assert(rest[i] == ks[i] && rest[j] == ks[j]);
                }
            }
            if ks.last() != key {
                assert(!rest.contains(ks.last())) by {
                    if rest.contains(ks.last()) {
                        let i = choose|i: int| 0 <= i < rest.len() && rest[i] == ks.last();
                        assert(ks[i] == ks[ks.len() - 1]);
                    }
                }
                assert(!w.contains(ks.last()));
                assert forall|i: int, j: int|
                    0 <= i < w.push(ks.last()).len() && 0 <= j < w.push(ks.last()).len() && i != j implies w.push(
                    ks.last(),
                )[i] != w.push(ks.last())[j] by {
                    if i == w.len() {
                        assert(w.contains(w.push(ks.last())[j]));
                    } else if j == w.len() {
                        assert(w.contains(w.push(ks.last())[i]));
                    }
                }
            }
        }
    }
}

/// A key present in the found values list shows up in what a lookup returns.
pub proof fn lemma_present_contains<V>(found: Seq<Option<V>>, i: int)
    requires
        0 <= i < found.len(),
        found[i] is Some,
    ensures
        present(found).contains(found[i]->Some_0),
    decreases found.len(),
{
    let v = found[i]->Some_0;
    if i == 0 {
        assert((seq![v] + present(found.drop_first()))[0] == v);
    } else {
        lemma_present_contains(found.drop_first(), i - 1);
        let r = present(found.drop_first());
        let j = choose|j: int| 0 <= j < r.len() && r[j] == v;
        match found[0] {
            Some(w) => {
                assert((seq![w] + r)[j + 1] == v);
            },
            None => {},
        }
    }
}

/// The primary keys that the index holds for `sk`.
pub open spec fn keys_for<S>(index: Map<S, Seq<u64>>, sk: S) -> Seq<u64> {
    if index.contains_key(sk) {
        index[sk]
    } else {
        Seq::empty()
    }
}

/// What the primary store holds at each of `ks`.
pub open spec fn lookups<T>(primary: Map<u64, T>, ks: Seq<u64>) -> Seq<Option<T>> {
    ks.map_values(|k: u64| if primary.contains_key(k) { Some(primary[k]) } else { None })
}

/// The values that a lookup by `sk` returns.
pub open spec fn find_spec<T, S>(primary: Map<u64, T>, index: Map<S, Seq<u64>>, sk: S) -> Seq<T> {
    present(lookups(primary, keys_for(index, sk)))
}

/// A key-set entry after `key` is taken out: gone when the set is left empty.
pub open spec fn index_without<S>(index: Map<S, Seq<u64>>, sk: S, key: u64) -> Map<S, Seq<u64>> {
    if !index.contains_key(sk) {
        index
    } else if keys_without(index[sk], key).len() == 0 {
        index.remove(sk)
    } else {
        index.insert(sk, keys_without(index[sk], key))
    }
}

/// Adding a key leaves the others and adds it.
pub proof fn lemma_keys_with(ks: Seq<u64>, key: u64, x: u64)
    ensures
        keys_with(ks, key).contains(x) <==> ks.contains(x) || x == key,
        ks.no_duplicates() ==> keys_with(ks, key).no_duplicates(),
{
    if !ks.contains(key) {
        let w = ks.push(key);
        if w.contains(x) {
            let i = choose|i: int| 0 <= i < w.len() && w[i] == x;
            if i < ks.len() {
                assert(ks[i] == x);
            }
        }
        if ks.contains(x) {
            let i = choose|i: int| 0 <= i < ks.len() && ks[i] == x;
            assert(w[i] == x);
        }
        assert(w[ks.len() as int] == key);
        if ks.no_duplicates() {
            assert forall|i: int, j: int| 0 <= i < w.len() && 0 <= j < w.len() && i != j implies w[i] != w[j] by {
                if i == ks.len() {
                    assert(ks.contains(w[j]));
                } else if j == ks.len() {
                    assert(ks.contains(w[i]));
                }
            }
        }
    }
}

/// Taking `key` out of the set of `s0` leaves every other membership as it was.
pub proof fn lemma_index_without<S>(index: Map<S, Seq<u64>>, s0: S, key: u64, s: S, x: u64)
    ensures
        keys_for(index_without(index, s0, key), s).contains(x) <==> keys_for(index, s).contains(x) && !(s
            == s0 && x == key),
{
    if index.contains_key(s0) {
        lemma_keys_without(index[s0], key);
        if s == s0 && keys_without(index[s0], key).len() == 0 {
            if index[s0].contains(x) && x != key {
                assert(keys_without(index[s0], key).contains(x));
            }
        }
    }
}

/// A secondary index: a mapping from a secondary key, derived from each value
/// by the extractor `E`, to the set of primary keys whose value gives it.
///
/// The primary store and the index store live in the engine; this type makes
/// the decisions of each compound operation. A put takes the key out of the
/// set of its old value's secondary key, writes the primary value, then adds
/// the key to the set of its new secondary key; a delete updates the index
/// entry first and deletes the primary value after it. These steps keep the
/// index consistent with the primary store once each operation is done (see
/// `lemma_put_consistent`), but they are not atomic together, so a reader
/// between them may see the index lag the primary store.
pub struct SecondaryIndex<V, SK, E> {
    /// The name of the index; its store lives in `<name>_index` beside the
    /// primary store.
    pub index_name: String,
    /// Ties the index to its value and key types and its extractor.
    pub marker: PhantomData<(V, SK, E)>,
}

impl<V: View, SK: View, E: IndexExtractor<V, SK>> SecondaryIndex<V, SK, E> {
    /// The index with `k` taken out of the set of the secondary key of its
    /// current value, when it has one.
    pub open spec fn cleared(primary: Map<u64, V::V>, index: Map<SK::V, Seq<u64>>, k: u64) -> Map<SK::V, Seq<u64>> {
        if primary.contains_key(k) {
            index_without(index, E::extract_spec(primary[k]), k)
        } else {
            index
        }
    }

    /// The two stores after a put of `v` under `k`: `k` leaves the set of its
    /// old value's secondary key, the primary value is written, and `k` joins
    /// the set of the new secondary key.
    pub open spec fn put_spec(primary: Map<u64, V::V>, index: Map<SK::V, Seq<u64>>, k: u64, v: V::V) -> (
        Map<u64, V::V>,
        Map<SK::V, Seq<u64>>,
    ) {
        let sk = E::extract_spec(v);
        let c = Self::cleared(primary, index, k);
        (primary.insert(k, v), c.insert(sk, keys_with(keys_for(c, sk), k)))
    }

    /// The two stores after a delete of `k`: nothing changes when `k` holds no
    /// value; else `k` leaves the set of its value's secondary key, and the
    /// primary value is deleted.
    pub open spec fn delete_spec(primary: Map<u64, V::V>, index: Map<SK::V, Seq<u64>>, k: u64) -> (
        Map<u64, V::V>,
        Map<SK::V, Seq<u64>>,
    ) {
        if !primary.contains_key(k) {
            (primary, index)
        } else {
            (primary.remove(k), index_without(index, E::extract_spec(primary[k]), k))
        }
    }

    /// The index is consistent with the primary store: a primary key is in the
    /// set of a secondary key exactly when its current value gives that key.
    pub open spec fn consistent(primary: Map<u64, V::V>, index: Map<SK::V, Seq<u64>>) -> bool {
        forall|pk: u64, s: SK::V|
            #[trigger] keys_for(index, s).contains(pk) <==> primary.contains_key(pk) && E::extract_spec(
                primary[pk],
            ) == s
    }

    /// A put keeps the index consistent with the primary store.
    pub proof fn lemma_put_consistent(primary: Map<u64, V::V>, index: Map<SK::V, Seq<u64>>, k: u64, v: V::V)
        requires
            Self::consistent(primary, index),
        ensures
            ({
                let (p1, i1) = Self::put_spec(primary, index, k, v);
                Self::consistent(p1, i1)
            }),
    {
        let sk = E::extract_spec(v);
        let c = Self::cleared(primary, index, k);
        let (p1, i1) = Self::put_spec(primary, index, k, v);
        assert forall|pk: u64, s: SK::V|
            #[trigger] keys_for(i1, s).contains(pk) <==> p1.contains_key(pk) && E::extract_spec(p1[pk]) == s by {
            if primary.contains_key(k) {
                lemma_index_without(index, E::extract_spec(primary[k]), k, s, pk);
                lemma_index_without(index, E::extract_spec(primary[k]), k, sk, pk);
            }
            lemma_keys_with(keys_for(c, sk), k, pk);
            assert(keys_for(index, s).contains(pk) <==> primary.contains_key(pk) && E::extract_spec(primary[pk]) == s);
            assert(keys_for(index, sk).contains(pk) <==> primary.contains_key(pk) && E::extract_spec(primary[pk]) == sk);
        }
    }

    /// A delete keeps the index consistent with the primary store.
    pub proof fn lemma_delete_consistent(primary: Map<u64, V::V>, index: Map<SK::V, Seq<u64>>, k: u64)
        requires
            Self::consistent(primary, index),
        ensures
            ({
                let (p1, i1) = Self::delete_spec(primary, index, k);
                Self::consistent(p1, i1)
            }),
    {
        if primary.contains_key(k) {
            let (p1, i1) = Self::delete_spec(primary, index, k);
            assert forall|pk: u64, s: SK::V|
                #[trigger] keys_for(i1, s).contains(pk) <==> p1.contains_key(pk) && E::extract_spec(p1[pk]) == s by {
                lemma_index_without(index, E::extract_spec(primary[k]), k, s, pk);
                assert(keys_for(index, s).contains(pk) <==> primary.contains_key(pk) && E::extract_spec(primary[pk]) == s);
            }
        }
    }

    /// After a put of `v` under `k`, a lookup by the secondary key of `v`
    /// returns `v` (the value at `k`); after a delete of `k`, that secondary
    /// key no longer leads to `k`, and `k` holds no value.
    pub proof fn lemma_index_consistency(primary: Map<u64, V::V>, index: Map<SK::V, Seq<u64>>, k: u64, v: V::V)
        ensures
            ({
                let sk = E::extract_spec(v);
                let (p1, i1) = Self::put_spec(primary, index, k, v);
                let (p2, i2) = Self::delete_spec(p1, i1, k);
                &&& keys_for(i1, sk).contains(k)
                &&& find_spec(p1, i1, sk).contains(v)
                &&& !keys_for(i2, sk).contains(k)
                &&& !p2.contains_key(k)
            }),
    {
        let sk = E::extract_spec(v);
        let (p1, i1) = Self::put_spec(primary, index, k, v);
        Self::lemma_put_keeps(p1, i1, k, v);
        lemma_index_without(i1, sk, k, sk, k);
        assert(p1[k] == v);
    }

    /// After a put, its key is among the keys for its secondary key, and a
    /// lookup by that key returns its value.
    proof fn lemma_put_keeps(p1: Map<u64, V::V>, i1: Map<SK::V, Seq<u64>>, k: u64, v: V::V)
        requires
            p1.contains_key(k),
            p1[k] == v,
            keys_for(i1, E::extract_spec(v)).contains(k),
        ensures
            find_spec(p1, i1, E::extract_spec(v)).contains(v),
    {
        let ks = keys_for(i1, E::extract_spec(v));
        let j = choose|j: int| 0 <= j < ks.len() && ks[j] == k;
        assert(lookups(p1, ks)[j] == Some(v));
        lemma_present_contains(lookups(p1, ks), j);
    }

    /// Two primary keys whose values give the same secondary key are both
    /// found by it; deleting one of them leaves the other found.
    pub proof fn lemma_index_multiplicity(
        primary: Map<u64, V::V>,
        index: Map<SK::V, Seq<u64>>,
        k1: u64,
        v1: V::V,
        k2: u64,
        v2: V::V,
    )
        requires
            k1 != k2,
            E::extract_spec(v1) == E::extract_spec(v2),
        ensures
            ({
                let sk = E::extract_spec(v1);
                let (p1, i1) = Self::put_spec(primary, index, k1, v1);
                let (p2, i2) = Self::put_spec(p1, i1, k2, v2);
                let (p3, i3) = Self::delete_spec(p2, i2, k1);
                &&& keys_for(i2, sk).contains(k1)
                &&& keys_for(i2, sk).contains(k2)
                &&& find_spec(p2, i2, sk).contains(v1)
                &&& find_spec(p2, i2, sk).contains(v2)
                &&& keys_for(i3, sk).contains(k2)
                &&& !keys_for(i3, sk).contains(k1)
                &&& find_spec(p3, i3, sk).contains(v2)
            }),
    {
        let sk = E::extract_spec(v1);
        let (p1, i1) = Self::put_spec(primary, index, k1, v1);
        let c1 = Self::cleared(primary, index, k1);
        lemma_keys_with(keys_for(c1, sk), k1, k1);
        let (p2, i2) = Self::put_spec(p1, i1, k2, v2);
        let c2 = Self::cleared(p1, i1, k2);
        if p1.contains_key(k2) {
            lemma_index_without(i1, E::extract_spec(p1[k2]), k2, sk, k1);
        }
        lemma_keys_with(keys_for(c2, sk), k2, k1);
        lemma_keys_with(keys_for(c2, sk), k2, k2);
        assert(p2[k1] == v1);
        Self::lemma_put_keeps(p2, i2, k1, v1);
        Self::lemma_put_keeps(p2, i2, k2, v2);
        let (p3, i3) = Self::delete_spec(p2, i2, k1);
        lemma_index_without(i2, sk, k1, sk, k2);
        lemma_index_without(i2, sk, k1, sk, k1);
        assert(p3[k2] == v2);
        Self::lemma_put_keeps(p3, i3, k2, v2);
    }

    /// The secondary key under which a value is indexed.
    pub fn secondary_key(value: &V) -> (r: SK)
        ensures
            r@ == E::extract_spec(value@),
    {
        E::extract(value)
    }
}

impl<V, SK, E> SecondaryIndex<V, SK, E> {
    /// An index named `index_name`.
    pub fn new(index_name: String) -> (r: Self)
        ensures
            r.index_name@ == index_name@,
    {
        SecondaryIndex { index_name, marker: PhantomData }
    }

    /// The new index entry after a put of `key`, given the entry as the
    /// engine holds it now (`None` when absent): the stored set with `key`
    /// added.
    pub fn keys_after_put(raw: Option<Vec<u8>>, key: u64) -> (r: Result<Vec<u8>>)
        ensures
            match stored_keys(raw_view(raw)) {
                None => r matches Err(e) && e is Deserialization,
                Some(ks) => r matches Ok(b) && u64s_of_bytes(b@) == Some(keys_with(ks, key)) && (
                ks.no_duplicates() ==> keys_with(ks, key).no_duplicates()),
            },
    {
        let mut ks = Self::decode_keys(raw)?;
        let mut i: usize = 0;
        let mut found = false;
        while i < ks.len()
            invariant
                0 <= i <= ks@.len(),
                found == exists|j: int| 0 <= j < i && ks@[j] == key,
            decreases ks@.len() - i,
        {
            if ks[i] == key {
                found = true;
            }
            i = i + 1;
        }
        let ghost before = ks@;
        assert(found == before.contains(key)) by {
            if found {
                let j = choose|j: int| 0 <= j < i && ks@[j] == key;
                assert(before[j] == key);
            }
        }
        if !found {
            ks.push(key);
        }
        assert(ks@ == keys_with(before, key));
        proof {
            lemma_keys_with(before, key, key);
            assert(ks@.len() == ks.len());
        }
        match <BincodeCodec<Vec<u64>> as ValueCodec<Vec<u64>>>::encode(&ks) {
            Ok(b) => {
                proof {
                    lemma_u64s_round_trip(ks@);
                }
                Ok(b)
            },
            Err(e) => Err(Error::Serialization(error_message(e))),
        }
    }

    /// What to do with the index entry after a delete of `key`, given the
    /// entry as the engine holds it now: nothing when it is absent, delete it
    /// when `key` was its last primary key, else store the set without `key`.
    pub fn keys_after_delete(raw: Option<Vec<u8>>, key: u64) -> (r: Result<IndexWrite>)
        ensures
            match raw_view(raw) {
                None => r matches Ok(IndexWrite::Keep),
                Some(b) => match u64s_of_bytes(b) {
                    None => r matches Err(e) && e is Deserialization,
                    Some(ks) => match r {
                        Ok(IndexWrite::Remove) => keys_without(ks, key).len() == 0,
                        Ok(IndexWrite::Write(nb)) => keys_without(ks, key).len() > 0 && u64s_of_bytes(nb@)
                            == Some(keys_without(ks, key)) && (ks.no_duplicates()
                            ==> keys_without(ks, key).no_duplicates()),
                        Ok(IndexWrite::Keep) => false,
                        Err(_) => false,
                    },
                },
            },
    {
        if raw.is_none() {
            return Ok(IndexWrite::Keep);
        }
        let ks = Self::decode_keys(raw)?;
        let mut out: Vec<u64> = Vec::new();
        let mut i: usize = 0;
        while i < ks.len()
            invariant
                0 <= i <= ks@.len(),
                out@ == keys_without(ks@.subrange(0, i as int), key),
            decreases ks@.len() - i,
        {
            assert(ks@.subrange(0, i + 1).drop_last() =~= ks@.subrange(0, i as int));
            if ks[i] != key {
                out.push(ks[i]);
            }
            i = i + 1;
        }
        assert(ks@.subrange(0, ks@.len() as int) =~= ks@);
        if out.len() == 0 {
            return Ok(IndexWrite::Remove);
        }
        proof {
            lemma_keys_without(ks@, key);
            assert(out@.len() == out.len());
        }
        match <BincodeCodec<Vec<u64>> as ValueCodec<Vec<u64>>>::encode(&out) {
            Ok(b) => {
                proof {
                    lemma_u64s_round_trip(out@);
                }
                Ok(IndexWrite::Write(b))
            },
            Err(e) => Err(Error::Serialization(error_message(e))),
        }
    }

    /// The primary keys of an index entry, as the engine holds it: none when
    /// it is absent.
    pub fn decode_keys(raw: Option<Vec<u8>>) -> (r: Result<Vec<u64>>)
        ensures
            match stored_keys(raw_view(raw)) {
                None => r matches Err(e) && e is Deserialization,
                Some(ks) => r matches Ok(v) && v@ == ks,
            },
    {
        match raw {
            None => Ok(Vec::new()),
            Some(b) => <BincodeCodec<Vec<u64>> as ValueCodec<Vec<u64>>>::decode(b.as_slice()),
        }
    }

    /// The values that a secondary-key lookup returns, given what the primary
    /// store held at each indexed key: keys deleted meanwhile are skipped.
    pub fn collect_found(found: Vec<Option<V>>) -> (r: Vec<V>)
        ensures
            r@ == present(found@),
    {
        let mut rest = found;
        let mut out: Vec<V> = Vec::new();
        while rest.len() > 0
            invariant
                out@ + present(rest@) == present(found@),
            decreases rest@.len(),
        {
            let ghost before = rest@;
            let x = rest.remove(0);
            assert(rest@ =~= before.drop_first());
            match x {
                Some(v) => {
                    out.push(v);
                    assert(out@ + present(rest@) =~= out@.drop_last() + (seq![v] + present(rest@)));
                },
                None => {},
            }
        }
        assert(present(rest@) =~= Seq::<V>::empty());
        assert(out@ + present(rest@) =~= out@);
        out
    }
}

} // verus!
