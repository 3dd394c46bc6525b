use crate::codec::{KeyCodec, OrderedKeyCodec, ValueCodec};
use crate::error::{Error, Result};
use crate::order::{bytes_le, lemma_lex_le_trans, lex_le};
use crate::store::error_message;
use core::marker::PhantomData;
use vstd::prelude::*;
use vstd::string::StringSliceAdditionalSpecFns;
use vstd::utf8::encode_utf8;

verus! {

/// Keys that a prefix scan can filter on.
///
/// For a string the relation is textual: its UTF-8 bytes begin with those of
/// the prefix. An integer has no textual form here, so the only prefix of an
/// integer key is the key itself.
pub trait KeyPrefix: View + Sized {
    /// `k` begins with `p`.
    spec fn has_prefix_spec(k: Self::V, p: Self::V) -> bool;

    /// Whether this key begins with `p`.
    fn has_prefix(&self, p: &Self) -> (r: bool)
        ensures
            r == Self::has_prefix_spec(self@, p@),
    ;
}

/// `p` is where `s` starts.
pub open spec fn starts_with(s: Seq<u8>, p: Seq<u8>) -> bool {
    p.len() <= s.len() && s.subrange(0, p.len() as int) == p
}

impl KeyPrefix for String {
    open spec fn has_prefix_spec(k: Seq<char>, p: Seq<char>) -> bool {
        starts_with(encode_utf8(k), encode_utf8(p))
    }

    fn has_prefix(&self, p: &String) -> (r: bool) {
        let s: &[u8] = self.as_str().as_bytes();
        let q: &[u8] = p.as_str().as_bytes();
        if q.len() > s.len() {
            return false;
        }
        let mut i: usize = 0;
        while i < q.len()
            invariant
                s@ == encode_utf8(self@),
                q@ == encode_utf8(p@),
                q@.len() <= s@.len(),
                0 <= i <= q@.len(),
                forall|j: int| 0 <= j < i ==> s@[j] == q@[j],
            decreases q@.len() - i,
        {
            if s[i] != q[i] {
                assert(s@.subrange(0, q@.len() as int)[i as int] != q@[i as int]);
                return false;
            }
            i = i + 1;
        }
        assert(s@.subrange(0, q@.len() as int) =~= q@);
        true
    }
}

impl KeyPrefix for u64 {
    open spec fn has_prefix_spec(k: u64, p: u64) -> bool {
        k == p
    }

    fn has_prefix(&self, p: &u64) -> (r: bool) {
        *self == *p
    }
}

/// What one pull of the iterator gives its caller.
pub enum Pull<K, V> {
    /// A decoded entry, or the error met while reading or decoding it.
    Item(Result<(K, V)>),
    /// The entry is filtered out: pull again.
    Skip,
    /// The sequence is over, now and for every later pull.
    End,
}

/// A forward scan over a namespace, fed one raw engine entry per pull.
///
/// The engine's cursor yields raw `(key, value)` byte pairs in ascending key
/// order; this type decides, for each, whether the scan ends there, skips
/// it or yields it decoded. Once it has ended it stays ended.
pub struct RocksMapIterator<K, V, KC, VC> {
    /// Inclusive upper bound on the encoded key, if any.
    pub upper: Option<Vec<u8>>,
    /// Keys that do not begin with this are skipped, if it is set.
    pub prefix: Option<K>,
    /// Whether the scan has ended.
    pub done: bool,
    /// Ties the scan to its value type and codecs.
    pub codecs: PhantomData<(V, KC, VC)>,
}

/// An entry whose encoded key lies past the inclusive upper bound.
pub open spec fn past_upper(upper: Option<Seq<u8>>, key: Seq<u8>) -> bool {
    match upper {
        Some(to) => !lex_le(key, to),
        None => false,
    }
}

/// The engine's keys in the order its cursor yields them: ascending.
pub open spec fn ascending(keys: Seq<Seq<u8>>) -> bool {
    forall|i: int, j: int| 0 <= i < j < keys.len() ==> lex_le(#[trigger] keys[i], #[trigger] keys[j])
}

/// A range scan yields exactly the stored keys between its two bounds, both
/// included. The engine's cursor, started at `from`, gives the stored keys
/// from `from` on in ascending order; the scan ends at the first of them past
/// `to` (index `n`). The keys before that point are exactly the stored keys
/// `k` with `from <= k <= to`.
pub proof fn lemma_range_inclusive(keys: Seq<Seq<u8>>, from: Seq<u8>, to: Seq<u8>, n: int)
    requires
        ascending(keys),
        forall|j: int| 0 <= j < keys.len() ==> lex_le(from, #[trigger] keys[j]),
        0 <= n <= keys.len(),
        forall|j: int| 0 <= j < n ==> !past_upper(Some(to), #[trigger] keys[j]),
        n == keys.len() || past_upper(Some(to), keys[n]),
    ensures
        forall|j: int|
            0 <= j < keys.len() ==> (j < n <==> lex_le(from, #[trigger] keys[j]) && lex_le(keys[j], to)),
{
    assert forall|j: int| 0 <= j < keys.len() implies (j < n <==> lex_le(from, #[trigger] keys[j]) && lex_le(keys[j], to)) by {
        if j > n {
            if lex_le(keys[j], to) {
                assert(lex_le(keys[n], keys[j]));
                lemma_lex_le_trans(keys[n], keys[j], to, 0);
            }
        }
    }
}

/// With a key codec whose bytes sort as the keys do, a range scan yields
/// exactly the stored keys `k` with `from <= k <= to`, in ascending key
/// order, and nothing when `from` comes after `to`. The engine's cursor,
/// started at the bytes of `from`, hands over the stored keys from `from` on
/// in ascending byte order; the scan ends at the first of them whose bytes
/// lie past those of `to` (index `n`).
pub proof fn lemma_range_exact<K: View, KC: OrderedKeyCodec<K>>(keys: Seq<K::V>, from: K::V, to: K::V, n: int)
    requires
        KC::encodable(from),
        KC::encodable(to),
        forall|j: int| 0 <= j < keys.len() ==> KC::encodable(#[trigger] keys[j]),
        forall|i: int, j: int|
            0 <= i < j < keys.len() ==> lex_le(KC::encode_spec(#[trigger] keys[i]), KC::encode_spec(#[trigger] keys[j])),
        forall|j: int| 0 <= j < keys.len() ==> lex_le(KC::encode_spec(from), KC::encode_spec(#[trigger] keys[j])),
        0 <= n <= keys.len(),
        forall|j: int| 0 <= j < n ==> !past_upper(Some(KC::encode_spec(to)), KC::encode_spec(#[trigger] keys[j])),
        n == keys.len() || past_upper(Some(KC::encode_spec(to)), KC::encode_spec(keys[n])),
    ensures
        forall|j: int|
            0 <= j < keys.len() ==> (j < n <==> KC::key_le(from, #[trigger] keys[j]) && KC::key_le(keys[j], to)),
        forall|i: int, j: int| 0 <= i < j < n ==> KC::key_le(#[trigger] keys[i], #[trigger] keys[j]),
        !KC::key_le(from, to) ==> n == 0,
{
    let bytes = keys.map_values(|k: K::V| KC::encode_spec(k));
    assert forall|j: int| 0 <= j < keys.len() implies (j < n <==> KC::key_le(from, #[trigger] keys[j])
        && KC::key_le(keys[j], to)) by {
        KC::lemma_order(from, keys[j]);
        KC::lemma_order(keys[j], to);
        if j > n {
            if lex_le(bytes[j], KC::encode_spec(to)) {
                assert(lex_le(bytes[n], bytes[j]));
                lemma_lex_le_trans(bytes[n], bytes[j], KC::encode_spec(to), 0);
            }
        }
    }
    assert forall|i: int, j: int| 0 <= i < j < n implies KC::key_le(#[trigger] keys[i], #[trigger] keys[j]) by {
        KC::lemma_order(keys[i], keys[j]);
    }
    if n > 0 && !KC::key_le(from, to) {
        KC::lemma_order(from, keys[0]);
        KC::lemma_order(keys[0], to);
        KC::lemma_order(from, to);
        lemma_lex_le_trans(KC::encode_spec(from), bytes[0], KC::encode_spec(to), 0);
    }
}

impl<K: KeyPrefix, V: View, KC: KeyCodec<K>, VC: ValueCodec<V>> RocksMapIterator<K, V, KC, VC> {
    /// The bound as bytes.
    pub open spec fn upper_view(&self) -> Option<Seq<u8>> {
        match self.upper {
            Some(b) => Some(b@),
            None => None,
        }
    }

    /// A scan of the whole namespace from its start, with no bound and no filter.
    pub fn iter() -> (r: Self)
        ensures
            r.upper is None,
            r.prefix is None,
            !r.done,
    {
        RocksMapIterator { upper: None, prefix: None, done: false, codecs: PhantomData }
    }

    /// A scan over the keys from `from` to `to`, both included. Returns the
    /// encoded `from`, where the engine's cursor starts, and the scan.
    pub fn range(from: &K, to: &K) -> (r: Result<(Vec<u8>, Self)>)
        ensures
            match r {
                Ok((start, it)) => {
                    &&& start@ == KC::encode_spec(from@)
                    &&& it.upper_view() == Some(KC::encode_spec(to@))
                    &&& it.prefix is None
                    &&& !it.done
                },
                Err(e) => e is Serialization,
            },
            KC::encodable(from@) && KC::encodable(to@) ==> r is Ok,
    {
        let start = match KC::encode(from) {
            Ok(b) => b,
            Err(e) => {
                return Err(Error::Serialization(error_message(e)));
            },
        };
        let end = match KC::encode(to) {
            Ok(b) => b,
            Err(e) => {
                return Err(Error::Serialization(error_message(e)));
            },
        };
        Ok((start, RocksMapIterator { upper: Some(end), prefix: None, done: false, codecs: PhantomData }))
    }

    /// A scan of the whole namespace that yields only the keys that begin
    /// with `prefix`.
    pub fn prefix_scan(prefix: K) -> (r: Self)
        ensures
            r.upper is None,
            r.prefix == Some(prefix),
            !r.done,
    {
        RocksMapIterator { upper: None, prefix: Some(prefix), done: false, codecs: PhantomData }
    }

    /// Takes the engine's next raw entry (`None` when its cursor is
    /// exhausted) and says what the scan gives for it.
    pub fn next(&mut self, raw: Option<Result<(Vec<u8>, Vec<u8>)>>) -> (r: Pull<K, V>)
        ensures
            final(self).upper == old(self).upper,
            final(self).prefix == old(self).prefix,
            old(self).done ==> r is End,
            r is End <==> final(self).done,
            !old(self).done ==> match raw {
                None => r is End,
                Some(Err(e)) => r == Pull::<K, V>::Item(Err(e)),
                Some(Ok((kb, vb))) => {
                    if past_upper(old(self).upper_view(), kb@) {
                        r is End
                    } else {
                        match KC::decode_spec(kb@) {
                            None => r matches Pull::Item(Err(e)) && e is Deserialization,
                            Some(k) => {
                                if old(self).prefix matches Some(p) && !K::has_prefix_spec(k, p@) {
                                    r is Skip
                                } else {
                                    match VC::decode_spec(vb@) {
                                        None => r matches Pull::Item(Err(e)) && e is Deserialization,
                                        Some(v) => r matches Pull::Item(Ok((rk, rv))) && rk@ == k && rv@ == v,
                                    }
                                }
                            },
                        }
                    }
                },
            },
    {
        if self.done {
            return Pull::End;
        }
        match raw {
            None => {
                self.done = true;
                Pull::End
            },
            Some(Err(e)) => Pull::Item(Err(e)),
            Some(Ok((kb, vb))) => {
                let past = match &self.upper {
                    Some(to) => !bytes_le(kb.as_slice(), to.as_slice()),
                    None => false,
                };
                if past {
                    self.done = true;
                    return Pull::End;
                }
                let k = match KC::decode(kb.as_slice()) {
                    Ok(k) => k,
                    Err(e) => {
                        return Pull::Item(Err(e));
                    },
                };
                let keep = match &self.prefix {
                    Some(p) => k.has_prefix(p),
                    None => true,
                };
                if !keep {
                    return Pull::Skip;
                }
                match VC::decode(vb.as_slice()) {
                    Ok(v) => Pull::Item(Ok((k, v))),
                    Err(e) => Pull::Item(Err(e)),
                }
            },
        }
    }
}

} // verus!
