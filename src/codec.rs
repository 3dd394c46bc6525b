use crate::error::{Error, Result};
use crate::order::{lex_le, lex_le_from};
use bincode::Options;
use core::marker::PhantomData;
use vstd::prelude::*;
use vstd::string::StrSliceExecFns;
use vstd::utf8::{decode_utf8, encode_utf8, encode_utf8_decode_utf8, valid_utf8, encode_utf8_valid_utf8};

verus! {

/// The eight little-endian bytes of `x`.
pub open spec fn u64_le(x: u64) -> Seq<u8> {
    seq![
        (x & 0xff) as u8,
        ((x >> 8u64) & 0xff) as u8,
        ((x >> 16u64) & 0xff) as u8,
        ((x >> 24u64) & 0xff) as u8,
        ((x >> 32u64) & 0xff) as u8,
        ((x >> 40u64) & 0xff) as u8,
        ((x >> 48u64) & 0xff) as u8,
        ((x >> 56u64) & 0xff) as u8,
    ]
}

/// The integer whose little-endian bytes start `b` (which holds at least eight).
pub open spec fn le_u64(b: Seq<u8>) -> u64 {
    (b[0] as u64) | ((b[1] as u64) << 8u64) | ((b[2] as u64) << 16u64) | ((b[3] as u64) << 24u64)
        | ((b[4] as u64) << 32u64) | ((b[5] as u64) << 40u64) | ((b[6] as u64) << 48u64)
        | ((b[7] as u64) << 56u64)
}

/// Reading back the bytes of an integer gives the integer.
pub proof fn lemma_le_round_trip(x: u64)
    ensures
        u64_le(x).len() == 8,
        le_u64(u64_le(x)) == x,
        forall|t: Seq<u8>| le_u64(u64_le(x) + t) == x,
{
    let b = u64_le(x);
    let b0 = (x & 0xff) as u8;
    let b1 = ((x >> 8u64) & 0xff) as u8;
    let b2 = ((x >> 16u64) & 0xff) as u8;
    let b3 = ((x >> 24u64) & 0xff) as u8;
    let b4 = ((x >> 32u64) & 0xff) as u8;
    let b5 = ((x >> 40u64) & 0xff) as u8;
    let b6 = ((x >> 48u64) & 0xff) as u8;
    let b7 = ((x >> 56u64) & 0xff) as u8;
    assert(((x & 0xff) as u8 as u64) | ((((x >> 8u64) & 0xff) as u8 as u64) << 8u64) | ((((x
        >> 16u64) & 0xff) as u8 as u64) << 16u64) | ((((x >> 24u64) & 0xff) as u8 as u64)
        << 24u64) | ((((x >> 32u64) & 0xff) as u8 as u64) << 32u64) | ((((x >> 40u64) & 0xff)
        as u8 as u64) << 40u64) | ((((x >> 48u64) & 0xff) as u8 as u64) << 48u64) | ((((x
        >> 56u64) & 0xff) as u8 as u64) << 56u64) == x) by (bit_vector);
    assert forall|t: Seq<u8>| le_u64(u64_le(x) + t) == x by {
        let c = u64_le(x) + t;
        assert(c[0] == b0 && c[1] == b1 && c[2] == b2 && c[3] == b3);
        assert(c[4] == b4 && c[5] == b5 && c[6] == b6 && c[7] == b7);
    }
    assert(b =~= b + Seq::<u8>::empty());
}


/// What the byte-oriented codec writes for a string: its UTF-8 length as
/// eight little-endian bytes, then its UTF-8 bytes.
pub open spec fn str_bytes(s: Seq<char>) -> Seq<u8> {
    u64_le(encode_utf8(s).len() as u64) + encode_utf8(s)
}

/// The string that `b` holds in the form of `str_bytes`, if it holds one;
/// bytes after it are ignored.
pub open spec fn str_of_bytes(b: Seq<u8>) -> Option<Seq<char>> {
    if b.len() >= 8 && 8 + le_u64(b) <= b.len() && valid_utf8(
        b.subrange(8, 8 + le_u64(b) as int),
    ) {
        Some(decode_utf8(b.subrange(8, 8 + le_u64(b) as int)))
    } else {
        None
    }
}

/// What the byte-oriented codec writes for a list of integers: its length,
/// then each item, all as eight little-endian bytes.
pub open spec fn u64s_bytes(v: Seq<u64>) -> Seq<u8> {
    u64_le(v.len() as u64) + items_bytes(v)
}

/// The items of `v` as eight little-endian bytes each.
pub open spec fn items_bytes(v: Seq<u64>) -> Seq<u8>
    decreases v.len(),
{
    if v.len() == 0 {
        Seq::empty()
    } else {
        items_bytes(v.drop_last()) + u64_le(v.last())
    }
}

/// The list that `b` holds in the form of `u64s_bytes`, if it holds one;
/// bytes after it are ignored.
pub open spec fn u64s_of_bytes(b: Seq<u8>) -> Option<Seq<u64>> {
    if b.len() >= 8 && 8 + 8 * le_u64(b) <= b.len() {
        Some(Seq::new(le_u64(b) as nat, |i: int| le_u64(b.subrange(8 + 8 * i, b.len() as int))))
    } else {
        None
    }
}

/// The bytes of a list's items: eight at each index.
pub proof fn lemma_items_bytes(v: Seq<u64>)
    ensures
        items_bytes(v).len() == 8 * v.len(),
        forall|i: int, t: Seq<u8>|
            0 <= i < v.len() ==> #[trigger] le_u64((items_bytes(v) + t).subrange(8 * i, (items_bytes(v) + t).len() as int)) == v[i],
    decreases v.len(),
{
    if v.len() > 0 {
        let w = v.drop_last();
        lemma_items_bytes(w);
        lemma_le_round_trip(v.last());
        assert forall|i: int, t: Seq<u8>|
            0 <= i < v.len() implies #[trigger] le_u64((items_bytes(v) + t).subrange(8 * i, (items_bytes(v) + t).len() as int)) == v[i] by {
            let c = items_bytes(v) + t;
            if i < w.len() {
                let t2 = u64_le(v.last()) + t;
                assert(c =~= items_bytes(w) + t2);
                assert(v[i] == w[i]);
            } else {
                assert(c.subrange(8 * i, c.len() as int) =~= u64_le(v.last()) + t);
            }
        }
    }
}

/// Decoding the bytes of a string gives the string back.
pub proof fn lemma_str_round_trip(s: Seq<char>)
    requires
        encode_utf8(s).len() <= u64::MAX,
    ensures
        str_of_bytes(str_bytes(s)) == Some(s),
{
    let u = encode_utf8(s);
    let b = str_bytes(s);
    lemma_le_round_trip(u.len() as u64);
    assert(le_u64(b) == u.len());
    assert(b.subrange(8, 8 + u.len() as int) =~= u);
    encode_utf8_valid_utf8(s);
    encode_utf8_decode_utf8(s);
}

/// Decoding the bytes of a list gives the list back.
pub proof fn lemma_u64s_round_trip(v: Seq<u64>)
    requires
        v.len() <= u64::MAX,
    ensures
        u64s_of_bytes(u64s_bytes(v)) == Some(v),
{
    let b = u64s_bytes(v);
    lemma_le_round_trip(v.len() as u64);
    lemma_items_bytes(v);
    assert(le_u64(b) == v.len());
    let w = Seq::new(le_u64(b) as nat, |i: int| le_u64(b.subrange(8 + 8 * i, b.len() as int)));
    assert forall|i: int| 0 <= i < v.len() implies w[i] == v[i] by {
        let t = Seq::<u8>::empty();
        assert(b.subrange(8 + 8 * i, b.len() as int) =~= (items_bytes(v) + t).subrange(8 * i, (items_bytes(v) + t).len() as int));
    }
    assert(w =~= v);
}

/// A codec for keys: how a key becomes bytes and back.
pub trait KeyCodec<K: View> {
    /// The bytes that encoding `k` gives.
    spec fn encode_spec(k: K::V) -> Seq<u8>;

    /// The key that `b` decodes to, if any.
    spec fn decode_spec(b: Seq<u8>) -> Option<K::V>;

    /// The keys that encode without loss.
    spec fn encodable(k: K::V) -> bool;

    /// Decoding what a key encodes to gives the key back.
    proof fn lemma_round_trip(k: K::V)
        requires
            Self::encodable(k),
        ensures
            Self::decode_spec(Self::encode_spec(k)) == Some(k),
    ;

    /// Converts a key to bytes for storage.
    fn encode(key: &K) -> (r: Result<Vec<u8>>)
        ensures
            r matches Ok(b) ==> b@ == Self::encode_spec(key@) && Self::encodable(key@),
            Self::encodable(key@) ==> r is Ok,
    ;

    /// Converts stored bytes back to a key.
    fn decode(bytes: &[u8]) -> (r: Result<K>)
        ensures
            match r {
                Ok(k) => Self::decode_spec(bytes@) == Some(k@),
                Err(e) => Self::decode_spec(bytes@) is None && e is Deserialization,
            },
    ;
}

/// A codec for values: how a value becomes bytes and back.
pub trait ValueCodec<V: View> {
    /// The bytes that encoding `v` gives.
    spec fn encode_spec(v: V::V) -> Seq<u8>;

    /// The value that `b` decodes to, if any.
    spec fn decode_spec(b: Seq<u8>) -> Option<V::V>;

    /// The values that encode without loss.
    spec fn encodable(v: V::V) -> bool;

    /// Decoding what a value encodes to gives the value back.
    proof fn lemma_round_trip(v: V::V)
        requires
            Self::encodable(v),
        ensures
            Self::decode_spec(Self::encode_spec(v)) == Some(v),
    ;

    /// Converts a value to bytes for storage.
    fn encode(value: &V) -> (r: Result<Vec<u8>>)
        ensures
            r matches Ok(b) ==> b@ == Self::encode_spec(value@) && Self::encodable(value@),
            Self::encodable(value@) ==> r is Ok,
    ;

    /// Converts stored bytes back to a value.
    fn decode(bytes: &[u8]) -> (r: Result<V>)
        ensures
            match r {
                Ok(v) => Self::decode_spec(bytes@) == Some(v@),
                Err(e) => Self::decode_spec(bytes@) is None && e is Deserialization,
            },
    ;
}

/// The default codec, in bincode's fixed-width little-endian format.
pub struct BincodeCodec<T>(pub PhantomData<T>);

/// Relies on bincode::serialize: an integer becomes its eight little-endian
/// bytes; with no size limit and a `Vec` to write into, it does not fail.
#[verifier::external_body]
fn bincode_ser_u64(x: &u64) -> (r: core::result::Result<Vec<u8>, String>)
    ensures
        r is Ok,
        r matches Ok(b) ==> b@ == u64_le(*x),
{
    bincode::serialize(x).map_err(|e| e.to_string())
}

/// Relies on bincode::deserialize: the first eight bytes, read little-endian;
/// fewer than eight is an error.
#[verifier::external_body]
fn bincode_de_u64(b: &[u8]) -> (r: core::result::Result<u64, String>)
    ensures
        match r {
            Ok(x) => b@.len() >= 8 && x == le_u64(b@),
            Err(_) => b@.len() < 8,
        },
{
    bincode::deserialize::<u64>(b).map_err(|e| e.to_string())
}

/// Relies on bincode::serialize: a string becomes its byte length, as eight
/// little-endian bytes, then its UTF-8 bytes; it does not fail.
#[verifier::external_body]
fn bincode_ser_str(s: &String) -> (r: core::result::Result<Vec<u8>, String>)
    ensures
        r is Ok,
        r matches Ok(b) ==> b@ == str_bytes(s@),
{
    bincode::serialize(s).map_err(|e| e.to_string())
}

/// Relies on bincode::deserialize: a length, then that many bytes of valid UTF-8.
#[verifier::external_body]
fn bincode_de_str(b: &[u8]) -> (r: core::result::Result<String, String>)
    ensures
        match r {
            Ok(s) => str_of_bytes(b@) == Some(s@),
            Err(_) => str_of_bytes(b@) is None,
        },
{
    bincode::deserialize::<String>(b).map_err(|e| e.to_string())
}

/// Relies on bincode::serialize: a list becomes its length, then its items,
/// each as eight little-endian bytes; it does not fail.
#[verifier::external_body]
fn bincode_ser_u64s(v: &Vec<u64>) -> (r: core::result::Result<Vec<u8>, String>)
    ensures
        r is Ok,
        r matches Ok(b) ==> b@ == u64s_bytes(v@),
{
    bincode::serialize(v).map_err(|e| e.to_string())
}

/// Relies on bincode::deserialize: a length, then that many eight-byte items.
#[verifier::external_body]
fn bincode_de_u64s(b: &[u8]) -> (r: core::result::Result<Vec<u64>, String>)
    ensures
        match r {
            Ok(v) => u64s_of_bytes(b@) == Some(v@),
            Err(_) => u64s_of_bytes(b@) is None,
        },
{
    bincode::deserialize::<Vec<u64>>(b).map_err(|e| e.to_string())
}

impl KeyCodec<u64> for BincodeCodec<u64> {
    open spec fn encode_spec(k: u64) -> Seq<u8> {
        u64_le(k)
    }

    open spec fn decode_spec(b: Seq<u8>) -> Option<u64> {
        if b.len() >= 8 {
            Some(le_u64(b))
        } else {
            None
        }
    }

    open spec fn encodable(k: u64) -> bool {
        true
    }

    proof fn lemma_round_trip(k: u64) {
        lemma_le_round_trip(k);
    }

    fn encode(key: &u64) -> (r: Result<Vec<u8>>) {
        match bincode_ser_u64(key) {
            Ok(b) => Ok(b),
            Err(m) => Err(Error::Serialization(m)),
        }
    }

    fn decode(bytes: &[u8]) -> (r: Result<u64>) {
        match bincode_de_u64(bytes) {
            Ok(k) => Ok(k),
            Err(m) => Err(Error::Deserialization(m)),
        }
    }
}


impl KeyCodec<String> for BincodeCodec<String> {
    open spec fn encode_spec(k: Seq<char>) -> Seq<u8> {
        str_bytes(k)
    }

    open spec fn decode_spec(b: Seq<u8>) -> Option<Seq<char>> {
        str_of_bytes(b)
    }

    open spec fn encodable(k: Seq<char>) -> bool {
        encode_utf8(k).len() <= u64::MAX
    }

    proof fn lemma_round_trip(k: Seq<char>) {
        lemma_str_round_trip(k);
    }

    fn encode(key: &String) -> (r: Result<Vec<u8>>) {
        match bincode_ser_str(key) {
            Ok(b) => {
                proof {
                    assert(b@.len() == b.len());
                }
                Ok(b)
            },
            Err(m) => Err(Error::Serialization(m)),
        }
    }

    fn decode(bytes: &[u8]) -> (r: Result<String>) {
        match bincode_de_str(bytes) {
            Ok(x) => Ok(x),
            Err(m) => Err(Error::Deserialization(m)),
        }
    }
}

impl KeyCodec<Vec<u64>> for BincodeCodec<Vec<u64>> {
    open spec fn encode_spec(k: Seq<u64>) -> Seq<u8> {
        u64s_bytes(k)
    }

    open spec fn decode_spec(b: Seq<u8>) -> Option<Seq<u64>> {
        u64s_of_bytes(b)
    }

    open spec fn encodable(k: Seq<u64>) -> bool {
        k.len() <= u64::MAX
    }

    proof fn lemma_round_trip(k: Seq<u64>) {
        lemma_u64s_round_trip(k);
    }

    fn encode(key: &Vec<u64>) -> (r: Result<Vec<u8>>) {
        proof {
            assert(key@.len() == key.len());
        }
        match bincode_ser_u64s(key) {
            Ok(b) => Ok(b),
            Err(m) => Err(Error::Serialization(m)),
        }
    }

    fn decode(bytes: &[u8]) -> (r: Result<Vec<u64>>) {
        match bincode_de_u64s(bytes) {
            Ok(x) => Ok(x),
            Err(m) => Err(Error::Deserialization(m)),
        }
    }
}

impl ValueCodec<u64> for BincodeCodec<u64> {
    open spec fn encode_spec(v: u64) -> Seq<u8> {
        u64_le(v)
    }

    open spec fn decode_spec(b: Seq<u8>) -> Option<u64> {
        if b.len() >= 8 {
            Some(le_u64(b))
        } else {
            None
        }
    }

    open spec fn encodable(v: u64) -> bool {
        true
    }

    proof fn lemma_round_trip(v: u64) {
        lemma_le_round_trip(v);
    }

    fn encode(value: &u64) -> (r: Result<Vec<u8>>) {
        match bincode_ser_u64(value) {
            Ok(b) => Ok(b),
            Err(m) => Err(Error::Serialization(m)),
        }
    }

    fn decode(bytes: &[u8]) -> (r: Result<u64>) {
        match bincode_de_u64(bytes) {
            Ok(v) => Ok(v),
            Err(m) => Err(Error::Deserialization(m)),
        }
    }
}

impl ValueCodec<String> for BincodeCodec<String> {
    open spec fn encode_spec(v: Seq<char>) -> Seq<u8> {
        str_bytes(v)
    }

    open spec fn decode_spec(b: Seq<u8>) -> Option<Seq<char>> {
        str_of_bytes(b)
    }

    open spec fn encodable(v: Seq<char>) -> bool {
        encode_utf8(v).len() <= u64::MAX
    }

    proof fn lemma_round_trip(v: Seq<char>) {
        lemma_str_round_trip(v);
    }

    fn encode(value: &String) -> (r: Result<Vec<u8>>) {
        match bincode_ser_str(value) {
            Ok(b) => {
                proof {
                    assert(b@.len() == b.len());
                }
                Ok(b)
            },
            Err(m) => Err(Error::Serialization(m)),
        }
    }

    fn decode(bytes: &[u8]) -> (r: Result<String>) {
        match bincode_de_str(bytes) {
            Ok(x) => Ok(x),
            Err(m) => Err(Error::Deserialization(m)),
        }
    }
}

impl ValueCodec<Vec<u64>> for BincodeCodec<Vec<u64>> {
    open spec fn encode_spec(v: Seq<u64>) -> Seq<u8> {
        u64s_bytes(v)
    }

    open spec fn decode_spec(b: Seq<u8>) -> Option<Seq<u64>> {
        u64s_of_bytes(b)
    }

    open spec fn encodable(v: Seq<u64>) -> bool {
        v.len() <= u64::MAX
    }

    proof fn lemma_round_trip(v: Seq<u64>) {
        lemma_u64s_round_trip(v);
    }

    fn encode(value: &Vec<u64>) -> (r: Result<Vec<u8>>) {
        proof {
            assert(value@.len() == value.len());
        }
        match bincode_ser_u64s(value) {
            Ok(b) => Ok(b),
            Err(m) => Err(Error::Serialization(m)),
        }
    }

    fn decode(bytes: &[u8]) -> (r: Result<Vec<u64>>) {
        match bincode_de_u64s(bytes) {
            Ok(x) => Ok(x),
            Err(m) => Err(Error::Deserialization(m)),
        }
    }
}


/// The eight big-endian bytes of `x`.
pub open spec fn u64_be(x: u64) -> Seq<u8> {
    seq![
        ((x >> 56u64) & 0xff) as u8,
        ((x >> 48u64) & 0xff) as u8,
        ((x >> 40u64) & 0xff) as u8,
        ((x >> 32u64) & 0xff) as u8,
        ((x >> 24u64) & 0xff) as u8,
        ((x >> 16u64) & 0xff) as u8,
        ((x >> 8u64) & 0xff) as u8,
        (x & 0xff) as u8,
    ]
}

/// The integer whose big-endian bytes start `b` (which holds at least eight).
pub open spec fn be_u64(b: Seq<u8>) -> u64 {
    ((b[0] as u64) << 56u64) | ((b[1] as u64) << 48u64) | ((b[2] as u64) << 40u64) | ((b[3] as u64)
        << 32u64) | ((b[4] as u64) << 24u64) | ((b[5] as u64) << 16u64) | ((b[6] as u64) << 8u64)
        | (b[7] as u64)
}

/// Reading back the big-endian bytes of an integer gives the integer.
pub proof fn lemma_be_round_trip(x: u64)
    ensures
        u64_be(x).len() == 8,
        forall|t: Seq<u8>| be_u64(u64_be(x) + t) == x,
{
    assert(((((x >> 56u64) & 0xff) as u8 as u64) << 56u64) | ((((x >> 48u64) & 0xff) as u8 as u64)
        << 48u64) | ((((x >> 40u64) & 0xff) as u8 as u64) << 40u64) | ((((x >> 32u64) & 0xff) as u8
        as u64) << 32u64) | ((((x >> 24u64) & 0xff) as u8 as u64) << 24u64) | ((((x >> 16u64) & 0xff)
        as u8 as u64) << 16u64) | ((((x >> 8u64) & 0xff) as u8 as u64) << 8u64) | ((x & 0xff) as u8
        as u64) == x) by (bit_vector);
    assert forall|t: Seq<u8>| be_u64(u64_be(x) + t) == x by {
        let c = u64_be(x) + t;
        assert(c[0] == u64_be(x)[0] && c[1] == u64_be(x)[1] && c[2] == u64_be(x)[2] && c[3] == u64_be(x)[3]);
        assert(c[4] == u64_be(x)[4] && c[5] == u64_be(x)[5] && c[6] == u64_be(x)[6] && c[7] == u64_be(x)[7]);
    }
}

/// Big-endian bytes sort as the integers do.
pub proof fn lemma_be_ordered(a: u64, b: u64)
    ensures
        lex_le(u64_be(a), u64_be(b)) <==> a <= b,
{
    let x = u64_be(a);
    let y = u64_be(b);
    assert(a <= b <==> (if ((a >> 56u64) & 0xff) as u8 != ((b >> 56u64) & 0xff) as u8 {
        (((a >> 56u64) & 0xff) as u8) < (((b >> 56u64) & 0xff) as u8)
    } else if ((a >> 48u64) & 0xff) as u8 != ((b >> 48u64) & 0xff) as u8 {
        (((a >> 48u64) & 0xff) as u8) < (((b >> 48u64) & 0xff) as u8)
    } else if ((a >> 40u64) & 0xff) as u8 != ((b >> 40u64) & 0xff) as u8 {
        (((a >> 40u64) & 0xff) as u8) < (((b >> 40u64) & 0xff) as u8)
    } else if ((a >> 32u64) & 0xff) as u8 != ((b >> 32u64) & 0xff) as u8 {
        (((a >> 32u64) & 0xff) as u8) < (((b >> 32u64) & 0xff) as u8)
    } else if ((a >> 24u64) & 0xff) as u8 != ((b >> 24u64) & 0xff) as u8 {
        (((a >> 24u64) & 0xff) as u8) < (((b >> 24u64) & 0xff) as u8)
    } else if ((a >> 16u64) & 0xff) as u8 != ((b >> 16u64) & 0xff) as u8 {
        (((a >> 16u64) & 0xff) as u8) < (((b >> 16u64) & 0xff) as u8)
    } else if ((a >> 8u64) & 0xff) as u8 != ((b >> 8u64) & 0xff) as u8 {
        (((a >> 8u64) & 0xff) as u8) < (((b >> 8u64) & 0xff) as u8)
    } else if (a & 0xff) as u8 != (b & 0xff) as u8 {
        ((a & 0xff) as u8) < ((b & 0xff) as u8)
    } else {
        true
    })) by (bit_vector);
    assert(lex_le_from(x, y, 8));
    assert(lex_le_from(x, y, 7) == (if x[7] != y[7] { x[7] < y[7] } else { true }));
    assert(lex_le_from(x, y, 6) == (if x[6] != y[6] { x[6] < y[6] } else { lex_le_from(x, y, 7) }));
    assert(lex_le_from(x, y, 5) == (if x[5] != y[5] { x[5] < y[5] } else { lex_le_from(x, y, 6) }));
    assert(lex_le_from(x, y, 4) == (if x[4] != y[4] { x[4] < y[4] } else { lex_le_from(x, y, 5) }));
    assert(lex_le_from(x, y, 3) == (if x[3] != y[3] { x[3] < y[3] } else { lex_le_from(x, y, 4) }));
    assert(lex_le_from(x, y, 2) == (if x[2] != y[2] { x[2] < y[2] } else { lex_le_from(x, y, 3) }));
    assert(lex_le_from(x, y, 1) == (if x[1] != y[1] { x[1] < y[1] } else { lex_le_from(x, y, 2) }));
    assert(lex_le_from(x, y, 0) == (if x[0] != y[0] { x[0] < y[0] } else { lex_le_from(x, y, 1) }));
}

/// A key codec whose encoded bytes sort as the keys do, so that the
/// engine's byte order is the key order.
pub trait OrderedKeyCodec<K: View>: KeyCodec<K> {
    /// `a` comes no later than `b` in key order.
    spec fn key_le(a: K::V, b: K::V) -> bool;

    /// Encoded keys compare as the keys do.
    proof fn lemma_order(a: K::V, b: K::V)
        requires
            Self::encodable(a),
            Self::encodable(b),
        ensures
            lex_le(Self::encode_spec(a), Self::encode_spec(b)) <==> Self::key_le(a, b),
    ;
}

/// The order-preserving key codec: integers as eight big-endian bytes (in
/// bincode's fixed-width big-endian format), strings as their UTF-8 bytes.
pub struct OrderedCodec<T>(pub PhantomData<T>);

/// Relies on bincode's serialize with fixed-width, big-endian options: an
/// integer becomes its eight big-endian bytes; it does not fail.
#[verifier::external_body]
fn bincode_ser_u64_be(x: &u64) -> (r: core::result::Result<Vec<u8>, String>)
    ensures
        r is Ok,
        r matches Ok(b) ==> b@ == u64_be(*x),
{
    bincode::DefaultOptions::new().with_fixint_encoding().with_big_endian().allow_trailing_bytes()
        .serialize(x).map_err(|e| e.to_string())
}

/// Relies on bincode's deserialize with fixed-width, big-endian options that
/// allow trailing bytes: the first eight bytes, read big-endian; fewer than
/// eight is an error.
#[verifier::external_body]
fn bincode_de_u64_be(b: &[u8]) -> (r: core::result::Result<u64, String>)
    ensures
        match r {
            Ok(x) => b@.len() >= 8 && x == be_u64(b@),
            Err(_) => b@.len() < 8,
        },
{
    bincode::DefaultOptions::new().with_fixint_encoding().with_big_endian().allow_trailing_bytes()
        .deserialize::<u64>(b).map_err(|e| e.to_string())
}

/// Relies on String::from_utf8: the bytes as a string when they are valid
/// UTF-8, else an error.
#[verifier::external_body]
fn string_from_utf8(b: &[u8]) -> (r: core::result::Result<String, String>)
    ensures
        match r {
            Ok(s) => valid_utf8(b@) && s@ == decode_utf8(b@),
            Err(_) => !valid_utf8(b@),
        },
{
    String::from_utf8(b.to_vec()).map_err(|e| e.to_string())
}

impl KeyCodec<u64> for OrderedCodec<u64> {
    open spec fn encode_spec(k: u64) -> Seq<u8> {
        u64_be(k)
    }

    open spec fn decode_spec(b: Seq<u8>) -> Option<u64> {
        if b.len() >= 8 {
            Some(be_u64(b))
        } else {
            None
        }
    }

    open spec fn encodable(k: u64) -> bool {
        true
    }

    proof fn lemma_round_trip(k: u64) {
        lemma_be_round_trip(k);
        assert(u64_be(k) =~= u64_be(k) + Seq::<u8>::empty());
    }

    fn encode(key: &u64) -> (r: Result<Vec<u8>>) {
        match bincode_ser_u64_be(key) {
            Ok(b) => Ok(b),
            Err(m) => Err(Error::Serialization(m)),
        }
    }

    fn decode(bytes: &[u8]) -> (r: Result<u64>) {
        match bincode_de_u64_be(bytes) {
            Ok(k) => Ok(k),
            Err(m) => Err(Error::Deserialization(m)),
        }
    }
}

impl OrderedKeyCodec<u64> for OrderedCodec<u64> {
    open spec fn key_le(a: u64, b: u64) -> bool {
        a <= b
    }

    proof fn lemma_order(a: u64, b: u64) {
        lemma_be_ordered(a, b);
    }
}

impl KeyCodec<String> for OrderedCodec<String> {
    open spec fn encode_spec(k: Seq<char>) -> Seq<u8> {
        encode_utf8(k)
    }

    open spec fn decode_spec(b: Seq<u8>) -> Option<Seq<char>> {
        if valid_utf8(b) {
            Some(decode_utf8(b))
        } else {
            None
        }
    }

    open spec fn encodable(k: Seq<char>) -> bool {
        true
    }

    proof fn lemma_round_trip(k: Seq<char>) {
        encode_utf8_valid_utf8(k);
        encode_utf8_decode_utf8(k);
    }

    fn encode(key: &String) -> (r: Result<Vec<u8>>) {
        Ok(key.as_str().as_bytes_vec())
    }

    fn decode(bytes: &[u8]) -> (r: Result<String>) {
        match string_from_utf8(bytes) {
            Ok(k) => Ok(k),
            Err(m) => Err(Error::Deserialization(m)),
        }
    }
}

/// Strings order as their UTF-8 bytes, which is how Rust orders `str`.
impl OrderedKeyCodec<String> for OrderedCodec<String> {
    open spec fn key_le(a: Seq<char>, b: Seq<char>) -> bool {
        lex_le(encode_utf8(a), encode_utf8(b))
    }

    proof fn lemma_order(a: Seq<char>, b: Seq<char>) {
    }
}

} // verus!
