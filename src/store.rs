use crate::codec::{KeyCodec, ValueCodec};
use crate::error::{Error, Result};
use vstd::prelude::*;

verus! {

/// The contents of one namespace of the engine: encoded keys to encoded values.
pub type Contents = Map<Seq<u8>, Seq<u8>>;

/// The engine's namespaces by name; an unscoped store uses "default".
pub type Namespaces = Map<Seq<char>, Contents>;

/// The name of the namespace that a store handle scoped to `cf` reads and writes.
pub open spec fn namespace_of(cf: Option<Seq<char>>) -> Seq<char> {
    match cf {
        Some(name) => name,
        None => seq!['d', 'e', 'f', 'a', 'u', 'l', 't'],
    }
}

/// The raw bytes that the engine holds at `key` in `m`, if any.
pub open spec fn lookup(m: Contents, key: Seq<u8>) -> Option<Seq<u8>> {
    if m.contains_key(key) {
        Some(m[key])
    } else {
        None
    }
}

/// Encodes a key and a value for a write: the pair the engine stores.
pub fn encode_entry<K: View, V: View, KC: KeyCodec<K>, VC: ValueCodec<V>>(key: &K, value: &V) -> (r:
    Result<(Vec<u8>, Vec<u8>)>)
    ensures
        match r {
            Ok((kb, vb)) => {
                &&& kb@ == KC::encode_spec(key@)
                &&& vb@ == VC::encode_spec(value@)
                &&& KC::encodable(key@)
                &&& VC::encodable(value@)
            },
            Err(e) => e is Serialization,
        },
        KC::encodable(key@) && VC::encodable(value@) ==> r is Ok,
{
    let kb = match KC::encode(key) {
        Ok(b) => b,
        Err(e) => {
            return Err(Error::Serialization(error_message(e)));
        },
    };
    let vb = match VC::encode(value) {
        Ok(b) => b,
        Err(e) => {
            return Err(Error::Serialization(error_message(e)));
        },
    };
    Ok((kb, vb))
}

/// Turns what the engine found at a key into the stored value: `None` when
/// nothing is stored there.
pub fn decode_found<V: View, VC: ValueCodec<V>>(raw: Option<Vec<u8>>) -> (r: Result<Option<V>>)
    ensures
        match raw {
            None => r matches Ok(None),
            Some(b) => match VC::decode_spec(b@) {
                Some(v) => r matches Ok(Some(x)) && x@ == v,
                None => r matches Err(e) && e is Deserialization,
            },
        },
{
    match raw {
        None => Ok(None),
        Some(b) => match VC::decode(b.as_slice()) {
            Ok(v) => Ok(Some(v)),
            Err(e) => Err(e),
        },
    }
}

/// The error for a namespace that the engine does not hold.
pub fn namespace_not_found(name: &String) -> (r: Error)
    ensures
        r matches Error::ColumnFamilyNotFound(n) && n@ == name@,
{
    Error::ColumnFamilyNotFound(name.clone())
}

/// The text that an error carries.
pub open spec fn message_of(e: Error) -> Seq<char> {
    match e {
        Error::Rocks(m) => m@,
        Error::Serialization(m) => m@,
        Error::Deserialization(m) => m@,
        Error::ColumnFamilyNotFound(m) => m@,
        Error::InvalidPath(m) => m@,
        Error::Other(m) => m@,
    }
}

/// The text that an error carries.
pub fn error_message(e: Error) -> (r: String)
    ensures
        r@ == message_of(e),
{
    match e {
        Error::Rocks(m) => m,
        Error::Serialization(m) => m,
        Error::Deserialization(m) => m,
        Error::ColumnFamilyNotFound(m) => m,
        Error::InvalidPath(m) => m,
        Error::Other(m) => m,
    }
}

/// What a key reads back as after a write and after a delete: a value put
/// under a key is read back as that value, and a deleted key reads as absent.
pub proof fn lemma_put_get<K: View, V: View, KC: KeyCodec<K>, VC: ValueCodec<V>>(
    m: Contents,
    k: K::V,
    v: V::V,
)
    requires
        VC::encodable(v),
    ensures
        lookup(m.insert(KC::encode_spec(k), VC::encode_spec(v)), KC::encode_spec(k)) matches Some(b)
            && VC::decode_spec(b) == Some(v),
        lookup(m.insert(KC::encode_spec(k), VC::encode_spec(v)).remove(KC::encode_spec(k)), KC::encode_spec(k)) is None,
{
    VC::lemma_round_trip(v);
}

/// A write under one namespace leaves every other namespace as it was: a
/// value put under namespace `a` is not visible through a store scoped to
/// another namespace, nor through an unscoped store when `a` is not the
/// default namespace.
pub proof fn lemma_namespace_isolation(
    engine: Namespaces,
    a: Seq<char>,
    other: Option<Seq<char>>,
    key: Seq<u8>,
    value: Seq<u8>,
)
    requires
        engine.contains_key(a),
        engine.contains_key(namespace_of(other)),
        namespace_of(other) != a,
    ensures
        ({
            let after = engine.insert(a, engine[a].insert(key, value));
            &&& lookup(after[namespace_of(other)], key) == lookup(engine[namespace_of(other)], key)
            &&& lookup(after[a], key) == Some(value)
        }),
{
}

} // verus!
