use rocksmap::{BincodeCodec, Error, KeyCodec, OrderedCodec, Pull, RocksMapIterator, ValueCodec};
use std::collections::BTreeMap;

type Engine = BTreeMap<Vec<u8>, Vec<u8>>;
type U64Iter = RocksMapIterator<u64, String, OrderedCodec<u64>, BincodeCodec<String>>;
type StrIter = RocksMapIterator<String, String, OrderedCodec<String>, BincodeCodec<String>>;

fn put_u64(engine: &mut Engine, k: u64, v: &str) {
    let kb = <OrderedCodec<u64> as KeyCodec<u64>>::encode(&k).unwrap();
    let vb = <BincodeCodec<String> as ValueCodec<String>>::encode(&v.to_string()).unwrap();
    engine.insert(kb, vb);
}

fn put_str(engine: &mut Engine, k: &str, v: &str) {
    let kb = <OrderedCodec<String> as KeyCodec<String>>::encode(&k.to_string()).unwrap();
    let vb = <BincodeCodec<String> as ValueCodec<String>>::encode(&v.to_string()).unwrap();
    engine.insert(kb, vb);
}

/// The engine's entries from `start` on, in order.
fn entries_from(engine: &Engine, start: &[u8]) -> Vec<(Vec<u8>, Vec<u8>)> {
    engine
        .range(start.to_vec()..)
        .map(|(k, v)| (k.clone(), v.clone()))
        .collect()
}

/// Runs a scan over integer keys the way a store does: the engine's entries
/// from `start` on, then the end of its cursor.
fn drain_u64(it: &mut U64Iter, engine: &Engine, start: &[u8]) -> Vec<rocksmap::Result<(u64, String)>> {
    let mut out = Vec::new();
    let mut raws = entries_from(engine, start).into_iter();
    loop {
        match it.next(raws.next().map(Ok)) {
            Pull::Item(x) => out.push(x),
            Pull::Skip => {}
            Pull::End => return out,
        }
    }
}

/// Runs a scan over string keys the way a store does.
fn drain_str(it: &mut StrIter, engine: &Engine, start: &[u8]) -> Vec<rocksmap::Result<(String, String)>> {
    let mut out = Vec::new();
    let mut raws = entries_from(engine, start).into_iter();
    loop {
        match it.next(raws.next().map(Ok)) {
            Pull::Item(x) => out.push(x),
            Pull::Skip => {}
            Pull::End => return out,
        }
    }
}

#[test]
fn test_iterator() {
    let mut engine = Engine::new();
    for i in 1..=5u64 {
        put_u64(&mut engine, i, &format!("User-{}", i));
    }
    let mut it = U64Iter::iter();
    let mut count = 0;
    for item in drain_u64(&mut it, &engine, &[]) {
        let (key, value) = item.unwrap();
        assert_eq!(value, format!("User-{}", key));
        count += 1;
    }
    assert_eq!(count, 5);
}

#[test]
fn test_range_query() {
    let mut engine = Engine::new();
    for i in 1..=10u64 {
        put_u64(&mut engine, i, &format!("User-{}", i));
    }
    let (start, mut it) = U64Iter::range(&3, &7).unwrap();
    let mut ids = Vec::new();
    for result in drain_u64(&mut it, &engine, &start) {
        let (key, value) = result.unwrap();
        assert_eq!(value, format!("User-{}", key));
        ids.push(key);
    }
    assert!(ids.contains(&3));
    assert!(ids.contains(&4));
    assert!(ids.contains(&5));
    assert!(ids.contains(&6));
    assert!(ids.contains(&7));
    assert!(!ids.contains(&2));
    assert!(!ids.contains(&8));
}

#[test]
fn range_yields_exactly_the_bounds_in_order() {
    let mut engine = Engine::new();
    for i in 1..=10u64 {
        put_u64(&mut engine, i, "x");
    }
    let (start, mut it) = U64Iter::range(&3, &7).unwrap();
    let keys: Vec<u64> = drain_u64(&mut it, &engine, &start)
        .into_iter()
        .map(|r| r.unwrap().0)
        .collect();
    assert_eq!(keys, vec![3, 4, 5, 6, 7]);
}

#[test]
fn range_with_from_past_to_is_empty() {
    let mut engine = Engine::new();
    for i in 1..=10u64 {
        put_u64(&mut engine, i, "x");
    }
    let (start, mut it) = U64Iter::range(&7, &3).unwrap();
    assert!(drain_u64(&mut it, &engine, &start).is_empty());
}

#[test]
fn range_on_equal_bounds_yields_that_key() {
    let mut engine = Engine::new();
    for i in 1..=10u64 {
        put_u64(&mut engine, i, "x");
    }
    let (start, mut it) = U64Iter::range(&4, &4).unwrap();
    let keys: Vec<u64> = drain_u64(&mut it, &engine, &start)
        .into_iter()
        .map(|r| r.unwrap().0)
        .collect();
    assert_eq!(keys, vec![4]);
}

#[test]
fn test_prefix_scan() {
    let mut engine = Engine::new();
    let test_data = vec![
        ("user:001", "Alice"),
        ("user:002", "Bob"),
        ("user:003", "Charlie"),
        ("post:001", "Hello World"),
        ("post:002", "Another Post"),
    ];
    for (key, value) in &test_data {
        put_str(&mut engine, key, value);
    }

    let mut user_count = 0;
    let mut it = StrIter::prefix_scan("user:".to_string());
    for result in drain_str(&mut it, &engine, &[]) {
        let (key, _) = result.unwrap();
        assert!(key.starts_with("user:"));
        user_count += 1;
    }
    assert_eq!(user_count, 3);

    let mut post_count = 0;
    let mut it = StrIter::prefix_scan("post:".to_string());
    for result in drain_str(&mut it, &engine, &[]) {
        let (key, _) = result.unwrap();
        assert!(key.starts_with("post:"));
        post_count += 1;
    }
    assert_eq!(post_count, 2);
}

#[test]
fn prefix_scan_yields_exactly_the_matching_entries() {
    let mut engine = Engine::new();
    put_str(&mut engine, "user:1", "a");
    put_str(&mut engine, "post:1", "b");
    put_str(&mut engine, "user:2", "c");
    let mut it = StrIter::prefix_scan("user:".to_string());
    let mut got: Vec<(String, String)> = drain_str(&mut it, &engine, &[])
        .into_iter()
        .map(|r| r.unwrap())
        .collect();
    got.sort();
    assert_eq!(
        got,
        vec![
            ("user:1".to_string(), "a".to_string()),
            ("user:2".to_string(), "c".to_string())
        ]
    );
}

#[test]
fn exhausted_iterator_stays_exhausted() {
    let mut it = U64Iter::iter();
    assert!(matches!(it.next(None), Pull::End));
    let kb = <OrderedCodec<u64> as KeyCodec<u64>>::encode(&1).unwrap();
    let vb = <BincodeCodec<String> as ValueCodec<String>>::encode(&"v".to_string()).unwrap();
    assert!(matches!(it.next(Some(Ok((kb, vb)))), Pull::End));
    assert!(matches!(it.next(None), Pull::End));
}

#[test]
fn ended_range_does_not_restart() {
    let (_, mut it) = U64Iter::range(&1, &2).unwrap();
    let past = <OrderedCodec<u64> as KeyCodec<u64>>::encode(&3).unwrap();
    let vb = <BincodeCodec<String> as ValueCodec<String>>::encode(&"v".to_string()).unwrap();
    assert!(matches!(it.next(Some(Ok((past, vb.clone())))), Pull::End));
    let inside = <OrderedCodec<u64> as KeyCodec<u64>>::encode(&1).unwrap();
    assert!(matches!(it.next(Some(Ok((inside, vb)))), Pull::End));
}

#[test]
fn engine_error_is_yielded() {
    let mut it = U64Iter::iter();
    let r = it.next(Some(Err(Error::Rocks("disk".to_string()))));
    assert!(matches!(r, Pull::Item(Err(Error::Rocks(m))) if m == "disk"));
    assert!(matches!(it.next(None), Pull::End));
}

#[test]
fn undecodable_value_is_yielded_as_error() {
    let mut it = U64Iter::iter();
    let kb = <OrderedCodec<u64> as KeyCodec<u64>>::encode(&1).unwrap();
    let r = it.next(Some(Ok((kb, vec![9]))));
    assert!(matches!(r, Pull::Item(Err(Error::Deserialization(_)))));
}

#[test]
fn undecodable_key_is_yielded_as_error() {
    let mut it = U64Iter::iter();
    let r = it.next(Some(Ok((vec![1, 2], vec![]))));
    assert!(matches!(r, Pull::Item(Err(Error::Deserialization(_)))));
}

#[test]
fn non_matching_key_is_skipped() {
    let mut it = StrIter::prefix_scan("ab".to_string());
    let kb = <OrderedCodec<String> as KeyCodec<String>>::encode(&"ba".to_string()).unwrap();
    assert!(matches!(it.next(Some(Ok((kb, vec![])))), Pull::Skip));
}

#[test]
fn range_follows_key_order_past_255() {
    let mut engine = Engine::new();
    for i in [1u64, 2, 255, 256, 257, 70000] {
        put_u64(&mut engine, i, "x");
    }
    let (start, mut it) = U64Iter::range(&1, &256).unwrap();
    let keys: Vec<u64> = drain_u64(&mut it, &engine, &start)
        .into_iter()
        .map(|r| r.unwrap().0)
        .collect();
    assert_eq!(keys, vec![1, 2, 255, 256]);
    let (start, mut it) = U64Iter::range(&256, &u64::MAX).unwrap();
    let keys: Vec<u64> = drain_u64(&mut it, &engine, &start)
        .into_iter()
        .map(|r| r.unwrap().0)
        .collect();
    assert_eq!(keys, vec![256, 257, 70000]);
}

#[test]
fn string_range_follows_text_order() {
    let mut engine = Engine::new();
    for k in ["b", "aa", "ab", "c", "ba"] {
        put_str(&mut engine, k, "x");
    }
    let (start, mut it) = StrIter::range(&"ab".to_string(), &"b".to_string()).unwrap();
    let keys: Vec<String> = drain_str(&mut it, &engine, &start)
        .into_iter()
        .map(|r| r.unwrap().0)
        .collect();
    assert_eq!(keys, vec!["ab".to_string(), "b".to_string()]);
}
