use rocksmap::store::{decode_found, encode_entry, namespace_not_found};
use rocksmap::{BatchOp, BincodeCodec, Error, KeyCodec, RocksMapBatch};
use std::collections::BTreeMap;

type Contents = BTreeMap<Vec<u8>, Vec<u8>>;
type Codec64 = BincodeCodec<u64>;
type CodecStr = BincodeCodec<String>;
type Batch = RocksMapBatch<u64, String, Codec64, CodecStr>;

fn put(m: &mut Contents, k: u64, v: &str) {
    let (kb, vb) = encode_entry::<u64, String, Codec64, CodecStr>(&k, &v.to_string()).unwrap();
    m.insert(kb, vb);
}

fn get(m: &Contents, k: u64) -> Option<String> {
    let kb = <Codec64 as KeyCodec<u64>>::encode(&k).unwrap();
    decode_found::<String, CodecStr>(m.get(&kb).cloned()).unwrap()
}

fn delete(m: &mut Contents, k: u64) {
    let kb = <Codec64 as KeyCodec<u64>>::encode(&k).unwrap();
    m.remove(&kb);
}

/// Applies a batch's writes in order, as the engine does on commit.
fn commit(m: &mut Contents, batch: Batch) {
    for op in batch.ops {
        match op {
            BatchOp::Put(k, v) => {
                m.insert(k, v);
            }
            BatchOp::Delete(k) => {
                m.remove(&k);
            }
        }
    }
}

#[test]
fn test_basic_operations() {
    let mut db = Contents::new();
    put(&mut db, 1, "Alice");
    assert_eq!(get(&db, 1), Some("Alice".to_string()));
    delete(&mut db, 1);
    assert!(get(&db, 1).is_none());
}

#[test]
fn test_column_family() {
    let mut namespaces: BTreeMap<String, Contents> = BTreeMap::new();
    {
        let users = namespaces.entry("users".to_string()).or_default();
        put(users, 1, "Bob");
        assert_eq!(get(users, 1), Some("Bob".to_string()));
    }
    {
        let settings = namespaces.entry("settings".to_string()).or_default();
        put(settings, 1, "dark-mode");
        assert_eq!(get(settings, 1), Some("dark-mode".to_string()));
    }
    assert_eq!(get(&namespaces["users"], 1), Some("Bob".to_string()));
}

#[test]
fn namespace_isolation() {
    let mut namespaces: BTreeMap<String, Contents> = BTreeMap::new();
    for name in ["a", "b", "default"] {
        namespaces.insert(name.to_string(), Contents::new());
    }
    put(namespaces.get_mut("a").unwrap(), 7, "only-a");
    assert_eq!(get(&namespaces["a"], 7), Some("only-a".to_string()));
    assert_eq!(get(&namespaces["b"], 7), None);
    assert_eq!(get(&namespaces["default"], 7), None);
}

#[test]
fn missing_namespace_error_names_it() {
    let e = namespace_not_found(&"ghost".to_string());
    assert!(matches!(e, Error::ColumnFamilyNotFound(n) if n == "ghost"));
}

#[test]
fn absent_key_reads_as_none() {
    assert!(matches!(decode_found::<String, CodecStr>(None), Ok(None)));
}

#[test]
fn corrupt_value_is_a_deserialization_error() {
    let r = decode_found::<String, CodecStr>(Some(vec![4, 0]));
    assert!(matches!(r, Err(Error::Deserialization(_))));
}

#[test]
fn put_then_get_then_delete() {
    let mut db = Contents::new();
    put(&mut db, 300, "v1");
    put(&mut db, 300, "v2");
    assert_eq!(get(&db, 300), Some("v2".to_string()));
    delete(&mut db, 300);
    assert_eq!(get(&db, 300), None);
    delete(&mut db, 300);
    assert_eq!(get(&db, 300), None);
}

#[test]
fn test_batch_operations() {
    let mut db = Contents::new();
    let items = vec![(1u64, "one"), (2, "two"), (3, "three")];
    {
        let mut batch = Batch::new(None);
        for (id, value) in &items {
            batch.put(id, &value.to_string()).unwrap();
        }
        commit(&mut db, batch);
    }
    for (id, value) in &items {
        assert_eq!(get(&db, *id), Some(value.to_string()));
    }
    {
        let mut batch = Batch::new(None);
        batch.delete(&1).unwrap();
        batch.delete(&2).unwrap();
        batch.put(&4, &"four".to_string()).unwrap();
        commit(&mut db, batch);
    }
    assert!(get(&db, 1).is_none());
    assert!(get(&db, 2).is_none());
    assert!(get(&db, 3).is_some());
    assert!(get(&db, 4).is_some());
}

#[test]
fn batch_has_no_effect_until_commit() {
    let db = Contents::new();
    let mut batch = Batch::new(Some("users".to_string()));
    batch.put(&1, &"x".to_string()).unwrap();
    assert_eq!(batch.ops.len(), 1);
    assert_eq!(batch.cf_name.as_deref(), Some("users"));
    assert!(get(&db, 1).is_none());
}

#[test]
fn cleared_batch_commits_nothing() {
    let mut db = Contents::new();
    let mut batch = Batch::new(None);
    batch.put(&1, &"x".to_string()).unwrap();
    batch.delete(&2).unwrap();
    batch.clear();
    assert!(batch.ops.is_empty());
    batch.put(&3, &"y".to_string()).unwrap();
    commit(&mut db, batch);
    assert!(get(&db, 1).is_none());
    assert_eq!(get(&db, 3), Some("y".to_string()));
}

#[test]
fn batch_of_puts_is_all_visible_after_commit() {
    let mut db = Contents::new();
    let mut batch = Batch::new(None);
    for i in 0..50u64 {
        batch.put(&i, &format!("v{}", i)).unwrap();
    }
    batch.put(&10, &"last".to_string()).unwrap();
    commit(&mut db, batch);
    for i in 0..50u64 {
        let want = if i == 10 { "last".to_string() } else { format!("v{}", i) };
        assert_eq!(get(&db, i), Some(want));
    }
}

#[test]
fn batch_ops_hold_encoded_bytes_in_order() {
    let mut batch = Batch::new(None);
    batch.put(&1, &"a".to_string()).unwrap();
    batch.delete(&1).unwrap();
    match &batch.ops[0] {
        BatchOp::Put(k, v) => {
            assert_eq!(k, &vec![1, 0, 0, 0, 0, 0, 0, 0]);
            assert_eq!(v, &vec![1, 0, 0, 0, 0, 0, 0, 0, b'a']);
        }
        BatchOp::Delete(_) => panic!("expected a put first"),
    }
    assert!(matches!(&batch.ops[1], BatchOp::Delete(k) if k == &vec![1, 0, 0, 0, 0, 0, 0, 0]));
}
