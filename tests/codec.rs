use rocksmap::{BincodeCodec, Error, KeyCodec, OrderedCodec, ValueCodec};

#[test]
fn test_bincode_key_codec() {
    let id: u64 = 42;
    let name = "test_key".to_string();

    let encoded = <BincodeCodec<u64> as KeyCodec<u64>>::encode(&id).unwrap();
    let decoded = <BincodeCodec<u64> as KeyCodec<u64>>::decode(&encoded).unwrap();
    assert_eq!(id, decoded);

    let encoded = <BincodeCodec<String> as KeyCodec<String>>::encode(&name).unwrap();
    let decoded = <BincodeCodec<String> as KeyCodec<String>>::decode(&encoded).unwrap();
    assert_eq!(name, decoded);
}

#[test]
fn test_bincode_value_codec() {
    let data: Vec<u64> = vec![1, 2, 3, 4];

    let encoded = <BincodeCodec<Vec<u64>> as ValueCodec<Vec<u64>>>::encode(&data).unwrap();
    let decoded = <BincodeCodec<Vec<u64>> as ValueCodec<Vec<u64>>>::decode(&encoded).unwrap();

    assert_eq!(data, decoded);
}

#[test]
fn integer_encodes_little_endian() {
    let encoded = <BincodeCodec<u64> as KeyCodec<u64>>::encode(&0x0102).unwrap();
    assert_eq!(encoded, vec![2, 1, 0, 0, 0, 0, 0, 0]);
}

#[test]
fn string_encodes_length_then_utf8() {
    let encoded = <BincodeCodec<String> as ValueCodec<String>>::encode(&"hé".to_string()).unwrap();
    assert_eq!(encoded, vec![3, 0, 0, 0, 0, 0, 0, 0, b'h', 0xc3, 0xa9]);
}

#[test]
fn list_encodes_length_then_items() {
    let encoded = <BincodeCodec<Vec<u64>> as ValueCodec<Vec<u64>>>::encode(&vec![7, 256]).unwrap();
    assert_eq!(
        encoded,
        vec![2, 0, 0, 0, 0, 0, 0, 0, 7, 0, 0, 0, 0, 0, 0, 0, 0, 1, 0, 0, 0, 0, 0, 0]
    );
}

#[test]
fn empty_string_round_trips() {
    let encoded = <BincodeCodec<String> as KeyCodec<String>>::encode(&String::new()).unwrap();
    assert_eq!(encoded, vec![0; 8]);
    let decoded = <BincodeCodec<String> as KeyCodec<String>>::decode(&encoded).unwrap();
    assert_eq!(decoded, "");
}

#[test]
fn largest_integer_round_trips() {
    let encoded = <BincodeCodec<u64> as ValueCodec<u64>>::encode(&u64::MAX).unwrap();
    assert_eq!(encoded, vec![0xff; 8]);
    let decoded = <BincodeCodec<u64> as ValueCodec<u64>>::decode(&encoded).unwrap();
    assert_eq!(decoded, u64::MAX);
}

#[test]
fn short_integer_bytes_fail_to_decode() {
    let r = <BincodeCodec<u64> as KeyCodec<u64>>::decode(&[1, 2, 3]);
    assert!(matches!(r, Err(Error::Deserialization(_))));
}

#[test]
fn trailing_bytes_are_ignored() {
    let r = <BincodeCodec<u64> as KeyCodec<u64>>::decode(&[5, 0, 0, 0, 0, 0, 0, 0, 9, 9]).unwrap();
    assert_eq!(r, 5);
}

#[test]
fn invalid_utf8_fails_to_decode() {
    let r = <BincodeCodec<String> as ValueCodec<String>>::decode(&[1, 0, 0, 0, 0, 0, 0, 0, 0xff]);
    assert!(matches!(r, Err(Error::Deserialization(_))));
}

#[test]
fn truncated_string_fails_to_decode() {
    let r = <BincodeCodec<String> as ValueCodec<String>>::decode(&[5, 0, 0, 0, 0, 0, 0, 0, b'a']);
    assert!(matches!(r, Err(Error::Deserialization(_))));
}

#[test]
fn truncated_list_fails_to_decode() {
    let r = <BincodeCodec<Vec<u64>> as ValueCodec<Vec<u64>>>::decode(&[1, 0, 0, 0, 0, 0, 0, 0, 1]);
    assert!(matches!(r, Err(Error::Deserialization(_))));
}

#[test]
fn ordered_integer_encodes_big_endian() {
    let encoded = <OrderedCodec<u64> as KeyCodec<u64>>::encode(&0x0102).unwrap();
    assert_eq!(encoded, vec![0, 0, 0, 0, 0, 0, 1, 2]);
    assert_eq!(<OrderedCodec<u64> as KeyCodec<u64>>::decode(&encoded).unwrap(), 0x0102);
}

#[test]
fn ordered_integer_bytes_sort_as_integers() {
    let a = <OrderedCodec<u64> as KeyCodec<u64>>::encode(&255).unwrap();
    let b = <OrderedCodec<u64> as KeyCodec<u64>>::encode(&256).unwrap();
    assert!(a < b);
}

#[test]
fn ordered_string_is_its_utf8_bytes() {
    let encoded = <OrderedCodec<String> as KeyCodec<String>>::encode(&"hé".to_string()).unwrap();
    assert_eq!(encoded, vec![b'h', 0xc3, 0xa9]);
    assert_eq!(<OrderedCodec<String> as KeyCodec<String>>::decode(&encoded).unwrap(), "hé");
}

#[test]
fn ordered_decode_errors() {
    assert!(matches!(<OrderedCodec<u64> as KeyCodec<u64>>::decode(&[1, 2]), Err(Error::Deserialization(_))));
    assert!(matches!(<OrderedCodec<String> as KeyCodec<String>>::decode(&[0xff]), Err(Error::Deserialization(_))));
}
