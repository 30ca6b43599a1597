use runtime_client::codec::{decode, encode, Value};

fn enc(v: Value) -> Vec<u8> {
    encode(&v)
}

#[test]
fn encode_unsigned_boundaries() {
    assert_eq!(enc(Value::Unsigned(0)), vec![0x00]);
    assert_eq!(enc(Value::Unsigned(23)), vec![0x17]);
    assert_eq!(enc(Value::Unsigned(24)), vec![0x18, 0x18]);
    assert_eq!(enc(Value::Unsigned(255)), vec![0x18, 0xff]);
    assert_eq!(enc(Value::Unsigned(256)), vec![0x19, 0x01, 0x00]);
    assert_eq!(enc(Value::Unsigned(65535)), vec![0x19, 0xff, 0xff]);
    assert_eq!(enc(Value::Unsigned(65536)), vec![0x1a, 0x00, 0x01, 0x00, 0x00]);
    assert_eq!(enc(Value::Unsigned(4294967295)), vec![0x1a, 0xff, 0xff, 0xff, 0xff]);
    assert_eq!(
        enc(Value::Unsigned(4294967296)),
        vec![0x1b, 0x00, 0x00, 0x00, 0x01, 0x00, 0x00, 0x00, 0x00]
    );
    assert_eq!(
        enc(Value::Unsigned(u64::MAX)),
        vec![0x1b, 0xff, 0xff, 0xff, 0xff, 0xff, 0xff, 0xff, 0xff]
    );
}

#[test]
fn encode_negative() {
    // Negative(n) stands for -1 - n
    assert_eq!(enc(Value::Negative(0)), vec![0x20]);
    assert_eq!(enc(Value::Negative(23)), vec![0x37]);
    assert_eq!(enc(Value::Negative(24)), vec![0x38, 0x18]);
}

#[test]
fn encode_compound() {
    assert_eq!(enc(Value::Bytes(vec![1, 2, 3])), vec![0x43, 1, 2, 3]);
    assert_eq!(enc(Value::Text("abc".to_string())), vec![0x63, 97, 98, 99]);
    assert_eq!(
        enc(Value::Array(vec![Value::Unsigned(1), Value::Unsigned(2)])),
        vec![0x82, 0x01, 0x02]
    );
    assert_eq!(
        enc(Value::Mapping(vec![(Value::Unsigned(1), Value::Unsigned(2))])),
        vec![0xa1, 0x01, 0x02]
    );
    assert_eq!(enc(Value::Mapping(vec![])), vec![0xa0]);
    assert_eq!(enc(Value::Bool(false)), vec![0xf4]);
    assert_eq!(enc(Value::Bool(true)), vec![0xf5]);
    assert_eq!(enc(Value::Null), vec![0xf6]);
}

#[test]
fn encode_is_deterministic() {
    let make = || {
        Value::Mapping(vec![
            (Value::Unsigned(1), Value::Text("one".to_string())),
            (Value::Text("k".to_string()), Value::Array(vec![Value::Bytes(vec![9, 8])])),
        ])
    };
    assert_eq!(enc(make()), enc(make()));
}

#[test]
fn decode_round_trip() {
    let v = Value::Mapping(vec![
        (Value::Unsigned(1), Value::Text("one".to_string())),
        (Value::Unsigned(2), Value::Array(vec![Value::Bytes(vec![9, 8]), Value::Null])),
    ]);
    let bytes = enc(v);
    let back = decode(&bytes).expect("canonical bytes decode");
    assert_eq!(encode(&back), bytes);
}

#[test]
fn decode_rejects_non_minimal_int() {
    assert!(decode(&[0x18, 0x17]).is_err());
    assert!(decode(&[0x19, 0x00, 0xff]).is_err());
    assert!(decode(&[0x1a, 0x00, 0x00, 0xff, 0xff]).is_err());
}

#[test]
fn decode_rejects_unsorted_or_duplicate_map_keys() {
    // keys 2 then 1: not ascending
    assert!(decode(&[0xa2, 0x02, 0x00, 0x01, 0x00]).is_err());
    // duplicate key 1
    assert!(decode(&[0xa2, 0x01, 0x00, 0x01, 0x00]).is_err());
    // keys 1 then 2: fine
    assert!(decode(&[0xa2, 0x01, 0x00, 0x02, 0x00]).is_ok());
}

#[test]
fn decode_rejects_malformed_input() {
    assert!(decode(&[]).is_err());
    assert!(decode(&[0x19, 0x01]).is_err()); // truncated header
    assert!(decode(&[0x43, 1, 2]).is_err()); // truncated bytes
    assert!(decode(&[0x00, 0x00]).is_err()); // trailing bytes
    assert!(decode(&[0xf9, 0x3c, 0x00]).is_err()); // half-precision float
    assert!(decode(&[0x9f, 0x00, 0xff]).is_err()); // indefinite array
    assert!(decode(&[0xf7]).is_err()); // undefined
    assert!(decode(&[0x61, 0xff]).is_err()); // invalid UTF-8 text
}

#[test]
fn decode_enforces_nesting_limit() {
    let mut ok_bytes = vec![0x81u8; 63];
    ok_bytes.push(0x80);
    assert!(decode(&ok_bytes).is_ok());

    let mut deep_bytes = vec![0x81u8; 64];
    deep_bytes.push(0x80);
    assert!(decode(&deep_bytes).is_err());
}
