use runtime_client::assemble::{
    build_signer_infos, build_submission_payload, build_transaction, collect_nonces,
    collect_signatures,
};
use runtime_client::chain_context::{derive_chain_context, hex_encode};
use runtime_client::codec::{decode, Value};
use runtime_client::errors::Error;
use runtime_client::requests::{
    build_block_request, build_chain_context_request, build_query_request, build_submit_tx_request,
    consensus_context_bytes, events_list, query_response_data, submit_response_bytes,
};
use runtime_client::transaction::{
    round_number, u128_be_bytes, AddressSpec, CallFormat, Fee, Round, SignatureAddressSpec,
    ROUND_LATEST,
};
use sha2::Digest;

fn fee_zero_gas(gas: u64) -> Fee {
    let mut fee = Fee::free();
    fee.gas = gas;
    fee
}

fn map_get<'a>(entries: &'a [(Value, Value)], key: &str) -> &'a Value {
    for (k, v) in entries {
        if let Value::Text(t) = k {
            if t == key {
                return v;
            }
        }
    }
    panic!("key {} not found", key);
}

#[test]
fn round_sentinel() {
    assert_eq!(round_number(Round::Latest), u64::MAX);
    assert_eq!(round_number(Round::Latest), ROUND_LATEST);
    assert_eq!(round_number(Round::Numbered(7)), 7);
}

#[test]
fn be_bytes_minimal() {
    assert_eq!(u128_be_bytes(0), Vec::<u8>::new());
    assert_eq!(u128_be_bytes(1), vec![1]);
    assert_eq!(u128_be_bytes(255), vec![255]);
    assert_eq!(u128_be_bytes(256), vec![1, 0]);
    assert_eq!(u128_be_bytes(0x010203), vec![1, 2, 3]);
}

#[test]
fn hex_lower_case() {
    assert_eq!(hex_encode(&vec![0x00, 0xab, 0xff]), b"00abff".to_vec());
    assert_eq!(hex_encode(&vec![]), Vec::<u8>::new());
}

// Scenario: chain context derivation over namespace and consensus bytes.
#[test]
fn chain_context_matches_digest() {
    let namespace = vec![0x11u8; 32];
    let consensus = b"test-chain-context".to_vec();
    let ctx = derive_chain_context(&namespace, &consensus);

    let mut data = namespace.clone();
    data.extend_from_slice(&consensus);
    let digest = sha2::Sha512_256::digest(&data);
    let mut expected = b"oasis-runtime-sdk/tx: v0 for chain ".to_vec();
    for b in digest.iter() {
        expected.extend_from_slice(format!("{:02x}", b).as_bytes());
    }
    assert_eq!(ctx, expected);
    // 64 hex digits follow the prefix
    assert_eq!(ctx.len(), b"oasis-runtime-sdk/tx: v0 for chain ".len() + 64);
    // stable: deriving again from the same inputs yields the same bytes
    assert_eq!(derive_chain_context(&namespace, &consensus), ctx);
}

// Signer order invariance: outputs follow wallet slots, not completion order.
#[test]
fn signer_order_preserved() {
    let addresses = vec![
        AddressSpec::Signature(SignatureAddressSpec::Ed25519(vec![1; 32])),
        AddressSpec::Signature(SignatureAddressSpec::Ed25519(vec![2; 32])),
        AddressSpec::Internal(vec![3]),
    ];
    let nonces = vec![10, 20, 30];
    let infos = build_signer_infos(addresses, &nonces);
    assert_eq!(infos.len(), 3);
    assert_eq!(infos[0].nonce, 10);
    assert_eq!(infos[1].nonce, 20);
    assert_eq!(infos[2].nonce, 30);
    assert!(matches!(
        &infos[0].address_spec,
        AddressSpec::Signature(SignatureAddressSpec::Ed25519(pk)) if pk[0] == 1
    ));
    assert!(matches!(
        &infos[1].address_spec,
        AddressSpec::Signature(SignatureAddressSpec::Ed25519(pk)) if pk[0] == 2
    ));
    assert!(matches!(&infos[2].address_spec, AddressSpec::Internal(d) if d == &vec![3]));
}

#[test]
fn collect_results_keep_slot_order() {
    let nonces = collect_nonces(vec![Ok(5), Ok(6), Ok(7)]).expect("all ok");
    assert_eq!(nonces, vec![5, 6, 7]);
    let sigs =
        collect_signatures(vec![Ok(vec![1]), Ok(vec![2])]).expect("all ok");
    assert_eq!(sigs, vec![vec![1], vec![2]]);
}

// Fail fast on signer error: one failing wallet aborts assembly with a
// signer-category error before anything could be submitted.
#[test]
fn wallet_failure_aborts_assembly() {
    let r = collect_nonces(vec![Ok(5), Err("nonce backend down".to_string()), Ok(7)]);
    assert!(matches!(r, Err(Error::Wallet(_))));
    let r2 = collect_signatures(vec![
        Ok(vec![1]),
        Err("user rejected".to_string()),
    ]);
    assert!(matches!(r2, Err(Error::Wallet(_))));
}

// Scenario: a single-wallet transaction round trips through the submission
// payload; the envelope holds that wallet's reported nonce.
#[test]
fn submission_payload_round_trip() {
    let addresses = vec![AddressSpec::Signature(SignatureAddressSpec::Ed25519(vec![9; 32]))];
    let nonces = collect_nonces(vec![Ok(42)]).expect("nonce fetch ok");
    let infos = build_signer_infos(addresses, &nonces);
    let tx = build_transaction(
        "x.Y".to_string(),
        Value::Mapping(vec![]),
        CallFormat::Plain,
        infos,
        fee_zero_gas(1000),
    );
    let tx_bytes = runtime_client::transaction::serialize_transaction(tx);
    let proofs = collect_signatures(vec![Ok(b"signature-bytes".to_vec())]).expect("signing ok");
    let payload = build_submission_payload(tx_bytes.clone(), proofs);

    // The payload is a 2-tuple: the serialized envelope and the proof list.
    let decoded = decode(&payload).expect("payload is canonical");
    let items = match decoded {
        Value::Array(items) => items,
        other => panic!("expected array, got {:?}", other),
    };
    assert_eq!(items.len(), 2);
    let inner_tx = match &items[0] {
        Value::Bytes(b) => b.clone(),
        other => panic!("expected bytes, got {:?}", other),
    };
    assert_eq!(inner_tx, tx_bytes);
    match &items[1] {
        Value::Array(proof_items) => {
            assert_eq!(proof_items.len(), 1);
            assert!(matches!(&proof_items[0], Value::Bytes(b) if b == b"signature-bytes"));
        }
        other => panic!("expected proof array, got {:?}", other),
    }

    // The envelope decodes back to a map with one signer info bearing the
    // wallet's nonce, the method, and the fee.
    let envelope = decode(&inner_tx).expect("envelope is canonical");
    let entries = match envelope {
        Value::Mapping(entries) => entries,
        other => panic!("expected map, got {:?}", other),
    };
    match map_get(&entries, "v") {
        Value::Unsigned(1) => {}
        other => panic!("unexpected version {:?}", other),
    }
    let call_entries = match map_get(&entries, "call") {
        Value::Mapping(e) => e.clone(),
        other => panic!("expected call map, got {:?}", other),
    };
    assert!(matches!(map_get(&call_entries, "method"), Value::Text(m) if m == "x.Y"));
    assert!(matches!(map_get(&call_entries, "format"), Value::Unsigned(0)));
    assert!(matches!(map_get(&call_entries, "body"), Value::Mapping(e) if e.is_empty()));
    let ai_entries = match map_get(&entries, "ai") {
        Value::Mapping(e) => e.clone(),
        other => panic!("expected auth info map, got {:?}", other),
    };
    let signer_infos = match map_get(&ai_entries, "si") {
        Value::Array(s) => s.clone(),
        other => panic!("expected signer info list, got {:?}", other),
    };
    assert_eq!(signer_infos.len(), 1);
    let si_entries = match &signer_infos[0] {
        Value::Mapping(e) => e.clone(),
        other => panic!("expected signer info map, got {:?}", other),
    };
    assert!(matches!(map_get(&si_entries, "nonce"), Value::Unsigned(42)));
    let fee_entries = match map_get(&ai_entries, "fee") {
        Value::Mapping(e) => e.clone(),
        other => panic!("expected fee map, got {:?}", other),
    };
    assert!(matches!(map_get(&fee_entries, "gas"), Value::Unsigned(1000)));
    assert!(matches!(
        map_get(&fee_entries, "amount"),
        Value::Array(parts) if matches!(&parts[0], Value::Bytes(b) if b.is_empty())
    ));
}

// Scenario: a stream of three valid frames and one corrupt frame yields
// three decoded items and then an error, never a silent skip.
#[test]
fn stream_decoding_stops_on_bad_frame() {
    let frames: Vec<Vec<u8>> = vec![
        runtime_client::codec::encode(&Value::Unsigned(1)),
        runtime_client::codec::encode(&Value::Unsigned(2)),
        runtime_client::codec::encode(&Value::Unsigned(3)),
        vec![0xff],
    ];
    let mut decoded = Vec::new();
    let mut failure = None;
    for frame in &frames {
        match decode(frame) {
            Ok(v) => decoded.push(v),
            Err(e) => {
                failure = Some(e);
                break;
            }
        }
    }
    assert_eq!(decoded.len(), 3);
    assert!(failure.is_some());
    for (i, v) in decoded.iter().enumerate() {
        assert!(matches!(v, Value::Unsigned(n) if *n == (i as u64) + 1));
    }
}

#[test]
fn request_bodies_are_canonical() {
    assert_eq!(build_chain_context_request(), vec![0xa0]);
    let rid = vec![0xaau8; 2];
    let block_req = build_block_request(rid.clone(), 3);
    // {"round": 3, "runtime_id": h'aaaa'}
    let mut expected = vec![0xa2, 0x65];
    expected.extend_from_slice(b"round");
    expected.push(0x03);
    expected.push(0x6a);
    expected.extend_from_slice(b"runtime_id");
    expected.extend_from_slice(&[0x42, 0xaa, 0xaa]);
    assert_eq!(block_req, expected);
    assert!(decode(&build_submit_tx_request(rid.clone(), vec![1, 2])).is_ok());
    assert!(decode(&build_query_request(
        rid,
        u64::MAX,
        "accounts.Balances".to_string(),
        Value::Mapping(vec![]),
    ))
    .is_ok());
}

#[test]
fn response_extractors() {
    assert_eq!(
        consensus_context_bytes(Value::Bytes(vec![1, 2, 3])),
        Ok(vec![1, 2, 3])
    );
    assert_eq!(
        consensus_context_bytes(Value::Text("ctx".to_string())),
        Ok(b"ctx".to_vec())
    );
    assert!(consensus_context_bytes(Value::Unsigned(1)).is_err());

    assert_eq!(submit_response_bytes(Value::Bytes(vec![9])), Ok(vec![9]));
    assert!(submit_response_bytes(Value::Null).is_err());

    let response = Value::Mapping(vec![
        (Value::Text("data".to_string()), Value::Unsigned(7)),
        (Value::Text("extra".to_string()), Value::Null),
    ]);
    assert!(matches!(query_response_data(response), Ok(Value::Unsigned(7))));
    let no_data = Value::Mapping(vec![(Value::Text("other".to_string()), Value::Null)]);
    assert!(query_response_data(no_data).is_err());
    assert!(query_response_data(Value::Null).is_err());

    let events = events_list(Value::Array(vec![Value::Unsigned(1), Value::Unsigned(2)]))
        .expect("array accepted");
    assert_eq!(events.len(), 2);
    assert_eq!(events_list(Value::Null).expect("null accepted").len(), 0);
    assert!(events_list(Value::Bytes(vec![])).is_err());
}
