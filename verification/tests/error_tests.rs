use runtime_client::codec::{encode, Value};
use runtime_client::errors::{translate_status, Error};

/// A protobuf `Any` message holding `value_bytes` in field 2.
fn any_message(value_bytes: &[u8]) -> Vec<u8> {
    let mut out = vec![0x12, value_bytes.len() as u8];
    out.extend_from_slice(value_bytes);
    out
}

/// A protobuf `Status` message holding one `Any` detail in field 3.
fn status_with_detail(any_bytes: &[u8]) -> Vec<u8> {
    let mut out = vec![0x1a, any_bytes.len() as u8];
    out.extend_from_slice(any_bytes);
    out
}

fn coded_error_bytes(code: u64, module: &str, message: Option<&str>) -> Vec<u8> {
    let mut entries = vec![
        (Value::Text("code".to_string()), Value::Unsigned(code)),
        (Value::Text("module".to_string()), Value::Text(module.to_string())),
    ];
    if let Some(m) = message {
        entries.push((Value::Text("message".to_string()), Value::Text(m.to_string())));
    }
    encode(&Value::Mapping(entries))
}

// A well-formed coded-error detail classifies as a reverted transaction.
#[test]
fn coded_detail_decodes_to_request_failed() {
    let detail = coded_error_bytes(7, "bank", Some("boom"));
    let status = status_with_detail(&any_message(&detail));
    let err = translate_status(2, "generic".to_string(), &status);
    match err {
        Error::RequestFailed { module, code, message } => {
            assert_eq!(module, "bank");
            assert_eq!(code, 7);
            assert_eq!(message, Some("boom".to_string()));
        }
        other => panic!("expected RequestFailed, got {:?}", other),
    }
}

// A coded error without its own message falls back to the status message.
#[test]
fn coded_detail_without_message_uses_status_message() {
    let detail = coded_error_bytes(4, "accounts", None);
    let status = status_with_detail(&any_message(&detail));
    let err = translate_status(2, "insufficient balance".to_string(), &status);
    match err {
        Error::RequestFailed { module, code, message } => {
            assert_eq!(module, "accounts");
            assert_eq!(code, 4);
            assert_eq!(message, Some("insufficient balance".to_string()));
        }
        other => panic!("expected RequestFailed, got {:?}", other),
    }
}

// A status with no detail surfaces the raw status.
#[test]
fn status_without_detail_stays_raw() {
    let err = translate_status(14, "unavailable".to_string(), &Vec::new());
    match err {
        Error::Rpc(info) => {
            assert_eq!(info.code, 14);
            assert_eq!(info.message, "unavailable");
        }
        other => panic!("expected Rpc, got {:?}", other),
    }
}

// Corrupt detail bytes fall back to the raw status without crashing.
#[test]
fn corrupt_detail_falls_back_to_raw() {
    // unparseable Any payload
    let status = status_with_detail(&[0xff, 0xff]);
    assert!(matches!(translate_status(2, "bad".to_string(), &status), Error::Rpc(_)));
    // Any payload that is not CBOR
    let status2 = status_with_detail(&any_message(&[0xff]));
    assert!(matches!(translate_status(2, "bad".to_string(), &status2), Error::Rpc(_)));
    // CBOR that is not a coded error
    let status3 = status_with_detail(&any_message(&encode(&Value::Unsigned(5))));
    assert!(matches!(translate_status(2, "bad".to_string(), &status3), Error::Rpc(_)));
    // unparseable Status bytes
    assert!(matches!(
        translate_status(2, "bad".to_string(), &vec![0xff, 0xff, 0xff]),
        Error::Rpc(_)
    ));
}

// A code too large for the 32-bit error code field is not a coded error.
#[test]
fn oversized_code_is_not_a_coded_error() {
    let detail = coded_error_bytes(1 << 40, "bank", None);
    let status = status_with_detail(&any_message(&detail));
    assert!(matches!(translate_status(2, "m".to_string(), &status), Error::Rpc(_)));
}
