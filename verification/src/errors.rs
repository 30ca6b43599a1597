//! The typed error taxonomy, and the translation of transport failures into
//! it.
//!
//! A failed call either could not reach or be processed by the node
//! (`Transport`, `Rpc`), failed in a wallet before anything was submitted
//! (`Wallet`), or was processed and reverted on chain (`RequestFailed`).  The
//! last case is recognized by decoding a coded-error record smuggled in the
//! status detail side channel; when that decoding fails in any way, the raw
//! status is surfaced instead, never a crash.

use vstd::prelude::*;

use crate::codec::{decode, decode_spec, DecodeError, Value, ValueView};
use crate::status::{any_value, any_value_spec, status_details, status_details_spec};

verus! {

/// The code and message of a raw transport status.
#[derive(Clone, Debug)]
pub struct StatusInfo {
    pub code: u32,
    pub message: String,
}

/// Everything a call can fail with.
#[derive(Debug)]
pub enum Error {
    /// A transport-level failure: the channel could not be used at all.
    Transport(String),
    /// A wallet failed to supply a nonce or a signature; nothing was
    /// submitted.
    Wallet(String),
    /// The call failed in the RPC protocol: a raw status with no parseable
    /// coded-error detail, or a malformed response.
    Rpc(StatusInfo),
    /// The call was processed and the transaction reverted on chain.
    RequestFailed {
        /// The runtime module that generated the reversion.
        module: String,
        /// The runtime error code.
        code: u32,
        /// The error message, if the module provided one.
        message: Option<String>,
    },
}

impl Error {
    /// Wraps a decode failure as a protocol-level error.
    pub fn from_decode(e: DecodeError) -> (r: Error)
        ensures
            r matches Error::Rpc(s) && s.code == 13u32,
    {
        let _ = e;
        Error::Rpc(StatusInfo { code: 13, message: String::new() })
    }
}

/// Builds the reverted-transaction error from a runtime module error's
/// parts: its module name, its code, and its rendered message.
pub fn from_sdk_error(module: String, code: u32, message: String) -> (r: Error)
    ensures
        r matches Error::RequestFailed { module: m, code: c, message: msg } && m@ == module@ && c
            == code && (msg matches Some(t) && t@ == message@),
{
    Error::RequestFailed { module, code, message: Some(message) }
}

/// The coded error carried by a status, if it carries a well-formed one:
/// the first `Any` detail's value must decode to a canonical map holding
/// exactly a `code` that fits 32 bits, a `module` name, and optionally a
/// `message`.
pub open spec fn coded_error_spec(details: Seq<u8>) -> Option<(Seq<char>, u32, Option<Seq<char>>)> {
    match status_details_spec(details, 0) {
        None => None,
        Some(ds) => {
            if ds.len() == 0 {
                None
            } else {
                match any_value_spec(ds[0], 0) {
                    None => None,
                    Some(vb) => match decode_spec(vb) {
                        Some(v) => coded_error_of_value(v),
                        None => None,
                    },
                }
            }
        },
    }
}

/// Reads a decoded value as a coded-error record, if it has exactly that
/// shape.
pub open spec fn coded_error_of_value(v: ValueView) -> Option<(Seq<char>, u32, Option<Seq<char>>)> {
    match v {
        ValueView::Mapping(entries) => {
            if entries.len() == 2 {
                match (entries[0], entries[1]) {
                    (
                        (ValueView::Text(k0), ValueView::Unsigned(c)),
                        (ValueView::Text(k1), ValueView::Text(m)),
                    ) => {
                        if k0 == "code"@ && k1 == "module"@ && c <= u32::MAX {
                            Some((m, c as u32, None))
                        } else {
                            None
                        }
                    },
                    _ => None,
                }
            } else if entries.len() == 3 {
                match (entries[0], entries[1], entries[2]) {
                    (
                        (ValueView::Text(k0), ValueView::Unsigned(c)),
                        (ValueView::Text(k1), ValueView::Text(m)),
                        (ValueView::Text(k2), msg),
                    ) => {
                        if k0 == "code"@ && k1 == "module"@ && k2 == "message"@ && c <= u32::MAX {
                            match msg {
                                ValueView::Text(t) => Some((m, c as u32, Some(t))),
                                ValueView::Null => Some((m, c as u32, None)),
                                _ => None,
                            }
                        } else {
                            None
                        }
                    },
                    _ => None,
                }
            } else {
                None
            }
        },
        _ => None,
    }
}

fn string_is(s: &String, lit: &str) -> (r: bool)
    ensures
        r == (s@ == lit@),
{
    let other = String::from_str(lit);
    *s == other
}

/// Reads a decoded value as a coded-error record.
fn coded_error_from_value(v: &Value) -> (r: Option<(String, u32, Option<String>)>)
    ensures
        match r {
            Some((m, c, msg)) => coded_error_of_value(v@) matches Some((sm, sc, smsg))
                && m@ == sm && c == sc && {
                match (msg, smsg) {
                    (Some(t), Some(st)) => t@ == st,
                    (None, None) => true,
                    _ => false,
                }
            },
            None => coded_error_of_value(v@) is None,
        },
{
    match v {
        Value::Mapping(entries) => {
            proof {
                crate::codec::lemma_entry_views_is_map(entries@);
            }
            if entries.len() == 2 {
                let (k0, v0) = &entries[0];
                let (k1, v1) = &entries[1];
                match (k0, v0, k1, v1) {
                    (Value::Text(t0), Value::Unsigned(c), Value::Text(t1), Value::Text(m)) => {
                        if string_is(t0, "code") && string_is(t1, "module") && *c <= 4294967295u64 {
                            Some((m.clone(), *c as u32, None))
                        } else {
                            None
                        }
                    },
                    _ => None,
                }
            } else if entries.len() == 3 {
                let (k0, v0) = &entries[0];
                let (k1, v1) = &entries[1];
                let (k2, v2) = &entries[2];
                match (k0, v0, k1, v1, k2) {
                    (
                        Value::Text(t0),
                        Value::Unsigned(c),
                        Value::Text(t1),
                        Value::Text(m),
                        Value::Text(t2),
                    ) => {
                        if string_is(t0, "code") && string_is(t1, "module") && string_is(
                            t2,
                            "message",
                        ) && *c <= 4294967295u64 {
                            match v2 {
                                Value::Text(t) => Some((m.clone(), *c as u32, Some(t.clone()))),
                                Value::Null => Some((m.clone(), *c as u32, None)),
                                _ => None,
                            }
                        } else {
                            None
                        }
                    },
                    _ => None,
                }
            } else {
                None
            }
        },
        _ => None,
    }
}

/// Translates a failed call's raw status into the taxonomy: if the status
/// detail carries a well-formed coded error, the call was processed and the
/// transaction reverted (`RequestFailed`, with the status message standing
/// in when the record has none); otherwise the raw status is surfaced as a
/// protocol error (`Rpc`), whatever was wrong with the detail.
pub fn translate_status(code: u32, message: String, details: &Vec<u8>) -> (r: Error)
    ensures
        match coded_error_spec(details@) {
            Some((m, c, msg)) => r matches Error::RequestFailed {
                module,
                code: rc,
                message: rmsg,
            } && module@ == m && rc == c && {
                match (msg, rmsg) {
                    (Some(t), Some(rt)) => rt@ == t,
                    (None, Some(rt)) => rt@ == message@,
                    _ => false,
                }
            },
            None => r matches Error::Rpc(s) && s.code == code && s.message@ == message@,
        },
{
    let ds = match status_details(details.as_slice()) {
        Ok(ds) => ds,
        Err(_) => {
            return Error::Rpc(StatusInfo { code, message });
        },
    };
    if ds.len() == 0 {
        return Error::Rpc(StatusInfo { code, message });
    }
    let vb = match any_value(ds[0].as_slice()) {
        Ok(vb) => vb,
        Err(_) => {
            return Error::Rpc(StatusInfo { code, message });
        },
    };
    let value = match decode(vb.as_slice()) {
        Ok(v) => v,
        Err(_) => {
            return Error::Rpc(StatusInfo { code, message });
        },
    };
    proof {
        assert(ds@.map_values(|d: Vec<u8>| d@)[0] == ds@[0]@);
    }
    match coded_error_from_value(&value) {
        Some((module, c, msg)) => {
            let final_message = match msg {
                Some(t) => Some(t),
                None => Some(message),
            };
            Error::RequestFailed { module, code: c, message: final_message }
        },
        None => Error::Rpc(StatusInfo { code, message }),
    }
}

} // verus!
