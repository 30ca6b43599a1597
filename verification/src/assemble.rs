//! Multi-signer transaction assembly.
//!
//! Wallet queries run concurrently outside this crate; their results come
//! back slot-indexed, one slot per configured wallet.  Everything here is
//! positional: the signer-info list, and later the auth-proof list, keep the
//! original wallet order no matter in which order the concurrent operations
//! completed.  A failure in any slot aborts the assembly before anything is
//! submitted.

use vstd::prelude::*;

use crate::codec::{encode, encode_spec, lemma_value_views_is_map, value_views, Value, ValueView};
use crate::errors::Error;
use crate::transaction::{
    AddressSpec, AuthInfo, Call, CallFormat, Fee, SignerInfo, Transaction, LATEST_TRANSACTION_VERSION,
};

verus! {

broadcast use vstd::std_specs::vec::group_vec_axioms;

/// Collects per-wallet nonce results, preserving wallet order; any single
/// failure aborts the whole assembly with a signer error.
pub fn collect_nonces(results: Vec<Result<u64, String>>) -> (r: Result<Vec<u64>, Error>)
    ensures
        (r is Ok) <==> (forall|i: int| 0 <= i < results@.len() ==> results@[i] is Ok),
        r matches Ok(ns) ==> {
            &&& ns@.len() == results@.len()
            &&& forall|i: int|
                0 <= i < results@.len() ==> ((#[trigger] results@[i]) matches Ok(n) && ns@[i]
                    == n)
        },
        r matches Err(e) ==> e is Wallet,
{
    let mut out: Vec<u64> = Vec::new();
    let mut rest = results;
    let ghost all = rest@;
    let total = rest.len();
    let mut i: usize = 0;
    while rest.len() > 0
        invariant
            all == results@,
            i <= total,
            total == all.len(),
            i + rest@.len() == all.len(),
            rest@ =~= all.skip(i as int),
            out@.len() == i,
            forall|j: int| 0 <= j < i ==> ((#[trigger] all[j]) matches Ok(n) && out@[j] == n),
        decreases rest@.len(),
    {
        let ghost iprev = i as int;
        let item = rest.remove(0);
        proof {
            assert(all.skip(iprev)[0] == all[iprev]);
        }
        match item {
            Ok(n) => {
                out.push(n);
                i = i + 1;
                proof {
                    assert(rest@ =~= all.skip(i as int));
                }
            },
            Err(e) => {
                proof {
                    assert(0 <= iprev < results@.len() && results@[iprev] is Err);
                }
                return Err(Error::Wallet(e));
            },
        }
    }
    Ok(out)
}

/// Collects per-wallet signature results, preserving wallet order; any single
/// failure aborts the whole assembly with a signer error.
pub fn collect_signatures(results: Vec<Result<Vec<u8>, String>>) -> (r: Result<Vec<Vec<u8>>, Error>)
    ensures
        (r is Ok) <==> (forall|i: int| 0 <= i < results@.len() ==> results@[i] is Ok),
        r matches Ok(sigs) ==> {
            &&& sigs@.len() == results@.len()
            &&& forall|i: int|
                0 <= i < results@.len() ==> ((#[trigger] results@[i]) matches Ok(s) && sigs@[i]@
                    == s@)
        },
        r matches Err(e) ==> e is Wallet,
{
    let mut out: Vec<Vec<u8>> = Vec::new();
    let mut rest = results;
    let ghost all = rest@;
    let total = rest.len();
    let mut i: usize = 0;
    while rest.len() > 0
        invariant
            all == results@,
            i <= total,
            total == all.len(),
            i + rest@.len() == all.len(),
            rest@ =~= all.skip(i as int),
            out@.len() == i,
            forall|j: int| 0 <= j < i ==> ((#[trigger] all[j]) matches Ok(s) && out@[j]@ == s@),
        decreases rest@.len(),
    {
        let ghost iprev = i as int;
        let item = rest.remove(0);
        proof {
            assert(all.skip(iprev)[0] == all[iprev]);
        }
        match item {
            Ok(s) => {
                out.push(s);
                i = i + 1;
                proof {
                    assert(rest@ =~= all.skip(i as int));
                }
            },
            Err(e) => {
                proof {
                    assert(0 <= iprev < results@.len() && results@[iprev] is Err);
                }
                return Err(Error::Wallet(e));
            },
        }
    }
    Ok(out)
}

/// Pairs each wallet's address specifier with its fetched nonce, slot by
/// slot: entry `i` of the result belongs to wallet `i`, whatever order the
/// concurrent nonce queries completed in.
pub fn build_signer_infos(addresses: Vec<AddressSpec>, nonces: &Vec<u64>) -> (r: Vec<SignerInfo>)
    requires
        addresses@.len() == nonces@.len(),
    ensures
        r@.len() == addresses@.len(),
        forall|i: int|
            0 <= i < r@.len() ==> r@[i].address_spec == addresses@[i] && r@[i].nonce
                == nonces@[i],
{
    let mut out: Vec<SignerInfo> = Vec::new();
    let mut rest = addresses;
    let ghost all = rest@;
    let total = rest.len();
    let mut i: usize = 0;
    while rest.len() > 0
        invariant
            i <= total,
            total == all.len(),
            all.len() == nonces@.len(),
            i + rest@.len() == all.len(),
            rest@ =~= all.skip(i as int),
            out@.len() == i,
            forall|j: int|
                0 <= j < i ==> out@[j].address_spec == all[j] && out@[j].nonce == nonces@[j],
        decreases rest@.len(),
    {
        let ghost iprev = i as int;
        let address_spec = rest.remove(0);
        proof {
            assert(all.skip(iprev)[0] == all[iprev]);
        }
        let nonce = nonces[i];
        out.push(SignerInfo { address_spec, nonce });
        i = i + 1;
        proof {
            assert(rest@ =~= all.skip(i as int));
        }
    }
    out
}

/// Builds the versioned envelope from the call, the gathered signer infos
/// and the configured fee, using the latest transaction version.
pub fn build_transaction(
    method: String,
    body: Value,
    format: CallFormat,
    signer_info: Vec<SignerInfo>,
    fee: Fee,
) -> (r: Transaction)
    ensures
        r.version == LATEST_TRANSACTION_VERSION,
        r.call.method@ == method@,
        r.call.body == body,
        r.call.format == format,
        r.auth_info.signer_info == signer_info,
        r.auth_info.fee == fee,
{
    Transaction {
        version: LATEST_TRANSACTION_VERSION,
        call: Call { format, method, body },
        auth_info: AuthInfo { signer_info, fee },
    }
}

/// The codec value of the submission payload: the serialized envelope paired
/// with the ordered auth-proof list.
pub open spec fn submission_view(tx_bytes: Seq<u8>, proofs: Seq<Seq<u8>>) -> ValueView {
    ValueView::Array(
        seq![
            ValueView::Bytes(tx_bytes),
            ValueView::Array(proofs.map_values(|p: Seq<u8>| ValueView::Bytes(p))),
        ],
    )
}

/// Encodes the submission payload `(serialized envelope, auth proofs)`; the
/// auth proofs stay in wallet order, position `i` proving signer info `i`.
pub fn build_submission_payload(tx_bytes: Vec<u8>, proofs: Vec<Vec<u8>>) -> (r: Vec<u8>)
    ensures
        r@ == encode_spec(submission_view(tx_bytes@, proofs@.map_values(|p: Vec<u8>| p@))),
{
    let ghost gtx = tx_bytes@;
    let ghost gproofs = proofs@.map_values(|p: Vec<u8>| p@);
    let mut proof_values: Vec<Value> = Vec::new();
    let mut rest = proofs;
    let ghost all = rest@;
    let total = rest.len();
    let mut i: usize = 0;
    while rest.len() > 0
        invariant
            i <= total,
            total == all.len(),
            i + rest@.len() == all.len(),
            rest@ =~= all.skip(i as int),
            proof_values@.len() == i,
            forall|j: int| 0 <= j < i ==> ((#[trigger] proof_values@[j]) matches Value::Bytes(b) && b@ == all[j]@),
        decreases rest@.len(),
    {
        let ghost iprev = i as int;
        let p = rest.remove(0);
        proof {
            assert(all.skip(iprev)[0] == all[iprev]);
        }
        proof_values.push(Value::Bytes(p));
        i = i + 1;
        proof {
            assert(rest@ =~= all.skip(i as int));
        }
    }
    let mut items: Vec<Value> = Vec::new();
    items.push(Value::Bytes(tx_bytes));
    items.push(Value::Array(proof_values));
    let v = Value::Array(items);
    proof {
        lemma_value_views_is_map(items@);
        lemma_value_views_is_map(proof_values@);
        assert(value_views(proof_values@) =~= gproofs.map_values(|p: Seq<u8>| ValueView::Bytes(p)));
        assert(value_views(items@) =~~= seq![
            ValueView::Bytes(gtx),
            ValueView::Array(value_views(proof_values@)),
        ]);
        assert(v@ =~~= submission_view(gtx, gproofs));
    }
    encode(&v)
}

} // verus!
