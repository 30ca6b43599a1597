//! Request descriptors: one method path, request body builder and response
//! reader per remote operation.  Adding an operation means adding one row
//! here; nothing else changes.

use vstd::prelude::*;
use vstd::utf8::encode_utf8;

use crate::codec::{
    encode, encode_spec, entry_views, lemma_entry_views_is_map, lemma_value_views_is_map,
    value_views, DecodeError, Value, ValueView,
};

verus! {

/// The RPC method paths of the six remote operations.
pub fn get_chain_context_path() -> (r: &'static str)
    ensures
        r@ == "/oasis-core.RuntimeClient/GetChainContext"@,
{
    "/oasis-core.RuntimeClient/GetChainContext"
}

pub fn get_block_path() -> (r: &'static str)
    ensures
        r@ == "/oasis-core.RuntimeClient/GetBlock"@,
{
    "/oasis-core.RuntimeClient/GetBlock"
}

pub fn submit_tx_path() -> (r: &'static str)
    ensures
        r@ == "/oasis-core.RuntimeClient/SubmitTx"@,
{
    "/oasis-core.RuntimeClient/SubmitTx"
}

pub fn query_path() -> (r: &'static str)
    ensures
        r@ == "/oasis-core.RuntimeClient/Query"@,
{
    "/oasis-core.RuntimeClient/Query"
}

pub fn watch_blocks_path() -> (r: &'static str)
    ensures
        r@ == "/oasis-core.RuntimeClient/WatchBlocks"@,
{
    "/oasis-core.RuntimeClient/WatchBlocks"
}

pub fn get_events_path() -> (r: &'static str)
    ensures
        r@ == "/oasis-core.RuntimeClient/GetEvents"@,
{
    "/oasis-core.RuntimeClient/GetEvents"
}

/// The get-chain-context request body: an empty map.
pub open spec fn chain_context_request_view() -> ValueView {
    ValueView::Mapping(Seq::empty())
}

pub fn build_chain_context_request() -> (r: Vec<u8>)
    ensures
        r@ == encode_spec(chain_context_request_view()),
{
    let entries: Vec<(Value, Value)> = Vec::new();
    let ghost ge = entries@;
    let v = Value::Mapping(entries);
    proof {
        lemma_entry_views_is_map(ge);
        assert(v@ =~~= chain_context_request_view());
    }
    encode(&v)
}

/// The get-block request body: the runtime identifier and the round.
pub open spec fn block_request_view(runtime_id: Seq<u8>, round: u64) -> ValueView {
    ValueView::Mapping(
        seq![
            (ValueView::Text("round"@), ValueView::Unsigned(round)),
            (ValueView::Text("runtime_id"@), ValueView::Bytes(runtime_id)),
        ],
    )
}

pub fn build_block_request(runtime_id: Vec<u8>, round: u64) -> (r: Vec<u8>)
    ensures
        r@ == encode_spec(block_request_view(runtime_id@, round)),
{
    let ghost gid = runtime_id@;
    let mut entries: Vec<(Value, Value)> = Vec::new();
    entries.push((text("round"), Value::Unsigned(round)));
    entries.push((text("runtime_id"), Value::Bytes(runtime_id)));
    let v = Value::Mapping(entries);
    proof {
        lemma_entry_views_is_map(entries@);
        assert(crate::codec::entry_views(entries@) =~~= seq![
            (ValueView::Text("round"@), ValueView::Unsigned(round)),
            (ValueView::Text("runtime_id"@), ValueView::Bytes(gid)),
        ]);
        assert(v@ =~~= block_request_view(gid, round));
    }
    encode(&v)
}

/// The submit-transaction request body: the runtime identifier and the
/// encoded submission payload.
pub open spec fn submit_tx_request_view(runtime_id: Seq<u8>, data: Seq<u8>) -> ValueView {
    ValueView::Mapping(
        seq![
            (ValueView::Text("data"@), ValueView::Bytes(data)),
            (ValueView::Text("runtime_id"@), ValueView::Bytes(runtime_id)),
        ],
    )
}

pub fn build_submit_tx_request(runtime_id: Vec<u8>, data: Vec<u8>) -> (r: Vec<u8>)
    ensures
        r@ == encode_spec(submit_tx_request_view(runtime_id@, data@)),
{
    let ghost gid = runtime_id@;
    let ghost gdata = data@;
    let mut entries: Vec<(Value, Value)> = Vec::new();
    entries.push((text("data"), Value::Bytes(data)));
    entries.push((text("runtime_id"), Value::Bytes(runtime_id)));
    let v = Value::Mapping(entries);
    proof {
        lemma_entry_views_is_map(entries@);
        assert(crate::codec::entry_views(entries@) =~~= seq![
            (ValueView::Text("data"@), ValueView::Bytes(gdata)),
            (ValueView::Text("runtime_id"@), ValueView::Bytes(gid)),
        ]);
        assert(v@ =~~= submit_tx_request_view(gid, gdata));
    }
    encode(&v)
}

/// The read-only query request body: runtime identifier, round, method name
/// and argument value.
pub open spec fn query_request_view(
    runtime_id: Seq<u8>,
    round: u64,
    method: Seq<char>,
    args: ValueView,
) -> ValueView {
    ValueView::Mapping(
        seq![
            (ValueView::Text("args"@), args),
            (ValueView::Text("round"@), ValueView::Unsigned(round)),
            (ValueView::Text("method"@), ValueView::Text(method)),
            (ValueView::Text("runtime_id"@), ValueView::Bytes(runtime_id)),
        ],
    )
}

pub fn build_query_request(
    runtime_id: Vec<u8>,
    round: u64,
    method: String,
    args: Value,
) -> (r: Vec<u8>)
    ensures
        r@ == encode_spec(query_request_view(runtime_id@, round, method@, args@)),
{
    let ghost gid = runtime_id@;
    let ghost gmethod = method@;
    let ghost gargs = args@;
    let mut entries: Vec<(Value, Value)> = Vec::new();
    entries.push((text("args"), args));
    entries.push((text("round"), Value::Unsigned(round)));
    entries.push((text("method"), Value::Text(method)));
    entries.push((text("runtime_id"), Value::Bytes(runtime_id)));
    let v = Value::Mapping(entries);
    proof {
        lemma_entry_views_is_map(entries@);
        assert(crate::codec::entry_views(entries@) =~~= seq![
            (ValueView::Text("args"@), gargs),
            (ValueView::Text("round"@), ValueView::Unsigned(round)),
            (ValueView::Text("method"@), ValueView::Text(gmethod)),
            (ValueView::Text("runtime_id"@), ValueView::Bytes(gid)),
        ]);
        assert(v@ =~~= query_request_view(gid, round, gmethod, gargs));
    }
    encode(&v)
}

/// The watch-blocks request body: the runtime identifier alone.
pub open spec fn watch_blocks_request_view(runtime_id: Seq<u8>) -> ValueView {
    ValueView::Mapping(seq![(ValueView::Text("runtime_id"@), ValueView::Bytes(runtime_id))])
}

pub fn build_watch_blocks_request(runtime_id: Vec<u8>) -> (r: Vec<u8>)
    ensures
        r@ == encode_spec(watch_blocks_request_view(runtime_id@)),
{
    let ghost gid = runtime_id@;
    let mut entries: Vec<(Value, Value)> = Vec::new();
    entries.push((text("runtime_id"), Value::Bytes(runtime_id)));
    let v = Value::Mapping(entries);
    proof {
        lemma_entry_views_is_map(entries@);
        assert(crate::codec::entry_views(entries@) =~~= seq![
            (ValueView::Text("runtime_id"@), ValueView::Bytes(gid)),
        ]);
        assert(v@ =~~= watch_blocks_request_view(gid));
    }
    encode(&v)
}

/// The get-events request body: the runtime identifier and the round.
pub open spec fn events_request_view(runtime_id: Seq<u8>, round: u64) -> ValueView {
    ValueView::Mapping(
        seq![
            (ValueView::Text("round"@), ValueView::Unsigned(round)),
            (ValueView::Text("runtime_id"@), ValueView::Bytes(runtime_id)),
        ],
    )
}

pub fn build_events_request(runtime_id: Vec<u8>, round: u64) -> (r: Vec<u8>)
    ensures
        r@ == encode_spec(events_request_view(runtime_id@, round)),
{
    let ghost gid = runtime_id@;
    let mut entries: Vec<(Value, Value)> = Vec::new();
    entries.push((text("round"), Value::Unsigned(round)));
    entries.push((text("runtime_id"), Value::Bytes(runtime_id)));
    let v = Value::Mapping(entries);
    proof {
        lemma_entry_views_is_map(entries@);
        assert(crate::codec::entry_views(entries@) =~~= seq![
            (ValueView::Text("round"@), ValueView::Unsigned(round)),
            (ValueView::Text("runtime_id"@), ValueView::Bytes(gid)),
        ]);
        assert(v@ =~~= events_request_view(gid, round));
    }
    encode(&v)
}


/// Reads the chain-context response: the consensus-layer context, carried as
/// a byte string or as text (whose UTF-8 bytes are taken).
pub fn consensus_context_bytes(v: Value) -> (r: Result<Vec<u8>, DecodeError>)
    ensures
        (r is Ok) <==> (v@ is Bytes || v@ is Text),
        r matches Ok(b) ==> (v@ matches ValueView::Bytes(s) && b@ == s) || (
        v@ matches ValueView::Text(t) && b@ == encode_utf8(t)),
{
    match v {
        Value::Bytes(b) => Ok(b),
        Value::Text(t) => {
            let bytes: &[u8] = t.as_str().as_bytes();
            Ok(copy_bytes(bytes))
        },
        _ => Err(DecodeError),
    }
}

/// Reads the submit-transaction response: the raw result bytes.
pub fn submit_response_bytes(v: Value) -> (r: Result<Vec<u8>, DecodeError>)
    ensures
        (r is Ok) <==> v@ is Bytes,
        r matches Ok(b) ==> v@ matches ValueView::Bytes(s) && b@ == s,
{
    match v {
        Value::Bytes(b) => Ok(b),
        _ => Err(DecodeError),
    }
}

/// The query response carries a `data` member.
pub open spec fn query_response_has_data(v: ValueView) -> bool {
    v matches ValueView::Mapping(es) && exists|i: int|
        0 <= i < es.len() && (#[trigger] es[i]).0 == ValueView::Text("data"@)
}

/// Reads the query response: the value of its `data` member, present exactly
/// when the response is a map carrying one.
pub fn query_response_data(v: Value) -> (r: Result<Value, DecodeError>)
    ensures
        (r is Ok) <==> query_response_has_data(v@),
        r matches Ok(d) ==> v@ matches ValueView::Mapping(es) && exists|i: int|
            0 <= i < es.len() && #[trigger] es[i] == (ValueView::Text("data"@), d@),
{
    let ghost gv = v@;
    match v {
        Value::Mapping(mut entries) => {
            proof {
                lemma_entry_views_is_map(entries@);
            }
            let ghost es = entry_views(entries@);
            let n = entries.len();
            let mut i: usize = 0;
            while i < n
                invariant
                    i <= n,
                    n == entries@.len(),
                    es == entry_views(entries@),
                    es =~= entries@.map_values(
                        |e: (Value, Value)| (crate::codec::value_view(e.0), crate::codec::value_view(e.1)),
                    ),
                    gv == v@,
                    gv == ValueView::Mapping(es),
                    forall|j: int| 0 <= j < i ==> (#[trigger] es[j]).0 != ValueView::Text("data"@),
                decreases n - i,
            {
                let is_data = match &entries[i].0 {
                    Value::Text(t) => string_is(t, "data"),
                    _ => false,
                };
                proof {
                    assert(es[i as int] == (entries@[i as int].0@, entries@[i as int].1@));
                }
                if is_data {
                    let (_, value) = entries.remove(i);
                    proof {
                        assert(es[i as int] == (ValueView::Text("data"@), value@));
                    }
                    return Ok(value);
                }
                i = i + 1;
            }
            Err(DecodeError)
        },
        _ => Err(DecodeError),
    }
}

/// Reads the get-events response: the event list, with a null response
/// standing for no events.
pub fn events_list(v: Value) -> (r: Result<Vec<Value>, DecodeError>)
    ensures
        (r is Ok) <==> (v@ is Array || v@ is Null),
        r matches Ok(items) ==> (v@ matches ValueView::Array(s) && items@.map_values(
            |x: Value| x@,
        ) =~= s) || (v@ is Null && items@.len() == 0),
{
    match v {
        Value::Array(items) => {
            proof {
                lemma_value_views_is_map(items@);
                assert(items@.map_values(|x: Value| x@) =~= value_views(items@));
            }
            Ok(items)
        },
        Value::Null => Ok(Vec::new()),
        _ => Err(DecodeError),
    }
}

fn string_is(s: &String, lit: &str) -> (r: bool)
    ensures
        r == (s@ == lit@),
{
    let other = String::from_str(lit);
    *s == other
}

fn copy_bytes(b: &[u8]) -> (r: Vec<u8>)
    ensures
        r@ == b@,
{
    let mut out: Vec<u8> = Vec::new();
    let mut i: usize = 0;
    while i < b.len()
        invariant
            i <= b@.len(),
            out@ =~= b@.take(i as int),
        decreases b@.len() - i,
    {
        out.push(b[i]);
        i = i + 1;
        proof {
            assert(out@ =~= b@.take(i as int));
        }
    }
    proof {
        assert(b@.take(b@.len() as int) =~= b@);
    }
    out
}

fn text(s: &str) -> (r: Value)
    ensures
        r@ == ValueView::Text(s@),
{
    Value::Text(s.to_owned())
}

} // verus!
