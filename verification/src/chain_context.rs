//! Derivation of the chain-binding domain-separation context.
//!
//! The context is derived exactly once per connection from the runtime
//! identifier and the consensus-layer chain context fetched from the node;
//! every transaction signature afterwards is bound to it.

use vstd::prelude::*;
use vstd::utf8::encode_utf8;

verus! {

/// The digest used for chain binding; named after the call below.
pub uninterp spec fn sha512_256_of(data: Seq<u8>) -> Seq<u8>;

/// Relies on `sha2::Sha512_256` (through the `Digest` trait): the SHA-512/256
/// digest of the input, always 32 bytes, a function of the input alone.
#[verifier::external_body]
fn sha512_256(data: &Vec<u8>) -> (r: Vec<u8>)
    ensures
        r@ == sha512_256_of(data@),
        r@.len() == 32,
{
    <sha2::Sha512_256 as sha2::Digest>::digest(data).to_vec()
}

/// The ASCII code of the hex digit for `n`, lower case.
pub open spec fn hex_digit(n: u8) -> u8 {
    if n < 10 {
        (48 + n) as u8
    } else {
        (87 + n) as u8
    }
}

/// The lower-case hex encoding of a byte string: two digits per byte.
pub open spec fn hex_of(bs: Seq<u8>) -> Seq<u8> {
    Seq::new(
        bs.len() * 2,
        |i: int|
            if i % 2 == 0 {
                hex_digit(bs[i / 2] / 16)
            } else {
                hex_digit(bs[i / 2] % 16)
            },
    )
}

/// Writes `bs` in lower-case hex.
pub fn hex_encode(bs: &Vec<u8>) -> (r: Vec<u8>)
    ensures
        r@ == hex_of(bs@),
{
    let mut out: Vec<u8> = Vec::new();
    let mut i: usize = 0;
    while i < bs.len()
        invariant
            i <= bs@.len(),
            out@.len() == 2 * i,
            out@ =~= hex_of(bs@.take(i as int)),
        decreases bs@.len() - i,
    {
        let b = bs[i];
        let hi = b / 16;
        let lo = b % 16;
        out.push(if hi < 10 { 48 + hi } else { 87 + hi });
        out.push(if lo < 10 { 48 + lo } else { 87 + lo });
        i = i + 1;
        proof {
            assert(out@ =~= hex_of(bs@.take(i as int)));
        }
    }
    proof {
        assert(bs@.take(bs@.len() as int) =~= bs@);
    }
    out
}

/// The protocol prefix of the runtime chain context: the signature context
/// tag followed by the separator, with the hex digest appended after it.
pub open spec fn chain_context_prefix() -> Seq<char> {
    "oasis-runtime-sdk/tx: v0 for chain "@
}

/// The full chain context for a runtime identifier and the consensus-layer
/// chain context bytes: `"<prefix><hex digest of (runtime_id ++ consensus)>"`.
pub open spec fn chain_context_spec(runtime_id: Seq<u8>, consensus_context: Seq<u8>) -> Seq<u8> {
    encode_utf8(chain_context_prefix()) + hex_of(sha512_256_of(runtime_id + consensus_context))
}

/// Derives the chain context from the runtime identifier and the fetched
/// consensus-layer chain context.  A pure function of its inputs: deriving it
/// again from the same bytes yields the same context.
pub fn derive_chain_context(runtime_id: &Vec<u8>, consensus_context: &Vec<u8>) -> (r: Vec<u8>)
    ensures
        r@ == chain_context_spec(runtime_id@, consensus_context@),
{
    let mut data: Vec<u8> = Vec::new();
    let mut i: usize = 0;
    while i < runtime_id.len()
        invariant
            i <= runtime_id@.len(),
            data@ =~= runtime_id@.take(i as int),
        decreases runtime_id@.len() - i,
    {
        data.push(runtime_id[i]);
        i = i + 1;
        proof {
            assert(data@ =~= runtime_id@.take(i as int));
        }
    }
    let mut j: usize = 0;
    while j < consensus_context.len()
        invariant
            j <= consensus_context@.len(),
            data@ =~= runtime_id@ + consensus_context@.take(j as int),
        decreases consensus_context@.len() - j,
    {
        data.push(consensus_context[j]);
        j = j + 1;
        proof {
            assert(data@ =~= runtime_id@ + consensus_context@.take(j as int));
        }
    }
    proof {
        assert(data@ =~= runtime_id@ + consensus_context@);
    }
    let digest = sha512_256(&data);
    let hex = hex_encode(&digest);
    let prefix: &str = "oasis-runtime-sdk/tx: v0 for chain ";
    let prefix_bytes: &[u8] = prefix.as_bytes();
    let mut out: Vec<u8> = Vec::new();
    let mut k: usize = 0;
    while k < prefix_bytes.len()
        invariant
            k <= prefix_bytes@.len(),
            prefix_bytes@ == encode_utf8(chain_context_prefix()),
            out@ =~= prefix_bytes@.take(k as int),
        decreases prefix_bytes@.len() - k,
    {
        out.push(prefix_bytes[k]);
        k = k + 1;
        proof {
            assert(out@ =~= prefix_bytes@.take(k as int));
        }
    }
    proof {
        assert(out@ =~= prefix_bytes@);
    }
    let mut m: usize = 0;
    while m < hex.len()
        invariant
            m <= hex@.len(),
            out@ =~= encode_utf8(chain_context_prefix()) + hex@.take(m as int),
        decreases hex@.len() - m,
    {
        out.push(hex[m]);
        m = m + 1;
        proof {
            assert(out@ =~= encode_utf8(chain_context_prefix()) + hex@.take(m as int));
        }
    }
    proof {
        assert(out@ =~= encode_utf8(chain_context_prefix()) + hex@);
    }
    out
}

/// Chain context stability: the context is a function of the namespace and
/// consensus context bytes alone, so deriving it twice from the same inputs
/// yields the same byte string.
pub proof fn lemma_chain_context_stable(
    ns1: Seq<u8>,
    cc1: Seq<u8>,
    ns2: Seq<u8>,
    cc2: Seq<u8>,
)
    requires
        ns1 == ns2,
        cc1 == cc2,
    ensures
        chain_context_spec(ns1, cc1) == chain_context_spec(ns2, cc2),
{
}

} // verus!
