//! The signed transaction envelope and its canonical wire form.
//!
//! The envelope is the exact byte sequence that every wallet signs, so its
//! encoding must be deterministic: the conversion to a codec value below fixes
//! the key set and order of every map, and the codec itself is canonical.

use vstd::prelude::*;

use crate::codec::{encode, encode_spec, entry_views, lemma_entry_views_is_map, lemma_value_views_is_map, value_views, Value, ValueView};

verus! {

broadcast use vstd::std_specs::vec::group_vec_axioms;

/// The transaction version this client produces.
pub const LATEST_TRANSACTION_VERSION: u64 = 1;

/// A sentinel value for the latest round.
pub const ROUND_LATEST: u64 = 18446744073709551615;

/// Which historical or pending state a query targets.
#[derive(Clone, Copy, Debug, PartialEq, Eq, Structural)]
pub enum Round {
    /// The latest round, sent on the wire as the reserved sentinel value.
    Latest,
    /// An explicit round number.
    Numbered(u64),
}

/// The round number sent on the wire for `r`.
pub open spec fn round_number_spec(r: Round) -> u64 {
    match r {
        Round::Latest => ROUND_LATEST,
        Round::Numbered(n) => n,
    }
}

/// Returns the wire representation of a round.
pub fn round_number(r: Round) -> (n: u64)
    ensures
        n == round_number_spec(r),
{
    match r {
        Round::Latest => ROUND_LATEST,
        Round::Numbered(n) => n,
    }
}

/// A token denomination name; the empty name is the native denomination.
#[derive(Clone, Debug)]
pub struct Denomination {
    pub name: Vec<u8>,
}

impl Denomination {
    /// The native denomination.
    pub fn native() -> (r: Denomination)
        ensures
            r.name@ == Seq::<u8>::empty(),
    {
        Denomination { name: Vec::new() }
    }

    pub fn from_bytes(name: Vec<u8>) -> (r: Denomination)
        ensures
            r.name@ == name@,
    {
        Denomination { name }
    }
}

/// A token amount of a given denomination.
#[derive(Clone, Debug)]
pub struct BaseUnits {
    pub amount: u128,
    pub denomination: Denomination,
}

/// The fee charged for a transaction.
#[derive(Clone, Debug)]
pub struct Fee {
    pub amount: BaseUnits,
    pub gas: u64,
    pub consensus_messages: u32,
}

impl Fee {
    /// A zero fee with no gas and no consensus messages.
    pub fn free() -> (r: Fee)
        ensures
            r.amount.amount == 0,
            r.amount.denomination.name@ == Seq::<u8>::empty(),
            r.gas == 0,
            r.consensus_messages == 0,
    {
        Fee {
            amount: BaseUnits { amount: 0, denomination: Denomination::native() },
            gas: 0,
            consensus_messages: 0,
        }
    }
}

/// How a wallet is addressed: a signature scheme public key, or an internal
/// (non-signing) caller address.
#[derive(Clone, Debug)]
pub enum AddressSpec {
    Signature(SignatureAddressSpec),
    Internal(Vec<u8>),
}

/// The signature scheme and public key of a signer.
#[derive(Clone, Debug)]
pub enum SignatureAddressSpec {
    Ed25519(Vec<u8>),
    Secp256k1Eth(Vec<u8>),
}

/// The pairing of one wallet's address specifier with its nonce; the position
/// in the signer-info list matches the position of its auth proof.
#[derive(Clone, Debug)]
pub struct SignerInfo {
    pub address_spec: AddressSpec,
    pub nonce: u64,
}

/// The transaction authentication block: the ordered signer infos and the fee.
#[derive(Clone, Debug)]
pub struct AuthInfo {
    pub signer_info: Vec<SignerInfo>,
    pub fee: Fee,
}

/// How the call payload is transformed before inclusion in the envelope.
#[derive(Clone, Copy, Debug, PartialEq, Eq, Structural)]
pub enum CallFormat {
    /// The body travels in plain text.
    Plain,
    /// The body is encrypted to the node.
    EncryptedX25519DeoxysII,
}

/// The wire tag of a call format.
pub open spec fn call_format_number_spec(f: CallFormat) -> u64 {
    match f {
        CallFormat::Plain => 0,
        CallFormat::EncryptedX25519DeoxysII => 1,
    }
}

/// A method call: the method name and its argument value.
#[derive(Debug)]
pub struct Call {
    pub format: CallFormat,
    pub method: String,
    pub body: Value,
}

/// The versioned transaction envelope.
#[derive(Debug)]
pub struct Transaction {
    pub version: u64,
    pub call: Call,
    pub auth_info: AuthInfo,
}

/// The big-endian base-256 digits of `n`, without leading zeros.
pub open spec fn be_bytes_of(n: nat) -> Seq<u8>
    decreases n,
{
    if n == 0 {
        Seq::empty()
    } else {
        be_bytes_of(n / 256) + seq![(n % 256) as u8]
    }
}

/// Writes `n` as its minimal big-endian byte string.
pub fn u128_be_bytes(n: u128) -> (r: Vec<u8>)
    ensures
        r@ == be_bytes_of(n as nat),
{
    let ghost orig = n as nat;
    let mut n = n;
    let mut out: Vec<u8> = Vec::new();
    proof {
        assert(be_bytes_of(orig) + Seq::<u8>::empty() =~= be_bytes_of(orig));
    }
    while n > 0
        invariant
            be_bytes_of(orig) == be_bytes_of(n as nat) + out@,
        decreases n,
    {
        let ghost before = n as nat;
        let ghost prev_out = out@;
        let digit = (n % 256) as u8;
        out.insert(0, digit);
        n = n / 256;
        proof {
            assert(out@ =~= seq![(before % 256) as u8] + prev_out);
            assert(be_bytes_of(before) == be_bytes_of(before / 256) + seq![(before % 256) as u8]);
            assert(be_bytes_of(n as nat) + out@ =~= be_bytes_of(before) + prev_out);
        }
    }
    out
}

/// The codec value of an amount: its minimal big-endian byte string.
pub open spec fn amount_view(amount: u128) -> ValueView {
    ValueView::Bytes(be_bytes_of(amount as nat))
}

/// The codec value of base units: the pair of amount and denomination name.
pub open spec fn base_units_view(b: BaseUnits) -> ValueView {
    ValueView::Array(seq![amount_view(b.amount), ValueView::Bytes(b.denomination.name@)])
}

/// The codec value of a fee.
pub open spec fn fee_view(f: Fee) -> ValueView {
    ValueView::Mapping(
        seq![
            (ValueView::Text("gas"@), ValueView::Unsigned(f.gas)),
            (ValueView::Text("amount"@), base_units_view(f.amount)),
            (ValueView::Text("consensus_messages"@), ValueView::Unsigned(
                f.consensus_messages as u64,
            )),
        ],
    )
}

/// The codec value of an address specifier.
pub open spec fn address_spec_view(a: AddressSpec) -> ValueView {
    match a {
        AddressSpec::Signature(SignatureAddressSpec::Ed25519(pk)) => ValueView::Mapping(
            seq![
                (ValueView::Text("signature"@), ValueView::Mapping(
                    seq![(ValueView::Text("ed25519"@), ValueView::Bytes(pk@))],
                )),
            ],
        ),
        AddressSpec::Signature(SignatureAddressSpec::Secp256k1Eth(pk)) => ValueView::Mapping(
            seq![
                (ValueView::Text("signature"@), ValueView::Mapping(
                    seq![(ValueView::Text("secp256k1eth"@), ValueView::Bytes(pk@))],
                )),
            ],
        ),
        AddressSpec::Internal(data) => ValueView::Mapping(
            seq![(ValueView::Text("internal"@), ValueView::Bytes(data@))],
        ),
    }
}

/// The codec value of one signer info.
pub open spec fn signer_info_view(s: SignerInfo) -> ValueView {
    ValueView::Mapping(
        seq![
            (ValueView::Text("nonce"@), ValueView::Unsigned(s.nonce)),
            (ValueView::Text("address_spec"@), address_spec_view(s.address_spec)),
        ],
    )
}

/// The codec value of the authentication block.
pub open spec fn auth_info_view(a: AuthInfo) -> ValueView {
    ValueView::Mapping(
        seq![
            (ValueView::Text("si"@), ValueView::Array(
                a.signer_info@.map_values(|s: SignerInfo| signer_info_view(s)),
            )),
            (ValueView::Text("fee"@), fee_view(a.fee)),
        ],
    )
}

/// The codec value of a call.
pub open spec fn call_view(c: Call) -> ValueView {
    ValueView::Mapping(
        seq![
            (ValueView::Text("body"@), c.body@),
            (ValueView::Text("format"@), ValueView::Unsigned(call_format_number_spec(c.format))),
            (ValueView::Text("method"@), ValueView::Text(c.method@)),
        ],
    )
}

/// The codec value of the whole envelope.
pub open spec fn transaction_view(tx: Transaction) -> ValueView {
    ValueView::Mapping(
        seq![
            (ValueView::Text("v"@), ValueView::Unsigned(tx.version)),
            (ValueView::Text("ai"@), auth_info_view(tx.auth_info)),
            (ValueView::Text("call"@), call_view(tx.call)),
        ],
    )
}

fn text(s: &str) -> (r: Value)
    ensures
        r@ == ValueView::Text(s@),
{
    Value::Text(s.to_owned())
}

fn base_units_value(b: BaseUnits) -> (r: Value)
    ensures
        r@ == base_units_view(b),
{
    let amount = u128_be_bytes(b.amount);
    let mut items: Vec<Value> = Vec::new();
    items.push(Value::Bytes(amount));
    items.push(Value::Bytes(b.denomination.name));
    let r = Value::Array(items);
    proof {
        lemma_value_views_is_map(items@);
        assert(r@ matches ValueView::Array(s) && s =~~= seq![
            amount_view(b.amount),
            ValueView::Bytes(b.denomination.name@),
        ]);
    }
    r
}

fn fee_value(f: Fee) -> (r: Value)
    ensures
        r@ == fee_view(f),
{
    let ghost gf = f;
    let mut entries: Vec<(Value, Value)> = Vec::new();
    entries.push((text("gas"), Value::Unsigned(f.gas)));
    entries.push((text("amount"), base_units_value(f.amount)));
    entries.push((text("consensus_messages"), Value::Unsigned(f.consensus_messages as u64)));
    let r = Value::Mapping(entries);
    proof {
        lemma_entry_views_is_map(entries@);
        assert(r@ matches ValueView::Mapping(s) && s =~~= seq![
            (ValueView::Text("gas"@), ValueView::Unsigned(gf.gas)),
            (ValueView::Text("amount"@), base_units_view(gf.amount)),
            (ValueView::Text("consensus_messages"@), ValueView::Unsigned(
                gf.consensus_messages as u64,
            )),
        ]);
    }
    r
}

fn address_spec_value(a: AddressSpec) -> (r: Value)
    ensures
        r@ == address_spec_view(a),
{
    let ghost ga = a;
    match a {
        AddressSpec::Signature(SignatureAddressSpec::Ed25519(pk)) => {
            let mut inner: Vec<(Value, Value)> = Vec::new();
            inner.push((text("ed25519"), Value::Bytes(pk)));
            let mut outer: Vec<(Value, Value)> = Vec::new();
            outer.push((text("signature"), Value::Mapping(inner)));
            let r = Value::Mapping(outer);
            proof {
                lemma_entry_views_is_map(inner@);
                lemma_entry_views_is_map(outer@);
                assert(inner@.len() == 1 && outer@.len() == 1);
                assert(entry_views(inner@) =~~= seq![
                    (ValueView::Text("ed25519"@), ValueView::Bytes(pk@)),
                ]);
                assert(entry_views(outer@) =~~= seq![
                    (ValueView::Text("signature"@), ValueView::Mapping(entry_views(inner@))),
                ]);
                assert(r@ =~~= address_spec_view(ga));
            }
            r
        },
        AddressSpec::Signature(SignatureAddressSpec::Secp256k1Eth(pk)) => {
            let mut inner: Vec<(Value, Value)> = Vec::new();
            inner.push((text("secp256k1eth"), Value::Bytes(pk)));
            let mut outer: Vec<(Value, Value)> = Vec::new();
            outer.push((text("signature"), Value::Mapping(inner)));
            let r = Value::Mapping(outer);
            proof {
                lemma_entry_views_is_map(inner@);
                lemma_entry_views_is_map(outer@);
                assert(entry_views(inner@) =~~= seq![
                    (ValueView::Text("secp256k1eth"@), ValueView::Bytes(pk@)),
                ]);
                assert(entry_views(outer@) =~~= seq![
                    (ValueView::Text("signature"@), ValueView::Mapping(entry_views(inner@))),
                ]);
                assert(r@ =~~= address_spec_view(ga));
            }
            r
        },
        AddressSpec::Internal(data) => {
            let mut entries: Vec<(Value, Value)> = Vec::new();
            entries.push((text("internal"), Value::Bytes(data)));
            let r = Value::Mapping(entries);
            proof {
                lemma_entry_views_is_map(entries@);
                assert(address_spec_view(ga) matches ValueView::Mapping(want) && r@ matches
                    ValueView::Mapping(have) && have =~~= want);
            }
            r
        },
    }
}

fn signer_info_value(s: SignerInfo) -> (r: Value)
    ensures
        r@ == signer_info_view(s),
{
    let ghost gs = s;
    let mut entries: Vec<(Value, Value)> = Vec::new();
    entries.push((text("nonce"), Value::Unsigned(s.nonce)));
    entries.push((text("address_spec"), address_spec_value(s.address_spec)));
    let r = Value::Mapping(entries);
    proof {
        lemma_entry_views_is_map(entries@);
        assert(signer_info_view(gs) matches ValueView::Mapping(want) && r@ matches
            ValueView::Mapping(have) && have =~~= want);
    }
    r
}

fn auth_info_value(a: AuthInfo) -> (r: Value)
    ensures
        r@ == auth_info_view(a),
{
    let ghost ga = a;
    let mut infos: Vec<Value> = Vec::new();
    let mut rest = a.signer_info;
    let ghost all = rest@;
    let total = rest.len();
    let mut i: usize = 0;
    // consume the signer infos front to back, keeping their order
    while rest.len() > 0
        invariant
            i <= total,
            total == all.len(),
            i + rest@.len() == all.len(),
            rest@ =~= all.skip(i as int),
            infos@.map_values(|v: Value| v@) =~= all.take(i as int).map_values(
                |s: SignerInfo| signer_info_view(s),
            ),
        decreases rest@.len(),
    {
        let ghost iprev = i as int;
        let ghost prev_infos = infos@;
        let s = rest.remove(0);
        proof {
            assert(all.skip(iprev)[0] == all[iprev]);
            assert(s == all[iprev]);
        }
        let sv = signer_info_value(s);
        infos.push(sv);
        i = i + 1;
        proof {
            assert(rest@ =~= all.skip(i as int));
            assert(infos@ =~= prev_infos + seq![sv]);
            assert(all.take(i as int) =~= all.take(iprev) + seq![all[iprev]]);
            assert(infos@.map_values(|v: Value| v@) =~= prev_infos.map_values(|v: Value| v@)
                + seq![signer_info_view(all[iprev])]);
            assert(all.take(i as int).map_values(|s2: SignerInfo| signer_info_view(s2)) =~= all
                .take(iprev).map_values(|s2: SignerInfo| signer_info_view(s2)) + seq![
                signer_info_view(all[iprev]),
            ]);
            assert(infos@.map_values(|v: Value| v@) =~= all.take(i as int).map_values(
                |s2: SignerInfo| signer_info_view(s2),
            ));
        }
    }
    proof {
        assert(all.take(i as int) =~= all);
    }
    let mut entries: Vec<(Value, Value)> = Vec::new();
    entries.push((text("si"), Value::Array(infos)));
    entries.push((text("fee"), fee_value(a.fee)));
    let r = Value::Mapping(entries);
    proof {
        lemma_entry_views_is_map(entries@);
        lemma_value_views_is_map(infos@);
        assert(value_views(infos@) =~= infos@.map_values(|v: Value| v@));
        assert(value_views(infos@) =~= ga.signer_info@.map_values(
            |s2: SignerInfo| signer_info_view(s2),
        ));
        assert(auth_info_view(ga) matches ValueView::Mapping(want) && r@ matches
            ValueView::Mapping(have) && have =~~= want);
    }
    r
}

/// Converts the envelope into its codec value; this fixes the signed byte
/// layout completely.
pub fn transaction_value(tx: Transaction) -> (r: Value)
    ensures
        r@ == transaction_view(tx),
{
    let ghost gtx = tx;
    let Transaction { version, call, auth_info } = tx;
    let Call { format, method, body } = call;
    let mut call_entries: Vec<(Value, Value)> = Vec::new();
    call_entries.push((text("body"), body));
    call_entries.push((
        text("format"),
        Value::Unsigned(
            match format {
                CallFormat::Plain => 0,
                CallFormat::EncryptedX25519DeoxysII => 1,
            },
        ),
    ));
    call_entries.push((text("method"), Value::Text(method)));
    let call_value = Value::Mapping(call_entries);
    proof {
        lemma_entry_views_is_map(call_entries@);
        assert(call_view(gtx.call) matches ValueView::Mapping(want) && call_value@ matches
            ValueView::Mapping(have) && have =~~= want);
    }
    let mut entries: Vec<(Value, Value)> = Vec::new();
    entries.push((text("v"), Value::Unsigned(version)));
    entries.push((text("ai"), auth_info_value(auth_info)));
    entries.push((text("call"), call_value));
    let r = Value::Mapping(entries);
    proof {
        lemma_entry_views_is_map(entries@);
        assert(transaction_view(gtx) matches ValueView::Mapping(want) && r@ matches
            ValueView::Mapping(have) && have =~~= want);
    }
    r
}

/// Serializes the envelope canonically; this is the exact payload every
/// wallet signs.
pub fn serialize_transaction(tx: Transaction) -> (r: Vec<u8>)
    ensures
        r@ == encode_spec(transaction_view(tx)),
{
    let v = transaction_value(tx);
    encode(&v)
}

} // verus!
