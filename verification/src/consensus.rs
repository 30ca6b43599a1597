//! Consensus module: the low-level decision logic for communicating with the
//! consensus layer.
//!
//! The surrounding runtime owns the stores and the message queue; this module
//! holds the decisions.  Each transfer-like operation checks the denomination
//! against the module parameters and, outside check-only execution, yields
//! the consensus message to emit; the runtime performs the emission.

use vstd::prelude::*;

use crate::codec::Value;
use crate::transaction::{
    AddressSpec, AuthInfo, BaseUnits, Denomination, SignatureAddressSpec,
};

verus! {

broadcast use vstd::std_specs::vec::group_vec_axioms;

/// Unique module name.
pub fn module_name() -> (r: &'static str)
    ensures
        r@ == "consensus"@,
{
    "consensus"
}

/// The module version written into the metadata on initialization.
pub const MODULE_VERSION: u32 = 1;

/// Parameters for the consensus module.
#[derive(Clone, Debug)]
pub struct Parameters {
    pub consensus_denomination: Denomination,
}

impl Parameters {
    /// The default parameters name the `TEST` denomination.
    pub fn default_parameters() -> (r: Parameters)
        ensures
            r.consensus_denomination.name@ =~= seq![84u8, 69u8, 83u8, 84u8],
    {
        let mut name: Vec<u8> = Vec::new();
        name.push(84);
        name.push(69);
        name.push(83);
        name.push(84);
        proof {
            assert(name@ =~= seq![84u8, 69u8, 83u8, 84u8]);
        }
        Parameters { consensus_denomination: Denomination::from_bytes(name) }
    }
}

/// Events emitted by the consensus module: none so far, so the one variant
/// is never produced by this module.
#[derive(Clone, Copy, Debug, PartialEq, Eq, Structural)]
pub enum Event {
    Reserved,
}

/// Genesis state for the consensus module.
#[derive(Clone, Debug)]
pub struct Genesis {
    pub parameters: Parameters,
}

/// Everything the consensus module can fail with.
#[derive(Clone, Copy, Debug, PartialEq, Eq, Structural)]
pub enum Error {
    InvalidArgument,
    InvalidDenomination,
    InternalStateError,
    ConsensusIncompatibleSigner,
}

/// An account address on the consensus layer.
#[derive(Clone, Debug)]
pub struct Address {
    pub data: Vec<u8>,
}

/// A staking operation handed to the consensus layer.
#[derive(Debug)]
pub enum StakingMessage {
    Transfer { to: Address, amount: u128 },
    Withdraw { from: Address, amount: u128 },
    AddEscrow { account: Address, amount: u128 },
    ReclaimEscrow { account: Address, shares: u128 },
}

/// A versioned consensus message together with the hook to invoke when its
/// event arrives.
#[derive(Debug)]
pub struct EmittedMessage {
    pub version: u16,
    pub message: StakingMessage,
    pub hook_name: String,
    pub hook_payload: Value,
}

/// The per-runtime metadata record: the version each module's state was
/// initialized or migrated to.
pub struct Metadata {
    pub versions: Vec<(String, u32)>,
}

impl Metadata {
    pub fn empty() -> (r: Metadata)
        ensures
            r.versions@.len() == 0,
    {
        Metadata { versions: Vec::new() }
    }
}

/// The version recorded for a module name, or zero when none is.
pub open spec fn metadata_version_spec(versions: Seq<(Seq<char>, u32)>, name: Seq<char>) -> u32
    decreases versions.len(),
{
    if versions.len() == 0 {
        0
    } else if versions[0].0 == name {
        versions[0].1
    } else {
        metadata_version_spec(versions.drop_first(), name)
    }
}

/// The metadata's name/version pairs, as mathematical values.
pub open spec fn metadata_view(m: Metadata) -> Seq<(Seq<char>, u32)> {
    m.versions@.map_values(|e: (String, u32)| (e.0@, e.1))
}

/// The module state owned by the runtime store: the parameters.
pub struct ModuleState {
    pub parameters: Parameters,
}

pub struct Module;

impl Module {
    /// Rejects any denomination other than the consensus denomination of the
    /// parameters.
    pub fn ensure_consensus_denomination(
        params: &Parameters,
        denomination: &Denomination,
    ) -> (r: Result<(), Error>)
        ensures
            (r is Ok) <==> denomination.name@ == params.consensus_denomination.name@,
            r matches Err(e) ==> e == Error::InvalidDenomination,
    {
        let ours = &params.consensus_denomination;
        let a = &denomination.name;
        let b = &ours.name;
        if a.len() != b.len() {
            return Err(Error::InvalidDenomination);
        }
        let mut i: usize = 0;
        while i < a.len()
            invariant
                a@ == denomination.name@,
                b@ == params.consensus_denomination.name@,
                i <= a@.len(),
                a@.len() == b@.len(),
                forall|j: int| 0 <= j < i ==> a@[j] == b@[j],
            decreases a@.len() - i,
        {
            if a[i] != b[i] {
                proof {
                    assert(a@[i as int] != b@[i as int]);
                }
                return Err(Error::InvalidDenomination);
            }
            i = i + 1;
        }
        proof {
            assert(a@ =~= b@);
        }
        Ok(())
    }

    /// Returns the consensus token denomination.
    pub fn consensus_denomination(params: &Parameters) -> (r: Denomination)
        ensures
            r.name@ == params.consensus_denomination.name@,
    {
        Denomination { name: clone_bytes(&params.consensus_denomination.name) }
    }

    /// Decides a transfer out of the runtime account: rejected unless the
    /// amount is in the consensus denomination; in check-only execution
    /// nothing is emitted; otherwise the transfer message to emit.
    pub fn transfer(
        params: &Parameters,
        check_only: bool,
        to: Address,
        amount: &BaseUnits,
        hook_name: String,
        hook_payload: Value,
    ) -> (r: Result<Option<EmittedMessage>, Error>)
        ensures
            (r is Err) <==> amount.denomination.name@ != params.consensus_denomination.name@,
            r matches Err(e) ==> e == Error::InvalidDenomination,
            r == Ok::<Option<EmittedMessage>, Error>(None::<EmittedMessage>) <==> (
            amount.denomination.name@ == params.consensus_denomination.name@ && check_only),
            r matches Ok(Some(m)) ==> {
                &&& m.version == 0
                &&& m.message matches StakingMessage::Transfer { to: t, amount: a } && t.data@
                    == to.data@ && a == amount.amount
                &&& m.hook_name@ == hook_name@
                &&& m.hook_payload == hook_payload
            },
    {
        Self::ensure_consensus_denomination(params, &amount.denomination)?;
        if check_only {
            return Ok(None);
        }
        Ok(
            Some(
                EmittedMessage {
                    version: 0,
                    message: StakingMessage::Transfer { to, amount: amount.amount },
                    hook_name,
                    hook_payload,
                },
            ),
        )
    }

    /// Decides a withdrawal into the runtime account; same gating as
    /// [`Module::transfer`].
    pub fn withdraw(
        params: &Parameters,
        check_only: bool,
        from: Address,
        amount: &BaseUnits,
        hook_name: String,
        hook_payload: Value,
    ) -> (r: Result<Option<EmittedMessage>, Error>)
        ensures
            (r is Err) <==> amount.denomination.name@ != params.consensus_denomination.name@,
            r matches Err(e) ==> e == Error::InvalidDenomination,
            r == Ok::<Option<EmittedMessage>, Error>(None::<EmittedMessage>) <==> (
            amount.denomination.name@ == params.consensus_denomination.name@ && check_only),
            r matches Ok(Some(m)) ==> {
                &&& m.version == 0
                &&& m.message matches StakingMessage::Withdraw { from: f, amount: a } && f.data@
                    == from.data@ && a == amount.amount
                &&& m.hook_name@ == hook_name@
                &&& m.hook_payload == hook_payload
            },
    {
        Self::ensure_consensus_denomination(params, &amount.denomination)?;
        if check_only {
            return Ok(None);
        }
        Ok(
            Some(
                EmittedMessage {
                    version: 0,
                    message: StakingMessage::Withdraw { from, amount: amount.amount },
                    hook_name,
                    hook_payload,
                },
            ),
        )
    }

    /// Decides an escrow of runtime account funds; same gating as
    /// [`Module::transfer`].
    pub fn escrow(
        params: &Parameters,
        check_only: bool,
        to: Address,
        amount: &BaseUnits,
        hook_name: String,
        hook_payload: Value,
    ) -> (r: Result<Option<EmittedMessage>, Error>)
        ensures
            (r is Err) <==> amount.denomination.name@ != params.consensus_denomination.name@,
            r matches Err(e) ==> e == Error::InvalidDenomination,
            r == Ok::<Option<EmittedMessage>, Error>(None::<EmittedMessage>) <==> (
            amount.denomination.name@ == params.consensus_denomination.name@ && check_only),
            r matches Ok(Some(m)) ==> {
                &&& m.version == 0
                &&& m.message matches StakingMessage::AddEscrow { account: t, amount: a }
                    && t.data@ == to.data@ && a == amount.amount
                &&& m.hook_name@ == hook_name@
                &&& m.hook_payload == hook_payload
            },
    {
        Self::ensure_consensus_denomination(params, &amount.denomination)?;
        if check_only {
            return Ok(None);
        }
        Ok(
            Some(
                EmittedMessage {
                    version: 0,
                    message: StakingMessage::AddEscrow { account: to, amount: amount.amount },
                    hook_name,
                    hook_payload,
                },
            ),
        )
    }

    /// Decides a reclaim of runtime staked shares; same gating as
    /// [`Module::transfer`].
    pub fn reclaim_escrow(
        params: &Parameters,
        check_only: bool,
        from: Address,
        amount: &BaseUnits,
        hook_name: String,
        hook_payload: Value,
    ) -> (r: Result<Option<EmittedMessage>, Error>)
        ensures
            (r is Err) <==> amount.denomination.name@ != params.consensus_denomination.name@,
            r matches Err(e) ==> e == Error::InvalidDenomination,
            r == Ok::<Option<EmittedMessage>, Error>(None::<EmittedMessage>) <==> (
            amount.denomination.name@ == params.consensus_denomination.name@ && check_only),
            r matches Ok(Some(m)) ==> {
                &&& m.version == 0
                &&& m.message matches StakingMessage::ReclaimEscrow { account: f, shares: a }
                    && f.data@ == from.data@ && a == amount.amount
                &&& m.hook_name@ == hook_name@
                &&& m.hook_payload == hook_payload
            },
    {
        Self::ensure_consensus_denomination(params, &amount.denomination)?;
        if check_only {
            return Ok(None);
        }
        Ok(
            Some(
                EmittedMessage {
                    version: 0,
                    message: StakingMessage::ReclaimEscrow {
                        account: from,
                        shares: amount.amount,
                    },
                    hook_name,
                    hook_payload,
                },
            ),
        )
    }

    /// Ensures the transaction signer is consensus compatible: the first
    /// signer must address itself by an Ed25519 signature key.
    pub fn ensure_compatible_tx_signer(auth_info: &AuthInfo) -> (r: Result<(), Error>)
        requires
            auth_info.signer_info@.len() > 0,
        ensures
            (r is Ok) <==> auth_info.signer_info@[0].address_spec matches AddressSpec::Signature(
                SignatureAddressSpec::Ed25519(_),
            ),
            r matches Err(e) ==> e == Error::ConsensusIncompatibleSigner,
    {
        match &auth_info.signer_info[0].address_spec {
            AddressSpec::Signature(SignatureAddressSpec::Ed25519(_)) => Ok(()),
            _ => Err(Error::ConsensusIncompatibleSigner),
        }
    }

    /// Initializes the module state from genesis when the recorded version
    /// is zero or absent, recording version one (overwriting a recorded
    /// zero); migrations are not supported, so any other recorded version
    /// leaves everything untouched.
    pub fn init_or_migrate(
        state: &mut ModuleState,
        meta: &mut Metadata,
        genesis: Genesis,
    ) -> (updated: bool)
        ensures
            updated == (metadata_version_spec(metadata_view(*old(meta)), "consensus"@) == 0),
            updated ==> {
                &&& final(state).parameters.consensus_denomination.name@
                    == genesis.parameters.consensus_denomination.name@
                &&& metadata_version_spec(metadata_view(*final(meta)), "consensus"@)
                    == MODULE_VERSION
            },
            forall|n: Seq<char>|
                n != "consensus"@ ==> metadata_version_spec(metadata_view(*final(meta)), n)
                    == metadata_version_spec(metadata_view(*old(meta)), n),
            !updated ==> *final(state) == *old(state) && *final(meta) == *old(meta),
    {
        let name = module_name();
        let ghost prev = metadata_view(*meta);
        match metadata_find(meta, name) {
            Some(i) => {
                let recorded = meta.versions[i].1;
                if recorded != 0 {
                    proof {
                        lemma_version_at_first_match(prev, i as int, "consensus"@);
                    }
                    return false;
                }
                state.parameters = genesis.parameters;
                meta.versions.remove(i);
                meta.versions.insert(i, (name.to_owned(), MODULE_VERSION));
                proof {
                    lemma_version_at_first_match(prev, i as int, "consensus"@);
                    assert(metadata_view(*meta) =~= prev.update(
                        i as int,
                        ("consensus"@, MODULE_VERSION),
                    ));
                    lemma_version_update(prev, i as int, "consensus"@, MODULE_VERSION);
                }
                true
            },
            None => {
                state.parameters = genesis.parameters;
                meta.versions.push((name.to_owned(), MODULE_VERSION));
                proof {
                    lemma_version_absent(prev, "consensus"@);
                    assert(metadata_view(*meta) =~= prev.push(("consensus"@, MODULE_VERSION)));
                    lemma_version_push(prev, ("consensus"@, MODULE_VERSION));
                }
                true
            },
        }
    }
}

/// A first match determines the recorded version.
proof fn lemma_version_at_first_match(s: Seq<(Seq<char>, u32)>, i: int, name: Seq<char>)
    requires
        0 <= i < s.len(),
        s[i].0 == name,
        forall|j: int| 0 <= j < i ==> (#[trigger] s[j]).0 != name,
    ensures
        metadata_version_spec(s, name) == s[i].1,
    decreases i,
{
    if i > 0 {
        lemma_version_at_first_match(s.drop_first(), i - 1, name);
    }
}

/// Without a matching row the recorded version is zero.
proof fn lemma_version_absent(s: Seq<(Seq<char>, u32)>, name: Seq<char>)
    requires
        forall|j: int| 0 <= j < s.len() ==> (#[trigger] s[j]).0 != name,
    ensures
        metadata_version_spec(s, name) == 0,
    decreases s.len(),
{
    if s.len() > 0 {
        lemma_version_absent(s.drop_first(), name);
    }
}

/// Rewriting the first matching row changes the recorded version for its
/// name and no other.
proof fn lemma_version_update(s: Seq<(Seq<char>, u32)>, i: int, name: Seq<char>, v: u32)
    requires
        0 <= i < s.len(),
        s[i].0 == name,
        forall|j: int| 0 <= j < i ==> (#[trigger] s[j]).0 != name,
    ensures
        metadata_version_spec(s.update(i, (name, v)), name) == v,
        forall|n: Seq<char>|
            n != name ==> metadata_version_spec(s.update(i, (name, v)), n)
                == metadata_version_spec(s, n),
    decreases i,
{
    let s2 = s.update(i, (name, v));
    if i == 0 {
        assert(s2[0] == (name, v));
        assert(s2.drop_first() =~= s.drop_first());
        assert forall|n: Seq<char>| n != name implies metadata_version_spec(s2, n)
            == metadata_version_spec(s, n) by {
            assert(metadata_version_spec(s2, n) == metadata_version_spec(s2.drop_first(), n));
            assert(metadata_version_spec(s, n) == metadata_version_spec(s.drop_first(), n));
        }
    } else {
        lemma_version_update(s.drop_first(), i - 1, name, v);
        assert(s2[0] == s[0]);
        assert(s2.drop_first() =~= s.drop_first().update(i - 1, (name, v)));
        assert forall|n: Seq<char>| n != name implies metadata_version_spec(s2, n)
            == metadata_version_spec(s, n) by {
            if s[0].0 != n {
                assert(metadata_version_spec(s2, n) == metadata_version_spec(
                    s.drop_first().update(i - 1, (name, v)),
                    n,
                ));
                assert(metadata_version_spec(s, n) == metadata_version_spec(s.drop_first(), n));
            }
        }
    }
}

/// Appending a row for an absent name records its version and changes no
/// other name's version.
proof fn lemma_version_push(s: Seq<(Seq<char>, u32)>, entry: (Seq<char>, u32))
    requires
        forall|j: int| 0 <= j < s.len() ==> (#[trigger] s[j]).0 != entry.0,
    ensures
        metadata_version_spec(s.push(entry), entry.0) == entry.1,
        forall|n: Seq<char>|
            n != entry.0 ==> metadata_version_spec(s.push(entry), n) == metadata_version_spec(
                s,
                n,
            ),
    decreases s.len(),
{
    let s2 = s.push(entry);
    if s.len() == 0 {
        assert(s2[0] == entry);
        assert(s2.drop_first() =~= Seq::<(Seq<char>, u32)>::empty());
        assert forall|n: Seq<char>| n != entry.0 implies metadata_version_spec(s2, n)
            == metadata_version_spec(s, n) by {
            assert(metadata_version_spec(s2, n) == metadata_version_spec(s2.drop_first(), n));
        }
    } else {
        lemma_version_push(s.drop_first(), entry);
        assert(s2[0] == s[0]);
        assert(s2.drop_first() =~= s.drop_first().push(entry));
        assert forall|n: Seq<char>| n != entry.0 implies metadata_version_spec(s2, n)
            == metadata_version_spec(s, n) by {
            if s[0].0 != n {
                assert(metadata_version_spec(s2, n) == metadata_version_spec(
                    s.drop_first().push(entry),
                    n,
                ));
                assert(metadata_version_spec(s, n) == metadata_version_spec(s.drop_first(), n));
            }
        }
    }
}

/// Finds the first row recorded for a module name.
fn metadata_find(meta: &Metadata, name: &str) -> (r: Option<usize>)
    ensures
        match r {
            Some(i) => {
                &&& i < meta.versions@.len()
                &&& metadata_view(*meta)[i as int].0 == name@
                &&& forall|j: int|
                    0 <= j < i ==> (#[trigger] metadata_view(*meta)[j]).0 != name@
            },
            None => forall|j: int|
                0 <= j < meta.versions@.len() ==> (#[trigger] metadata_view(*meta)[j]).0
                    != name@,
        },
{
    let mut i: usize = 0;
    let n = meta.versions.len();
    while i < n
        invariant
            i <= n,
            n == meta.versions@.len(),
            forall|j: int| 0 <= j < i ==> (#[trigger] metadata_view(*meta)[j]).0 != name@,
        decreases n - i,
    {
        let entry = &meta.versions[i];
        let other = String::from_str(name);
        if entry.0 == other {
            proof {
                assert(metadata_view(*meta)[i as int].0 == meta.versions@[i as int].0@);
            }
            return Some(i);
        }
        proof {
            assert(metadata_view(*meta)[i as int].0 == meta.versions@[i as int].0@);
        }
        i = i + 1;
    }
    None
}

/// Looks up the version recorded for a module name; zero when none is.
fn metadata_version(meta: &Metadata, name: &str) -> (r: u32)
    ensures
        r == metadata_version_spec(metadata_view(*meta), name@),
{
    let mut i: usize = 0;
    let n = meta.versions.len();
    proof {
        assert(metadata_view(*meta).skip(0) =~= metadata_view(*meta));
    }
    while i < n
        invariant
            i <= n,
            n == meta.versions@.len(),
            metadata_version_spec(metadata_view(*meta), name@) == metadata_version_spec(
                metadata_view(*meta).skip(i as int),
                name@,
            ),
        decreases n - i,
    {
        let entry = &meta.versions[i];
        let other = String::from_str(name);
        let matches_name = entry.0 == other;
        proof {
            assert(metadata_view(*meta).skip(i as int)[0] == (meta.versions@[i as int].0@,
            meta.versions@[i as int].1));
        }
        if matches_name {
            return entry.1;
        }
        i = i + 1;
        proof {
            assert(metadata_view(*meta).skip(i - 1).drop_first() =~= metadata_view(*meta).skip(
                i as int,
            ));
        }
    }
    proof {
        assert(metadata_view(*meta).skip(i as int) =~= Seq::<(Seq<char>, u32)>::empty());
    }
    0
}

fn clone_bytes(v: &Vec<u8>) -> (r: Vec<u8>)
    ensures
        r@ == v@,
{
    let mut out: Vec<u8> = Vec::new();
    let mut i: usize = 0;
    while i < v.len()
        invariant
            i <= v@.len(),
            out@ =~= v@.take(i as int),
        decreases v@.len() - i,
    {
        out.push(v[i]);
        i = i + 1;
        proof {
            assert(out@ =~= v@.take(i as int));
        }
    }
    proof {
        assert(v@.take(v@.len() as int) =~= v@);
    }
    out
}

} // verus!
