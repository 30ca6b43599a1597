use runtime_client::codec::Value;
use runtime_client::consensus::{
    Address, Error, Genesis, Metadata, Module, ModuleState, Parameters, StakingMessage,
};
use runtime_client::transaction::{
    AddressSpec, AuthInfo, BaseUnits, Denomination, Fee, SignatureAddressSpec, SignerInfo,
};

fn test_denomination() -> Denomination {
    Denomination::from_bytes(b"TEST".to_vec())
}

fn base_units(amount: u128, denomination: Denomination) -> BaseUnits {
    BaseUnits { amount, denomination }
}

#[test]
fn test_init() {
    let mut state = ModuleState { parameters: Parameters::default_parameters() };
    let mut meta = Metadata::empty();
    let genesis = Genesis { parameters: Parameters::default_parameters() };

    Module::init_or_migrate(&mut state, &mut meta, genesis);
}

#[test]
fn init_records_version_once() {
    let mut state = ModuleState { parameters: Parameters::default_parameters() };
    let mut meta = Metadata::empty();
    let updated = Module::init_or_migrate(
        &mut state,
        &mut meta,
        Genesis { parameters: Parameters::default_parameters() },
    );
    assert!(updated);
    assert_eq!(meta.versions.len(), 1);
    assert_eq!(meta.versions[0].0, "consensus");
    assert_eq!(meta.versions[0].1, 1);

    // migrations are not supported: a second call changes nothing
    let again = Module::init_or_migrate(
        &mut state,
        &mut meta,
        Genesis { parameters: Parameters::default_parameters() },
    );
    assert!(!again);
    assert_eq!(meta.versions.len(), 1);
}

#[test]
fn init_overwrites_recorded_zero() {
    let mut state = ModuleState { parameters: Parameters::default_parameters() };
    let mut meta = Metadata::empty();
    meta.versions.push(("accounts".to_string(), 3));
    meta.versions.push(("consensus".to_string(), 0));

    let updated = Module::init_or_migrate(
        &mut state,
        &mut meta,
        Genesis { parameters: Parameters::default_parameters() },
    );
    assert!(updated);
    // the recorded zero is overwritten in place, other modules untouched
    assert_eq!(meta.versions.len(), 2);
    assert_eq!(meta.versions[0], ("accounts".to_string(), 3));
    assert_eq!(meta.versions[1], ("consensus".to_string(), 1));

    // re-initialization finds version 1 and does nothing
    let again = Module::init_or_migrate(
        &mut state,
        &mut meta,
        Genesis { parameters: Parameters::default_parameters() },
    );
    assert!(!again);
    assert_eq!(meta.versions.len(), 2);
    assert_eq!(meta.versions[1], ("consensus".to_string(), 1));
}

#[test]
fn denomination_gate() {
    let params = Parameters::default_parameters();
    assert!(Module::ensure_consensus_denomination(&params, &test_denomination()).is_ok());
    assert_eq!(
        Module::ensure_consensus_denomination(&params, &Denomination::native()),
        Err(Error::InvalidDenomination)
    );
    assert_eq!(Module::consensus_denomination(&params).name, b"TEST".to_vec());
}

#[test]
fn transfer_emits_message() {
    let params = Parameters::default_parameters();
    let to = Address { data: vec![1; 21] };
    let amount = base_units(1000, test_denomination());
    let r = Module::transfer(
        &params,
        false,
        to,
        &amount,
        "hook".to_string(),
        Value::Null,
    )
    .expect("denomination matches");
    match r {
        Some(m) => {
            assert_eq!(m.version, 0);
            assert_eq!(m.hook_name, "hook");
            match m.message {
                StakingMessage::Transfer { to, amount } => {
                    assert_eq!(to.data, vec![1; 21]);
                    assert_eq!(amount, 1000);
                }
                other => panic!("expected transfer, got {:?}", other),
            }
        }
        None => panic!("expected an emitted message"),
    }
}

#[test]
fn transfer_check_only_emits_nothing() {
    let params = Parameters::default_parameters();
    let r = Module::transfer(
        &params,
        true,
        Address { data: vec![2; 21] },
        &base_units(5, test_denomination()),
        "hook".to_string(),
        Value::Null,
    )
    .expect("denomination matches");
    assert!(r.is_none());
}

#[test]
fn transfer_rejects_wrong_denomination() {
    let params = Parameters::default_parameters();
    let r = Module::transfer(
        &params,
        false,
        Address { data: vec![2; 21] },
        &base_units(5, Denomination::native()),
        "hook".to_string(),
        Value::Null,
    );
    assert!(matches!(r, Err(Error::InvalidDenomination)));
}

#[test]
fn withdraw_escrow_reclaim_emit_messages() {
    let params = Parameters::default_parameters();
    let from = Address { data: vec![3; 21] };
    let amount = base_units(7, test_denomination());
    let w = Module::withdraw(&params, false, from, &amount, "h".to_string(), Value::Null)
        .expect("ok")
        .expect("message");
    assert!(matches!(w.message, StakingMessage::Withdraw { amount: 7, .. }));

    let e = Module::escrow(
        &params,
        false,
        Address { data: vec![4; 21] },
        &amount,
        "h".to_string(),
        Value::Null,
    )
    .expect("ok")
    .expect("message");
    assert!(matches!(e.message, StakingMessage::AddEscrow { amount: 7, .. }));

    let r = Module::reclaim_escrow(
        &params,
        false,
        Address { data: vec![5; 21] },
        &amount,
        "h".to_string(),
        Value::Null,
    )
    .expect("ok")
    .expect("message");
    assert!(matches!(r.message, StakingMessage::ReclaimEscrow { shares: 7, .. }));
}

#[test]
fn signer_compatibility() {
    let ed = AuthInfo {
        signer_info: vec![SignerInfo {
            address_spec: AddressSpec::Signature(SignatureAddressSpec::Ed25519(vec![0; 32])),
            nonce: 0,
        }],
        fee: Fee::free(),
    };
    assert!(Module::ensure_compatible_tx_signer(&ed).is_ok());

    let other = AuthInfo {
        signer_info: vec![SignerInfo {
            address_spec: AddressSpec::Internal(vec![1]),
            nonce: 0,
        }],
        fee: Fee::free(),
    };
    assert_eq!(
        Module::ensure_compatible_tx_signer(&other),
        Err(Error::ConsensusIncompatibleSigner)
    );
}
