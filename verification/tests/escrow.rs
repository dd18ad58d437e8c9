use crossborder::escrow::{
    get_evidence, store_evidence, DisputeEvidence, EscrowContract, EscrowError, EscrowStatus,
    EvidenceStore, TransferDirection,
};
use crossborder::table::Table;
use soroban_sdk::testutils::EnvTestConfig;
use soroban_sdk::{Bytes, Env};

fn test_env() -> Env {
    Env::new_with_config(EnvTestConfig { capture_snapshot_at_drop: false })
}

fn b(s: &str) -> Vec<u8> {
    s.as_bytes().to_vec()
}

fn host_sha256(env: &Env, data: &[u8]) -> Vec<u8> {
    env.crypto().sha256(&Bytes::from_slice(env, data)).to_array().to_vec()
}

fn framed(out: &mut Vec<u8>, s: &[u8]) {
    out.extend_from_slice(&(s.len() as u64).to_be_bytes());
    out.extend_from_slice(s);
}

fn expected_escrow_id(env: &Env, sender: &[u8], receiver: &[u8], amount: i128, now: u64) -> Vec<u8> {
    let mut data = Vec::new();
    framed(&mut data, sender);
    framed(&mut data, receiver);
    data.extend_from_slice(&(amount as u128).to_be_bytes());
    data.extend_from_slice(&now.to_be_bytes());
    host_sha256(env, &data)
}

fn expected_dispute_id(env: &Env, escrow_id: &[u8], challenger: &[u8], now: u64) -> Vec<u8> {
    let mut data = Vec::new();
    framed(&mut data, escrow_id);
    framed(&mut data, challenger);
    data.extend_from_slice(&now.to_be_bytes());
    host_sha256(env, &data)
}

/// A contract with an administrator and one pending escrow of 1000 created at
/// time 100, releasable from time 200.
fn setup(env: &Env) -> (EscrowContract, Vec<u8>) {
    let mut c = EscrowContract::new();
    c.initialize(b("GADMIN")).unwrap();
    let (id, _t) = c
        .create_escrow(env, b("GSENDER"), b("GRECEIVER"), 1000, b("USDC"), 200, Table::new(), 100)
        .unwrap();
    (c, id)
}

// ─── Dispute evidence ────────────────────────────────────────────────────

#[test]
fn test_evidence_stored_and_retrieved() {
    let mut store = EvidenceStore::new();
    let submitter = b("GSUBMITTER");
    let evidence_bytes = b("proof_hash_abc");

    let evidence = DisputeEvidence {
        dispute_id: 1,
        submitter: submitter.clone(),
        evidence: evidence_bytes.clone(),
        submitted_at: 0,
        description: b("payment_proof"),
    };

    store_evidence(&mut store, 1, evidence);
    let retrieved = get_evidence(&store, 1).expect("evidence should exist");
    assert_eq!(retrieved.dispute_id, 1);
    assert_eq!(retrieved.evidence, evidence_bytes);
}

#[test]
fn test_missing_evidence_returns_none() {
    let store = EvidenceStore::new();
    assert!(get_evidence(&store, 999).is_none());
}

#[test]
fn evidence_is_replaced_by_a_later_store() {
    let mut store = EvidenceStore::new();
    for (n, text) in [(7u64, "first"), (7u64, "second"), (3u64, "other")] {
        store_evidence(
            &mut store,
            n,
            DisputeEvidence {
                dispute_id: n,
                submitter: b("GSUBMITTER"),
                evidence: b(text),
                submitted_at: 5,
                description: b("note"),
            },
        );
    }
    assert_eq!(get_evidence(&store, 7).unwrap().evidence, b("second"));
    assert_eq!(get_evidence(&store, 3).unwrap().evidence, b("other"));
    assert!(get_evidence(&store, 4).is_none());
}

// ─── Initialisation ──────────────────────────────────────────────────────

#[test]
fn initialize_only_once() {
    let mut c = EscrowContract::new();
    assert_eq!(c.initialize(b("GADMIN")), Ok(()));
    assert_eq!(c.initialize(b("GOTHER")), Err(EscrowError::AlreadyInitialized));
}

// ─── Creation ────────────────────────────────────────────────────────────

#[test]
fn create_escrow_records_a_pending_escrow() {
    let env = test_env();
    let mut c = EscrowContract::new();
    let mut metadata: Table<Vec<u8>, Vec<u8>> = Table::new();
    metadata.insert(b("purpose"), b("remittance"));
    let (id, transfer) = c
        .create_escrow(&env, b("GSENDER"), b("GRECEIVER"), 1000, b("USDC"), 200, metadata, 100)
        .unwrap();

    assert_eq!(id, expected_escrow_id(&env, b"GSENDER", b"GRECEIVER", 1000, 100));
    assert_eq!(id.len(), 32);
    assert_eq!(transfer.token, b("USDC"));
    assert_eq!(transfer.account, b("GSENDER"));
    assert_eq!(transfer.amount, 1000);
    assert_eq!(transfer.direction, TransferDirection::IntoEscrow);

    let e = c.get_escrow(&id).ok().unwrap();
    assert_eq!(e.id, id);
    assert_eq!(e.sender, b("GSENDER"));
    assert_eq!(e.receiver, b("GRECEIVER"));
    assert_eq!(e.amount, 1000);
    assert_eq!(e.status, EscrowStatus::Pending);
    assert_eq!(e.release_time, 200);
    assert_eq!(e.created_at, 100);
    assert_eq!(e.metadata.get(&b("purpose")), Some(&b("remittance")));
    assert_eq!(c.get_escrow_status(&id), Ok(EscrowStatus::Pending));
}

#[test]
fn create_escrow_rejects_non_positive_amount() {
    let env = test_env();
    let mut c = EscrowContract::new();
    let r = c.create_escrow(&env, b("GSENDER"), b("GRECEIVER"), 0, b("USDC"), 200, Table::new(), 100);
    assert_eq!(r.err(), Some(EscrowError::NonPositiveAmount));
    let r = c.create_escrow(&env, b("GSENDER"), b("GRECEIVER"), -5, b("USDC"), 200, Table::new(), 100);
    assert_eq!(r.err(), Some(EscrowError::NonPositiveAmount));
    assert!(c.get_user_escrows(&b("GSENDER")).is_empty());
}

#[test]
fn create_escrow_rejects_release_time_not_in_future() {
    let env = test_env();
    let mut c = EscrowContract::new();
    let r = c.create_escrow(&env, b("GSENDER"), b("GRECEIVER"), 10, b("USDC"), 100, Table::new(), 100);
    assert_eq!(r.err(), Some(EscrowError::ReleaseTimeNotInFuture));
    let r = c.create_escrow(&env, b("GSENDER"), b("GRECEIVER"), 10, b("USDC"), 99, Table::new(), 100);
    assert_eq!(r.err(), Some(EscrowError::ReleaseTimeNotInFuture));
}

#[test]
fn user_escrows_index_both_parties_in_order() {
    let env = test_env();
    let mut c = EscrowContract::new();
    let (id1, _) = c
        .create_escrow(&env, b("GA"), b("GB"), 10, b("USDC"), 50, Table::new(), 1)
        .unwrap();
    let (id2, _) = c
        .create_escrow(&env, b("GB"), b("GC"), 20, b("USDC"), 50, Table::new(), 2)
        .unwrap();
    assert_eq!(c.get_user_escrows(&b("GA")), vec![id1.clone()]);
    assert_eq!(c.get_user_escrows(&b("GB")), vec![id1, id2.clone()]);
    assert_eq!(c.get_user_escrows(&b("GC")), vec![id2]);
    assert!(c.get_user_escrows(&b("GD")).is_empty());
}

#[test]
fn create_escrow_with_chosen_id() {
    let mut c = EscrowContract::new();
    let t = c
        .create_escrow_with_id(b("ID1"), b("GA"), b("GB"), 5, b("XLM"), 9, Table::new(), 3)
        .ok()
        .unwrap();
    assert_eq!(t.amount, 5);
    assert_eq!(c.get_escrow_status(&b("ID1")), Ok(EscrowStatus::Pending));
}

// ─── Release and refund ──────────────────────────────────────────────────

#[test]
fn release_waits_for_the_time_lock() {
    let env = test_env();
    let (mut c, id) = setup(&env);
    assert_eq!(c.release_escrow(&id, 199).err(), Some(EscrowError::StillTimeLocked));
    assert_eq!(c.get_escrow_status(&id), Ok(EscrowStatus::Pending));

    let s = c.release_escrow(&id, 200).ok().unwrap();
    assert_eq!(s.authorizer, b("GRECEIVER"));
    assert_eq!(s.transfer.account, b("GRECEIVER"));
    assert_eq!(s.transfer.amount, 1000);
    assert_eq!(s.transfer.token, b("USDC"));
    assert_eq!(s.transfer.direction, TransferDirection::OutOfEscrow);
    assert_eq!(c.get_escrow_status(&id), Ok(EscrowStatus::Completed));

    assert_eq!(c.release_escrow(&id, 300).err(), Some(EscrowError::NotPending));
    assert_eq!(c.refund_escrow(&id).err(), Some(EscrowError::NotPending));
}

#[test]
fn refund_pays_the_sender_back() {
    let env = test_env();
    let (mut c, id) = setup(&env);
    let s = c.refund_escrow(&id).ok().unwrap();
    assert_eq!(s.authorizer, b("GSENDER"));
    assert_eq!(s.transfer.account, b("GSENDER"));
    assert_eq!(s.transfer.amount, 1000);
    assert_eq!(s.transfer.direction, TransferDirection::OutOfEscrow);
    assert_eq!(c.get_escrow_status(&id), Ok(EscrowStatus::Refunded));
    assert_eq!(c.release_escrow(&id, 500).err(), Some(EscrowError::NotPending));
}

#[test]
fn unknown_escrow_is_not_found() {
    let env = test_env();
    let (mut c, _id) = setup(&env);
    let missing = b("missing");
    assert_eq!(c.release_escrow(&missing, 500).err(), Some(EscrowError::EscrowNotFound));
    assert_eq!(c.refund_escrow(&missing).err(), Some(EscrowError::EscrowNotFound));
    assert_eq!(c.get_escrow_status(&missing), Err(EscrowError::EscrowNotFound));
    assert!(c.get_escrow(&missing).is_err());
    let r = c.dispute_escrow(&env, &missing, b("GSENDER"), b("late"), Vec::new(), 150);
    assert_eq!(r, Err(EscrowError::EscrowNotFound));
}

// ─── Disputes ────────────────────────────────────────────────────────────

#[test]
fn only_parties_may_dispute() {
    let env = test_env();
    let (mut c, id) = setup(&env);
    let r = c.dispute_escrow(&env, &id, b("GSTRANGER"), b("fraud"), Vec::new(), 150);
    assert_eq!(r, Err(EscrowError::NotAParty));
    assert_eq!(c.get_escrow_status(&id), Ok(EscrowStatus::Pending));
}

#[test]
fn dispute_locks_the_escrow() {
    let env = test_env();
    let (mut c, id) = setup(&env);
    let did = c
        .dispute_escrow(&env, &id, b("GRECEIVER"), b("not_received"), vec![1, 2, 3], 150)
        .unwrap();
    assert_eq!(did, expected_dispute_id(&env, &id, b"GRECEIVER", 150));
    assert_eq!(c.get_escrow_status(&id), Ok(EscrowStatus::Disputed));

    let d = c.get_dispute(&did).ok().unwrap();
    assert_eq!(d.escrow_id, id);
    assert_eq!(d.challenger, b("GRECEIVER"));
    assert_eq!(d.reason, b("not_received"));
    assert_eq!(d.evidence, vec![1, 2, 3]);
    assert_eq!(d.created_at, 150);
    assert!(!d.resolved);

    assert_eq!(c.release_escrow(&id, 300).err(), Some(EscrowError::NotPending));
    assert_eq!(c.refund_escrow(&id).err(), Some(EscrowError::NotPending));
    let again = c.dispute_escrow(&env, &id, b("GSENDER"), b("again"), Vec::new(), 160);
    assert_eq!(again, Err(EscrowError::NotPending));
}

#[test]
fn resolve_in_favour_of_challenger_refunds_sender() {
    let env = test_env();
    let (mut c, id) = setup(&env);
    let did = c
        .dispute_escrow(&env, &id, b("GSENDER"), b("fraud"), Vec::new(), 150)
        .unwrap();
    let s = c.resolve_dispute(&did, true).ok().unwrap();
    assert_eq!(s.authorizer, b("GADMIN"));
    assert_eq!(s.transfer.account, b("GSENDER"));
    assert_eq!(s.transfer.amount, 1000);
    assert_eq!(s.transfer.direction, TransferDirection::OutOfEscrow);
    assert_eq!(c.get_escrow_status(&id), Ok(EscrowStatus::Refunded));
    assert!(c.get_dispute(&did).ok().unwrap().resolved);
    assert_eq!(c.resolve_dispute(&did, false).err(), Some(EscrowError::DisputeAlreadyResolved));
}

#[test]
fn resolve_against_challenger_pays_receiver() {
    let env = test_env();
    let (mut c, id) = setup(&env);
    let did = c
        .dispute_escrow(&env, &id, b("GSENDER"), b("fraud"), Vec::new(), 150)
        .unwrap();
    let s = c.resolve_dispute(&did, false).ok().unwrap();
    assert_eq!(s.transfer.account, b("GRECEIVER"));
    assert_eq!(c.get_escrow_status(&id), Ok(EscrowStatus::Completed));
}

#[test]
fn resolve_needs_an_admin_and_a_dispute() {
    let env = test_env();
    let mut c = EscrowContract::new();
    let (id, _) = c
        .create_escrow(&env, b("GSENDER"), b("GRECEIVER"), 1000, b("USDC"), 200, Table::new(), 100)
        .unwrap();
    let did = c
        .dispute_escrow(&env, &id, b("GSENDER"), b("fraud"), Vec::new(), 150)
        .unwrap();
    assert_eq!(c.resolve_dispute(&did, true).err(), Some(EscrowError::NotInitialized));
    assert_eq!(c.get_escrow_status(&id), Ok(EscrowStatus::Disputed));
    c.initialize(b("GADMIN")).unwrap();
    assert_eq!(c.resolve_dispute(&b("nope"), true).err(), Some(EscrowError::DisputeNotFound));
    assert!(c.get_dispute(&b("nope")).is_err());
    assert!(c.resolve_dispute(&did, true).is_ok());
}

#[test]
fn dispute_with_chosen_id() {
    let env = test_env();
    let (mut c, id) = setup(&env);
    assert_eq!(
        c.dispute_escrow_with_id(&id, b("D1"), b("GSENDER"), b("why"), Vec::new(), 120),
        Ok(())
    );
    assert_eq!(c.get_dispute(&b("D1")).ok().unwrap().created_at, 120);
}

#[test]
fn a_run_of_calls_pays_each_escrow_once() {
    let env = test_env();
    let (mut c, first) = setup(&env);
    let (second, _) = c
        .create_escrow(&env, b("GSENDER"), b("GRECEIVER"), 500, b("USDC"), 300, Table::new(), 110)
        .unwrap();
    let mut paid: Vec<(Vec<u8>, i128)> = Vec::new();

    let s = c.release_escrow(&first, 250).ok().unwrap();
    paid.push((first.clone(), s.transfer.amount));
    assert!(c.release_escrow(&first, 260).is_err());
    assert!(c.refund_escrow(&first).is_err());
    assert!(c.dispute_escrow(&env, &first, b("GSENDER"), b("late"), Vec::new(), 270).is_err());

    let did = c
        .dispute_escrow(&env, &second, b("GRECEIVER"), b("missing"), Vec::new(), 280)
        .unwrap();
    assert!(c.refund_escrow(&second).is_err());
    let s = c.resolve_dispute(&did, true).ok().unwrap();
    paid.push((second.clone(), s.transfer.amount));
    assert!(c.resolve_dispute(&did, false).is_err());
    assert!(c.release_escrow(&second, 400).is_err());

    assert_eq!(paid, vec![(first.clone(), 1000), (second.clone(), 500)]);
    assert_eq!(c.get_escrow_status(&first), Ok(EscrowStatus::Completed));
    assert_eq!(c.get_escrow_status(&second), Ok(EscrowStatus::Refunded));
    assert_eq!(c.get_escrow(&second).ok().unwrap().amount, 500);
}
