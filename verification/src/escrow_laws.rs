//! What holds of the escrow contract across operations: locked funds leave
//! custody at most once, because only an open escrow pays out, paying out
//! settles it, and a settled escrow never changes again.

use vstd::prelude::*;
use crate::escrow::{EscrowContractModel, EscrowModel, DisputeModel, SettlementModel, DisputeEvidenceModel,
    EscrowStatus, EscrowError, TransferDirection, is_open, add_user_escrow, escrows_of};
use crate::table::{lookup, has_key, table_insert, lemma_table_insert, sorted_by};

verus! {

/// An operation on the escrow contract, with the ids it files records under.
pub enum EscrowOp {
    Initialize { admin: Seq<u8> },
    Create {
        id: Seq<u8>,
        sender: Seq<u8>,
        receiver: Seq<u8>,
        amount: i128,
        token: Seq<u8>,
        release_time: u64,
        metadata: Seq<(Seq<u8>, Seq<u8>)>,
        now: u64,
    },
    Release { id: Seq<u8>, now: u64 },
    Refund { id: Seq<u8> },
    Dispute {
        escrow_id: Seq<u8>,
        dispute_id: Seq<u8>,
        challenger: Seq<u8>,
        reason: Seq<u8>,
        evidence: Seq<u8>,
        now: u64,
    },
    Resolve { dispute_id: Seq<u8>, in_favor_of_challenger: bool },
}

/// The state after `op`, with the escrow it paid out of and the payout, if it paid out.
pub open spec fn apply(s: EscrowContractModel, op: EscrowOp) -> Result<
    (EscrowContractModel, Option<(Seq<u8>, SettlementModel)>),
    EscrowError,
> {
    match op {
        EscrowOp::Initialize { admin } => match s.initialize(admin) {
            Ok(t) => Ok((t, None)),
            Err(e) => Err(e),
        },
        EscrowOp::Create { id, sender, receiver, amount, token, release_time, metadata, now } => {
            match s.create(id, sender, receiver, amount, token, release_time, metadata, now) {
                Ok((t, _)) => Ok((t, None)),
                Err(e) => Err(e),
            }
        },
        EscrowOp::Release { id, now } => match s.release(id, now) {
            Ok((t, p)) => Ok((t, Some((id, p)))),
            Err(e) => Err(e),
        },
        EscrowOp::Refund { id } => match s.refund(id) {
            Ok((t, p)) => Ok((t, Some((id, p)))),
            Err(e) => Err(e),
        },
        EscrowOp::Dispute { escrow_id, dispute_id, challenger, reason, evidence, now } => {
            match s.dispute(escrow_id, dispute_id, challenger, reason, evidence, now) {
                Ok(t) => Ok((t, None)),
                Err(e) => Err(e),
            }
        },
        EscrowOp::Resolve { dispute_id, in_favor_of_challenger } => match s.resolve(
            dispute_id,
            in_favor_of_challenger,
        ) {
            Ok((t, p)) => Ok((t, Some((lookup(s.disputes, dispute_id).unwrap().escrow_id, p)))),
            Err(e) => Err(e),
        },
    }
}

/// The ids that `op` files new records under are not taken yet.
pub open spec fn fresh(s: EscrowContractModel, op: EscrowOp) -> bool {
    match op {
        EscrowOp::Create { id, .. } => !has_key(s.escrows, id),
        EscrowOp::Dispute { dispute_id, .. } => !has_key(s.disputes, dispute_id),
        _ => true,
    }
}

/// An open dispute filed under `k` is on a disputed escrow.
pub open spec fn open_dispute_on_disputed_escrow(s: EscrowContractModel, k: Seq<u8>) -> bool {
    match lookup(s.disputes, k) {
        Some(d) => !d.resolved ==> match lookup(s.escrows, d.escrow_id) {
            Some(e) => e.status == EscrowStatus::Disputed,
            None => false,
        },
        None => true,
    }
}

/// The open disputes filed under `k1` and `k2`, if distinct, are on distinct escrows.
pub open spec fn open_disputes_apart(s: EscrowContractModel, k1: Seq<u8>, k2: Seq<u8>) -> bool {
    match (lookup(s.disputes, k1), lookup(s.disputes, k2)) {
        (Some(d1), Some(d2)) => (k1 != k2 && !d1.resolved && !d2.resolved) ==> d1.escrow_id
            != d2.escrow_id,
        _ => true,
    }
}

/// Every open dispute is on a disputed escrow, and no escrow has two open disputes.
pub open spec fn disputes_consistent(s: EscrowContractModel) -> bool {
    &&& forall|k: Seq<u8>| #[trigger] open_dispute_on_disputed_escrow(s, k)
    &&& forall|k1: Seq<u8>, k2: Seq<u8>| #[trigger] open_disputes_apart(s, k1, k2)
}

/// Escrow `id` exists and is settled (completed or refunded).
pub open spec fn is_settled(s: EscrowContractModel, id: Seq<u8>) -> bool {
    match lookup(s.escrows, id) {
        Some(e) => !is_open(e.status),
        None => false,
    }
}

proof fn lemma_with_status(s: EscrowContractModel, id: Seq<u8>, status: EscrowStatus)
    requires
        s.wf(),
        has_key(s.escrows, id),
    ensures
        s.with_status(id, status).wf(),
        s.with_status(id, status).disputes == s.disputes,
        lookup(s.with_status(id, status).escrows, id) == Some(
            EscrowModel { status, ..lookup(s.escrows, id).unwrap() },
        ),
        forall|k: Seq<u8>|
            k != id ==> #[trigger] lookup(s.with_status(id, status).escrows, k) == lookup(
                s.escrows,
                k,
            ),
{
    lemma_table_insert::<Vec<u8>, EscrowModel>(
        s.escrows,
        id,
        EscrowModel { status, ..lookup(s.escrows, id).unwrap() },
    );
}

/// The contract starts out consistent.
pub proof fn lemma_initially_consistent()
    ensures
        disputes_consistent(
            EscrowContractModel {
                admin: None,
                escrows: Seq::empty(),
                disputes: Seq::empty(),
                user_escrows: Seq::empty(),
            },
        ),
{
}

/// Changing the status of an escrow that no open dispute is on keeps the
/// disputes consistent.
proof fn lemma_consistency_status_change(s: EscrowContractModel, id: Seq<u8>, status: EscrowStatus)
    requires
        s.wf(),
        disputes_consistent(s),
        has_key(s.escrows, id),
        lookup(s.escrows, id).unwrap().status != EscrowStatus::Disputed,
    ensures
        disputes_consistent(s.with_status(id, status)),
{
    let t = s.with_status(id, status);
    lemma_with_status(s, id, status);
    assert forall|k: Seq<u8>| #[trigger] open_dispute_on_disputed_escrow(t, k) by {
        assert(open_dispute_on_disputed_escrow(s, k));
    }
    assert forall|k1: Seq<u8>, k2: Seq<u8>| #[trigger] open_disputes_apart(t, k1, k2) by {
        assert(open_disputes_apart(s, k1, k2));
    }
}

proof fn lemma_consistency_dispute(
    s: EscrowContractModel,
    escrow_id: Seq<u8>,
    dispute_id: Seq<u8>,
    challenger: Seq<u8>,
    reason: Seq<u8>,
    evidence: Seq<u8>,
    now: u64,
)
    requires
        s.wf(),
        disputes_consistent(s),
        !has_key(s.disputes, dispute_id),
        s.dispute(escrow_id, dispute_id, challenger, reason, evidence, now) is Ok,
    ensures
        disputes_consistent(s.dispute(escrow_id, dispute_id, challenger, reason, evidence, now).unwrap()),
{
    let t = s.dispute(escrow_id, dispute_id, challenger, reason, evidence, now).unwrap();
    let s1 = s.with_status(escrow_id, EscrowStatus::Disputed);
    lemma_with_status(s, escrow_id, EscrowStatus::Disputed);
    let d0 = DisputeModel {
        escrow_id,
        challenger,
        reason,
        evidence,
        created_at: now,
        resolved: false,
    };
    lemma_table_insert::<Vec<u8>, DisputeModel>(s1.disputes, dispute_id, d0);
    assert(t.escrows == s1.escrows);
    assert forall|k: Seq<u8>| #[trigger] open_dispute_on_disputed_escrow(t, k) by {
        assert(open_dispute_on_disputed_escrow(s, k));
    }
    assert forall|k1: Seq<u8>, k2: Seq<u8>| #[trigger] open_disputes_apart(t, k1, k2) by {
        assert(open_disputes_apart(s, k1, k2));
        assert(open_dispute_on_disputed_escrow(s, k1));
        assert(open_dispute_on_disputed_escrow(s, k2));
    }
}

proof fn lemma_consistency_resolve(
    s: EscrowContractModel,
    dispute_id: Seq<u8>,
    in_favor_of_challenger: bool,
)
    requires
        s.wf(),
        disputes_consistent(s),
        s.resolve(dispute_id, in_favor_of_challenger) is Ok,
    ensures
        disputes_consistent(s.resolve(dispute_id, in_favor_of_challenger).unwrap().0),
{
    let t = s.resolve(dispute_id, in_favor_of_challenger).unwrap().0;
    let d = lookup(s.disputes, dispute_id).unwrap();
    let s1 = EscrowContractModel {
        disputes: table_insert::<Vec<u8>, DisputeModel>(
            s.disputes,
            dispute_id,
            DisputeModel { resolved: true, ..d },
        ),
        ..s
    };
    lemma_table_insert::<Vec<u8>, DisputeModel>(
        s.disputes,
        dispute_id,
        DisputeModel { resolved: true, ..d },
    );
    let status = if in_favor_of_challenger {
        EscrowStatus::Refunded
    } else {
        EscrowStatus::Completed
    };
    lemma_with_status(s1, d.escrow_id, status);
    assert(t == s1.with_status(d.escrow_id, status));
    assert forall|k: Seq<u8>| #[trigger] open_dispute_on_disputed_escrow(t, k) by {
        assert(open_dispute_on_disputed_escrow(s, k));
        if k != dispute_id {
            assert(open_disputes_apart(s, k, dispute_id));
        }
    }
    assert forall|k1: Seq<u8>, k2: Seq<u8>| #[trigger] open_disputes_apart(t, k1, k2) by {
        assert(open_disputes_apart(s, k1, k2));
    }
}

/// Every operation keeps the disputes consistent with the escrows, as long as
/// the ids it files new records under are fresh.
pub proof fn lemma_consistency_preserved(s: EscrowContractModel, op: EscrowOp)
    requires
        s.wf(),
        disputes_consistent(s),
        fresh(s, op),
        apply(s, op) is Ok,
    ensures
        disputes_consistent(apply(s, op).unwrap().0),
{
    let t = apply(s, op).unwrap().0;
    match op {
        EscrowOp::Initialize { admin } => {
            assert(t == EscrowContractModel { admin: Some(admin), ..s });
            assert forall|k: Seq<u8>| #[trigger] open_dispute_on_disputed_escrow(t, k) by {
                assert(open_dispute_on_disputed_escrow(s, k));
            }
            assert forall|k1: Seq<u8>, k2: Seq<u8>| #[trigger] open_disputes_apart(t, k1, k2) by {
                assert(open_disputes_apart(s, k1, k2));
            }
        },
        EscrowOp::Create { id, sender, receiver, amount, token, release_time, metadata, now } => {
            let e = EscrowModel {
                id,
                sender,
                receiver,
                amount,
                token,
                status: EscrowStatus::Pending,
                release_time,
                created_at: now,
                metadata,
            };
            lemma_table_insert::<Vec<u8>, EscrowModel>(s.escrows, id, e);
            assert forall|k: Seq<u8>| #[trigger] open_dispute_on_disputed_escrow(t, k) by {
                assert(open_dispute_on_disputed_escrow(s, k));
            }
            assert forall|k1: Seq<u8>, k2: Seq<u8>| #[trigger] open_disputes_apart(t, k1, k2) by {
                assert(open_disputes_apart(s, k1, k2));
            }
        },
        EscrowOp::Release { id, now } => {
            lemma_consistency_status_change(s, id, EscrowStatus::Completed);
        },
        EscrowOp::Refund { id } => {
            lemma_consistency_status_change(s, id, EscrowStatus::Refunded);
        },
        EscrowOp::Dispute { escrow_id, dispute_id, challenger, reason, evidence, now } => {
            lemma_consistency_dispute(s, escrow_id, dispute_id, challenger, reason, evidence, now);
        },
        EscrowOp::Resolve { dispute_id, in_favor_of_challenger } => {
            lemma_consistency_resolve(s, dispute_id, in_favor_of_challenger);
        },
    }
}

/// A settled escrow (completed or refunded) is never changed by a later
/// operation, as long as the ids that operation files records under are fresh.
pub proof fn lemma_settled_escrow_stays_settled(s: EscrowContractModel, op: EscrowOp, id: Seq<u8>)
    requires
        s.wf(),
        disputes_consistent(s),
        fresh(s, op),
        apply(s, op) is Ok,
        is_settled(s, id),
    ensures
        lookup(apply(s, op).unwrap().0.escrows, id) == lookup(s.escrows, id),
{
    let t = apply(s, op).unwrap().0;
    match op {
        EscrowOp::Initialize { admin } => {
            assert(t == EscrowContractModel { admin: Some(admin), ..s });
        },
        EscrowOp::Create { id: nid, sender, receiver, amount, token, release_time, metadata, now } => {
            let e = EscrowModel {
                id: nid,
                sender,
                receiver,
                amount,
                token,
                status: EscrowStatus::Pending,
                release_time,
                created_at: now,
                metadata,
            };
            lemma_table_insert::<Vec<u8>, EscrowModel>(s.escrows, nid, e);
        },
        EscrowOp::Release { id: rid, now } => {
            lemma_with_status(s, rid, EscrowStatus::Completed);
        },
        EscrowOp::Refund { id: rid } => {
            lemma_with_status(s, rid, EscrowStatus::Refunded);
        },
        EscrowOp::Dispute { escrow_id, .. } => {
            lemma_with_status(s, escrow_id, EscrowStatus::Disputed);
            let s1 = s.with_status(escrow_id, EscrowStatus::Disputed);
            assert(t.escrows == s1.escrows);
        },
        EscrowOp::Resolve { dispute_id, in_favor_of_challenger } => {
            let d = lookup(s.disputes, dispute_id).unwrap();
            let s1 = EscrowContractModel {
                disputes: table_insert::<Vec<u8>, DisputeModel>(
                    s.disputes,
                    dispute_id,
                    DisputeModel { resolved: true, ..d },
                ),
                ..s
            };
            let status = if in_favor_of_challenger {
                EscrowStatus::Refunded
            } else {
                EscrowStatus::Completed
            };
            lemma_table_insert::<Vec<u8>, DisputeModel>(
                s.disputes,
                dispute_id,
                DisputeModel { resolved: true, ..d },
            );
            lemma_with_status(s1, d.escrow_id, status);
            assert(t == s1.with_status(d.escrow_id, status));
            assert(open_dispute_on_disputed_escrow(s, dispute_id));
        },
    }
}

/// Funds leave custody only from an open escrow, in the escrowed amount and
/// token, and paying out settles the escrow.
pub proof fn lemma_payout_settles_open_escrow(s: EscrowContractModel, op: EscrowOp)
    requires
        s.wf(),
        disputes_consistent(s),
        apply(s, op) matches Ok((_, Some(_))),
    ensures
        ({
            let (t, p) = apply(s, op).unwrap();
            let (id, payout) = p.unwrap();
            &&& has_key(s.escrows, id)
            &&& is_open(lookup(s.escrows, id).unwrap().status)
            &&& payout.transfer.amount == lookup(s.escrows, id).unwrap().amount
            &&& payout.transfer.token == lookup(s.escrows, id).unwrap().token
            &&& is_settled(t, id)
        }),
{
    match op {
        EscrowOp::Release { id, now } => {
            lemma_with_status(s, id, EscrowStatus::Completed);
        },
        EscrowOp::Refund { id } => {
            lemma_with_status(s, id, EscrowStatus::Refunded);
        },
        EscrowOp::Resolve { dispute_id, in_favor_of_challenger } => {
            let d = lookup(s.disputes, dispute_id).unwrap();
            let s1 = EscrowContractModel {
                disputes: table_insert::<Vec<u8>, DisputeModel>(
                    s.disputes,
                    dispute_id,
                    DisputeModel { resolved: true, ..d },
                ),
                ..s
            };
            let status = if in_favor_of_challenger {
                EscrowStatus::Refunded
            } else {
                EscrowStatus::Completed
            };
            lemma_table_insert::<Vec<u8>, DisputeModel>(
                s.disputes,
                dispute_id,
                DisputeModel { resolved: true, ..d },
            );
            lemma_with_status(s1, d.escrow_id, status);
            assert(lookup(s.disputes, dispute_id) == Some(d));
            assert(open_dispute_on_disputed_escrow(s, dispute_id));
        },
        _ => {},
    }
}

/// Once an operation has paid out of an escrow, no later operation pays out
/// of it again (the ids the later operation files records under being fresh).
pub proof fn lemma_no_second_payout(s: EscrowContractModel, op1: EscrowOp, op2: EscrowOp)
    requires
        s.wf(),
        disputes_consistent(s),
        apply(s, op1) matches Ok((_, Some(_))),
        fresh(apply(s, op1).unwrap().0, op2),
        apply(apply(s, op1).unwrap().0, op2) matches Ok((_, Some(_))),
    ensures
        apply(apply(s, op1).unwrap().0, op2).unwrap().1.unwrap().0 != apply(s, op1).unwrap().1.unwrap().0,
{
    let t = apply(s, op1).unwrap().0;
    lemma_payout_settles_open_escrow(s, op1);
    lemma_op_keeps_wf(s, op1);
    lemma_consistency_preserved_any(s, op1);
    lemma_payout_settles_open_escrow(t, op2);
}

/// A status may stay as it is or move on: a pending escrow to any status, a
/// disputed one to completed or refunded; completed and refunded are final.
pub open spec fn moves_to(a: EscrowStatus, b: EscrowStatus) -> bool {
    ||| a == b
    ||| a == EscrowStatus::Pending
    ||| (a == EscrowStatus::Disputed && (b == EscrowStatus::Completed || b
        == EscrowStatus::Refunded))
}

/// `e1` is `e0` with at most its status changed, along an allowed move.
pub open spec fn evolves_to(e0: EscrowModel, e1: EscrowModel) -> bool {
    &&& e1 == EscrowModel { status: e1.status, ..e0 }
    &&& moves_to(e0.status, e1.status)
}

/// An operation keeps every existing escrow, changes at most its status, and
/// only along an allowed move (the ids it files new records under being fresh).
proof fn lemma_op_evolves_escrow(s: EscrowContractModel, op: EscrowOp, id: Seq<u8>)
    requires
        s.wf(),
        disputes_consistent(s),
        fresh(s, op),
        apply(s, op) is Ok,
        has_key(s.escrows, id),
    ensures
        has_key(apply(s, op).unwrap().0.escrows, id),
        evolves_to(lookup(s.escrows, id).unwrap(), lookup(apply(s, op).unwrap().0.escrows, id).unwrap()),
{
    let t = apply(s, op).unwrap().0;
    let e0 = lookup(s.escrows, id).unwrap();
    match op {
        EscrowOp::Initialize { admin } => {
            assert(t == EscrowContractModel { admin: Some(admin), ..s });
        },
        EscrowOp::Create { id: nid, sender, receiver, amount, token, release_time, metadata, now } => {
            let e = EscrowModel {
                id: nid,
                sender,
                receiver,
                amount,
                token,
                status: EscrowStatus::Pending,
                release_time,
                created_at: now,
                metadata,
            };
            lemma_table_insert::<Vec<u8>, EscrowModel>(s.escrows, nid, e);
        },
        EscrowOp::Release { id: rid, now } => {
            lemma_with_status(s, rid, EscrowStatus::Completed);
        },
        EscrowOp::Refund { id: rid } => {
            lemma_with_status(s, rid, EscrowStatus::Refunded);
        },
        EscrowOp::Dispute { escrow_id, .. } => {
            lemma_with_status(s, escrow_id, EscrowStatus::Disputed);
            let s1 = s.with_status(escrow_id, EscrowStatus::Disputed);
            assert(t.escrows == s1.escrows);
        },
        EscrowOp::Resolve { dispute_id, in_favor_of_challenger } => {
            let d = lookup(s.disputes, dispute_id).unwrap();
            let s1 = EscrowContractModel {
                disputes: table_insert::<Vec<u8>, DisputeModel>(
                    s.disputes,
                    dispute_id,
                    DisputeModel { resolved: true, ..d },
                ),
                ..s
            };
            let status = if in_favor_of_challenger {
                EscrowStatus::Refunded
            } else {
                EscrowStatus::Completed
            };
            lemma_table_insert::<Vec<u8>, DisputeModel>(
                s.disputes,
                dispute_id,
                DisputeModel { resolved: true, ..d },
            );
            lemma_with_status(s1, d.escrow_id, status);
            assert(t == s1.with_status(d.escrow_id, status));
            assert(open_dispute_on_disputed_escrow(s, dispute_id));
        },
    }
    let e1 = lookup(t.escrows, id).unwrap();
    assert(e1 == EscrowModel { status: e1.status, ..e0 });
}

/// Runs `ops` in turn from `s`: a refused operation leaves the state as it was
/// and pays nothing.  Yields the final state and the payouts made, in order,
/// each with the escrow it left; nothing where an operation would file a
/// record under an id that is taken.
pub open spec fn run(s: EscrowContractModel, ops: Seq<EscrowOp>) -> Option<
    (EscrowContractModel, Seq<(Seq<u8>, SettlementModel)>),
>
    decreases ops.len(),
{
    if ops.len() == 0 {
        Some((s, Seq::empty()))
    } else if !fresh(s, ops[0]) {
        None
    } else {
        match apply(s, ops[0]) {
            Err(_) => run(s, ops.drop_first()),
            Ok((t, p)) => match run(t, ops.drop_first()) {
                None => None,
                Some((f, ps)) => Some(
                    (
                        f,
                        match p {
                            Some(x) => seq![x] + ps,
                            None => ps,
                        },
                    ),
                ),
            },
        }
    }
}

/// Over any run of operations whose new records get fresh ids: every escrow
/// that existed keeps its terms and its status only moves forward (pending to
/// anything, disputed to completed or refunded, completed and refunded final);
/// each payout takes exactly the escrow's amount in its token and leaves the
/// escrow settled; no escrow already settled pays out; and no escrow pays out
/// twice.
pub proof fn lemma_run_pays_each_escrow_at_most_once(s: EscrowContractModel, ops: Seq<EscrowOp>)
    requires
        s.wf(),
        disputes_consistent(s),
        run(s, ops) is Some,
    ensures
        ({
            let (f, ps) = run(s, ops).unwrap();
            &&& f.wf()
            &&& disputes_consistent(f)
            &&& forall|id: Seq<u8>| #[trigger] has_key(s.escrows, id) ==> has_key(f.escrows, id)
                && evolves_to(lookup(s.escrows, id).unwrap(), lookup(f.escrows, id).unwrap())
            &&& forall|i: int| 0 <= i < ps.len() ==> {
                let (id, pm) = #[trigger] ps[i];
                &&& is_settled(f, id)
                &&& !is_settled(s, id)
                &&& pm.transfer.amount == lookup(f.escrows, id).unwrap().amount
                &&& pm.transfer.token == lookup(f.escrows, id).unwrap().token
            }
            &&& forall|i: int, j: int| 0 <= i < j < ps.len() ==> (#[trigger] ps[i]).0 != (
            #[trigger] ps[j]).0
        }),
    decreases ops.len(),
{
    if ops.len() > 0 {
        let op = ops[0];
        let rest = ops.drop_first();
        match apply(s, op) {
            Err(_) => {
                lemma_run_pays_each_escrow_at_most_once(s, rest);
            },
            Ok((t, p)) => {
                lemma_op_keeps_wf(s, op);
                lemma_consistency_preserved(s, op);
                lemma_run_pays_each_escrow_at_most_once(t, rest);
                let (f, ps1) = run(t, rest).unwrap();
                let ps = run(s, ops).unwrap().1;
                assert forall|id: Seq<u8>| #[trigger] has_key(s.escrows, id) implies has_key(
                    f.escrows,
                    id,
                ) && evolves_to(lookup(s.escrows, id).unwrap(), lookup(f.escrows, id).unwrap()) by {
                    lemma_op_evolves_escrow(s, op, id);
                    assert(has_key(t.escrows, id));
                }
                assert forall|id: Seq<u8>| is_settled(s, id) implies is_settled(t, id) by {
                    lemma_op_evolves_escrow(s, op, id);
                }
                match p {
                    None => {
                        assert(ps == ps1);
                    },
                    Some(x) => {
                        lemma_payout_settles_open_escrow(s, op);
                        let (pid, pm) = x;
                        assert(has_key(t.escrows, pid));
                        assert(is_settled(t, pid));
                        assert(has_key(f.escrows, pid));
                        assert(ps == seq![x] + ps1);
                        assert(ps[0] == x);
                        assert(lookup(t.escrows, pid).unwrap().amount == lookup(s.escrows, pid).unwrap().amount);
                        assert forall|i: int| 0 <= i < ps.len() implies {
                            let (id, pm) = #[trigger] ps[i];
                            &&& is_settled(f, id)
                            &&& !is_settled(s, id)
                            &&& pm.transfer.amount == lookup(f.escrows, id).unwrap().amount
                            &&& pm.transfer.token == lookup(f.escrows, id).unwrap().token
                        } by {
                            if i > 0 {
                                assert(ps[i] == ps1[i - 1]);
                            }
                        }
                        assert forall|i: int, j: int| 0 <= i < j < ps.len() implies (
                        #[trigger] ps[i]).0 != (#[trigger] ps[j]).0 by {
                            assert(ps[j] == ps1[j - 1]);
                            assert(!is_settled(t, ps1[j - 1].0));
                            if i > 0 {
                                assert(ps[i] == ps1[i - 1]);
                            }
                        }
                    },
                }
            },
        }
    }
}

proof fn lemma_op_keeps_wf(s: EscrowContractModel, op: EscrowOp)
    requires
        s.wf(),
        apply(s, op) is Ok,
    ensures
        apply(s, op).unwrap().0.wf(),
{
    match op {
        EscrowOp::Initialize { admin } => {},
        EscrowOp::Create { id, sender, receiver, amount, token, release_time, metadata, now } => {
            let e = EscrowModel {
                id,
                sender,
                receiver,
                amount,
                token,
                status: EscrowStatus::Pending,
                release_time,
                created_at: now,
                metadata,
            };
            lemma_table_insert::<Vec<u8>, EscrowModel>(s.escrows, id, e);
            let u1 = add_user_escrow(s.user_escrows, sender, id);
            lemma_table_insert::<Vec<u8>, Seq<Seq<u8>>>(
                s.user_escrows,
                sender,
                escrows_of(s.user_escrows, sender).push(id),
            );
            lemma_table_insert::<Vec<u8>, Seq<Seq<u8>>>(
                u1,
                receiver,
                escrows_of(u1, receiver).push(id),
            );
        },
        EscrowOp::Release { id, now } => {
            lemma_with_status(s, id, EscrowStatus::Completed);
        },
        EscrowOp::Refund { id } => {
            lemma_with_status(s, id, EscrowStatus::Refunded);
        },
        EscrowOp::Dispute { escrow_id, dispute_id, challenger, reason, evidence, now } => {
            let s1 = s.with_status(escrow_id, EscrowStatus::Disputed);
            lemma_with_status(s, escrow_id, EscrowStatus::Disputed);
            let d0 = DisputeModel {
                escrow_id,
                challenger,
                reason,
                evidence,
                created_at: now,
                resolved: false,
            };
            lemma_table_insert::<Vec<u8>, DisputeModel>(s1.disputes, dispute_id, d0);
        },
        EscrowOp::Resolve { dispute_id, in_favor_of_challenger } => {
            let d = lookup(s.disputes, dispute_id).unwrap();
            let s1 = EscrowContractModel {
                disputes: table_insert::<Vec<u8>, DisputeModel>(
                    s.disputes,
                    dispute_id,
                    DisputeModel { resolved: true, ..d },
                ),
                ..s
            };
            let status = if in_favor_of_challenger {
                EscrowStatus::Refunded
            } else {
                EscrowStatus::Completed
            };
            lemma_table_insert::<Vec<u8>, DisputeModel>(
                s.disputes,
                dispute_id,
                DisputeModel { resolved: true, ..d },
            );
            lemma_with_status(s1, d.escrow_id, status);
        },
    }
}

proof fn lemma_consistency_preserved_any(s: EscrowContractModel, op: EscrowOp)
    requires
        s.wf(),
        disputes_consistent(s),
        apply(s, op) matches Ok((_, Some(_))),
    ensures
        disputes_consistent(apply(s, op).unwrap().0),
{
    lemma_consistency_preserved(s, op);
}

/// A created escrow is read back pending, with the given terms, and is the
/// latest entry in both parties' escrow lists.
pub proof fn lemma_created_escrow_is_read_back(
    s: EscrowContractModel,
    id: Seq<u8>,
    sender: Seq<u8>,
    receiver: Seq<u8>,
    amount: i128,
    token: Seq<u8>,
    release_time: u64,
    metadata: Seq<(Seq<u8>, Seq<u8>)>,
    now: u64,
)
    requires
        s.wf(),
        s.create(id, sender, receiver, amount, token, release_time, metadata, now) is Ok,
    ensures
        ({
            let t = s.create(id, sender, receiver, amount, token, release_time, metadata, now).unwrap().0;
            &&& lookup(t.escrows, id) == Some(
                EscrowModel {
                    id,
                    sender,
                    receiver,
                    amount,
                    token,
                    status: EscrowStatus::Pending,
                    release_time,
                    created_at: now,
                    metadata,
                },
            )
            &&& escrows_of(t.user_escrows, sender).last() == id
            &&& escrows_of(t.user_escrows, receiver).last() == id
            &&& escrows_of(t.user_escrows, receiver).len() == escrows_of(s.user_escrows, receiver).len()
                + if sender == receiver { 2int } else { 1int }
        }),
{
    let e = EscrowModel {
        id,
        sender,
        receiver,
        amount,
        token,
        status: EscrowStatus::Pending,
        release_time,
        created_at: now,
        metadata,
    };
    lemma_table_insert::<Vec<u8>, EscrowModel>(s.escrows, id, e);
    let u1 = add_user_escrow(s.user_escrows, sender, id);
    lemma_table_insert::<Vec<u8>, Seq<Seq<u8>>>(
        s.user_escrows,
        sender,
        escrows_of(s.user_escrows, sender).push(id),
    );
    lemma_table_insert::<Vec<u8>, Seq<Seq<u8>>>(u1, receiver, escrows_of(u1, receiver).push(id));
}

/// Evidence filed under a dispute number is what a later read of that number
/// returns; other numbers read what they read before.
pub proof fn lemma_stored_evidence_is_read_back(
    s: Seq<(u64, DisputeEvidenceModel)>,
    id: u64,
    evidence: DisputeEvidenceModel,
    other: u64,
)
    requires
        sorted_by::<u64, DisputeEvidenceModel>(s),
    ensures
        lookup(table_insert::<u64, DisputeEvidenceModel>(s, id, evidence), id) == Some(evidence),
        other != id ==> lookup(table_insert::<u64, DisputeEvidenceModel>(s, id, evidence), other)
            == lookup(s, other),
{
    lemma_table_insert::<u64, DisputeEvidenceModel>(s, id, evidence);
}

/// Settling an open dispute pays the escrow's whole amount, in its token, out
/// of custody on the administrator's authority: to the escrow's sender where the
/// challenger wins and to its receiver where the challenger loses, whichever
/// party the challenger is.  The escrow ends refunded or completed accordingly
/// and the dispute ends resolved.  It succeeds exactly when the contract has an
/// administrator and the dispute exists, is open, and names an existing escrow.
pub proof fn lemma_resolve_pays_the_winning_side(
    s: EscrowContractModel,
    dispute_id: Seq<u8>,
    in_favor_of_challenger: bool,
)
    requires
        s.wf(),
    ensures
        s.resolve(dispute_id, in_favor_of_challenger) is Ok <==> (s.admin is Some && has_key(
            s.disputes,
            dispute_id,
        ) && !lookup(s.disputes, dispute_id).unwrap().resolved && has_key(
            s.escrows,
            lookup(s.disputes, dispute_id).unwrap().escrow_id,
        )),
        s.resolve(dispute_id, in_favor_of_challenger) matches Ok((t, pm)) ==> {
            let d = lookup(s.disputes, dispute_id).unwrap();
            let e = lookup(s.escrows, d.escrow_id).unwrap();
            &&& pm.transfer.account == (if in_favor_of_challenger {
                e.sender
            } else {
                e.receiver
            })
            &&& pm.transfer.amount == e.amount
            &&& pm.transfer.token == e.token
            &&& pm.transfer.direction == TransferDirection::OutOfEscrow
            &&& pm.authorizer == s.admin.unwrap()
            &&& lookup(t.escrows, d.escrow_id) == Some(
                EscrowModel {
                    status: if in_favor_of_challenger {
                        EscrowStatus::Refunded
                    } else {
                        EscrowStatus::Completed
                    },
                    ..e
                },
            )
            &&& lookup(t.disputes, dispute_id) == Some(DisputeModel { resolved: true, ..d })
        },
{
    if s.resolve(dispute_id, in_favor_of_challenger) is Ok {
        let d = lookup(s.disputes, dispute_id).unwrap();
        let s1 = EscrowContractModel {
            disputes: table_insert::<Vec<u8>, DisputeModel>(
                s.disputes,
                dispute_id,
                DisputeModel { resolved: true, ..d },
            ),
            ..s
        };
        let status = if in_favor_of_challenger {
            EscrowStatus::Refunded
        } else {
            EscrowStatus::Completed
        };
        lemma_table_insert::<Vec<u8>, DisputeModel>(
            s.disputes,
            dispute_id,
            DisputeModel { resolved: true, ..d },
        );
        lemma_with_status(s1, d.escrow_id, status);
    }
}

/// Either party of a pending escrow can open a dispute on it at any time,
/// before or after its release time; no one else can, and no escrow that is
/// not pending can be disputed.  The escrow becomes disputed, and the dispute
/// is recorded open under its id with the challenger, reason, evidence and time.
pub proof fn lemma_parties_may_dispute_pending_escrows(
    s: EscrowContractModel,
    escrow_id: Seq<u8>,
    dispute_id: Seq<u8>,
    challenger: Seq<u8>,
    reason: Seq<u8>,
    evidence: Seq<u8>,
    now: u64,
)
    requires
        s.wf(),
    ensures
        s.dispute(escrow_id, dispute_id, challenger, reason, evidence, now) is Ok <==> (
        has_key(s.escrows, escrow_id) && lookup(s.escrows, escrow_id).unwrap().status
            == EscrowStatus::Pending && (challenger == lookup(s.escrows, escrow_id).unwrap().sender
            || challenger == lookup(s.escrows, escrow_id).unwrap().receiver)),
        s.dispute(escrow_id, dispute_id, challenger, reason, evidence, now) matches Ok(t) ==> {
            let e = lookup(s.escrows, escrow_id).unwrap();
            &&& lookup(t.escrows, escrow_id) == Some(
                EscrowModel { status: EscrowStatus::Disputed, ..e },
            )
            &&& lookup(t.disputes, dispute_id) == Some(
                DisputeModel {
                    escrow_id,
                    challenger,
                    reason,
                    evidence,
                    created_at: now,
                    resolved: false,
                },
            )
        },
{
    if s.dispute(escrow_id, dispute_id, challenger, reason, evidence, now) is Ok {
        let s1 = s.with_status(escrow_id, EscrowStatus::Disputed);
        lemma_with_status(s, escrow_id, EscrowStatus::Disputed);
        let d0 = DisputeModel {
            escrow_id,
            challenger,
            reason,
            evidence,
            created_at: now,
            resolved: false,
        };
        lemma_table_insert::<Vec<u8>, DisputeModel>(s1.disputes, dispute_id, d0);
    }
}

/// Creating an escrow succeeds exactly when the amount is positive and the
/// release time lies after the current time; it then takes the whole amount of
/// the token from the sender into custody.
pub proof fn lemma_create_locks_the_senders_funds(
    s: EscrowContractModel,
    id: Seq<u8>,
    sender: Seq<u8>,
    receiver: Seq<u8>,
    amount: i128,
    token: Seq<u8>,
    release_time: u64,
    metadata: Seq<(Seq<u8>, Seq<u8>)>,
    now: u64,
)
    ensures
        s.create(id, sender, receiver, amount, token, release_time, metadata, now) is Ok <==> (
        amount > 0 && release_time > now),
        s.create(id, sender, receiver, amount, token, release_time, metadata, now) matches Ok(
            (_, tr),
        ) ==> tr.account == sender && tr.amount == amount && tr.token == token && tr.direction
            == TransferDirection::IntoEscrow,
{
}

/// The receiver collects an escrow exactly when it is pending and its release
/// time has come: the whole amount, in its token, goes out of custody to the
/// receiver on the receiver's authority, and the escrow ends completed.
pub proof fn lemma_release_pays_the_receiver(s: EscrowContractModel, id: Seq<u8>, now: u64)
    requires
        s.wf(),
    ensures
        s.release(id, now) is Ok <==> (has_key(s.escrows, id) && lookup(s.escrows, id).unwrap().status
            == EscrowStatus::Pending && now >= lookup(s.escrows, id).unwrap().release_time),
        s.release(id, now) matches Ok((t, pm)) ==> {
            let e = lookup(s.escrows, id).unwrap();
            &&& pm.transfer.account == e.receiver
            &&& pm.authorizer == e.receiver
            &&& pm.transfer.amount == e.amount
            &&& pm.transfer.token == e.token
            &&& pm.transfer.direction == TransferDirection::OutOfEscrow
            &&& lookup(t.escrows, id) == Some(EscrowModel { status: EscrowStatus::Completed, ..e })
        },
{
    if s.release(id, now) is Ok {
        lemma_with_status(s, id, EscrowStatus::Completed);
    }
}

/// The sender takes an escrow back exactly when it is pending, at any time:
/// the whole amount, in its token, goes out of custody to the sender on the
/// sender's authority, and the escrow ends refunded.
pub proof fn lemma_refund_pays_the_sender(s: EscrowContractModel, id: Seq<u8>)
    requires
        s.wf(),
    ensures
        s.refund(id) is Ok <==> (has_key(s.escrows, id) && lookup(s.escrows, id).unwrap().status
            == EscrowStatus::Pending),
        s.refund(id) matches Ok((t, pm)) ==> {
            let e = lookup(s.escrows, id).unwrap();
            &&& pm.transfer.account == e.sender
            &&& pm.authorizer == e.sender
            &&& pm.transfer.amount == e.amount
            &&& pm.transfer.token == e.token
            &&& pm.transfer.direction == TransferDirection::OutOfEscrow
            &&& lookup(t.escrows, id) == Some(EscrowModel { status: EscrowStatus::Refunded, ..e })
        },
{
    if s.refund(id) is Ok {
        lemma_with_status(s, id, EscrowStatus::Refunded);
    }
}

} // verus!
