//! Time-locked escrow: a sender locks tokens for a receiver until a release
//! time; the receiver collects after it, the sender may take the funds back
//! while the escrow is pending, and either party may open a dispute that an
//! administrator settles.
//!
//! The contract decides; the host carries out what it decides.  Every
//! operation that moves tokens returns the transfer to perform and the
//! account whose authorization it needs.

use vstd::prelude::*;
use soroban_sdk::Env;
use crate::bytes::{ByteStrings, byte_list_view, copy_bytes, copy_byte_list, bytes_eq};
use crate::digest::{sha256, sha256_digest, push_be, push_framed, be_bytes, framed};
use crate::table::{Table, TableKey, sorted_by, lookup, has_key, table_insert, key_index,
    lemma_reinsert, lemma_lookup_at, lemma_table_insert};

verus! {

// ─── Data ───────────────────────────────────────────────────────────────────

#[derive(PartialEq, Eq, Structural, Clone, Copy, Debug)]
pub enum EscrowStatus {
    Pending,
    Completed,
    Refunded,
    Disputed,
}

/// Why an escrow operation was refused.
#[derive(PartialEq, Eq, Structural, Clone, Copy, Debug)]
pub enum EscrowError {
    /// The contract already has an administrator.
    AlreadyInitialized,
    /// No administrator has been set.
    NotInitialized,
    /// The amount to lock is zero or negative.
    NonPositiveAmount,
    /// The release time is not after the current ledger time.
    ReleaseTimeNotInFuture,
    /// No escrow has the given id.
    EscrowNotFound,
    /// The escrow is no longer pending.
    NotPending,
    /// The release time has not been reached.
    StillTimeLocked,
    /// The challenger is neither the sender nor the receiver.
    NotAParty,
    /// No dispute has the given id.
    DisputeNotFound,
    /// The dispute was already settled.
    DisputeAlreadyResolved,
}

/// Which way tokens move between an account and the contract.
#[derive(PartialEq, Eq, Structural, Clone, Copy, Debug)]
pub enum TransferDirection {
    /// From the account into the contract's custody.
    IntoEscrow,
    /// From the contract's custody to the account.
    OutOfEscrow,
}

/// A token transfer between `account` and the contract.
pub struct TokenTransfer {
    pub token: Vec<u8>,
    pub account: Vec<u8>,
    pub amount: i128,
    pub direction: TransferDirection,
}

#[verifier::ext_equal]
pub struct TokenTransferModel {
    pub token: Seq<u8>,
    pub account: Seq<u8>,
    pub amount: i128,
    pub direction: TransferDirection,
}

impl View for TokenTransfer {
    type V = TokenTransferModel;

    open spec fn view(&self) -> TokenTransferModel {
        TokenTransferModel {
            token: self.token@,
            account: self.account@,
            amount: self.amount,
            direction: self.direction,
        }
    }
}

/// A payout out of custody, with the account that must authorize it.
pub struct Settlement {
    pub authorizer: Vec<u8>,
    pub transfer: TokenTransfer,
}

#[verifier::ext_equal]
pub struct SettlementModel {
    pub authorizer: Seq<u8>,
    pub transfer: TokenTransferModel,
}

impl View for Settlement {
    type V = SettlementModel;

    open spec fn view(&self) -> SettlementModel {
        SettlementModel { authorizer: self.authorizer@, transfer: self.transfer@ }
    }
}

/// Metadata stored alongside a dispute submission.
pub struct DisputeEvidence {
    pub dispute_id: u64,
    pub submitter: Vec<u8>,
    pub evidence: Vec<u8>,
    pub submitted_at: u64,
    pub description: Vec<u8>,
}

#[verifier::ext_equal]
pub struct DisputeEvidenceModel {
    pub dispute_id: u64,
    pub submitter: Seq<u8>,
    pub evidence: Seq<u8>,
    pub submitted_at: u64,
    pub description: Seq<u8>,
}

impl View for DisputeEvidence {
    type V = DisputeEvidenceModel;

    open spec fn view(&self) -> DisputeEvidenceModel {
        DisputeEvidenceModel {
            dispute_id: self.dispute_id,
            submitter: self.submitter@,
            evidence: self.evidence@,
            submitted_at: self.submitted_at,
            description: self.description@,
        }
    }
}

/// Core escrow record.
pub struct Escrow {
    pub id: Vec<u8>,
    pub sender: Vec<u8>,
    pub receiver: Vec<u8>,
    pub amount: i128,
    pub token: Vec<u8>,
    pub status: EscrowStatus,
    pub release_time: u64,
    pub created_at: u64,
    pub metadata: Table<Vec<u8>, Vec<u8>>,
}

#[verifier::ext_equal]
pub struct EscrowModel {
    pub id: Seq<u8>,
    pub sender: Seq<u8>,
    pub receiver: Seq<u8>,
    pub amount: i128,
    pub token: Seq<u8>,
    pub status: EscrowStatus,
    pub release_time: u64,
    pub created_at: u64,
    pub metadata: Seq<(Seq<u8>, Seq<u8>)>,
}

impl View for Escrow {
    type V = EscrowModel;

    open spec fn view(&self) -> EscrowModel {
        EscrowModel {
            id: self.id@,
            sender: self.sender@,
            receiver: self.receiver@,
            amount: self.amount,
            token: self.token@,
            status: self.status,
            release_time: self.release_time,
            created_at: self.created_at,
            metadata: self.metadata@,
        }
    }
}

pub struct Dispute {
    pub escrow_id: Vec<u8>,
    pub challenger: Vec<u8>,
    pub reason: Vec<u8>,
    pub evidence: Vec<u8>,
    pub created_at: u64,
    pub resolved: bool,
}

#[verifier::ext_equal]
pub struct DisputeModel {
    pub escrow_id: Seq<u8>,
    pub challenger: Seq<u8>,
    pub reason: Seq<u8>,
    pub evidence: Seq<u8>,
    pub created_at: u64,
    pub resolved: bool,
}

impl View for Dispute {
    type V = DisputeModel;

    open spec fn view(&self) -> DisputeModel {
        DisputeModel {
            escrow_id: self.escrow_id@,
            challenger: self.challenger@,
            reason: self.reason@,
            evidence: self.evidence@,
            created_at: self.created_at,
            resolved: self.resolved,
        }
    }
}

// ─── The contract as a state machine ────────────────────────────────────────

/// The ids of the escrows that `user` takes part in, oldest first.
pub open spec fn escrows_of(t: Seq<(Seq<u8>, Seq<Seq<u8>>)>, user: Seq<u8>) -> Seq<Seq<u8>> {
    match lookup(t, user) {
        Some(l) => l,
        None => Seq::empty(),
    }
}

/// The per-user index after recording that `user` takes part in escrow `id`.
pub open spec fn add_user_escrow(
    t: Seq<(Seq<u8>, Seq<Seq<u8>>)>,
    user: Seq<u8>,
    id: Seq<u8>,
) -> Seq<(Seq<u8>, Seq<Seq<u8>>)> {
    table_insert::<Vec<u8>, Seq<Seq<u8>>>(t, user, escrows_of(t, user).push(id))
}

/// A status from which the locked tokens can still leave custody.
pub open spec fn is_open(s: EscrowStatus) -> bool {
    s == EscrowStatus::Pending || s == EscrowStatus::Disputed
}

/// The abstract state of the escrow contract.
#[verifier::ext_equal]
pub struct EscrowContractModel {
    pub admin: Option<Seq<u8>>,
    pub escrows: Seq<(Seq<u8>, EscrowModel)>,
    pub disputes: Seq<(Seq<u8>, DisputeModel)>,
    pub user_escrows: Seq<(Seq<u8>, Seq<Seq<u8>>)>,
}

impl EscrowContractModel {
    /// Every table is ascending by key.
    pub open spec fn wf(self) -> bool {
        &&& sorted_by::<Vec<u8>, EscrowModel>(self.escrows)
        &&& sorted_by::<Vec<u8>, DisputeModel>(self.disputes)
        &&& sorted_by::<Vec<u8>, Seq<Seq<u8>>>(self.user_escrows)
    }

    /// The state with escrow `id`'s status set to `status` (where `id` is held).
    pub open spec fn with_status(self, id: Seq<u8>, status: EscrowStatus) -> Self {
        let e = lookup(self.escrows, id).unwrap();
        EscrowContractModel {
            escrows: table_insert::<Vec<u8>, EscrowModel>(
                self.escrows,
                id,
                EscrowModel { status, ..e },
            ),
            ..self
        }
    }

    /// One-time initialisation: sets the administrator.
    pub open spec fn initialize(self, admin: Seq<u8>) -> Result<Self, EscrowError> {
        if self.admin is Some {
            Err(EscrowError::AlreadyInitialized)
        } else {
            Ok(EscrowContractModel { admin: Some(admin), ..self })
        }
    }

    /// Locks `amount` of `token` from `sender` for `receiver` until `release_time`,
    /// under the id `id`; `now` is the ledger time.
    pub open spec fn create(
        self,
        id: Seq<u8>,
        sender: Seq<u8>,
        receiver: Seq<u8>,
        amount: i128,
        token: Seq<u8>,
        release_time: u64,
        metadata: Seq<(Seq<u8>, Seq<u8>)>,
        now: u64,
    ) -> Result<(Self, TokenTransferModel), EscrowError> {
        if amount <= 0 {
            Err(EscrowError::NonPositiveAmount)
        } else if release_time <= now {
            Err(EscrowError::ReleaseTimeNotInFuture)
        } else {
            let e = EscrowModel {
                id,
                sender,
                receiver,
                amount,
                token,
                status: EscrowStatus::Pending,
                release_time,
                created_at: now,
                metadata,
            };
            Ok(
                (
                    EscrowContractModel {
                        escrows: table_insert::<Vec<u8>, EscrowModel>(self.escrows, id, e),
                        user_escrows: add_user_escrow(
                            add_user_escrow(self.user_escrows, sender, id),
                            receiver,
                            id,
                        ),
                        ..self
                    },
                    TokenTransferModel {
                        token,
                        account: sender,
                        amount,
                        direction: TransferDirection::IntoEscrow,
                    },
                ),
            )
        }
    }

    /// The payout of escrow `e` to `to`, authorized by `authorizer`.
    pub open spec fn payout(e: EscrowModel, to: Seq<u8>, authorizer: Seq<u8>) -> SettlementModel {
        SettlementModel {
            authorizer,
            transfer: TokenTransferModel {
                token: e.token,
                account: to,
                amount: e.amount,
                direction: TransferDirection::OutOfEscrow,
            },
        }
    }

    /// The receiver collects a pending escrow once its release time has come.
    pub open spec fn release(self, id: Seq<u8>, now: u64) -> Result<
        (Self, SettlementModel),
        EscrowError,
    > {
        match lookup(self.escrows, id) {
            None => Err(EscrowError::EscrowNotFound),
            Some(e) => if e.status != EscrowStatus::Pending {
                Err(EscrowError::NotPending)
            } else if now < e.release_time {
                Err(EscrowError::StillTimeLocked)
            } else {
                Ok(
                    (
                        self.with_status(id, EscrowStatus::Completed),
                        Self::payout(e, e.receiver, e.receiver),
                    ),
                )
            },
        }
    }

    /// The sender takes a pending escrow back.
    pub open spec fn refund(self, id: Seq<u8>) -> Result<(Self, SettlementModel), EscrowError> {
        match lookup(self.escrows, id) {
            None => Err(EscrowError::EscrowNotFound),
            Some(e) => if e.status != EscrowStatus::Pending {
                Err(EscrowError::NotPending)
            } else {
                Ok((self.with_status(id, EscrowStatus::Refunded), Self::payout(e, e.sender, e.sender)))
            },
        }
    }

    /// A party to a pending escrow opens dispute `dispute_id` on it.
    pub open spec fn dispute(
        self,
        escrow_id: Seq<u8>,
        dispute_id: Seq<u8>,
        challenger: Seq<u8>,
        reason: Seq<u8>,
        evidence: Seq<u8>,
        now: u64,
    ) -> Result<Self, EscrowError> {
        match lookup(self.escrows, escrow_id) {
            None => Err(EscrowError::EscrowNotFound),
            Some(e) => if e.status != EscrowStatus::Pending {
                Err(EscrowError::NotPending)
            } else if challenger != e.sender && challenger != e.receiver {
                Err(EscrowError::NotAParty)
            } else {
                let d = DisputeModel {
                    escrow_id,
                    challenger,
                    reason,
                    evidence,
                    created_at: now,
                    resolved: false,
                };
                let s = self.with_status(escrow_id, EscrowStatus::Disputed);
                Ok(
                    EscrowContractModel {
                        disputes: table_insert::<Vec<u8>, DisputeModel>(s.disputes, dispute_id, d),
                        ..s
                    },
                )
            },
        }
    }

    /// The administrator settles a dispute: in favour of the challenger the
    /// sender is refunded, otherwise the receiver is paid.
    pub open spec fn resolve(self, dispute_id: Seq<u8>, in_favor_of_challenger: bool) -> Result<
        (Self, SettlementModel),
        EscrowError,
    > {
        match self.admin {
            None => Err(EscrowError::NotInitialized),
            Some(admin) => match lookup(self.disputes, dispute_id) {
                None => Err(EscrowError::DisputeNotFound),
                Some(d) => if d.resolved {
                    Err(EscrowError::DisputeAlreadyResolved)
                } else {
                    match lookup(self.escrows, d.escrow_id) {
                        None => Err(EscrowError::EscrowNotFound),
                        Some(e) => {
                            let s = EscrowContractModel {
                                disputes: table_insert::<Vec<u8>, DisputeModel>(
                                    self.disputes,
                                    dispute_id,
                                    DisputeModel { resolved: true, ..d },
                                ),
                                ..self
                            };
                            if in_favor_of_challenger {
                                Ok(
                                    (
                                        s.with_status(d.escrow_id, EscrowStatus::Refunded),
                                        Self::payout(e, e.sender, admin),
                                    ),
                                )
                            } else {
                                Ok(
                                    (
                                        s.with_status(d.escrow_id, EscrowStatus::Completed),
                                        Self::payout(e, e.receiver, admin),
                                    ),
                                )
                            }
                        },
                    }
                },
            },
        }
    }
}

// ─── Identifiers ────────────────────────────────────────────────────────────

/// The bytes hashed into an escrow's id.
pub open spec fn escrow_id_preimage(sender: Seq<u8>, receiver: Seq<u8>, amount: i128, now: u64) -> Seq<
    u8,
> {
    framed(sender) + framed(receiver) + be_bytes(amount as nat, 16) + be_bytes(now as nat, 8)
}

/// The bytes hashed into a dispute's id.
pub open spec fn dispute_id_preimage(escrow_id: Seq<u8>, challenger: Seq<u8>, now: u64) -> Seq<u8> {
    framed(escrow_id) + framed(challenger) + be_bytes(now as nat, 8)
}

/// The id of the escrow that `sender` opens for `receiver` over `amount` at `now`.
pub fn escrow_id(env: &Env, sender: &Vec<u8>, receiver: &Vec<u8>, amount: i128, now: u64) -> (r:
    Vec<u8>)
    requires
        amount > 0,
    ensures
        r@ == sha256_digest(escrow_id_preimage(sender@, receiver@, amount, now)),
{
    let mut data: Vec<u8> = Vec::new();
    push_framed(&mut data, sender);
    push_framed(&mut data, receiver);
    push_be(&mut data, amount as u128, 16);
    push_be(&mut data, now as u128, 8);
    assert(data@ =~= escrow_id_preimage(sender@, receiver@, amount, now));
    sha256(env, &data)
}

/// The id of the dispute that `challenger` opens on `escrow_id` at `now`.
pub fn dispute_id(env: &Env, escrow_id: &Vec<u8>, challenger: &Vec<u8>, now: u64) -> (r: Vec<u8>)
    ensures
        r@ == sha256_digest(dispute_id_preimage(escrow_id@, challenger@, now)),
{
    let mut data: Vec<u8> = Vec::new();
    push_framed(&mut data, escrow_id);
    push_framed(&mut data, challenger);
    push_be(&mut data, now as u128, 8);
    assert(data@ =~= dispute_id_preimage(escrow_id@, challenger@, now));
    sha256(env, &data)
}

// ─── The contract ───────────────────────────────────────────────────────────

/// The escrow contract's state.  Its fields are open so that the host can
/// load it from its storage before a call and save it after; each table keeps
/// its own ordering.
pub struct EscrowContract {
    pub admin: Option<Vec<u8>>,
    pub escrows: Table<Vec<u8>, Escrow>,
    pub disputes: Table<Vec<u8>, Dispute>,
    pub user_escrows: Table<Vec<u8>, ByteStrings>,
}

impl View for EscrowContract {
    type V = EscrowContractModel;

    closed spec fn view(&self) -> EscrowContractModel {
        EscrowContractModel {
            admin: match self.admin {
                Some(a) => Some(a@),
                None => None,
            },
            escrows: self.escrows@,
            disputes: self.disputes@,
            user_escrows: self.user_escrows@,
        }
    }
}

impl EscrowContract {
    pub open spec fn wf(&self) -> bool {
        self@.wf()
    }

    /// Brings the tables' ordering into view.
    fn tables_sorted(&self)
        ensures
            self.wf(),
    {
        proof {
            use_type_invariant(&self.escrows);
            use_type_invariant(&self.disputes);
            use_type_invariant(&self.user_escrows);
        }
    }

    /// A contract with no administrator, escrows or disputes.
    pub fn new() -> (c: Self)
        ensures
            c.wf(),
            c@ == (EscrowContractModel {
                admin: None,
                escrows: Seq::empty(),
                disputes: Seq::empty(),
                user_escrows: Seq::empty(),
            }),
    {
        EscrowContract {
            admin: None,
            escrows: Table::new(),
            disputes: Table::new(),
            user_escrows: Table::new(),
        }
    }

    /// One-time initialisation — sets the admin address.
    pub fn initialize(&mut self, admin: Vec<u8>) -> (r: Result<(), EscrowError>)
        ensures
            old(self).wf(),
            final(self).wf(),
            match old(self)@.initialize(admin@) {
                Ok(s) => r is Ok && final(self)@ == s,
                Err(e) => r == Err::<(), EscrowError>(e) && final(self)@ == old(self)@,
            },
    {
        self.tables_sorted();
        if self.admin.is_some() {
            return Err(EscrowError::AlreadyInitialized);
        }
        self.admin = Some(admin);
        Ok(())
    }

    /// Records that `user` takes part in escrow `id`.
    fn add_user_escrow(&mut self, user: &Vec<u8>, id: &Vec<u8>)
        ensures
            old(self).wf(),
            final(self).wf(),
            final(self)@ == (EscrowContractModel {
                user_escrows: add_user_escrow(old(self)@.user_escrows, user@, id@),
                ..old(self)@
            }),
    {
        self.tables_sorted();
        let ghost t = self.user_escrows@;
        proof {
            lemma_table_insert::<Vec<u8>, Seq<Seq<u8>>>(t, user@, escrows_of(t, user@).push(id@));
        }
        match self.user_escrows.find(user) {
            Some(i) => {
                let (k, mut l) = self.user_escrows.take_at(i);
                let ghost before = l.items@;
                l.items.push(copy_bytes(id));
                assert(l@ =~= escrows_of(t, user@).push(id@)) by {
                    lemma_lookup_at::<Vec<u8>, Seq<Seq<u8>>>(t, i as int);
                    assert(byte_list_view(l.items@) =~= byte_list_view(before).push(id@));
                }
                proof {
                    lemma_reinsert::<Vec<u8>, Seq<Seq<u8>>>(t, i as int, l@);
                }
                self.user_escrows.put_at(i, k, l);
            },
            None => {
                let mut items: Vec<Vec<u8>> = Vec::new();
                items.push(copy_bytes(id));
                let l = ByteStrings { items };
                assert(l@ =~= escrows_of(t, user@).push(id@));
                self.user_escrows.insert(copy_bytes(user), l);
            },
        }
        assert(self@ =~= EscrowContractModel {
            user_escrows: add_user_escrow(old(self)@.user_escrows, user@, id@),
            ..old(self)@
        });
    }

    /// Sets the status of the escrow at position `i`.
    fn set_status_at(&mut self, i: usize, status: EscrowStatus)
        requires
            old(self).wf(),
            i < old(self)@.escrows.len(),
        ensures
            final(self).wf(),
            final(self)@ == old(self)@.with_status(old(self)@.escrows[i as int].0, status),
    {
        let ghost s = self.escrows@;
        proof {
            lemma_lookup_at::<Vec<u8>, EscrowModel>(s, i as int);
        }
        let (k, mut e) = self.escrows.take_at(i);
        e.status = status;
        proof {
            lemma_reinsert::<Vec<u8>, EscrowModel>(s, i as int, e@);
            assert(e@ =~= EscrowModel { status, ..s[i as int].1 });
        }
        self.escrows.put_at(i, k, e);
        assert(self@ =~= old(self)@.with_status(s[i as int].0, status));
    }

    /// Locks `amount` of `token` from `sender` for `receiver` until
    /// `release_time`, filed under `escrow_id`; `now` is the ledger time.
    /// Returns the transfer into custody that the host must carry out.
    pub fn create_escrow_with_id(
        &mut self,
        escrow_id: Vec<u8>,
        sender: Vec<u8>,
        receiver: Vec<u8>,
        amount: i128,
        token: Vec<u8>,
        release_time: u64,
        metadata: Table<Vec<u8>, Vec<u8>>,
        now: u64,
    ) -> (r: Result<TokenTransfer, EscrowError>)
        ensures
            old(self).wf(),
            final(self).wf(),
            match (
                r,
                old(self)@.create(
                    escrow_id@,
                    sender@,
                    receiver@,
                    amount,
                    token@,
                    release_time,
                    metadata@,
                    now,
                ),
            ) {
                (Ok(t), Ok((s, tm))) => t@ == tm && final(self)@ == s,
                (Err(e), Err(e2)) => e == e2 && final(self)@ == old(self)@,
                _ => false,
            },
    {
        self.tables_sorted();
        if amount <= 0 {
            return Err(EscrowError::NonPositiveAmount);
        }
        if release_time <= now {
            return Err(EscrowError::ReleaseTimeNotInFuture);
        }
        let transfer = TokenTransfer {
            token: copy_bytes(&token),
            account: copy_bytes(&sender),
            amount,
            direction: TransferDirection::IntoEscrow,
        };
        let ghost s0 = self@;
        self.add_user_escrow(&sender, &escrow_id);
        self.add_user_escrow(&receiver, &escrow_id);
        let key = copy_bytes(&escrow_id);
        let e = Escrow {
            id: escrow_id,
            sender,
            receiver,
            amount,
            token,
            status: EscrowStatus::Pending,
            release_time,
            created_at: now,
            metadata,
        };
        let ghost ev = e@;
        self.escrows.insert(key, e);
        proof {
            let expected = s0.create(
                ev.id,
                ev.sender,
                ev.receiver,
                amount,
                ev.token,
                release_time,
                ev.metadata,
                now,
            );
            assert(expected is Ok);
            assert(self@ =~= expected.unwrap().0);
        }
        Ok(transfer)
    }

    /// Locks `amount` of `token` from `sender` for `receiver` until
    /// `release_time`; `now` is the ledger time.  Returns the new escrow's id
    /// and the transfer into custody that the host must carry out.
    pub fn create_escrow(
        &mut self,
        env: &Env,
        sender: Vec<u8>,
        receiver: Vec<u8>,
        amount: i128,
        token: Vec<u8>,
        release_time: u64,
        metadata: Table<Vec<u8>, Vec<u8>>,
        now: u64,
    ) -> (r: Result<(Vec<u8>, TokenTransfer), EscrowError>)
        ensures
            old(self).wf(),
            final(self).wf(),
            match (
                r,
                old(self)@.create(
                    sha256_digest(escrow_id_preimage(sender@, receiver@, amount, now)),
                    sender@,
                    receiver@,
                    amount,
                    token@,
                    release_time,
                    metadata@,
                    now,
                ),
            ) {
                (Ok((id, t)), Ok((s, tm))) => id@ == sha256_digest(
                    escrow_id_preimage(sender@, receiver@, amount, now),
                ) && t@ == tm && final(self)@ == s,
                (Err(e), Err(e2)) => e == e2 && final(self)@ == old(self)@,
                _ => false,
            },
    {
        self.tables_sorted();
        if amount <= 0 {
            return Err(EscrowError::NonPositiveAmount);
        }
        let id = escrow_id(env, &sender, &receiver, amount, now);
        let key = copy_bytes(&id);
        match self.create_escrow_with_id(
            key,
            sender,
            receiver,
            amount,
            token,
            release_time,
            metadata,
            now,
        ) {
            Ok(t) => Ok((id, t)),
            Err(e) => Err(e),
        }
    }

    /// The receiver collects escrow `escrow_id` at ledger time `now`.
    /// Returns the payout to the receiver, which the receiver authorizes.
    pub fn release_escrow(&mut self, escrow_id: &Vec<u8>, now: u64) -> (r: Result<
        Settlement,
        EscrowError,
    >)
        ensures
            old(self).wf(),
            final(self).wf(),
            match (r, old(self)@.release(escrow_id@, now)) {
                (Ok(x), Ok((s, sm))) => x@ == sm && final(self)@ == s,
                (Err(e), Err(e2)) => e == e2 && final(self)@ == old(self)@,
                _ => false,
            },
    {
        self.tables_sorted();
        let i = match self.escrows.find(escrow_id) {
            None => {
                return Err(EscrowError::EscrowNotFound);
            },
            Some(i) => i,
        };
        proof {
            lemma_lookup_at::<Vec<u8>, EscrowModel>(self.escrows@, i as int);
        }
        let e = self.escrows.value_at(i);
        if e.status != EscrowStatus::Pending {
            return Err(EscrowError::NotPending);
        }
        if now < e.release_time {
            return Err(EscrowError::StillTimeLocked);
        }
        let settlement = Settlement {
            authorizer: copy_bytes(&e.receiver),
            transfer: TokenTransfer {
                token: copy_bytes(&e.token),
                account: copy_bytes(&e.receiver),
                amount: e.amount,
                direction: TransferDirection::OutOfEscrow,
            },
        };
        self.set_status_at(i, EscrowStatus::Completed);
        Ok(settlement)
    }

    /// The sender takes escrow `escrow_id` back.  Returns the payout to the
    /// sender, which the sender authorizes.
    pub fn refund_escrow(&mut self, escrow_id: &Vec<u8>) -> (r: Result<Settlement, EscrowError>)
        ensures
            old(self).wf(),
            final(self).wf(),
            match (r, old(self)@.refund(escrow_id@)) {
                (Ok(x), Ok((s, sm))) => x@ == sm && final(self)@ == s,
                (Err(e), Err(e2)) => e == e2 && final(self)@ == old(self)@,
                _ => false,
            },
    {
        self.tables_sorted();
        let i = match self.escrows.find(escrow_id) {
            None => {
                return Err(EscrowError::EscrowNotFound);
            },
            Some(i) => i,
        };
        proof {
            lemma_lookup_at::<Vec<u8>, EscrowModel>(self.escrows@, i as int);
        }
        let e = self.escrows.value_at(i);
        if e.status != EscrowStatus::Pending {
            return Err(EscrowError::NotPending);
        }
        let settlement = Settlement {
            authorizer: copy_bytes(&e.sender),
            transfer: TokenTransfer {
                token: copy_bytes(&e.token),
                account: copy_bytes(&e.sender),
                amount: e.amount,
                direction: TransferDirection::OutOfEscrow,
            },
        };
        self.set_status_at(i, EscrowStatus::Refunded);
        Ok(settlement)
    }

    /// `challenger` opens a dispute, filed under `dispute_id`, on escrow
    /// `escrow_id` at ledger time `now`.
    pub fn dispute_escrow_with_id(
        &mut self,
        escrow_id: &Vec<u8>,
        dispute_id: Vec<u8>,
        challenger: Vec<u8>,
        reason: Vec<u8>,
        evidence: Vec<u8>,
        now: u64,
    ) -> (r: Result<(), EscrowError>)
        ensures
            old(self).wf(),
            final(self).wf(),
            match old(self)@.dispute(escrow_id@, dispute_id@, challenger@, reason@, evidence@, now) {
                Ok(s) => r is Ok && final(self)@ == s,
                Err(e) => r == Err::<(), EscrowError>(e) && final(self)@ == old(self)@,
            },
    {
        self.tables_sorted();
        let i = match self.escrows.find(escrow_id) {
            None => {
                return Err(EscrowError::EscrowNotFound);
            },
            Some(i) => i,
        };
        proof {
            lemma_lookup_at::<Vec<u8>, EscrowModel>(self.escrows@, i as int);
        }
        let e = self.escrows.value_at(i);
        if e.status != EscrowStatus::Pending {
            return Err(EscrowError::NotPending);
        }
        if !bytes_eq(&challenger, &e.sender) && !bytes_eq(&challenger, &e.receiver) {
            return Err(EscrowError::NotAParty);
        }
        let ghost s0 = self@;
        self.set_status_at(i, EscrowStatus::Disputed);
        let d = Dispute {
            escrow_id: copy_bytes(escrow_id),
            challenger,
            reason,
            evidence,
            created_at: now,
            resolved: false,
        };
        self.disputes.insert(dispute_id, d);
        assert(self@ =~= s0.dispute(escrow_id@, dispute_id@, d@.challenger, d@.reason, d@.evidence, now).unwrap());
        Ok(())
    }

    /// `challenger` opens a dispute on escrow `escrow_id` at ledger time `now`.
    /// Returns the new dispute's id.
    pub fn dispute_escrow(
        &mut self,
        env: &Env,
        escrow_id: &Vec<u8>,
        challenger: Vec<u8>,
        reason: Vec<u8>,
        evidence: Vec<u8>,
        now: u64,
    ) -> (r: Result<Vec<u8>, EscrowError>)
        ensures
            old(self).wf(),
            final(self).wf(),
            match old(self)@.dispute(
                escrow_id@,
                sha256_digest(dispute_id_preimage(escrow_id@, challenger@, now)),
                challenger@,
                reason@,
                evidence@,
                now,
            ) {
                Ok(s) => r matches Ok(id) && id@ == sha256_digest(
                    dispute_id_preimage(escrow_id@, challenger@, now),
                ) && final(self)@ == s,
                Err(e) => r == Err::<Vec<u8>, EscrowError>(e) && final(self)@ == old(self)@,
            },
    {
        self.tables_sorted();
        let id = dispute_id(env, escrow_id, &challenger, now);
        let key = copy_bytes(&id);
        match self.dispute_escrow_with_id(escrow_id, key, challenger, reason, evidence, now) {
            Ok(()) => Ok(id),
            Err(e) => Err(e),
        }
    }

    /// The administrator settles dispute `dispute_id`.  Returns the payout
    /// (to the sender in favour of the challenger, to the receiver otherwise),
    /// which the administrator authorizes.
    pub fn resolve_dispute(&mut self, dispute_id: &Vec<u8>, in_favor_of_challenger: bool) -> (r:
        Result<Settlement, EscrowError>)
        ensures
            old(self).wf(),
            final(self).wf(),
            match (r, old(self)@.resolve(dispute_id@, in_favor_of_challenger)) {
                (Ok(x), Ok((s, sm))) => x@ == sm && final(self)@ == s,
                (Err(e), Err(e2)) => e == e2 && final(self)@ == old(self)@,
                _ => false,
            },
    {
        self.tables_sorted();
        let admin = match &self.admin {
            None => {
                return Err(EscrowError::NotInitialized);
            },
            Some(a) => copy_bytes(a),
        };
        let di = match self.disputes.find(dispute_id) {
            None => {
                return Err(EscrowError::DisputeNotFound);
            },
            Some(i) => i,
        };
        proof {
            lemma_lookup_at::<Vec<u8>, DisputeModel>(self.disputes@, di as int);
        }
        let d = self.disputes.value_at(di);
        if d.resolved {
            return Err(EscrowError::DisputeAlreadyResolved);
        }
        let ei = match self.escrows.find(&d.escrow_id) {
            None => {
                return Err(EscrowError::EscrowNotFound);
            },
            Some(i) => i,
        };
        proof {
            lemma_lookup_at::<Vec<u8>, EscrowModel>(self.escrows@, ei as int);
        }
        let e = self.escrows.value_at(ei);
        let to = if in_favor_of_challenger {
            copy_bytes(&e.sender)
        } else {
            copy_bytes(&e.receiver)
        };
        let settlement = Settlement {
            authorizer: admin,
            transfer: TokenTransfer {
                token: copy_bytes(&e.token),
                account: to,
                amount: e.amount,
                direction: TransferDirection::OutOfEscrow,
            },
        };
        let ghost s0 = self@;
        let ghost dm = self.disputes@[di as int].1;
        let ghost ds = self.disputes@;
        let (k, mut dd) = self.disputes.take_at(di);
        dd.resolved = true;
        proof {
            lemma_reinsert::<Vec<u8>, DisputeModel>(ds, di as int, dd@);
            assert(dd@ =~= DisputeModel { resolved: true, ..dm });
        }
        self.disputes.put_at(di, k, dd);
        let status = if in_favor_of_challenger {
            EscrowStatus::Refunded
        } else {
            EscrowStatus::Completed
        };
        self.set_status_at(ei, status);
        Ok(settlement)
    }

    /// The escrow filed under `escrow_id`.
    pub fn get_escrow(&self, escrow_id: &Vec<u8>) -> (r: Result<&Escrow, EscrowError>)
        ensures
            self.wf(),
            match lookup(self@.escrows, escrow_id@) {
                Some(e) => r matches Ok(x) && x@ == e,
                None => r == Err::<&Escrow, EscrowError>(EscrowError::EscrowNotFound),
            },
    {
        self.tables_sorted();
        match self.escrows.get(escrow_id) {
            Some(e) => Ok(e),
            None => Err(EscrowError::EscrowNotFound),
        }
    }

    /// The status of the escrow filed under `escrow_id`.
    pub fn get_escrow_status(&self, escrow_id: &Vec<u8>) -> (r: Result<EscrowStatus, EscrowError>)
        ensures
            self.wf(),
            match lookup(self@.escrows, escrow_id@) {
                Some(e) => r == Ok::<EscrowStatus, EscrowError>(e.status),
                None => r == Err::<EscrowStatus, EscrowError>(EscrowError::EscrowNotFound),
            },
    {
        self.tables_sorted();
        match self.get_escrow(escrow_id) {
            Ok(e) => Ok(e.status),
            Err(e) => Err(e),
        }
    }

    /// The dispute filed under `dispute_id`.
    pub fn get_dispute(&self, dispute_id: &Vec<u8>) -> (r: Result<&Dispute, EscrowError>)
        ensures
            self.wf(),
            match lookup(self@.disputes, dispute_id@) {
                Some(d) => r matches Ok(x) && x@ == d,
                None => r == Err::<&Dispute, EscrowError>(EscrowError::DisputeNotFound),
            },
    {
        self.tables_sorted();
        match self.disputes.get(dispute_id) {
            Some(d) => Ok(d),
            None => Err(EscrowError::DisputeNotFound),
        }
    }

    /// The ids of the escrows `user` takes part in, oldest first.
    pub fn get_user_escrows(&self, user: &Vec<u8>) -> (r: Vec<Vec<u8>>)
        ensures
            self.wf(),
            byte_list_view(r@) == escrows_of(self@.user_escrows, user@),
    {
        self.tables_sorted();
        match self.user_escrows.get(user) {
            Some(l) => copy_byte_list(&l.items),
            None => {
                let r: Vec<Vec<u8>> = Vec::new();
                assert(byte_list_view(r@) =~= Seq::<Seq<u8>>::empty());
                r
            },
        }
    }
}

// ─── Dispute evidence ───────────────────────────────────────────────────────

/// Evidence submitted for disputes, filed by dispute number.  The host loads
/// and saves the table through the open field.
pub struct EvidenceStore {
    pub entries: Table<u64, DisputeEvidence>,
}

impl View for EvidenceStore {
    type V = Seq<(u64, DisputeEvidenceModel)>;

    closed spec fn view(&self) -> Seq<(u64, DisputeEvidenceModel)> {
        self.entries@
    }
}

impl EvidenceStore {
    pub open spec fn wf(&self) -> bool {
        sorted_by::<u64, DisputeEvidenceModel>(self@)
    }

    /// A store with no evidence.
    pub fn new() -> (s: Self)
        ensures
            s.wf(),
            s@ == Seq::<(u64, DisputeEvidenceModel)>::empty(),
    {
        EvidenceStore { entries: Table::new() }
    }
}

/// Files `evidence` under dispute number `dispute_id`, replacing what was there.
pub fn store_evidence(store: &mut EvidenceStore, dispute_id: u64, evidence: DisputeEvidence)
    ensures
        old(store).wf(),
        final(store).wf(),
        final(store)@ == table_insert::<u64, DisputeEvidenceModel>(old(store)@, dispute_id, evidence@),
{
    store.entries.insert(dispute_id, evidence);
}

/// The evidence filed under dispute number `dispute_id`.
pub fn get_evidence(store: &EvidenceStore, dispute_id: u64) -> (r: Option<&DisputeEvidence>)
    ensures
        store.wf(),
        match lookup(store@, dispute_id) {
            Some(e) => r matches Some(x) && x@ == e,
            None => r is None,
        },
{
    store.entries.get(&dispute_id)
}

} // verus!
