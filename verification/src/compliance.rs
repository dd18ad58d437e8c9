//! Compliance engine: KYC/AML records per user, transaction rules, a list of
//! restricted jurisdictions, and the screening of transactions against all
//! of them, with a history of the transactions that were fully screened.

use vstd::prelude::*;
use soroban_sdk::Env;
use vstd::string::StringSliceAdditionalSpecFns;
use crate::bytes::{byte_list_view, bytes_eq, copy_bytes, copy_byte_list, list_contains};
use crate::digest::{sha256, sha256_digest, push_be, push_framed, be_bytes, framed};
use crate::numeric::{i128_from_be, i128_from_be_bytes};
use crate::table::{Table, lookup, has_key, table_insert, lemma_lookup_at, lemma_reinsert, sorted_by};

verus! {

// ─── Data ───────────────────────────────────────────────────────────────────

#[derive(PartialEq, Eq, Structural, Clone, Copy, Debug)]
pub enum ComplianceLevel {
    /// No identity verification (`None` in the contract's interface).
    Unverified,
    Basic,
    Enhanced,
    Full,
}

#[derive(PartialEq, Eq, Structural, Clone, Copy, Debug)]
pub enum RiskLevel {
    Low,
    Medium,
    High,
    Restricted,
}

/// The outcome of screening a transaction.
#[derive(PartialEq, Eq, Structural, Clone, Copy, Debug)]
pub enum CheckReason {
    Approved,
    RestrictedJurisdiction,
    SenderNotRegistered,
    ReceiverNotRegistered,
    RestrictedUser,
    ExceedsLimit,
    HighPriorityRuleTriggered,
}

/// The code under which a screening outcome is reported.
pub open spec fn reason_code(r: CheckReason) -> Seq<char> {
    match r {
        CheckReason::Approved => "APPROVED"@,
        CheckReason::RestrictedJurisdiction => "RESTRICTED_JURISDICTION"@,
        CheckReason::SenderNotRegistered => "SENDER_NOT_REGISTERED"@,
        CheckReason::ReceiverNotRegistered => "RECEIVER_NOT_REGISTERED"@,
        CheckReason::RestrictedUser => "RESTRICTED_USER"@,
        CheckReason::ExceedsLimit => "EXCEEDS_LIMIT"@,
        CheckReason::HighPriorityRuleTriggered => "HIGH_PRIORITY_RULE_TRIGGERED"@,
    }
}

impl CheckReason {
    /// The code under which this outcome is reported.
    pub fn code(&self) -> (r: &'static str)
        ensures
            r@ == reason_code(*self),
    {
        match self {
            CheckReason::Approved => "APPROVED",
            CheckReason::RestrictedJurisdiction => "RESTRICTED_JURISDICTION",
            CheckReason::SenderNotRegistered => "SENDER_NOT_REGISTERED",
            CheckReason::ReceiverNotRegistered => "RECEIVER_NOT_REGISTERED",
            CheckReason::RestrictedUser => "RESTRICTED_USER",
            CheckReason::ExceedsLimit => "EXCEEDS_LIMIT",
            CheckReason::HighPriorityRuleTriggered => "HIGH_PRIORITY_RULE_TRIGGERED",
        }
    }
}

/// Why a compliance operation was refused.
#[derive(PartialEq, Eq, Structural, Clone, Copy, Debug)]
pub enum ComplianceError {
    /// No administrator has been set.
    AdminNotSet,
    /// The user has no compliance record.
    UserNotRegistered,
    /// No rule has the given id.
    RuleNotFound,
    /// An amount threshold in a rule's conditions is not sixteen bytes long.
    MalformedCondition,
}

pub struct ComplianceRecord {
    pub user: Vec<u8>,
    pub kyc_level: ComplianceLevel,
    pub risk_level: RiskLevel,
    pub jurisdiction: Vec<u8>,
    pub registration_date: u64,
    pub last_updated: u64,
    pub aml_flags: Vec<Vec<u8>>,
    pub transaction_limits: Table<Vec<u8>, i128>,
}

#[verifier::ext_equal]
pub struct ComplianceRecordModel {
    pub user: Seq<u8>,
    pub kyc_level: ComplianceLevel,
    pub risk_level: RiskLevel,
    pub jurisdiction: Seq<u8>,
    pub registration_date: u64,
    pub last_updated: u64,
    pub aml_flags: Seq<Seq<u8>>,
    pub transaction_limits: Seq<(Seq<u8>, i128)>,
}

impl View for ComplianceRecord {
    type V = ComplianceRecordModel;

    open spec fn view(&self) -> ComplianceRecordModel {
        ComplianceRecordModel {
            user: self.user@,
            kyc_level: self.kyc_level,
            risk_level: self.risk_level,
            jurisdiction: self.jurisdiction@,
            registration_date: self.registration_date,
            last_updated: self.last_updated,
            aml_flags: byte_list_view(self.aml_flags@),
            transaction_limits: self.transaction_limits@,
        }
    }
}

pub struct TransactionRule {
    pub id: Vec<u8>,
    pub name: Vec<u8>,
    pub description: Vec<u8>,
    pub conditions: Table<Vec<u8>, Vec<u8>>,
    pub actions: Table<Vec<u8>, Vec<u8>>,
    pub active: bool,
    pub priority: u8,
}

#[verifier::ext_equal]
pub struct TransactionRuleModel {
    pub id: Seq<u8>,
    pub name: Seq<u8>,
    pub description: Seq<u8>,
    pub conditions: Seq<(Seq<u8>, Seq<u8>)>,
    pub actions: Seq<(Seq<u8>, Seq<u8>)>,
    pub active: bool,
    pub priority: u8,
}

impl View for TransactionRule {
    type V = TransactionRuleModel;

    open spec fn view(&self) -> TransactionRuleModel {
        TransactionRuleModel {
            id: self.id@,
            name: self.name@,
            description: self.description@,
            conditions: self.conditions@,
            actions: self.actions@,
            active: self.active,
            priority: self.priority,
        }
    }
}

pub struct ComplianceCheck {
    pub transaction_id: Vec<u8>,
    pub from_user: Vec<u8>,
    pub to_user: Vec<u8>,
    pub amount: i128,
    pub currency: Vec<u8>,
    pub jurisdiction_from: Vec<u8>,
    pub jurisdiction_to: Vec<u8>,
    pub timestamp: u64,
    pub approved: bool,
    pub reason: CheckReason,
    pub rules_triggered: Vec<Vec<u8>>,
}

#[verifier::ext_equal]
pub struct ComplianceCheckModel {
    pub transaction_id: Seq<u8>,
    pub from_user: Seq<u8>,
    pub to_user: Seq<u8>,
    pub amount: i128,
    pub currency: Seq<u8>,
    pub jurisdiction_from: Seq<u8>,
    pub jurisdiction_to: Seq<u8>,
    pub timestamp: u64,
    pub approved: bool,
    pub reason: CheckReason,
    pub rules_triggered: Seq<Seq<u8>>,
}

impl View for ComplianceCheck {
    type V = ComplianceCheckModel;

    open spec fn view(&self) -> ComplianceCheckModel {
        ComplianceCheckModel {
            transaction_id: self.transaction_id@,
            from_user: self.from_user@,
            to_user: self.to_user@,
            amount: self.amount,
            currency: self.currency@,
            jurisdiction_from: self.jurisdiction_from@,
            jurisdiction_to: self.jurisdiction_to@,
            timestamp: self.timestamp,
            approved: self.approved,
            reason: self.reason,
            rules_triggered: byte_list_view(self.rules_triggered@),
        }
    }
}

/// A fresh copy of a screening record.
fn copy_check(c: &ComplianceCheck) -> (r: ComplianceCheck)
    ensures
        r@ == c@,
{
    ComplianceCheck {
        transaction_id: copy_bytes(&c.transaction_id),
        from_user: copy_bytes(&c.from_user),
        to_user: copy_bytes(&c.to_user),
        amount: c.amount,
        currency: copy_bytes(&c.currency),
        jurisdiction_from: copy_bytes(&c.jurisdiction_from),
        jurisdiction_to: copy_bytes(&c.jurisdiction_to),
        timestamp: c.timestamp,
        approved: c.approved,
        reason: c.reason,
        rules_triggered: copy_byte_list(&c.rules_triggered),
    }
}

// ─── Rule conditions ────────────────────────────────────────────────────────

/// The conditions a rule may name.
#[derive(PartialEq, Eq, Structural, Clone, Copy, Debug)]
pub enum ConditionKind {
    HighRiskSender,
    HighRiskReceiver,
    HighAmountThreshold,
    AmlFlaggedSender,
    AmlFlaggedReceiver,
    CrossBorderHighValue,
}

/// The condition that a key names, if any.
pub open spec fn condition_kind(key: Seq<u8>) -> Option<ConditionKind> {
    if key == "HIGH_RISK_SENDER".spec_bytes() {
        Some(ConditionKind::HighRiskSender)
    } else if key == "HIGH_RISK_RECEIVER".spec_bytes() {
        Some(ConditionKind::HighRiskReceiver)
    } else if key == "HIGH_AMOUNT_THRESHOLD".spec_bytes() {
        Some(ConditionKind::HighAmountThreshold)
    } else if key == "AML_FLAGGED_SENDER".spec_bytes() {
        Some(ConditionKind::AmlFlaggedSender)
    } else if key == "AML_FLAGGED_RECEIVER".spec_bytes() {
        Some(ConditionKind::AmlFlaggedReceiver)
    } else if key == "CROSS_BORDER_HIGH_VALUE".spec_bytes() {
        Some(ConditionKind::CrossBorderHighValue)
    } else {
        None
    }
}

/// Whether the condition `key` (with parameter `value`) holds of a transfer of
/// `amount` from `from` to `to`.  Amount thresholds are sixteen big-endian
/// bytes of a signed number; any other length is malformed.
pub open spec fn condition_holds(
    key: Seq<u8>,
    value: Seq<u8>,
    from: ComplianceRecordModel,
    to: ComplianceRecordModel,
    amount: i128,
) -> Result<bool, ComplianceError> {
    match condition_kind(key) {
        Some(ConditionKind::HighRiskSender) => Ok(from.risk_level == RiskLevel::High),
        Some(ConditionKind::HighRiskReceiver) => Ok(to.risk_level == RiskLevel::High),
        Some(ConditionKind::HighAmountThreshold) => if value.len() != 16 {
            Err(ComplianceError::MalformedCondition)
        } else {
            Ok(amount > i128_from_be(value))
        },
        Some(ConditionKind::AmlFlaggedSender) => Ok(from.aml_flags.len() > 0),
        Some(ConditionKind::AmlFlaggedReceiver) => Ok(to.aml_flags.len() > 0),
        Some(ConditionKind::CrossBorderHighValue) => if value.len() != 16 {
            Err(ComplianceError::MalformedCondition)
        } else {
            Ok(from.jurisdiction != to.jurisdiction && amount > i128_from_be(value))
        },
        None => Ok(false),
    }
}

/// Whether some condition holds, the conditions being tried in key order
/// until one holds or one is malformed.
pub open spec fn rule_fires(
    conds: Seq<(Seq<u8>, Seq<u8>)>,
    from: ComplianceRecordModel,
    to: ComplianceRecordModel,
    amount: i128,
) -> Result<bool, ComplianceError>
    decreases conds.len(),
{
    if conds.len() == 0 {
        Ok(false)
    } else {
        match condition_holds(conds[0].0, conds[0].1, from, to, amount) {
            Err(e) => Err(e),
            Ok(true) => Ok(true),
            Ok(false) => rule_fires(conds.drop_first(), from, to, amount),
        }
    }
}

/// Rules of this priority or above block the transactions they are applied to.
pub open spec fn is_blocking(priority: u8) -> bool {
    priority >= 8
}

/// Applies the rules in order: an inactive rule is skipped; an active blocking
/// rule is triggered and ends the scan; any other active rule is triggered when
/// one of its conditions holds.  Yields the ids of the triggered rules and
/// whether a blocking rule was reached.
pub open spec fn scan_rules(
    rules: Seq<TransactionRuleModel>,
    from: ComplianceRecordModel,
    to: ComplianceRecordModel,
    amount: i128,
) -> Result<(Seq<Seq<u8>>, bool), ComplianceError>
    decreases rules.len(),
{
    if rules.len() == 0 {
        Ok((Seq::empty(), false))
    } else {
        let r = rules[0];
        if !r.active {
            scan_rules(rules.drop_first(), from, to, amount)
        } else if is_blocking(r.priority) {
            Ok((seq![r.id], true))
        } else {
            match rule_fires(r.conditions, from, to, amount) {
                Err(e) => Err(e),
                Ok(false) => scan_rules(rules.drop_first(), from, to, amount),
                Ok(true) => match scan_rules(rules.drop_first(), from, to, amount) {
                    Err(e) => Err(e),
                    Ok((ids, blocked)) => Ok((seq![r.id] + ids, blocked)),
                },
            }
        }
    }
}

/// The scan of `rest`, after `acc` was triggered by the rules before it.
pub open spec fn after_rules(
    acc: Seq<Seq<u8>>,
    rest: Result<(Seq<Seq<u8>>, bool), ComplianceError>,
) -> Result<(Seq<Seq<u8>>, bool), ComplianceError> {
    match rest {
        Err(e) => Err(e),
        Ok((ids, blocked)) => Ok((acc + ids, blocked)),
    }
}

/// The per-currency ceiling of a user: zero where none is set.
pub open spec fn limit_of(r: ComplianceRecordModel, currency: Seq<u8>) -> i128 {
    match lookup(r.transaction_limits, currency) {
        Some(l) => l,
        None => 0,
    }
}

// ─── The contract as a state machine ────────────────────────────────────────

#[verifier::ext_equal]
pub struct ComplianceContractModel {
    pub admin: Option<Seq<u8>>,
    pub records: Seq<(Seq<u8>, ComplianceRecordModel)>,
    pub rules: Seq<TransactionRuleModel>,
    pub history: Seq<ComplianceCheckModel>,
    pub restricted: Seq<Seq<u8>>,
}

/// Holds of every jurisdiction other than `j`.
pub open spec fn other_than(j: Seq<u8>) -> spec_fn(Seq<u8>) -> bool {
    |x: Seq<u8>| x != j
}

/// `i` is the first position of a rule with id `id`.
pub open spec fn is_first_rule(rules: Seq<TransactionRuleModel>, id: Seq<u8>, i: int) -> bool {
    &&& 0 <= i < rules.len()
    &&& rules[i].id == id
    &&& forall|j: int| 0 <= j < i ==> rules[j].id != id
}

impl ComplianceContractModel {
    /// The records are ascending by user.
    pub open spec fn wf(self) -> bool {
        sorted_by::<Vec<u8>, ComplianceRecordModel>(self.records)
    }

    /// Records (or replaces) the compliance record of `user`, registered at `now`.
    pub open spec fn register_user(
        self,
        user: Seq<u8>,
        kyc_level: ComplianceLevel,
        risk_level: RiskLevel,
        jurisdiction: Seq<u8>,
        aml_flags: Seq<Seq<u8>>,
        transaction_limits: Seq<(Seq<u8>, i128)>,
        now: u64,
    ) -> Result<(Self, Seq<u8>), ComplianceError> {
        match self.admin {
            None => Err(ComplianceError::AdminNotSet),
            Some(admin) => {
                let r = ComplianceRecordModel {
                    user,
                    kyc_level,
                    risk_level,
                    jurisdiction,
                    registration_date: now,
                    last_updated: now,
                    aml_flags,
                    transaction_limits,
                };
                Ok(
                    (
                        ComplianceContractModel {
                            records: table_insert::<Vec<u8>, ComplianceRecordModel>(
                                self.records,
                                user,
                                r,
                            ),
                            ..self
                        },
                        admin,
                    ),
                )
            },
        }
    }

    /// Replaces the levels, flags and limits of a registered user at `now`.
    pub open spec fn update_user(
        self,
        user: Seq<u8>,
        kyc_level: ComplianceLevel,
        risk_level: RiskLevel,
        aml_flags: Seq<Seq<u8>>,
        transaction_limits: Seq<(Seq<u8>, i128)>,
        now: u64,
    ) -> Result<(Self, Seq<u8>), ComplianceError> {
        match self.admin {
            None => Err(ComplianceError::AdminNotSet),
            Some(admin) => match lookup(self.records, user) {
                None => Err(ComplianceError::UserNotRegistered),
                Some(r) => {
                    let r2 = ComplianceRecordModel {
                        kyc_level,
                        risk_level,
                        aml_flags,
                        transaction_limits,
                        last_updated: now,
                        ..r
                    };
                    Ok(
                        (
                            ComplianceContractModel {
                                records: table_insert::<Vec<u8>, ComplianceRecordModel>(
                                    self.records,
                                    user,
                                    r2,
                                ),
                                ..self
                            },
                            admin,
                        ),
                    )
                },
            },
        }
    }

    /// Screens a transfer of `amount` in `currency` from `from_user` in
    /// `jurisdiction_from` to `to_user` in `jurisdiction_to` at `now`.  The
    /// gates are tried in order; a transfer that passes the first four is
    /// screened against the rules and recorded in the history.
    pub open spec fn check(
        self,
        transaction_id: Seq<u8>,
        from_user: Seq<u8>,
        to_user: Seq<u8>,
        amount: i128,
        currency: Seq<u8>,
        jurisdiction_from: Seq<u8>,
        jurisdiction_to: Seq<u8>,
        now: u64,
    ) -> Result<(Self, ComplianceCheckModel), ComplianceError> {
        let outcome = |approved: bool, reason: CheckReason, rules_triggered: Seq<Seq<u8>>|
            ComplianceCheckModel {
                transaction_id,
                from_user,
                to_user,
                amount,
                currency,
                jurisdiction_from,
                jurisdiction_to,
                timestamp: now,
                approved,
                reason,
                rules_triggered,
            };
        if self.restricted.contains(jurisdiction_from) || self.restricted.contains(
            jurisdiction_to,
        ) {
            Ok((self, outcome(false, CheckReason::RestrictedJurisdiction, Seq::empty())))
        } else {
            match lookup(self.records, from_user) {
                None => Ok((self, outcome(false, CheckReason::SenderNotRegistered, Seq::empty()))),
                Some(fr) => match lookup(self.records, to_user) {
                    None => Ok(
                        (self, outcome(false, CheckReason::ReceiverNotRegistered, Seq::empty())),
                    ),
                    Some(tr) => if fr.risk_level == RiskLevel::Restricted || tr.risk_level
                        == RiskLevel::Restricted {
                        Ok((self, outcome(false, CheckReason::RestrictedUser, Seq::empty())))
                    } else if amount > limit_of(fr, currency) {
                        Ok((self, outcome(false, CheckReason::ExceedsLimit, Seq::empty())))
                    } else {
                        match scan_rules(self.rules, fr, tr, amount) {
                            Err(e) => Err(e),
                            Ok((ids, blocked)) => {
                                let c = outcome(
                                    !blocked,
                                    if blocked {
                                        CheckReason::HighPriorityRuleTriggered
                                    } else {
                                        CheckReason::Approved
                                    },
                                    ids,
                                );
                                Ok((ComplianceContractModel { history: self.history.push(c), ..self }, c))
                            },
                        }
                    },
                },
            }
        }
    }

    /// Appends a new active rule filed under `id`.
    pub open spec fn add_rule(
        self,
        id: Seq<u8>,
        name: Seq<u8>,
        description: Seq<u8>,
        conditions: Seq<(Seq<u8>, Seq<u8>)>,
        actions: Seq<(Seq<u8>, Seq<u8>)>,
        priority: u8,
    ) -> Result<(Self, Seq<u8>), ComplianceError> {
        match self.admin {
            None => Err(ComplianceError::AdminNotSet),
            Some(admin) => {
                let r = TransactionRuleModel {
                    id,
                    name,
                    description,
                    conditions,
                    actions,
                    active: true,
                    priority,
                };
                Ok((ComplianceContractModel { rules: self.rules.push(r), ..self }, admin))
            },
        }
    }

    /// Sets the activity and priority of the first rule filed under `id`.
    pub open spec fn update_rule(self, id: Seq<u8>, active: bool, priority: u8) -> Result<
        (Self, Seq<u8>),
        ComplianceError,
    > {
        match self.admin {
            None => Err(ComplianceError::AdminNotSet),
            Some(admin) => if exists|i: int| is_first_rule(self.rules, id, i) {
                let i = choose|i: int| is_first_rule(self.rules, id, i);
                let r = self.rules[i];
                Ok(
                    (
                        ComplianceContractModel {
                            rules: self.rules.update(i, TransactionRuleModel { active, priority, ..r }),
                            ..self
                        },
                        admin,
                    ),
                )
            } else {
                Err(ComplianceError::RuleNotFound)
            },
        }
    }

    /// Adds a jurisdiction to the restricted list, where it is not on it yet.
    pub open spec fn restrict(self, jurisdiction: Seq<u8>) -> Result<(Self, Seq<u8>), ComplianceError> {
        match self.admin {
            None => Err(ComplianceError::AdminNotSet),
            Some(admin) => if self.restricted.contains(jurisdiction) {
                Ok((self, admin))
            } else {
                Ok(
                    (
                        ComplianceContractModel {
                            restricted: self.restricted.push(jurisdiction),
                            ..self
                        },
                        admin,
                    ),
                )
            },
        }
    }

    /// Takes every occurrence of a jurisdiction off the restricted list.
    pub open spec fn unrestrict(self, jurisdiction: Seq<u8>) -> Result<(Self, Seq<u8>), ComplianceError> {
        match self.admin {
            None => Err(ComplianceError::AdminNotSet),
            Some(admin) => Ok(
                (
                    ComplianceContractModel {
                        restricted: self.restricted.filter(other_than(jurisdiction)),
                        ..self
                    },
                    admin,
                ),
            ),
        }
    }

    /// The screenings in the history that `user` took part in, oldest first.
    pub open spec fn history_of(self, user: Seq<u8>) -> Seq<ComplianceCheckModel> {
        self.history.filter(|c: ComplianceCheckModel| c.from_user == user || c.to_user == user)
    }
}

// ─── Identifiers ────────────────────────────────────────────────────────────

/// The bytes hashed into a rule's id.
pub open spec fn rule_id_preimage(name: Seq<u8>, description: Seq<u8>, now: u64) -> Seq<u8> {
    framed(name) + framed(description) + be_bytes(now as nat, 8)
}

/// The id of the rule named `name` with `description`, added at `now`.
pub fn rule_id(env: &Env, name: &Vec<u8>, description: &Vec<u8>, now: u64) -> (r: Vec<u8>)
    ensures
        r@ == sha256_digest(rule_id_preimage(name@, description@, now)),
{
    let mut data: Vec<u8> = Vec::new();
    push_framed(&mut data, name);
    push_framed(&mut data, description);
    push_be(&mut data, now as u128, 8);
    assert(data@ =~= rule_id_preimage(name@, description@, now));
    sha256(env, &data)
}

/// The condition that `key` names.
fn classify_condition(key: &Vec<u8>) -> (r: Option<ConditionKind>)
    ensures
        r == condition_kind(key@),
{
    if bytes_eq(key, &"HIGH_RISK_SENDER".as_bytes_vec()) {
        Some(ConditionKind::HighRiskSender)
    } else if bytes_eq(key, &"HIGH_RISK_RECEIVER".as_bytes_vec()) {
        Some(ConditionKind::HighRiskReceiver)
    } else if bytes_eq(key, &"HIGH_AMOUNT_THRESHOLD".as_bytes_vec()) {
        Some(ConditionKind::HighAmountThreshold)
    } else if bytes_eq(key, &"AML_FLAGGED_SENDER".as_bytes_vec()) {
        Some(ConditionKind::AmlFlaggedSender)
    } else if bytes_eq(key, &"AML_FLAGGED_RECEIVER".as_bytes_vec()) {
        Some(ConditionKind::AmlFlaggedReceiver)
    } else if bytes_eq(key, &"CROSS_BORDER_HIGH_VALUE".as_bytes_vec()) {
        Some(ConditionKind::CrossBorderHighValue)
    } else {
        None
    }
}

// ─── The contract ───────────────────────────────────────────────────────────

/// The compliance contract's state.  Its fields are open so that the host can
/// load it from its storage before a call and save it after.
pub struct ComplianceContract {
    pub admin: Option<Vec<u8>>,
    pub records: Table<Vec<u8>, ComplianceRecord>,
    pub rules: Vec<TransactionRule>,
    pub history: Vec<ComplianceCheck>,
    pub restricted: Vec<Vec<u8>>,
}

impl View for ComplianceContract {
    type V = ComplianceContractModel;

    closed spec fn view(&self) -> ComplianceContractModel {
        ComplianceContractModel {
            admin: match self.admin {
                Some(a) => Some(a@),
                None => None,
            },
            records: self.records@,
            rules: self.rules@.map_values(|r: TransactionRule| r@),
            history: self.history@.map_values(|c: ComplianceCheck| c@),
            restricted: byte_list_view(self.restricted@),
        }
    }
}

impl ComplianceContract {
    /// Every table of the state is ascending by key.
    pub open spec fn wf(&self) -> bool {
        self@.wf()
    }

    /// Brings the tables' ordering into view.
    fn tables_sorted(&self)
        ensures
            self.wf(),
    {
        proof {
            use_type_invariant(&self.records);
        }
    }

    /// A contract with no administrator, users, rules or restrictions.
    pub fn new() -> (c: Self)
        ensures
            c.wf(),
            c@ == (ComplianceContractModel {
                admin: None,
                records: Seq::empty(),
                rules: Seq::empty(),
                history: Seq::empty(),
                restricted: Seq::empty(),
            }),
    {
        let c = ComplianceContract {
            admin: None,
            records: Table::new(),
            rules: Vec::new(),
            history: Vec::new(),
            restricted: Vec::new(),
        };
        assert(c@ =~= ComplianceContractModel {
            admin: None,
            records: Seq::empty(),
            rules: Seq::empty(),
            history: Seq::empty(),
            restricted: Seq::empty(),
        });
        c
    }

    /// Sets the administrator.
    pub fn set_admin(&mut self, admin: Vec<u8>)
        ensures
            old(self).wf(),
            final(self).wf(),
            final(self)@ == (ComplianceContractModel { admin: Some(admin@), ..old(self)@ }),
    {
        self.tables_sorted();
        self.admin = Some(admin);
        assert(self@ =~= ComplianceContractModel { admin: Some(admin@), ..old(self)@ });
    }

    /// The administrator, whose authorization every change needs.
    fn admin_for_change(&self) -> (r: Result<Vec<u8>, ComplianceError>)
        ensures
            match self@.admin {
                Some(a) => r matches Ok(x) && x@ == a,
                None => r == Err::<Vec<u8>, ComplianceError>(ComplianceError::AdminNotSet),
            },
    {
        match &self.admin {
            Some(a) => Ok(copy_bytes(a)),
            None => Err(ComplianceError::AdminNotSet),
        }
    }

    /// Records (or replaces) the compliance record of `user`, registered at
    /// ledger time `now`.  Returns the administrator, who authorizes it.
    pub fn register_user(
        &mut self,
        user: Vec<u8>,
        kyc_level: ComplianceLevel,
        risk_level: RiskLevel,
        jurisdiction: Vec<u8>,
        aml_flags: Vec<Vec<u8>>,
        transaction_limits: Table<Vec<u8>, i128>,
        now: u64,
    ) -> (r: Result<Vec<u8>, ComplianceError>)
        ensures
            old(self).wf(),
            final(self).wf(),
            match (
                r,
                old(self)@.register_user(
                    user@,
                    kyc_level,
                    risk_level,
                    jurisdiction@,
                    byte_list_view(aml_flags@),
                    transaction_limits@,
                    now,
                ),
            ) {
                (Ok(a), Ok((s, admin))) => a@ == admin && final(self)@ == s,
                (Err(e), Err(e2)) => e == e2 && final(self)@ == old(self)@,
                _ => false,
            },
    {
        self.tables_sorted();
        let admin = match self.admin_for_change() {
            Ok(a) => a,
            Err(e) => {
                return Err(e);
            },
        };
        let key = copy_bytes(&user);
        let record = ComplianceRecord {
            user,
            kyc_level,
            risk_level,
            jurisdiction,
            registration_date: now,
            last_updated: now,
            aml_flags,
            transaction_limits,
        };
        let ghost s0 = self@;
        let ghost rv = record@;
        self.records.insert(key, record);
        assert(self@ =~= ComplianceContractModel {
            records: table_insert::<Vec<u8>, ComplianceRecordModel>(s0.records, rv.user, rv),
            ..s0
        });
        Ok(admin)
    }

    /// Replaces the levels, AML flags and limits of a registered user at
    /// ledger time `now`.  Returns the administrator, who authorizes it.
    pub fn update_user_compliance(
        &mut self,
        user: &Vec<u8>,
        kyc_level: ComplianceLevel,
        risk_level: RiskLevel,
        aml_flags: Vec<Vec<u8>>,
        transaction_limits: Table<Vec<u8>, i128>,
        now: u64,
    ) -> (r: Result<Vec<u8>, ComplianceError>)
        ensures
            old(self).wf(),
            final(self).wf(),
            match (
                r,
                old(self)@.update_user(
                    user@,
                    kyc_level,
                    risk_level,
                    byte_list_view(aml_flags@),
                    transaction_limits@,
                    now,
                ),
            ) {
                (Ok(a), Ok((s, admin))) => a@ == admin && final(self)@ == s,
                (Err(e), Err(e2)) => e == e2 && final(self)@ == old(self)@,
                _ => false,
            },
    {
        self.tables_sorted();
        let admin = match self.admin_for_change() {
            Ok(a) => a,
            Err(e) => {
                return Err(e);
            },
        };
        let i = match self.records.find(user) {
            Some(i) => i,
            None => {
                return Err(ComplianceError::UserNotRegistered);
            },
        };
        let ghost s0 = self@;
        let ghost t = self.records@;
        proof {
            lemma_lookup_at::<Vec<u8>, ComplianceRecordModel>(t, i as int);
        }
        let (k, mut rec) = self.records.take_at(i);
        rec.kyc_level = kyc_level;
        rec.risk_level = risk_level;
        rec.aml_flags = aml_flags;
        rec.transaction_limits = transaction_limits;
        rec.last_updated = now;
        proof {
            lemma_reinsert::<Vec<u8>, ComplianceRecordModel>(t, i as int, rec@);
        }
        self.records.put_at(i, k, rec);
        assert(self@ =~= s0.update_user(
            user@,
            kyc_level,
            risk_level,
            rec@.aml_flags,
            rec@.transaction_limits,
            now,
        ).unwrap().0);
        Ok(admin)
    }

    /// Whether `rule`'s conditions (tried in key order) hold of a transfer of
    /// `amount` from the user of `from_record` to the user of `to_record`.
    pub fn evaluate_rule(
        rule: &TransactionRule,
        from_record: &ComplianceRecord,
        to_record: &ComplianceRecord,
        amount: i128,
    ) -> (r: Result<bool, ComplianceError>)
        ensures
            r == rule_fires(rule@.conditions, from_record@, to_record@, amount),
    {
        let conds = &rule.conditions;
        let n = conds.len();
        let ghost all = conds@;
        let mut i: usize = 0;
        assert(all.skip(0) =~= all);
        while i < n
            invariant
                n == all.len(),
                all == conds@,
                all == rule@.conditions,
                i <= n,
                rule_fires(all, from_record@, to_record@, amount) == rule_fires(
                    all.skip(i as int),
                    from_record@,
                    to_record@,
                    amount,
                ),
            decreases n - i,
        {
            let key = conds.key_at(i);
            let value = conds.value_at(i);
            proof {
                assert(all.skip(i as int)[0] == all[i as int]);
                assert(all.skip(i as int).drop_first() =~= all.skip(i + 1));
            }
            let kind = classify_condition(key);
            let takes_threshold = match kind {
                Some(ConditionKind::HighAmountThreshold) => true,
                Some(ConditionKind::CrossBorderHighValue) => true,
                _ => false,
            };
            if takes_threshold && value.len() != 16 {
                proof {
                    assert(all.skip(i as int)[0].0 == key@);
                    assert(all.skip(i as int)[0].1 == value@);
                    assert(condition_holds(key@, value@, from_record@, to_record@, amount)
                        == Err::<bool, ComplianceError>(ComplianceError::MalformedCondition));
                    assert(rule_fires(all.skip(i as int), from_record@, to_record@, amount)
                        == Err::<bool, ComplianceError>(ComplianceError::MalformedCondition));
                }
                return Err(ComplianceError::MalformedCondition);
            }
            let holds = match kind {
                Some(ConditionKind::HighRiskSender) => from_record.risk_level == RiskLevel::High,
                Some(ConditionKind::HighRiskReceiver) => to_record.risk_level == RiskLevel::High,
                Some(ConditionKind::HighAmountThreshold) => amount > i128_from_be_bytes(value),
                Some(ConditionKind::AmlFlaggedSender) => from_record.aml_flags.len() > 0,
                Some(ConditionKind::AmlFlaggedReceiver) => to_record.aml_flags.len() > 0,
                Some(ConditionKind::CrossBorderHighValue) => {
                    let threshold = i128_from_be_bytes(value);
                    !bytes_eq(&from_record.jurisdiction, &to_record.jurisdiction) && amount
                        > threshold
                },
                None => false,
            };
            if holds {
                return Ok(true);
            }
            i = i + 1;
        }
        proof {
            assert(all.skip(n as int).len() == 0);
        }
        Ok(false)
    }

    /// Applies the rules in order to a transfer of `amount` between the two
    /// users; yields the ids of the rules triggered and whether a blocking rule
    /// was reached.
    fn apply_rules(
        &self,
        from_record: &ComplianceRecord,
        to_record: &ComplianceRecord,
        amount: i128,
    ) -> (r: Result<(Vec<Vec<u8>>, bool), ComplianceError>)
        ensures
            match (r, scan_rules(self@.rules, from_record@, to_record@, amount)) {
                (Ok((ids, b)), Ok((sids, sb))) => byte_list_view(ids@) == sids && b == sb,
                (Err(e), Err(e2)) => e == e2,
                _ => false,
            },
    {
        let ghost all = self@.rules;
        let n = self.rules.len();
        let mut ids: Vec<Vec<u8>> = Vec::new();
        let mut i: usize = 0;
        assert(all.skip(0) =~= all);
        assert(byte_list_view(ids@) =~= Seq::<Seq<u8>>::empty());
        assert(after_rules(Seq::empty(), scan_rules(all, from_record@, to_record@, amount))
            =~= scan_rules(all, from_record@, to_record@, amount));
        while i < n
            invariant
                n == all.len(),
                all == self@.rules,
                i <= n,
                scan_rules(all, from_record@, to_record@, amount) == after_rules(
                    byte_list_view(ids@),
                    scan_rules(all.skip(i as int), from_record@, to_record@, amount),
                ),
            decreases n - i,
        {
            let rule = &self.rules[i];
            proof {
                assert(all[i as int] == rule@);
                assert(all.skip(i as int)[0] == all[i as int]);
                assert(all.skip(i as int).drop_first() =~= all.skip(i + 1));
            }
            if rule.active {
                if rule.priority >= 8 {
                    let ghost before = byte_list_view(ids@);
                    ids.push(copy_bytes(&rule.id));
                    assert(byte_list_view(ids@) =~= before + seq![rule@.id]);
                    return Ok((ids, true));
                }
                match Self::evaluate_rule(rule, from_record, to_record, amount) {
                    Err(e) => {
                        return Err(e);
                    },
                    Ok(true) => {
                        let ghost before = byte_list_view(ids@);
                        ids.push(copy_bytes(&rule.id));
                        proof {
                            assert(byte_list_view(ids@) =~= before.push(rule@.id));
                            let rest = scan_rules(all.skip(i + 1), from_record@, to_record@, amount);
                            match rest {
                                Ok((x, b)) => {
                                    assert(before + (seq![rule@.id] + x) =~= before.push(rule@.id)
                                        + x);
                                },
                                Err(_) => {},
                            }
                        }
                    },
                    Ok(false) => {},
                }
            }
            i = i + 1;
        }
        proof {
            assert(all.skip(n as int).len() == 0);
            assert(byte_list_view(ids@) + Seq::<Seq<u8>>::empty() =~= byte_list_view(ids@));
        }
        Ok((ids, false))
    }

    /// Screens a transfer of `amount` in `currency` from `from_user` in
    /// `jurisdiction_from` to `to_user` in `jurisdiction_to` at ledger time
    /// `now`.  A transfer that reaches the rules is recorded in the history.
    pub fn check_transaction_compliance(
        &mut self,
        transaction_id: Vec<u8>,
        from_user: Vec<u8>,
        to_user: Vec<u8>,
        amount: i128,
        currency: Vec<u8>,
        jurisdiction_from: Vec<u8>,
        jurisdiction_to: Vec<u8>,
        now: u64,
    ) -> (r: Result<ComplianceCheck, ComplianceError>)
        ensures
            old(self).wf(),
            final(self).wf(),
            match (
                r,
                old(self)@.check(
                    transaction_id@,
                    from_user@,
                    to_user@,
                    amount,
                    currency@,
                    jurisdiction_from@,
                    jurisdiction_to@,
                    now,
                ),
            ) {
                (Ok(c), Ok((s, cm))) => c@ == cm && final(self)@ == s,
                (Err(e), Err(e2)) => e == e2 && final(self)@ == old(self)@,
                _ => false,
            },
    {
        self.tables_sorted();
        let ghost s0 = self@;
        let ghost spec_result = s0.check(
            transaction_id@,
            from_user@,
            to_user@,
            amount,
            currency@,
            jurisdiction_from@,
            jurisdiction_to@,
            now,
        );
        let reason;
        let approved;
        let triggered: Vec<Vec<u8>>;
        let mut recorded = false;
        if list_contains(&self.restricted, &jurisdiction_from) || list_contains(
            &self.restricted,
            &jurisdiction_to,
        ) {
            reason = CheckReason::RestrictedJurisdiction;
            approved = false;
            triggered = Vec::new();
        } else {
            match self.records.get(&from_user) {
                None => {
                    reason = CheckReason::SenderNotRegistered;
                    approved = false;
                    triggered = Vec::new();
                },
                Some(fr) => match self.records.get(&to_user) {
                    None => {
                        reason = CheckReason::ReceiverNotRegistered;
                        approved = false;
                        triggered = Vec::new();
                    },
                    Some(tr) => {
                        let limit = match fr.transaction_limits.get(&currency) {
                            Some(l) => *l,
                            None => 0,
                        };
                        if fr.risk_level == RiskLevel::Restricted || tr.risk_level
                            == RiskLevel::Restricted {
                            reason = CheckReason::RestrictedUser;
                            approved = false;
                            triggered = Vec::new();
                        } else if amount > limit {
                            reason = CheckReason::ExceedsLimit;
                            approved = false;
                            triggered = Vec::new();
                        } else {
                            match self.apply_rules(fr, tr, amount) {
                                Err(e) => {
                                    return Err(e);
                                },
                                Ok((ids, blocked)) => {
                                    approved = !blocked;
                                    reason = if blocked {
                                        CheckReason::HighPriorityRuleTriggered
                                    } else {
                                        CheckReason::Approved
                                    };
                                    triggered = ids;
                                    recorded = true;
                                },
                            }
                        }
                    },
                },
            }
        }
        let check = ComplianceCheck {
            transaction_id,
            from_user,
            to_user,
            amount,
            currency,
            jurisdiction_from,
            jurisdiction_to,
            timestamp: now,
            approved,
            reason,
            rules_triggered: triggered,
        };
        proof {
            if !recorded {
                assert(byte_list_view(check.rules_triggered@) =~= Seq::<Seq<u8>>::empty());
            }
        }
        if recorded {
            let ghost before = self.history@;
            self.history.push(copy_check(&check));
            assert(self@ =~= ComplianceContractModel { history: s0.history.push(check@), ..s0 });
        }
        Ok(check)
    }

    /// Appends a new active rule filed under `rule_id`.  Returns the
    /// administrator, who authorizes it.
    pub fn add_compliance_rule_with_id(
        &mut self,
        rule_id: Vec<u8>,
        name: Vec<u8>,
        description: Vec<u8>,
        conditions: Table<Vec<u8>, Vec<u8>>,
        actions: Table<Vec<u8>, Vec<u8>>,
        priority: u8,
    ) -> (r: Result<Vec<u8>, ComplianceError>)
        ensures
            old(self).wf(),
            final(self).wf(),
            match (
                r,
                old(self)@.add_rule(
                    rule_id@,
                    name@,
                    description@,
                    conditions@,
                    actions@,
                    priority,
                ),
            ) {
                (Ok(a), Ok((s, admin))) => a@ == admin && final(self)@ == s,
                (Err(e), Err(e2)) => e == e2 && final(self)@ == old(self)@,
                _ => false,
            },
    {
        self.tables_sorted();
        let admin = match self.admin_for_change() {
            Ok(a) => a,
            Err(e) => {
                return Err(e);
            },
        };
        let rule = TransactionRule {
            id: rule_id,
            name,
            description,
            conditions,
            actions,
            active: true,
            priority,
        };
        let ghost s0 = self@;
        let ghost rv = rule@;
        self.rules.push(rule);
        assert(self@ =~= ComplianceContractModel { rules: s0.rules.push(rv), ..s0 });
        Ok(admin)
    }

    /// Appends a new active rule, filed under the digest of its name,
    /// description and ledger time `now`.  Returns the rule's id and the
    /// administrator, who authorizes it.
    pub fn add_compliance_rule(
        &mut self,
        env: &Env,
        name: Vec<u8>,
        description: Vec<u8>,
        conditions: Table<Vec<u8>, Vec<u8>>,
        actions: Table<Vec<u8>, Vec<u8>>,
        priority: u8,
        now: u64,
    ) -> (r: Result<(Vec<u8>, Vec<u8>), ComplianceError>)
        ensures
            old(self).wf(),
            final(self).wf(),
            match (
                r,
                old(self)@.add_rule(
                    sha256_digest(rule_id_preimage(name@, description@, now)),
                    name@,
                    description@,
                    conditions@,
                    actions@,
                    priority,
                ),
            ) {
                (Ok((id, a)), Ok((s, admin))) => id@ == sha256_digest(
                    rule_id_preimage(name@, description@, now),
                ) && a@ == admin && final(self)@ == s,
                (Err(e), Err(e2)) => e == e2 && final(self)@ == old(self)@,
                _ => false,
            },
    {
        self.tables_sorted();
        if self.admin.is_none() {
            return Err(ComplianceError::AdminNotSet);
        }
        let id = rule_id(env, &name, &description, now);
        let key = copy_bytes(&id);
        match self.add_compliance_rule_with_id(key, name, description, conditions, actions, priority) {
            Ok(a) => Ok((id, a)),
            Err(e) => Err(e),
        }
    }

    /// Sets the activity and priority of the first rule filed under `rule_id`.
    /// Returns the administrator, who authorizes it.
    pub fn update_compliance_rule(&mut self, rule_id: &Vec<u8>, active: bool, priority: u8) -> (r:
        Result<Vec<u8>, ComplianceError>)
        ensures
            old(self).wf(),
            final(self).wf(),
            match (r, old(self)@.update_rule(rule_id@, active, priority)) {
                (Ok(a), Ok((s, admin))) => a@ == admin && final(self)@ == s,
                (Err(e), Err(e2)) => e == e2 && final(self)@ == old(self)@,
                _ => false,
            },
    {
        self.tables_sorted();
        let admin = match self.admin_for_change() {
            Ok(a) => a,
            Err(e) => {
                return Err(e);
            },
        };
        let ghost s0 = self@;
        let n = self.rules.len();
        let mut i: usize = 0;
        while i < n
            invariant
                n == self.rules.len(),
                self@ == s0,
                old(self)@ == s0,
                s0.wf(),
                s0.admin == Some(admin@),
                i <= n,
                forall|j: int| 0 <= j < i ==> s0.rules[j].id != rule_id@,
            decreases n - i,
        {
            assert(s0.rules[i as int] == self.rules@[i as int]@);
            if bytes_eq(&self.rules[i].id, rule_id) {
                assert(is_first_rule(s0.rules, rule_id@, i as int));
                let mut rules: Vec<TransactionRule> = Vec::new();
                std::mem::swap(&mut rules, &mut self.rules);
                let ghost old_rules = rules@;
                let mut rule = rules.remove(i);
                rule.active = active;
                rule.priority = priority;
                let ghost rv = rule@;
                let ghost rule_after = rule;
                rules.insert(i, rule);
                assert(rules@ =~= old_rules.update(i as int, rule_after));
                self.rules = rules;
                proof {
                    let k = choose|k: int| is_first_rule(s0.rules, rule_id@, k);
                    assert(k == i);
                    assert(rv =~= TransactionRuleModel { active, priority, ..s0.rules[i as int] });
                    assert(self@.rules =~= s0.rules.update(i as int, rv));
                }
                assert(self@ =~= s0.update_rule(rule_id@, active, priority).unwrap().0);
                return Ok(admin);
            }
            i = i + 1;
        }
        Err(ComplianceError::RuleNotFound)
    }

    /// The compliance record of `user`.
    pub fn get_user_compliance(&self, user: &Vec<u8>) -> (r: Result<&ComplianceRecord, ComplianceError>)
        ensures
            self.wf(),
            match lookup(self@.records, user@) {
                Some(rec) => r matches Ok(x) && x@ == rec,
                None => r == Err::<&ComplianceRecord, ComplianceError>(
                    ComplianceError::UserNotRegistered,
                ),
            },
    {
        self.tables_sorted();
        match self.records.get(user) {
            Some(rec) => Ok(rec),
            None => Err(ComplianceError::UserNotRegistered),
        }
    }

    /// The rules, in the order they were added.
    pub fn get_compliance_rules(&self) -> (r: &Vec<TransactionRule>)
        ensures
            self.wf(),
            r@.map_values(|x: TransactionRule| x@) == self@.rules,
    {
        self.tables_sorted();
        &self.rules
    }

    /// The screenings in the history that `user` took part in, oldest first.
    pub fn get_transaction_history(&self, user: &Vec<u8>) -> (r: Vec<&ComplianceCheck>)
        ensures
            self.wf(),
            r@.map_values(|c: &ComplianceCheck| c@) == self@.history_of(user@),
    {
        self.tables_sorted();
        let ghost h = self@.history;
        let ghost pred = |c: ComplianceCheckModel| c.from_user == user@ || c.to_user == user@;
        let mut out: Vec<&ComplianceCheck> = Vec::new();
        let n = self.history.len();
        let mut i: usize = 0;
        assert(h.take(0) =~= Seq::<ComplianceCheckModel>::empty());
        assert(out@.map_values(|c: &ComplianceCheck| c@) =~= h.take(0).filter(pred));
        while i < n
            invariant
                n == h.len(),
                h == self@.history,
                i <= n,
                pred == (|c: ComplianceCheckModel| c.from_user == user@ || c.to_user == user@),
                out@.map_values(|c: &ComplianceCheck| c@) == h.take(i as int).filter(pred),
            decreases n - i,
        {
            let c = &self.history[i];
            assert(h[i as int] == c@);
            assert(h.take(i + 1).drop_last() =~= h.take(i as int));
            assert(h.take(i + 1).last() == c@);
            reveal_with_fuel(Seq::<_>::filter, 1);
            let ghost before = out@;
            if bytes_eq(&c.from_user, user) || bytes_eq(&c.to_user, user) {
                out.push(c);
                assert(out@.map_values(|c: &ComplianceCheck| c@) =~= before.map_values(
                    |c: &ComplianceCheck| c@,
                ).push(c@));
            }
            i = i + 1;
        }
        assert(h.take(n as int) =~= h);
        out
    }

    /// Adds `jurisdiction` to the restricted list, where it is not on it yet.
    /// Returns the administrator, who authorizes it.
    pub fn add_restricted_jurisdiction(&mut self, jurisdiction: Vec<u8>) -> (r: Result<
        Vec<u8>,
        ComplianceError,
    >)
        ensures
            old(self).wf(),
            final(self).wf(),
            match (r, old(self)@.restrict(jurisdiction@)) {
                (Ok(a), Ok((s, admin))) => a@ == admin && final(self)@ == s,
                (Err(e), Err(e2)) => e == e2 && final(self)@ == old(self)@,
                _ => false,
            },
    {
        self.tables_sorted();
        let admin = match self.admin_for_change() {
            Ok(a) => a,
            Err(e) => {
                return Err(e);
            },
        };
        if !list_contains(&self.restricted, &jurisdiction) {
            let ghost s0 = self@;
            let ghost j = jurisdiction@;
            self.restricted.push(jurisdiction);
            assert(self@ =~= ComplianceContractModel { restricted: s0.restricted.push(j), ..s0 });
        }
        Ok(admin)
    }

    /// Takes every occurrence of `jurisdiction` off the restricted list.
    /// Returns the administrator, who authorizes it.
    pub fn remove_restricted_jurisdiction(&mut self, jurisdiction: &Vec<u8>) -> (r: Result<
        Vec<u8>,
        ComplianceError,
    >)
        ensures
            old(self).wf(),
            final(self).wf(),
            match (r, old(self)@.unrestrict(jurisdiction@)) {
                (Ok(a), Ok((s, admin))) => a@ == admin && final(self)@ == s,
                (Err(e), Err(e2)) => e == e2 && final(self)@ == old(self)@,
                _ => false,
            },
    {
        self.tables_sorted();
        let admin = match self.admin_for_change() {
            Ok(a) => a,
            Err(e) => {
                return Err(e);
            },
        };
        let ghost s0 = self@;
        let ghost l = s0.restricted;
        let ghost pred = other_than(jurisdiction@);
        let mut kept: Vec<Vec<u8>> = Vec::new();
        let n = self.restricted.len();
        let mut i: usize = 0;
        assert(l.take(0) =~= Seq::<Seq<u8>>::empty());
        assert(byte_list_view(kept@) =~= l.take(0).filter(pred));
        while i < n
            invariant
                n == l.len(),
                self@ == s0,
                l == s0.restricted,
                i <= n,
                pred == other_than(jurisdiction@),
                byte_list_view(kept@) == l.take(i as int).filter(pred),
            decreases n - i,
        {
            let j = &self.restricted[i];
            assert(l[i as int] == j@);
            assert(l.take(i + 1).drop_last() =~= l.take(i as int));
            assert(l.take(i + 1).last() == j@);
            reveal_with_fuel(Seq::<_>::filter, 1);
            if !bytes_eq(j, jurisdiction) {
                let ghost before = byte_list_view(kept@);
                kept.push(copy_bytes(j));
                assert(byte_list_view(kept@) =~= before.push(j@));
            }
            i = i + 1;
        }
        assert(l.take(n as int) =~= l);
        self.restricted = kept;
        assert(self@ =~= s0.unrestrict(jurisdiction@).unwrap().0);
        Ok(admin)
    }

    /// Whether `jurisdiction` is on the restricted list.
    pub fn is_jurisdiction_restricted(&self, jurisdiction: &Vec<u8>) -> (r: bool)
        ensures
            self.wf(),
            r == self@.restricted.contains(jurisdiction@),
    {
        self.tables_sorted();
        list_contains(&self.restricted, jurisdiction)
    }
}

} // verus!
