//! What holds of the compliance engine across its operations.

use vstd::prelude::*;
use vstd::string::StringSliceAdditionalSpecFns;
use crate::compliance::{ComplianceContractModel, ComplianceCheckModel, ComplianceRecordModel,
    ComplianceLevel, RiskLevel, CheckReason, ComplianceError, limit_of, other_than, condition_holds,
    rule_fires};
use crate::numeric::i128_from_be;
use crate::table::{lookup, has_key, table_insert, lemma_table_insert};

verus! {

broadcast use vstd::seq_lib::group_filter_ensures;

/// A screening is approved exactly when its outcome is `Approved`.
pub proof fn lemma_approved_iff_reason_approved(
    s: ComplianceContractModel,
    transaction_id: Seq<u8>,
    from_user: Seq<u8>,
    to_user: Seq<u8>,
    amount: i128,
    currency: Seq<u8>,
    jurisdiction_from: Seq<u8>,
    jurisdiction_to: Seq<u8>,
    now: u64,
)
    requires
        s.check(
            transaction_id,
            from_user,
            to_user,
            amount,
            currency,
            jurisdiction_from,
            jurisdiction_to,
            now,
        ) is Ok,
    ensures
        ({
            let c = s.check(
                transaction_id,
                from_user,
                to_user,
                amount,
                currency,
                jurisdiction_from,
                jurisdiction_to,
                now,
            ).unwrap().1;
            c.approved <==> c.reason == CheckReason::Approved
        }),
{
}

/// An approved transfer passed every gate: neither jurisdiction is
/// restricted, both users are registered and not restricted, and the amount
/// is within the sender's limit for the currency.
pub proof fn lemma_approval_passes_every_gate(
    s: ComplianceContractModel,
    transaction_id: Seq<u8>,
    from_user: Seq<u8>,
    to_user: Seq<u8>,
    amount: i128,
    currency: Seq<u8>,
    jurisdiction_from: Seq<u8>,
    jurisdiction_to: Seq<u8>,
    now: u64,
)
    requires
        s.check(
            transaction_id,
            from_user,
            to_user,
            amount,
            currency,
            jurisdiction_from,
            jurisdiction_to,
            now,
        ) matches Ok((_, c)) && c.approved,
    ensures
        !s.restricted.contains(jurisdiction_from),
        !s.restricted.contains(jurisdiction_to),
        has_key(s.records, from_user),
        has_key(s.records, to_user),
        lookup(s.records, from_user).unwrap().risk_level != RiskLevel::Restricted,
        lookup(s.records, to_user).unwrap().risk_level != RiskLevel::Restricted,
        amount <= limit_of(lookup(s.records, from_user).unwrap(), currency),
{
}

/// A transfer from or to a restricted jurisdiction is denied as such,
/// whatever else holds, and leaves the state as it was.
pub proof fn lemma_restricted_jurisdiction_denied(
    s: ComplianceContractModel,
    transaction_id: Seq<u8>,
    from_user: Seq<u8>,
    to_user: Seq<u8>,
    amount: i128,
    currency: Seq<u8>,
    jurisdiction_from: Seq<u8>,
    jurisdiction_to: Seq<u8>,
    now: u64,
)
    requires
        s.restricted.contains(jurisdiction_from) || s.restricted.contains(jurisdiction_to),
    ensures
        s.check(
            transaction_id,
            from_user,
            to_user,
            amount,
            currency,
            jurisdiction_from,
            jurisdiction_to,
            now,
        ) matches Ok((t, c)) && t == s && !c.approved && c.reason
            == CheckReason::RestrictedJurisdiction,
{
}

/// Screening changes nothing but the history, and the history gains exactly
/// the screenings that reached the rules, in order.
pub proof fn lemma_history_records_screenings(
    s: ComplianceContractModel,
    transaction_id: Seq<u8>,
    from_user: Seq<u8>,
    to_user: Seq<u8>,
    amount: i128,
    currency: Seq<u8>,
    jurisdiction_from: Seq<u8>,
    jurisdiction_to: Seq<u8>,
    now: u64,
)
    requires
        s.check(
            transaction_id,
            from_user,
            to_user,
            amount,
            currency,
            jurisdiction_from,
            jurisdiction_to,
            now,
        ) is Ok,
    ensures
        ({
            let (t, c) = s.check(
                transaction_id,
                from_user,
                to_user,
                amount,
                currency,
                jurisdiction_from,
                jurisdiction_to,
                now,
            ).unwrap();
            &&& t == ComplianceContractModel { history: t.history, ..s }
            &&& (c.reason == CheckReason::Approved || c.reason
                == CheckReason::HighPriorityRuleTriggered) ==> t.history == s.history.push(c)
            &&& !(c.reason == CheckReason::Approved || c.reason
                == CheckReason::HighPriorityRuleTriggered) ==> t.history == s.history
            &&& (c.reason == CheckReason::Approved || c.reason
                == CheckReason::HighPriorityRuleTriggered) ==> t.history_of(from_user) == s.history_of(
                from_user,
            ).push(c) && t.history_of(to_user) == s.history_of(to_user).push(c)
        }),
{
    let (t, c) = s.check(
        transaction_id,
        from_user,
        to_user,
        amount,
        currency,
        jurisdiction_from,
        jurisdiction_to,
        now,
    ).unwrap();
    if c.reason == CheckReason::Approved || c.reason == CheckReason::HighPriorityRuleTriggered {
        assert(t.history.drop_last() =~= s.history);
        assert(t.history.last() == c);
        reveal_with_fuel(Seq::<_>::filter, 1);
    }
}

/// Restricting a jurisdiction makes it restricted, and restricting it again
/// changes nothing.
pub proof fn lemma_restrict_is_idempotent(s: ComplianceContractModel, j: Seq<u8>)
    requires
        s.restrict(j) is Ok,
    ensures
        s.restrict(j).unwrap().0.restricted.contains(j),
        s.restrict(j).unwrap().0.restrict(j) == s.restrict(j),
{
    let t = s.restrict(j).unwrap().0;
    if !s.restricted.contains(j) {
        assert(t.restricted[t.restricted.len() - 1] == j);
    }
}

/// Lifting a restriction lifts it for good and keeps every other restriction.
pub proof fn lemma_unrestrict_lifts_only_that(s: ComplianceContractModel, j: Seq<u8>, k: Seq<u8>)
    requires
        s.unrestrict(j) is Ok,
    ensures
        !s.unrestrict(j).unwrap().0.restricted.contains(j),
        k != j ==> (s.unrestrict(j).unwrap().0.restricted.contains(k) == s.restricted.contains(k)),
{
    let pred = other_than(j);
    let f = s.restricted.filter(pred);
    if f.contains(j) {
        let i = choose|i: int| 0 <= i < f.len() && f[i] == j;
        assert(pred(f[i]));
    }
    if k != j {
        if s.restricted.contains(k) {
            let i = choose|i: int| 0 <= i < s.restricted.len() && s.restricted[i] == k;
            assert(pred(s.restricted[i]));
        }
        if f.contains(k) {
            s.restricted.lemma_filter_contains_rev(pred, k);
        }
    }
}

/// Filtering a list keeps it free of duplicates.
proof fn lemma_filter_no_duplicates(l: Seq<Seq<u8>>, pred: spec_fn(Seq<u8>) -> bool)
    requires
        l.no_duplicates(),
    ensures
        l.filter(pred).no_duplicates(),
    decreases l.len(),
{
    reveal_with_fuel(Seq::<_>::filter, 1);
    if l.len() > 0 {
        let p = l.drop_last();
        assert(p.no_duplicates());
        lemma_filter_no_duplicates(p, pred);
        if pred(l.last()) {
            let f = p.filter(pred);
            if f.contains(l.last()) {
                p.lemma_filter_contains_rev(pred, l.last());
                let i = choose|i: int| 0 <= i < p.len() && p[i] == l.last();
                assert(l[i] == l[l.len() - 1]);
            }
            assert forall|a: int, b: int|
                0 <= a < b < f.push(l.last()).len() implies f.push(l.last())[a] != f.push(
                l.last(),
            )[b] by {
                if b == f.len() {
                    assert(f.contains(f[a]));
                }
            }
        }
    }
}

/// The restricted list never holds a jurisdiction twice.
pub proof fn lemma_restricted_list_has_no_duplicates(s: ComplianceContractModel, j: Seq<u8>)
    requires
        s.restricted.no_duplicates(),
    ensures
        s.restrict(j) matches Ok((t, _)) ==> t.restricted.no_duplicates(),
        s.unrestrict(j) matches Ok((t, _)) ==> t.restricted.no_duplicates(),
{
    if !s.restricted.contains(j) {
        let l = s.restricted.push(j);
        assert forall|a: int, b: int| 0 <= a < b < l.len() implies l[a] != l[b] by {
            if b == s.restricted.len() {
                assert(s.restricted[a] == l[a]);
            }
        }
    }
    lemma_filter_no_duplicates(s.restricted, other_than(j));
}

/// A registered user's record is read back as registered; other users read
/// what they read before.
pub proof fn lemma_register_then_read(
    s: ComplianceContractModel,
    user: Seq<u8>,
    kyc_level: ComplianceLevel,
    risk_level: RiskLevel,
    jurisdiction: Seq<u8>,
    aml_flags: Seq<Seq<u8>>,
    transaction_limits: Seq<(Seq<u8>, i128)>,
    now: u64,
    other: Seq<u8>,
)
    requires
        s.wf(),
        s.register_user(user, kyc_level, risk_level, jurisdiction, aml_flags, transaction_limits, now)
            is Ok,
    ensures
        ({
            let t = s.register_user(
                user,
                kyc_level,
                risk_level,
                jurisdiction,
                aml_flags,
                transaction_limits,
                now,
            ).unwrap().0;
            &&& t.wf()
            &&& lookup(t.records, user) == Some(
                ComplianceRecordModel {
                    user,
                    kyc_level,
                    risk_level,
                    jurisdiction,
                    registration_date: now,
                    last_updated: now,
                    aml_flags,
                    transaction_limits,
                },
            )
            &&& other != user ==> lookup(t.records, other) == lookup(s.records, other)
        }),
{
    lemma_table_insert::<Vec<u8>, ComplianceRecordModel>(
        s.records,
        user,
        ComplianceRecordModel {
            user,
            kyc_level,
            risk_level,
            jurisdiction,
            registration_date: now,
            last_updated: now,
            aml_flags,
            transaction_limits,
        },
    );
}

/// Updating a user keeps the registration (user, jurisdiction and date) and
/// replaces the levels, flags and limits.
pub proof fn lemma_update_keeps_registration(
    s: ComplianceContractModel,
    user: Seq<u8>,
    kyc_level: ComplianceLevel,
    risk_level: RiskLevel,
    aml_flags: Seq<Seq<u8>>,
    transaction_limits: Seq<(Seq<u8>, i128)>,
    now: u64,
)
    requires
        s.wf(),
        s.update_user(user, kyc_level, risk_level, aml_flags, transaction_limits, now) is Ok,
    ensures
        ({
            let t = s.update_user(
                user,
                kyc_level,
                risk_level,
                aml_flags,
                transaction_limits,
                now,
            ).unwrap().0;
            let before = lookup(s.records, user).unwrap();
            let after = lookup(t.records, user).unwrap();
            &&& has_key(t.records, user)
            &&& after.user == before.user
            &&& after.jurisdiction == before.jurisdiction
            &&& after.registration_date == before.registration_date
            &&& after.kyc_level == kyc_level
            &&& after.risk_level == risk_level
            &&& after.aml_flags == aml_flags
            &&& after.transaction_limits == transaction_limits
            &&& after.last_updated == now
        }),
{
    let r = lookup(s.records, user).unwrap();
    lemma_table_insert::<Vec<u8>, ComplianceRecordModel>(
        s.records,
        user,
        ComplianceRecordModel {
            kyc_level,
            risk_level,
            aml_flags,
            transaction_limits,
            last_updated: now,
            ..r
        },
    );
}

/// The condition names are told apart by their lengths.
proof fn lemma_condition_names()
    ensures
        "HIGH_RISK_SENDER".spec_bytes().len() == 16,
        "HIGH_RISK_RECEIVER".spec_bytes().len() == 18,
        "HIGH_AMOUNT_THRESHOLD".spec_bytes().len() == 21,
        "AML_FLAGGED_SENDER".spec_bytes().len() == 18,
        "AML_FLAGGED_RECEIVER".spec_bytes().len() == 20,
        "CROSS_BORDER_HIGH_VALUE".spec_bytes().len() == 23,
        "AML_FLAGGED_SENDER".spec_bytes() != "HIGH_RISK_RECEIVER".spec_bytes(),
{
    reveal_strlit("HIGH_RISK_SENDER");
    reveal_strlit("HIGH_RISK_RECEIVER");
    reveal_strlit("HIGH_AMOUNT_THRESHOLD");
    reveal_strlit("AML_FLAGGED_SENDER");
    reveal_strlit("AML_FLAGGED_RECEIVER");
    reveal_strlit("CROSS_BORDER_HIGH_VALUE");
    broadcast use vstd::string::is_ascii_spec_bytes;
    assert(vstd::string::is_ascii("HIGH_RISK_SENDER"));
    assert(vstd::string::is_ascii("HIGH_RISK_RECEIVER"));
    assert(vstd::string::is_ascii("HIGH_AMOUNT_THRESHOLD"));
    assert(vstd::string::is_ascii("AML_FLAGGED_SENDER"));
    assert(vstd::string::is_ascii("AML_FLAGGED_RECEIVER"));
    assert(vstd::string::is_ascii("CROSS_BORDER_HIGH_VALUE"));
    assert("AML_FLAGGED_SENDER".spec_bytes()[0] != "HIGH_RISK_RECEIVER".spec_bytes()[0]);
}

/// What each named condition tests of a transfer of `amount` from the user of
/// `from` to the user of `to`: the sender's or the receiver's risk level being
/// high; the amount exceeding the threshold (sixteen big-endian bytes); the
/// sender or the receiver carrying AML flags; or the two users' jurisdictions
/// differing while the amount exceeds the threshold.  A threshold of another
/// length is malformed, and an unknown name never holds.
pub proof fn lemma_condition_meanings(
    value: Seq<u8>,
    from: ComplianceRecordModel,
    to: ComplianceRecordModel,
    amount: i128,
    other: Seq<u8>,
)
    ensures
        condition_holds("HIGH_RISK_SENDER".spec_bytes(), value, from, to, amount) == Ok::<
            bool,
            ComplianceError,
        >(from.risk_level == RiskLevel::High),
        condition_holds("HIGH_RISK_RECEIVER".spec_bytes(), value, from, to, amount) == Ok::<
            bool,
            ComplianceError,
        >(to.risk_level == RiskLevel::High),
        condition_holds("AML_FLAGGED_SENDER".spec_bytes(), value, from, to, amount) == Ok::<
            bool,
            ComplianceError,
        >(from.aml_flags.len() > 0),
        condition_holds("AML_FLAGGED_RECEIVER".spec_bytes(), value, from, to, amount) == Ok::<
            bool,
            ComplianceError,
        >(to.aml_flags.len() > 0),
        value.len() == 16 ==> condition_holds(
            "HIGH_AMOUNT_THRESHOLD".spec_bytes(),
            value,
            from,
            to,
            amount,
        ) == Ok::<bool, ComplianceError>(amount > i128_from_be(value)),
        value.len() == 16 ==> condition_holds(
            "CROSS_BORDER_HIGH_VALUE".spec_bytes(),
            value,
            from,
            to,
            amount,
        ) == Ok::<bool, ComplianceError>(from.jurisdiction != to.jurisdiction && amount
            > i128_from_be(value)),
        value.len() != 16 ==> condition_holds(
            "HIGH_AMOUNT_THRESHOLD".spec_bytes(),
            value,
            from,
            to,
            amount,
        ) == Err::<bool, ComplianceError>(ComplianceError::MalformedCondition),
        value.len() != 16 ==> condition_holds(
            "CROSS_BORDER_HIGH_VALUE".spec_bytes(),
            value,
            from,
            to,
            amount,
        ) == Err::<bool, ComplianceError>(ComplianceError::MalformedCondition),
        (other.len() != 16 && other.len() != 18 && other.len() != 20 && other.len() != 21
            && other.len() != 23) ==> condition_holds(other, value, from, to, amount) == Ok::<
            bool,
            ComplianceError,
        >(false),
{
    lemma_condition_names();
}

/// A transfer between two users of the same jurisdiction never meets a
/// cross-border condition, whatever the amount.
pub proof fn lemma_cross_border_needs_two_jurisdictions(
    value: Seq<u8>,
    from: ComplianceRecordModel,
    to: ComplianceRecordModel,
    amount: i128,
)
    ensures
        condition_holds("CROSS_BORDER_HIGH_VALUE".spec_bytes(), value, from, to, amount) == Ok::<
            bool,
            ComplianceError,
        >(true) ==> from.jurisdiction != to.jurisdiction && amount > i128_from_be(value),
{
    lemma_condition_names();
}

/// A rule whose conditions are all cross-border ones never fires on a transfer
/// within one jurisdiction.
pub proof fn lemma_domestic_transfer_passes_cross_border_rules(
    conds: Seq<(Seq<u8>, Seq<u8>)>,
    from: ComplianceRecordModel,
    to: ComplianceRecordModel,
    amount: i128,
)
    requires
        forall|i: int| 0 <= i < conds.len() ==> (#[trigger] conds[i]).0
            == "CROSS_BORDER_HIGH_VALUE".spec_bytes(),
        from.jurisdiction == to.jurisdiction,
    ensures
        rule_fires(conds, from, to, amount) != Ok::<bool, ComplianceError>(true),
    decreases conds.len(),
{
    if conds.len() > 0 {
        assert(conds[0].0 == "CROSS_BORDER_HIGH_VALUE".spec_bytes());
        lemma_cross_border_needs_two_jurisdictions(conds[0].1, from, to, amount);
        assert forall|i: int| 0 <= i < conds.drop_first().len() implies (
        #[trigger] conds.drop_first()[i]).0 == "CROSS_BORDER_HIGH_VALUE".spec_bytes() by {
            assert(conds.drop_first()[i] == conds[i + 1]);
        }
        lemma_domestic_transfer_passes_cross_border_rules(conds.drop_first(), from, to, amount);
    }
}

} // verus!
