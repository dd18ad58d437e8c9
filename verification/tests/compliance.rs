use crossborder::compliance::{CheckReason, ComplianceContract, ComplianceError, ComplianceLevel, RiskLevel};
use crossborder::table::Table;
use soroban_sdk::testutils::EnvTestConfig;
use soroban_sdk::{Bytes, Env};

fn test_env() -> Env {
    Env::new_with_config(EnvTestConfig { capture_snapshot_at_drop: false })
}

fn sym(s: &str) -> Vec<u8> {
    s.as_bytes().to_vec()
}

fn setup() -> (ComplianceContract, Vec<u8>) {
    let mut c = ComplianceContract::new();
    let admin = sym("GADMIN");
    c.set_admin(admin.clone());
    (c, admin)
}

fn register_test_user(
    c: &mut ComplianceContract,
    user: &[u8],
    jurisdiction: &str,
    risk: RiskLevel,
    kyc: ComplianceLevel,
) {
    let mut limits: Table<Vec<u8>, i128> = Table::new();
    limits.insert(sym("USD"), 100_000_000);
    limits.insert(sym("EUR"), 80_000_000);
    c.register_user(user.to_vec(), kyc, risk, sym(jurisdiction), Vec::new(), limits, 0)
        .unwrap();
}

fn tx_id(env: &Env, n: u64) -> Vec<u8> {
    let id: [u8; 32] = env.crypto().sha256(&Bytes::from_slice(env, &n.to_be_bytes())).to_array();
    id.to_vec()
}

fn check(
    c: &mut ComplianceContract,
    tx: &[u8],
    from: &[u8],
    to: &[u8],
    amount: i128,
    jf: &str,
    jt: &str,
) -> crossborder::compliance::ComplianceCheck {
    c.check_transaction_compliance(
        tx.to_vec(),
        from.to_vec(),
        to.to_vec(),
        amount,
        sym("USD"),
        sym(jf),
        sym(jt),
        0,
    )
    .unwrap()
}

// ─── Registration ────────────────────────────────────────────────────────

#[test]
fn test_register_user() {
    let (mut c, _admin) = setup();
    let user = sym("GUSER");
    register_test_user(&mut c, &user, "US", RiskLevel::Low, ComplianceLevel::Full);

    let record = c.get_user_compliance(&user).unwrap();
    assert_eq!(record.kyc_level, ComplianceLevel::Full);
    assert_eq!(record.risk_level, RiskLevel::Low);
    assert_eq!(record.jurisdiction, sym("US"));
}

#[test]
fn test_register_user_with_aml_flags() {
    let (mut c, _admin) = setup();
    let user = sym("GUSER");
    let flags = vec![sym("PEP"), sym("SANCTIONS_MATCH")];
    let mut limits: Table<Vec<u8>, i128> = Table::new();
    limits.insert(sym("USD"), 10_000_000);

    c.register_user(user.clone(), ComplianceLevel::Basic, RiskLevel::High, sym("NG"), flags, limits, 0)
        .unwrap();

    let record = c.get_user_compliance(&user).unwrap();
    assert_eq!(record.risk_level, RiskLevel::High);
    assert_eq!(record.aml_flags.len(), 2);
    assert_eq!(record.aml_flags[0], sym("PEP"));
}

#[test]
fn test_register_without_admin_fails() {
    let mut c = ComplianceContract::new();
    let user = sym("GUSER");
    let result = c.register_user(
        user,
        ComplianceLevel::Basic,
        RiskLevel::Low,
        sym("US"),
        Vec::new(),
        Table::new(),
        0,
    );
    assert!(result.is_err());
}

// ─── Compliance updates ──────────────────────────────────────────────────

#[test]
fn test_update_user_compliance() {
    let (mut c, _admin) = setup();
    let user = sym("GUSER");
    register_test_user(&mut c, &user, "US", RiskLevel::Low, ComplianceLevel::Basic);

    let mut new_limits: Table<Vec<u8>, i128> = Table::new();
    new_limits.insert(sym("USD"), 200_000_000);

    c.update_user_compliance(&user, ComplianceLevel::Full, RiskLevel::Medium, Vec::new(), new_limits, 5)
        .unwrap();

    let record = c.get_user_compliance(&user).unwrap();
    assert_eq!(record.kyc_level, ComplianceLevel::Full);
    assert_eq!(record.risk_level, RiskLevel::Medium);
    assert_eq!(record.transaction_limits.get(&sym("USD")), Some(&200_000_000));
}

#[test]
fn test_update_nonexistent_user_fails() {
    let (mut c, _admin) = setup();
    let user = sym("GUSER");
    let result = c.update_user_compliance(
        &user,
        ComplianceLevel::Full,
        RiskLevel::Low,
        Vec::new(),
        Table::new(),
        0,
    );
    assert!(result.is_err());
}

// ─── Transaction compliance ──────────────────────────────────────────────

#[test]
fn test_check_transaction_compliance_approved() {
    let env = test_env();
    let (mut c, _admin) = setup();
    let sender = sym("GSENDER");
    let receiver = sym("GRECEIVER");
    register_test_user(&mut c, &sender, "US", RiskLevel::Low, ComplianceLevel::Full);
    register_test_user(&mut c, &receiver, "US", RiskLevel::Low, ComplianceLevel::Full);

    let tx = tx_id(&env, 1);
    let result = check(&mut c, &tx, &sender, &receiver, 5_000_000, "US", "US");

    assert!(result.approved);
    assert_eq!(result.reason.code(), "APPROVED");
}

#[test]
fn test_check_transaction_unregistered_sender() {
    let env = test_env();
    let (mut c, _admin) = setup();
    let sender = sym("GSENDER");
    let receiver = sym("GRECEIVER");

    let tx = tx_id(&env, 2);
    let result = check(&mut c, &tx, &sender, &receiver, 1_000, "US", "US");

    assert!(!result.approved);
    assert_eq!(result.reason.code(), "SENDER_NOT_REGISTERED");
}

#[test]
fn test_check_transaction_unregistered_receiver() {
    let env = test_env();
    let (mut c, _admin) = setup();
    let sender = sym("GSENDER");
    let receiver = sym("GRECEIVER");
    register_test_user(&mut c, &sender, "US", RiskLevel::Low, ComplianceLevel::Full);

    let tx = tx_id(&env, 3);
    let result = check(&mut c, &tx, &sender, &receiver, 1_000, "US", "US");

    assert!(!result.approved);
    assert_eq!(result.reason.code(), "RECEIVER_NOT_REGISTERED");
}

#[test]
fn test_check_transaction_restricted_user() {
    let env = test_env();
    let (mut c, _admin) = setup();
    let sender = sym("GSENDER");
    let receiver = sym("GRECEIVER");
    register_test_user(&mut c, &sender, "US", RiskLevel::Restricted, ComplianceLevel::Basic);
    register_test_user(&mut c, &receiver, "US", RiskLevel::Low, ComplianceLevel::Full);

    let tx = tx_id(&env, 4);
    let result = check(&mut c, &tx, &sender, &receiver, 1_000, "US", "US");

    assert!(!result.approved);
    assert_eq!(result.reason.code(), "RESTRICTED_USER");
}

#[test]
fn test_check_transaction_exceeds_limit() {
    let env = test_env();
    let (mut c, _admin) = setup();
    let sender = sym("GSENDER");
    let receiver = sym("GRECEIVER");
    register_test_user(&mut c, &sender, "US", RiskLevel::Low, ComplianceLevel::Full);
    register_test_user(&mut c, &receiver, "US", RiskLevel::Low, ComplianceLevel::Full);

    let tx = tx_id(&env, 5);
    let result = check(&mut c, &tx, &sender, &receiver, 999_999_999, "US", "US");

    assert!(!result.approved);
    assert_eq!(result.reason.code(), "EXCEEDS_LIMIT");
}

// ─── Compliance rules ────────────────────────────────────────────────────

#[test]
fn test_add_and_get_compliance_rules() {
    let env = test_env();
    let (mut c, _admin) = setup();

    let mut conditions: Table<Vec<u8>, Vec<u8>> = Table::new();
    conditions.insert(sym("HIGH_AMOUNT_THRESHOLD"), 1_000_000i128.to_be_bytes().to_vec());

    let (rule_id, _) = c
        .add_compliance_rule(
            &env,
            sym("HighValueCheck"),
            sym("Flags transactions over 1000 USD"),
            conditions,
            Table::new(),
            5,
            0,
        )
        .unwrap();

    assert!(rule_id.iter().any(|b| *b != 0));

    let rules = c.get_compliance_rules();
    assert_eq!(rules.len(), 1);
    assert_eq!(rules[0].name, sym("HighValueCheck"));
}

#[test]
fn test_update_compliance_rule_active() {
    let env = test_env();
    let (mut c, _admin) = setup();

    let (rule_id, _) = c
        .add_compliance_rule(&env, sym("TestRule"), sym("A test rule"), Table::new(), Table::new(), 1, 0)
        .unwrap();

    let updated = c.update_compliance_rule(&rule_id, false, 10);
    assert!(updated.is_ok());

    let rules = c.get_compliance_rules();
    let rule = &rules[0];
    assert!(!rule.active);
    assert_eq!(rule.priority, 10);
}

#[test]
fn test_high_priority_rule_triggers_rejection() {
    let env = test_env();
    let (mut c, _admin) = setup();
    let sender = sym("GSENDER");
    let receiver = sym("GRECEIVER");
    register_test_user(&mut c, &sender, "US", RiskLevel::Low, ComplianceLevel::Full);
    register_test_user(&mut c, &receiver, "US", RiskLevel::Low, ComplianceLevel::Full);

    let mut conditions: Table<Vec<u8>, Vec<u8>> = Table::new();
    conditions.insert(sym("HIGH_RISK_SENDER"), Vec::new());

    c.add_compliance_rule(
        &env,
        sym("HighRiskBlock"),
        sym("Blocks high risk senders"),
        conditions,
        Table::new(),
        8,
        0,
    )
    .unwrap();

    let tx = tx_id(&env, 6);
    let result = check(&mut c, &tx, &sender, &receiver, 1_000, "US", "US");

    assert!(!result.approved);
    assert_eq!(result.reason.code(), "HIGH_PRIORITY_RULE_TRIGGERED");
}

// ─── Restricted jurisdictions ────────────────────────────────────────────

#[test]
fn test_add_restricted_jurisdiction() {
    let (mut c, _admin) = setup();

    c.add_restricted_jurisdiction(sym("IR")).unwrap();

    assert!(c.is_jurisdiction_restricted(&sym("IR")));
}

#[test]
fn test_remove_restricted_jurisdiction() {
    let (mut c, _admin) = setup();

    c.add_restricted_jurisdiction(sym("KP")).unwrap();
    assert!(c.is_jurisdiction_restricted(&sym("KP")));

    c.remove_restricted_jurisdiction(&sym("KP")).unwrap();
    assert!(!c.is_jurisdiction_restricted(&sym("KP")));
}

#[test]
fn test_transaction_to_restricted_jurisdiction_denied() {
    let env = test_env();
    let (mut c, _admin) = setup();
    let sender = sym("GSENDER");
    let receiver = sym("GRECEIVER");
    register_test_user(&mut c, &sender, "US", RiskLevel::Low, ComplianceLevel::Full);
    register_test_user(&mut c, &receiver, "IR", RiskLevel::Low, ComplianceLevel::Full);

    c.add_restricted_jurisdiction(sym("IR")).unwrap();

    let tx = tx_id(&env, 7);
    let result = check(&mut c, &tx, &sender, &receiver, 1_000, "US", "IR");

    assert!(!result.approved);
    assert_eq!(result.reason.code(), "RESTRICTED_JURISDICTION");
}

#[test]
fn test_transaction_from_restricted_jurisdiction_denied() {
    let env = test_env();
    let (mut c, _admin) = setup();
    let sender = sym("GSENDER");
    let receiver = sym("GRECEIVER");
    register_test_user(&mut c, &sender, "CU", RiskLevel::Low, ComplianceLevel::Full);
    register_test_user(&mut c, &receiver, "US", RiskLevel::Low, ComplianceLevel::Full);

    c.add_restricted_jurisdiction(sym("CU")).unwrap();

    let tx = tx_id(&env, 8);
    let result = check(&mut c, &tx, &sender, &receiver, 1_000, "CU", "US");

    assert!(!result.approved);
    assert_eq!(result.reason.code(), "RESTRICTED_JURISDICTION");
}

// ─── Transaction history ─────────────────────────────────────────────────

#[test]
fn test_transaction_history_tracks_checks() {
    let env = test_env();
    let (mut c, _admin) = setup();
    let sender = sym("GSENDER");
    let receiver = sym("GRECEIVER");
    register_test_user(&mut c, &sender, "US", RiskLevel::Low, ComplianceLevel::Full);
    register_test_user(&mut c, &receiver, "US", RiskLevel::Low, ComplianceLevel::Full);

    let tx = tx_id(&env, 9);
    check(&mut c, &tx, &sender, &receiver, 5_000_000, "US", "US");

    let sender_history = c.get_transaction_history(&sender);
    assert_eq!(sender_history.len(), 1);
    assert_eq!(sender_history[0].transaction_id, tx);

    let receiver_history = c.get_transaction_history(&receiver);
    assert_eq!(receiver_history.len(), 1);
}

#[test]
fn test_transaction_history_empty_for_new_user() {
    let (mut c, _admin) = setup();
    let user = sym("GUSER");
    register_test_user(&mut c, &user, "US", RiskLevel::Low, ComplianceLevel::Full);

    let history = c.get_transaction_history(&user);
    assert_eq!(history.len(), 0);
}

// ─── Edge cases ──────────────────────────────────────────────────────────

#[test]
fn test_get_nonexistent_user_fails() {
    let (c, _admin) = setup();
    let user = sym("GUSER");
    let result = c.get_user_compliance(&user);
    assert!(result.is_err());
}

#[test]
fn test_duplicate_jurisdiction_not_added() {
    let (mut c, _admin) = setup();

    c.add_restricted_jurisdiction(sym("IR")).unwrap();
    c.add_restricted_jurisdiction(sym("IR")).unwrap();

    assert!(c.is_jurisdiction_restricted(&sym("IR")));
}

// ─── Further cases ───────────────────────────────────────────────────────

#[test]
fn admin_gated_changes_name_the_admin_as_authorizer() {
    let (mut c, admin) = setup();
    let who = c.add_restricted_jurisdiction(sym("IR")).unwrap();
    assert_eq!(who, admin);
    let who = c
        .register_user(sym("GU"), ComplianceLevel::Basic, RiskLevel::Low, sym("US"), Vec::new(), Table::new(), 3)
        .unwrap();
    assert_eq!(who, admin);
}

#[test]
fn registration_dates_come_from_the_ledger_time() {
    let (mut c, _admin) = setup();
    let user = sym("GUSER");
    c.register_user(user.clone(), ComplianceLevel::Basic, RiskLevel::Low, sym("US"), Vec::new(), Table::new(), 100)
        .unwrap();
    c.update_user_compliance(&user, ComplianceLevel::Full, RiskLevel::Low, Vec::new(), Table::new(), 250)
        .unwrap();
    let record = c.get_user_compliance(&user).unwrap();
    assert_eq!(record.registration_date, 100);
    assert_eq!(record.last_updated, 250);
    assert_eq!(record.jurisdiction, sym("US"));
}

#[test]
fn missing_currency_limit_is_zero() {
    let env = test_env();
    let (mut c, _admin) = setup();
    let sender = sym("GSENDER");
    let receiver = sym("GRECEIVER");
    register_test_user(&mut c, &sender, "US", RiskLevel::Low, ComplianceLevel::Full);
    register_test_user(&mut c, &receiver, "US", RiskLevel::Low, ComplianceLevel::Full);
    let result = c
        .check_transaction_compliance(tx_id(&env, 20), sender.clone(), receiver.clone(), 1, sym("GBP"), sym("US"), sym("US"), 0)
        .unwrap();
    assert_eq!(result.reason, CheckReason::ExceedsLimit);
    let result = c
        .check_transaction_compliance(tx_id(&env, 21), sender, receiver, 0, sym("GBP"), sym("US"), sym("US"), 0)
        .unwrap();
    assert_eq!(result.reason, CheckReason::Approved);
}

#[test]
fn restricted_jurisdiction_precedes_registration() {
    let env = test_env();
    let (mut c, _admin) = setup();
    c.add_restricted_jurisdiction(sym("IR")).unwrap();
    let result = check(&mut c, &tx_id(&env, 22), &sym("NOBODY"), &sym("NOONE"), 1, "IR", "US");
    assert_eq!(result.reason, CheckReason::RestrictedJurisdiction);
    assert!(c.get_transaction_history(&sym("NOBODY")).is_empty());
}

fn rule_with(c: &mut ComplianceContract, env: &Env, key: &str, value: Vec<u8>, priority: u8, name: &str) -> Vec<u8> {
    let mut conditions: Table<Vec<u8>, Vec<u8>> = Table::new();
    conditions.insert(sym(key), value);
    c.add_compliance_rule(env, sym(name), sym("test"), conditions, Table::new(), priority, 0)
        .unwrap()
        .0
}

#[test]
fn low_priority_rules_are_recorded_but_do_not_block() {
    let env = test_env();
    let (mut c, _admin) = setup();
    let sender = sym("GSENDER");
    let receiver = sym("GRECEIVER");
    register_test_user(&mut c, &sender, "US", RiskLevel::High, ComplianceLevel::Full);
    register_test_user(&mut c, &receiver, "MX", RiskLevel::Low, ComplianceLevel::Full);
    let r1 = rule_with(&mut c, &env, "HIGH_RISK_SENDER", Vec::new(), 3, "R1");
    let _r2 = rule_with(&mut c, &env, "HIGH_RISK_RECEIVER", Vec::new(), 3, "R2");
    let r3 = rule_with(&mut c, &env, "CROSS_BORDER_HIGH_VALUE", 500i128.to_be_bytes().to_vec(), 2, "R3");
    let _r4 = rule_with(&mut c, &env, "HIGH_AMOUNT_THRESHOLD", 5_000i128.to_be_bytes().to_vec(), 2, "R4");
    let result = check(&mut c, &tx_id(&env, 23), &sender, &receiver, 1_000, "US", "MX");
    assert!(result.approved);
    assert_eq!(result.reason, CheckReason::Approved);
    assert_eq!(result.rules_triggered, vec![r1, r3]);
}

#[test]
fn inactive_rules_are_skipped() {
    let env = test_env();
    let (mut c, _admin) = setup();
    let sender = sym("GSENDER");
    let receiver = sym("GRECEIVER");
    register_test_user(&mut c, &sender, "US", RiskLevel::Low, ComplianceLevel::Full);
    register_test_user(&mut c, &receiver, "US", RiskLevel::Low, ComplianceLevel::Full);
    let r = rule_with(&mut c, &env, "HIGH_RISK_SENDER", Vec::new(), 9, "Block");
    c.update_compliance_rule(&r, false, 9).unwrap();
    let result = check(&mut c, &tx_id(&env, 24), &sender, &receiver, 1_000, "US", "US");
    assert!(result.approved);
    assert!(result.rules_triggered.is_empty());
}

#[test]
fn malformed_threshold_is_refused() {
    let env = test_env();
    let (mut c, _admin) = setup();
    let sender = sym("GSENDER");
    let receiver = sym("GRECEIVER");
    register_test_user(&mut c, &sender, "US", RiskLevel::Low, ComplianceLevel::Full);
    register_test_user(&mut c, &receiver, "US", RiskLevel::Low, ComplianceLevel::Full);
    rule_with(&mut c, &env, "HIGH_AMOUNT_THRESHOLD", vec![1, 2, 3], 1, "Bad");
    let result = c.check_transaction_compliance(
        tx_id(&env, 25),
        sender.clone(),
        receiver,
        10,
        sym("USD"),
        sym("US"),
        sym("US"),
        0,
    );
    assert_eq!(result.err(), Some(ComplianceError::MalformedCondition));
    assert!(c.get_transaction_history(&sender).is_empty());
}

#[test]
fn negative_thresholds_are_read_as_signed() {
    let env = test_env();
    let (mut c, _admin) = setup();
    let sender = sym("GSENDER");
    let receiver = sym("GRECEIVER");
    register_test_user(&mut c, &sender, "US", RiskLevel::Low, ComplianceLevel::Full);
    register_test_user(&mut c, &receiver, "US", RiskLevel::Low, ComplianceLevel::Full);
    let r = rule_with(&mut c, &env, "HIGH_AMOUNT_THRESHOLD", (-5i128).to_be_bytes().to_vec(), 1, "Neg");
    let result = check(&mut c, &tx_id(&env, 26), &sender, &receiver, 0, "US", "US");
    assert_eq!(result.rules_triggered, vec![r]);
}

#[test]
fn updating_an_unknown_rule_fails() {
    let (mut c, _admin) = setup();
    assert_eq!(c.update_compliance_rule(&sym("nope"), true, 1), Err(ComplianceError::RuleNotFound));
}

#[test]
fn history_lists_only_the_users_screenings() {
    let env = test_env();
    let (mut c, _admin) = setup();
    let a = sym("GA");
    let b = sym("GB");
    let d = sym("GD");
    for u in [&a, &b, &d] {
        register_test_user(&mut c, u, "US", RiskLevel::Low, ComplianceLevel::Full);
    }
    check(&mut c, &tx_id(&env, 30), &a, &b, 10, "US", "US");
    check(&mut c, &tx_id(&env, 31), &b, &d, 10, "US", "US");
    check(&mut c, &tx_id(&env, 32), &d, &a, 10, "US", "US");
    let ha = c.get_transaction_history(&a);
    assert_eq!(ha.len(), 2);
    assert_eq!(ha[0].transaction_id, tx_id(&env, 30));
    assert_eq!(ha[1].transaction_id, tx_id(&env, 32));
    assert_eq!(c.get_transaction_history(&b).len(), 2);
}

#[test]
fn rule_ids_are_digests_of_name_description_and_time() {
    let env = test_env();
    let (mut c, _admin) = setup();
    let (id, _) = c
        .add_compliance_rule(&env, sym("N"), sym("D"), Table::new(), Table::new(), 1, 7)
        .unwrap();
    let mut pre: Vec<u8> = Vec::new();
    pre.extend_from_slice(&1u64.to_be_bytes());
    pre.extend_from_slice(b"N");
    pre.extend_from_slice(&1u64.to_be_bytes());
    pre.extend_from_slice(b"D");
    pre.extend_from_slice(&7u64.to_be_bytes());
    let expected: [u8; 32] = env.crypto().sha256(&Bytes::from_slice(&env, &pre)).to_array();
    assert_eq!(id, expected.to_vec());
    assert_ne!(id, pre);
}

#[test]
fn removing_a_jurisdiction_keeps_the_others() {
    let (mut c, _admin) = setup();
    c.add_restricted_jurisdiction(sym("IR")).unwrap();
    c.add_restricted_jurisdiction(sym("KP")).unwrap();
    c.remove_restricted_jurisdiction(&sym("IR")).unwrap();
    assert!(!c.is_jurisdiction_restricted(&sym("IR")));
    assert!(c.is_jurisdiction_restricted(&sym("KP")));
}

#[test]
fn jurisdiction_changes_need_an_admin() {
    let mut c = ComplianceContract::new();
    assert_eq!(c.add_restricted_jurisdiction(sym("IR")), Err(ComplianceError::AdminNotSet));
    assert_eq!(c.remove_restricted_jurisdiction(&sym("IR")), Err(ComplianceError::AdminNotSet));
    assert!(!c.is_jurisdiction_restricted(&sym("IR")));
}
