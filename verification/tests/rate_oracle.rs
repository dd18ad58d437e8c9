use crossborder::rate_oracle::{OracleError, RateOracleContract};

const NOW: u64 = 12345;

fn sym(s: &str) -> Vec<u8> {
    s.as_bytes().to_vec()
}

/// Fails as the contract does on the host: with the error's message.
fn or_panic<T>(r: Result<T, OracleError>) -> T {
    match r {
        Ok(x) => x,
        Err(OracleError::AdminNotSet) => panic!("Admin not set"),
        Err(OracleError::SourceNotAuthorized) => panic!("Rate source not authorized"),
        Err(OracleError::SourceInactive) => panic!("Rate source is not active"),
        Err(OracleError::ConfidenceOutOfRange) => panic!("Confidence must be between 0 and 100"),
        Err(OracleError::RateNotFound) => panic!("Rate not found for this currency pair"),
        Err(OracleError::SourceNotFound) => panic!("Rate source not found"),
        Err(OracleError::NoPathFound) => panic!("No path found"),
        Err(OracleError::InconsistentPath) => panic!("Inconsistent path"),
        Err(OracleError::PathCycle) => panic!("Path cycle"),
        Err(OracleError::ArithmeticOverflow) => panic!("Arithmetic overflow"),
    }
}

fn setup_test() -> (RateOracleContract, Vec<u8>) {
    let mut c = RateOracleContract::new();
    let admin = sym("GADMIN");
    c.set_admin(admin.clone());
    (c, admin)
}

fn submit(c: &mut RateOracleContract, source: &[u8], from: &str, to: &str, rate: u128, confidence: u8) {
    or_panic(c.submit_rate(&source.to_vec(), sym(from), sym(to), rate, confidence, NOW));
}

#[test]
fn test_submit_and_get_single_rate() {
    let (mut c, admin) = setup_test();
    let source_address = sym("GSOURCE1");
    let source_name = sym("SRC1");

    let authorizer = or_panic(c.add_rate_source(source_name, source_address.clone(), 100));
    assert_eq!(authorizer, admin);

    let from = sym("USD");
    let to = sym("EUR");
    let rate: u128 = 920000; // 0.92
    let confidence: u8 = 90;

    or_panic(c.submit_rate(&source_address, from.clone(), to.clone(), rate, confidence, NOW));

    let aggregated_rate = or_panic(c.get_rate(&from, &to));

    assert_eq!(aggregated_rate.rate, rate);
    assert_eq!(aggregated_rate.sources_count, 1);
    assert_eq!(aggregated_rate.last_updated, 12345);
}

#[test]
fn test_aggregation_with_confidence_weighting() {
    let (mut c, _admin) = setup_test();
    let source1_addr = sym("GSOURCE1");
    let source2_addr = sym("GSOURCE2");

    or_panic(c.add_rate_source(sym("SRC1"), source1_addr.clone(), 50));
    or_panic(c.add_rate_source(sym("SRC2"), source2_addr.clone(), 50));

    // Source 1 submits rate 18.0 with confidence 80
    submit(&mut c, &source1_addr, "USD", "MXN", 18_000_000, 80);
    // Source 2 submits rate 20.0 with confidence 20
    submit(&mut c, &source2_addr, "USD", "MXN", 20_000_000, 20);

    let aggregated_rate = or_panic(c.get_rate(&sym("USD"), &sym("MXN")));

    // (18_000_000 * 80 + 20_000_000 * 20) / (80 + 20) = 18_400_000
    let expected_rate = 18_400_000;

    assert_eq!(aggregated_rate.rate, expected_rate);
    assert_eq!(aggregated_rate.sources_count, 2);
}

#[test]
#[should_panic(expected = "Rate not found for this currency pair")]
fn test_get_rate_for_nonexistent_pair() {
    let (c, _) = setup_test();
    or_panic(c.get_rate(&sym("AAA"), &sym("BBB")));
}

#[test]
#[should_panic(expected = "Rate source not authorized")]
fn test_submit_from_unauthorized_source() {
    let (mut c, _) = setup_test();
    let unauthorized_source = sym("GUNKNOWN");
    submit(&mut c, &unauthorized_source, "USD", "EUR", 920000, 90);
}

#[test]
#[should_panic(expected = "Rate source is not active")]
fn test_submit_from_inactive_source() {
    let (mut c, _) = setup_test();
    let source_addr = sym("GSOURCE1");
    or_panic(c.add_rate_source(sym("SRC1"), source_addr.clone(), 100));
    or_panic(c.update_rate_source(&source_addr, 100, false)); // Deactivate
    submit(&mut c, &source_addr, "USD", "EUR", 920000, 90);
}

// ─── Sources ─────────────────────────────────────────────────────────────

#[test]
fn sources_need_an_admin() {
    let mut c = RateOracleContract::new();
    assert_eq!(c.add_rate_source(sym("SRC1"), sym("GS1"), 1), Err(OracleError::AdminNotSet));
    assert_eq!(c.update_rate_source(&sym("GS1"), 1, true), Err(OracleError::AdminNotSet));
    assert!(c.get_rate_sources().is_empty());
}

#[test]
fn updating_an_unknown_source_fails() {
    let (mut c, _) = setup_test();
    assert_eq!(c.update_rate_source(&sym("GNONE"), 10, true), Err(OracleError::SourceNotFound));
}

#[test]
fn sources_are_listed_by_address_and_names_become_currencies_once() {
    let (mut c, _) = setup_test();
    or_panic(c.add_rate_source(sym("USD"), sym("GB"), 10));
    or_panic(c.add_rate_source(sym("EUR"), sym("GA"), 20));
    or_panic(c.add_rate_source(sym("USD"), sym("GC"), 30));
    or_panic(c.update_rate_source(&sym("GB"), 15, false));

    let sources = c.get_rate_sources();
    assert_eq!(sources.len(), 3);
    assert_eq!(sources[0].address, sym("GA"));
    assert_eq!(sources[0].weight, 20);
    assert_eq!(sources[1].address, sym("GB"));
    assert_eq!(sources[1].weight, 15);
    assert!(!sources[1].active);
    assert_eq!(sources[2].address, sym("GC"));
    assert!(sources[2].active);

    assert_eq!(c.get_supported_currencies(), &vec![sym("USD"), sym("EUR")]);
}

// ─── Submissions ─────────────────────────────────────────────────────────

#[test]
fn confidence_above_one_hundred_is_refused() {
    let (mut c, _) = setup_test();
    or_panic(c.add_rate_source(sym("SRC1"), sym("GS1"), 1));
    let r = c.submit_rate(&sym("GS1"), sym("USD"), sym("EUR"), 920000, 101, NOW);
    assert_eq!(r, Err(OracleError::ConfidenceOutOfRange));
    assert_eq!(c.get_rate(&sym("USD"), &sym("EUR")), Err(OracleError::RateNotFound));
}

#[test]
fn zero_confidence_submissions_leave_no_rate_until_weighted() {
    let (mut c, _) = setup_test();
    or_panic(c.add_rate_source(sym("SRC1"), sym("GS1"), 1));
    submit(&mut c, b"GS1", "USD", "EUR", 900000, 0);
    assert_eq!(c.get_rate(&sym("USD"), &sym("EUR")), Err(OracleError::RateNotFound));
    submit(&mut c, b"GS1", "USD", "EUR", 940000, 50);
    let a = or_panic(c.get_rate(&sym("USD"), &sym("EUR")));
    assert_eq!(a.rate, 940000);
    assert_eq!(a.weighted_average, 940000);
    assert_eq!(a.sources_count, 2);
    assert_eq!(a.deviation_threshold, 10);
}

#[test]
fn aggregate_rounds_down() {
    let (mut c, _) = setup_test();
    or_panic(c.add_rate_source(sym("SRC1"), sym("GS1"), 1));
    submit(&mut c, b"GS1", "USD", "EUR", 10, 1);
    submit(&mut c, b"GS1", "USD", "EUR", 11, 2);
    // (10 + 22) / 3 = 10.67
    assert_eq!(or_panic(c.get_rate(&sym("USD"), &sym("EUR"))).rate, 10);
}

#[test]
fn dex_rate_adds_one_percent() {
    let (mut c, _) = setup_test();
    or_panic(c.add_rate_source(sym("SRC1"), sym("GS1"), 1));
    submit(&mut c, b"GS1", "USD", "EUR", 920000, 90);
    assert_eq!(c.get_dex_rate(&sym("USD"), &sym("EUR")), Ok(929200));
    assert_eq!(c.get_dex_rate(&sym("EUR"), &sym("USD")), Ok(0));
}

// ─── Path search ─────────────────────────────────────────────────────────

fn triangle() -> RateOracleContract {
    let (mut c, _) = setup_test();
    or_panic(c.add_rate_source(sym("USD"), sym("GS1"), 1));
    or_panic(c.add_rate_source(sym("EUR"), sym("GS2"), 1));
    submit(&mut c, b"GS1", "USD", "EUR", 920_000, 100);
    submit(&mut c, b"GS1", "EUR", "MXN", 20_000_000, 100);
    submit(&mut c, b"GS2", "USD", "MXN", 18_000_000, 100);
    c
}

#[test]
fn best_path_goes_through_the_better_hop() {
    let c = triangle();
    let p = or_panic(c.find_best_path(&sym("USD"), &sym("MXN"), 1_000_000));
    assert_eq!(p.path, vec![sym("USD"), sym("EUR"), sym("MXN")]);
    assert_eq!(p.expected_amount, 18_400_000);
    assert_eq!(p.rate, 18_400_000);
}

#[test]
fn best_path_takes_a_direct_rate_when_it_is_better() {
    let (mut c, _) = setup_test();
    or_panic(c.add_rate_source(sym("USD"), sym("GS1"), 1));
    submit(&mut c, b"GS1", "USD", "EUR", 920_000, 100);
    submit(&mut c, b"GS1", "EUR", "MXN", 20_000_000, 100);
    submit(&mut c, b"GS1", "USD", "MXN", 19_000_000, 100);
    let p = or_panic(c.find_best_path(&sym("USD"), &sym("MXN"), 2_000_000));
    assert_eq!(p.path, vec![sym("USD"), sym("MXN")]);
    assert_eq!(p.expected_amount, 38_000_000);
    assert_eq!(p.rate, 19_000_000);
}

#[test]
fn path_to_the_start_is_the_start() {
    let c = triangle();
    let p = or_panic(c.find_best_path(&sym("USD"), &sym("USD"), 500));
    assert_eq!(p.path, vec![sym("USD")]);
    assert_eq!(p.expected_amount, 500);
    assert_eq!(p.rate, 1_000_000);
}

#[test]
fn no_path_where_nothing_is_reached() {
    let c = triangle();
    assert_eq!(c.find_best_path(&sym("USD"), &sym("JPY"), 1_000_000).err(), Some(OracleError::NoPathFound));
    assert_eq!(c.find_best_path(&sym("USD"), &sym("MXN"), 0).err(), Some(OracleError::NoPathFound));
    assert_eq!(c.find_best_path(&sym("MXN"), &sym("USD"), 1_000).err(), Some(OracleError::NoPathFound));
}

#[test]
fn a_predecessor_cycle_is_reported() {
    let (mut c, _) = setup_test();
    or_panic(c.add_rate_source(sym("SRC"), sym("GS1"), 1));
    submit(&mut c, b"GS1", "USD", "A", 1_000_000, 100);
    submit(&mut c, b"GS1", "A", "B", 2_000_000, 100);
    submit(&mut c, b"GS1", "B", "A", 2_000_000, 100);
    assert_eq!(c.find_best_path(&sym("USD"), &sym("B"), 1_000_000).err(), Some(OracleError::PathCycle));
}

#[test]
fn optimal_execution_keeps_the_best_path() {
    let c = triangle();
    let p = or_panic(c.get_optimal_execution(&sym("USD"), &sym("MXN"), 1_000_000));
    assert_eq!(p.path, vec![sym("USD"), sym("EUR"), sym("MXN")]);
    assert_eq!(p.expected_amount, 18_400_000);
}

#[test]
fn optimal_execution_needs_a_direct_rate() {
    let (mut c, _) = setup_test();
    or_panic(c.add_rate_source(sym("USD"), sym("GS1"), 1));
    submit(&mut c, b"GS1", "USD", "EUR", 920_000, 100);
    submit(&mut c, b"GS1", "EUR", "MXN", 20_000_000, 100);
    assert!(c.find_best_path(&sym("USD"), &sym("MXN"), 1_000_000).is_ok());
    assert_eq!(
        c.get_optimal_execution(&sym("USD"), &sym("MXN"), 1_000_000).err(),
        Some(OracleError::RateNotFound)
    );
}

#[test]
fn optimal_execution_is_the_best_path_where_the_direct_rate_wins() {
    let (mut c, _) = setup_test();
    or_panic(c.add_rate_source(sym("USD"), sym("GS1"), 1));
    submit(&mut c, b"GS1", "USD", "EUR", 920_000, 100);
    submit(&mut c, b"GS1", "EUR", "MXN", 20_000_000, 100);
    submit(&mut c, b"GS1", "USD", "MXN", 19_000_000, 100);
    let best = or_panic(c.find_best_path(&sym("USD"), &sym("MXN"), 2_000_000));
    let opt = or_panic(c.get_optimal_execution(&sym("USD"), &sym("MXN"), 2_000_000));
    assert_eq!(opt.path, best.path);
    assert_eq!(opt.expected_amount, best.expected_amount);
    assert_eq!(opt.rate, best.rate);
    assert_eq!(opt.path, vec![sym("USD"), sym("MXN")]);
    assert_eq!(opt.expected_amount, 38_000_000);
    assert_eq!(opt.rate, 19_000_000);
}

#[test]
fn optimal_execution_of_a_rounded_direct_quote_is_the_best_path() {
    let (mut c, _) = setup_test();
    or_panic(c.add_rate_source(sym("USD"), sym("GS1"), 1));
    submit(&mut c, b"GS1", "USD", "EUR", 1_500_000, 100);
    let best = or_panic(c.find_best_path(&sym("USD"), &sym("EUR"), 3));
    let opt = or_panic(c.get_optimal_execution(&sym("USD"), &sym("EUR"), 3));
    assert_eq!(best.expected_amount, 4);
    assert_eq!(opt.path, best.path);
    assert_eq!(opt.expected_amount, best.expected_amount);
    assert_eq!(opt.rate, best.rate);
    assert_eq!(opt.rate, 1_333_333);
}

#[test]
fn each_step_of_the_best_path_is_a_stored_rate() {
    let c = triangle();
    let p = or_panic(c.find_best_path(&sym("USD"), &sym("MXN"), 1_000_000));
    for pair in p.path.windows(2) {
        assert!(c.get_rate(&pair[0], &pair[1]).is_ok());
    }
}

#[test]
fn the_best_path_beats_every_short_walk() {
    let c = triangle();
    let p = or_panic(c.find_best_path(&sym("USD"), &sym("MXN"), 1_000_000));
    let direct = or_panic(c.get_rate(&sym("USD"), &sym("MXN"))).rate;
    let via_eur = or_panic(c.get_rate(&sym("USD"), &sym("EUR"))).rate;
    let eur_mxn = or_panic(c.get_rate(&sym("EUR"), &sym("MXN"))).rate;
    let one_hop = (1_000_000u128 * direct / 1_000_000) as i128;
    let two_hops = ((1_000_000u128 * via_eur / 1_000_000) * eur_mxn / 1_000_000) as i128;
    assert_eq!(one_hop, 18_000_000);
    assert_eq!(two_hops, 18_400_000);
    assert!(p.expected_amount >= one_hop);
    assert!(p.expected_amount >= two_hops);
}
