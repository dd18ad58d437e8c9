//! Exchange-rate oracle: authorized sources submit rates for currency pairs;
//! each pair's rate is the confidence-weighted mean of its submissions; a
//! bounded Bellman-Ford search finds the conversion path with the largest
//! output.
//!
//! Rates are fixed-point numbers with six decimals (1_000_000 is a rate of 1).

use vstd::prelude::*;
use crate::bytes::{byte_list_view, bytes_eq, copy_bytes, list_contains};
use crate::numeric::{wrap_i128, u128_to_i128_wrapping};
use crate::table::{Table, TableKey, lookup, has_key, table_insert, lemma_lookup_at, lemma_reinsert,
    lemma_table_insert, sorted_by};

verus! {

// ─── Data ───────────────────────────────────────────────────────────────────

/// Why an oracle operation was refused.
#[derive(PartialEq, Eq, Structural, Clone, Copy, Debug)]
pub enum OracleError {
    /// No administrator has been set.
    AdminNotSet,
    /// The submitting address is not a registered source.
    SourceNotAuthorized,
    /// The submitting source has been deactivated.
    SourceInactive,
    /// A confidence above 100.
    ConfidenceOutOfRange,
    /// No aggregated rate for the pair.
    RateNotFound,
    /// No source is registered under the address.
    SourceNotFound,
    /// No conversion path yields a non-zero amount.
    NoPathFound,
    /// A currency on the best path has no predecessor recorded.
    InconsistentPath,
    /// The predecessors recorded for the best path run in a cycle.
    PathCycle,
    /// A sum, product or count exceeded its fixed width.
    ArithmeticOverflow,
}

pub struct ExchangeRate {
    pub from_currency: Vec<u8>,
    pub to_currency: Vec<u8>,
    pub rate: u128,
    pub timestamp: u64,
    pub source: Vec<u8>,
    pub confidence: u8,
}

#[verifier::ext_equal]
pub struct ExchangeRateModel {
    pub from_currency: Seq<u8>,
    pub to_currency: Seq<u8>,
    pub rate: u128,
    pub timestamp: u64,
    pub source: Seq<u8>,
    pub confidence: u8,
}

impl View for ExchangeRate {
    type V = ExchangeRateModel;

    open spec fn view(&self) -> ExchangeRateModel {
        ExchangeRateModel {
            from_currency: self.from_currency@,
            to_currency: self.to_currency@,
            rate: self.rate,
            timestamp: self.timestamp,
            source: self.source@,
            confidence: self.confidence,
        }
    }
}

/// The submissions for one currency pair, oldest first.
pub struct RateList {
    pub items: Vec<ExchangeRate>,
}

impl View for RateList {
    type V = Seq<ExchangeRateModel>;

    open spec fn view(&self) -> Seq<ExchangeRateModel> {
        self.items@.map_values(|e: ExchangeRate| e@)
    }
}

pub struct RateSource {
    pub name: Vec<u8>,
    pub address: Vec<u8>,
    pub weight: u8,
    pub active: bool,
}

#[verifier::ext_equal]
pub struct RateSourceModel {
    pub name: Seq<u8>,
    pub address: Seq<u8>,
    pub weight: u8,
    pub active: bool,
}

impl View for RateSource {
    type V = RateSourceModel;

    open spec fn view(&self) -> RateSourceModel {
        RateSourceModel {
            name: self.name@,
            address: self.address@,
            weight: self.weight,
            active: self.active,
        }
    }
}

#[derive(PartialEq, Eq, Structural, Clone, Copy, Debug)]
pub struct AggregatedRate {
    pub rate: u128,
    pub weighted_average: u128,
    pub sources_count: u32,
    pub last_updated: u64,
    pub deviation_threshold: u32,
}

impl View for AggregatedRate {
    type V = AggregatedRate;

    open spec fn view(&self) -> AggregatedRate {
        *self
    }
}

pub struct PathResult {
    pub path: Vec<Vec<u8>>,
    pub expected_amount: i128,
    pub rate: u128,
}

#[verifier::ext_equal]
pub struct PathResultModel {
    pub path: Seq<Seq<u8>>,
    pub expected_amount: i128,
    pub rate: u128,
}

impl View for PathResult {
    type V = PathResultModel;

    open spec fn view(&self) -> PathResultModel {
        PathResultModel {
            path: byte_list_view(self.path@),
            expected_amount: self.expected_amount,
            rate: self.rate,
        }
    }
}

// ─── Aggregation ────────────────────────────────────────────────────────────

/// The sum of rate × confidence over the submissions.
pub open spec fn weighted_sum(l: Seq<ExchangeRateModel>) -> nat
    decreases l.len(),
{
    if l.len() == 0 {
        0
    } else {
        weighted_sum(l.drop_last()) + (l.last().rate as nat) * (l.last().confidence as nat)
    }
}

/// The sum of the confidences of the submissions.
pub open spec fn total_confidence(l: Seq<ExchangeRateModel>) -> nat
    decreases l.len(),
{
    if l.len() == 0 {
        0
    } else {
        total_confidence(l.drop_last()) + l.last().confidence as nat
    }
}

/// The aggregate of a pair's submissions at `now`: the confidence-weighted
/// mean rate (rounded down).  There is none while every confidence is zero.
pub open spec fn aggregate(l: Seq<ExchangeRateModel>, now: u64) -> Result<
    Option<AggregatedRate>,
    OracleError,
> {
    if weighted_sum(l) > u128::MAX || total_confidence(l) > u32::MAX || l.len() > u32::MAX {
        Err(OracleError::ArithmeticOverflow)
    } else if total_confidence(l) == 0 {
        Ok(None)
    } else {
        let r = (weighted_sum(l) / total_confidence(l)) as u128;
        Ok(
            Some(
                AggregatedRate {
                    rate: r,
                    weighted_average: r,
                    sources_count: l.len() as u32,
                    last_updated: now,
                    deviation_threshold: 10,
                },
            ),
        )
    }
}

/// The sums over a prefix of the submissions are no larger than over all of them.
proof fn lemma_sums_monotone(l: Seq<ExchangeRateModel>, j: int)
    requires
        0 <= j <= l.len(),
    ensures
        weighted_sum(l.take(j)) <= weighted_sum(l),
        total_confidence(l.take(j)) <= total_confidence(l),
    decreases l.len() - j,
{
    if j < l.len() {
        lemma_sums_monotone(l, j + 1);
        assert(l.take(j + 1).drop_last() =~= l.take(j));
    } else {
        assert(l.take(j) =~= l);
    }
}

/// The submissions for the pair `(from, to)`, oldest first.
pub open spec fn rates_of(
    t: Seq<((Seq<u8>, Seq<u8>), Seq<ExchangeRateModel>)>,
    from: Seq<u8>,
    to: Seq<u8>,
) -> Seq<ExchangeRateModel> {
    match lookup(t, (from, to)) {
        Some(l) => l,
        None => Seq::empty(),
    }
}

// ─── Path search ────────────────────────────────────────────────────────────

/// The best amount reached in each currency.
pub type DistModel = Seq<(Seq<u8>, i128)>;

/// The currency each best amount was reached from.
pub type PrevModel = Seq<(Seq<u8>, Seq<u8>)>;

/// The best amount reached in `c`: zero where none is recorded.
pub open spec fn dist_of(d: DistModel, c: Seq<u8>) -> i128 {
    match lookup(d, c) {
        Some(x) => x,
        None => 0,
    }
}

/// Every currency of the list at amount zero.
pub open spec fn zero_dists(cs: Seq<Seq<u8>>) -> DistModel
    decreases cs.len(),
{
    if cs.len() == 0 {
        Seq::empty()
    } else {
        table_insert::<Vec<u8>, i128>(zero_dists(cs.drop_last()), cs.last(), 0)
    }
}

/// Relaxes one rate edge `u → v`: where `u` holds a positive amount, converting
/// it at the edge's rate improves `v` if it yields more than `v` holds.  The
/// conversion is computed in 128 unsigned bits and read back as signed.
pub open spec fn relax(
    state: Result<(DistModel, PrevModel), OracleError>,
    edge: ((Seq<u8>, Seq<u8>), AggregatedRate),
) -> Result<(DistModel, PrevModel), OracleError> {
    match state {
        Err(e) => Err(e),
        Ok((d, p)) => {
            let u = edge.0.0;
            let v = edge.0.1;
            let ud = dist_of(d, u);
            if ud <= 0 {
                Ok((d, p))
            } else if ud * edge.1.rate > u128::MAX {
                Err(OracleError::ArithmeticOverflow)
            } else {
                let nd = wrap_i128((ud * edge.1.rate) / 1_000_000);
                if nd > dist_of(d, v) {
                    Ok(
                        (
                            table_insert::<Vec<u8>, i128>(d, v, nd as i128),
                            table_insert::<Vec<u8>, Seq<u8>>(p, v, u),
                        ),
                    )
                } else {
                    Ok((d, p))
                }
            }
        },
    }
}

/// Relaxes the edges in order.
pub open spec fn relax_all(
    state: Result<(DistModel, PrevModel), OracleError>,
    edges: Seq<((Seq<u8>, Seq<u8>), AggregatedRate)>,
) -> Result<(DistModel, PrevModel), OracleError>
    decreases edges.len(),
{
    if edges.len() == 0 {
        state
    } else {
        relax_all(relax(state, edges[0]), edges.drop_first())
    }
}

/// Walks the recorded predecessors back from `curr` to `from`, taking at most
/// `fuel` steps; yields the currencies visited, `curr` first.
pub open spec fn walk_back(prev: PrevModel, from: Seq<u8>, curr: Seq<u8>, fuel: nat) -> Result<
    Seq<Seq<u8>>,
    OracleError,
>
    decreases fuel,
{
    if curr == from {
        Ok(seq![curr])
    } else if fuel == 0 {
        Err(OracleError::PathCycle)
    } else {
        match lookup(prev, curr) {
            None => Err(OracleError::InconsistentPath),
            Some(p) => match walk_back(prev, from, p, (fuel - 1) as nat) {
                Err(e) => Err(e),
                Ok(rest) => Ok(seq![curr] + rest),
            },
        }
    }
}

/// A signed 128-bit number's bit pattern read as unsigned (what `as u128` does).
pub open spec fn unwrap_u128(x: int) -> int {
    if x >= 0 {
        x
    } else {
        x + 0x1_0000_0000_0000_0000_0000_0000_0000_0000
    }
}

// ─── The contract as a state machine ────────────────────────────────────────

#[verifier::ext_equal]
pub struct RateOracleModel {
    pub admin: Option<Seq<u8>>,
    pub sources: Seq<(Seq<u8>, RateSourceModel)>,
    pub rates: Seq<((Seq<u8>, Seq<u8>), Seq<ExchangeRateModel>)>,
    pub aggregated: Seq<((Seq<u8>, Seq<u8>), AggregatedRate)>,
    pub currencies: Seq<Seq<u8>>,
}

impl RateOracleModel {
    /// Every table is ascending by key.
    pub open spec fn wf(self) -> bool {
        &&& sorted_by::<Vec<u8>, RateSourceModel>(self.sources)
        &&& sorted_by::<(Vec<u8>, Vec<u8>), Seq<ExchangeRateModel>>(self.rates)
        &&& sorted_by::<(Vec<u8>, Vec<u8>), AggregatedRate>(self.aggregated)
    }

    /// Registers (or replaces) the source at `address`, active; its name joins
    /// the supported currencies where it is not among them yet.
    pub open spec fn add_source(self, name: Seq<u8>, address: Seq<u8>, weight: u8) -> Result<
        (Self, Seq<u8>),
        OracleError,
    > {
        match self.admin {
            None => Err(OracleError::AdminNotSet),
            Some(admin) => {
                let src = RateSourceModel { name, address, weight, active: true };
                Ok(
                    (
                        RateOracleModel {
                            sources: table_insert::<Vec<u8>, RateSourceModel>(
                                self.sources,
                                address,
                                src,
                            ),
                            currencies: if self.currencies.contains(name) {
                                self.currencies
                            } else {
                                self.currencies.push(name)
                            },
                            ..self
                        },
                        admin,
                    ),
                )
            },
        }
    }

    /// Sets the weight and activity of the source at `address`.
    pub open spec fn update_source(self, address: Seq<u8>, weight: u8, active: bool) -> Result<
        (Self, Seq<u8>),
        OracleError,
    > {
        match self.admin {
            None => Err(OracleError::AdminNotSet),
            Some(admin) => match lookup(self.sources, address) {
                None => Err(OracleError::SourceNotFound),
                Some(src) => Ok(
                    (
                        RateOracleModel {
                            sources: table_insert::<Vec<u8>, RateSourceModel>(
                                self.sources,
                                address,
                                RateSourceModel { weight, active, ..src },
                            ),
                            ..self
                        },
                        admin,
                    ),
                ),
            },
        }
    }

    /// The source at `source` submits `rate` for `(from, to)` at `now`; the
    /// pair's aggregate is recomputed over all its submissions.
    pub open spec fn submit(
        self,
        source: Seq<u8>,
        from: Seq<u8>,
        to: Seq<u8>,
        rate: u128,
        confidence: u8,
        now: u64,
    ) -> Result<Self, OracleError> {
        match lookup(self.sources, source) {
            None => Err(OracleError::SourceNotAuthorized),
            Some(src) => if !src.active {
                Err(OracleError::SourceInactive)
            } else if confidence > 100 {
                Err(OracleError::ConfidenceOutOfRange)
            } else {
                let e = ExchangeRateModel {
                    from_currency: from,
                    to_currency: to,
                    rate,
                    timestamp: now,
                    source: src.name,
                    confidence,
                };
                let l = rates_of(self.rates, from, to).push(e);
                match aggregate(l, now) {
                    Err(x) => Err(x),
                    Ok(agg) => Ok(
                        RateOracleModel {
                            rates: table_insert::<(Vec<u8>, Vec<u8>), Seq<ExchangeRateModel>>(
                                self.rates,
                                (from, to),
                                l,
                            ),
                            aggregated: match agg {
                                Some(a) => table_insert::<(Vec<u8>, Vec<u8>), AggregatedRate>(
                                    self.aggregated,
                                    (from, to),
                                    a,
                                ),
                                None => self.aggregated,
                            },
                            ..self
                        },
                    ),
                }
            },
        }
    }

    /// The aggregated rate of `(from, to)`.
    pub open spec fn rate(self, from: Seq<u8>, to: Seq<u8>) -> Result<AggregatedRate, OracleError> {
        match lookup(self.aggregated, (from, to)) {
            Some(a) => Ok(a),
            None => Err(OracleError::RateNotFound),
        }
    }

    /// The amounts and predecessors after three rounds of relaxing every
    /// aggregated rate, starting from `amount` in `from` and zero elsewhere.
    pub open spec fn search(self, from: Seq<u8>, amount: i128) -> Result<
        (DistModel, PrevModel),
        OracleError,
    > {
        let d0 = table_insert::<Vec<u8>, i128>(zero_dists(self.currencies), from, amount);
        let s0: Result<(DistModel, PrevModel), OracleError> = Ok((d0, Seq::empty()));
        relax_all(relax_all(relax_all(s0, self.aggregated), self.aggregated), self.aggregated)
    }

    /// The conversion of `amount` from `from` to `to` with the largest output
    /// found, its path and its effective rate.
    pub open spec fn best_path(self, from: Seq<u8>, to: Seq<u8>, amount: i128) -> Result<
        PathResultModel,
        OracleError,
    > {
        match self.search(from, amount) {
            Err(e) => Err(e),
            Ok((d, p)) => {
                let best = dist_of(d, to);
                if best == 0 {
                    Err(OracleError::NoPathFound)
                } else {
                    match walk_back(p, from, to, p.len()) {
                        Err(e) => Err(e),
                        Ok(back) => if unwrap_u128(best as int) * 1_000_000 > u128::MAX {
                            Err(OracleError::ArithmeticOverflow)
                        } else {
                            Ok(
                                PathResultModel {
                                    path: back.reverse(),
                                    expected_amount: best,
                                    rate: ((unwrap_u128(best as int) * 1_000_000) / unwrap_u128(
                                        amount as int,
                                    )) as u128,
                                },
                            )
                        },
                    }
                }
            },
        }
    }

    /// The better of the best path found and the direct aggregated rate.
    pub open spec fn optimal(self, from: Seq<u8>, to: Seq<u8>, amount: i128) -> Result<
        PathResultModel,
        OracleError,
    > {
        match self.best_path(from, to, amount) {
            Err(e) => Err(e),
            Ok(best) => match self.rate(from, to) {
                Err(e) => Err(e),
                Ok(direct) => if unwrap_u128(amount as int) * direct.rate > u128::MAX {
                    Err(OracleError::ArithmeticOverflow)
                } else {
                    let direct_amount = wrap_i128(
                        (unwrap_u128(amount as int) * direct.rate) / 1_000_000,
                    );
                    if direct_amount > best.expected_amount {
                        Ok(
                            PathResultModel {
                                path: seq![from, to],
                                expected_amount: direct_amount as i128,
                                rate: direct.rate,
                            },
                        )
                    } else {
                        Ok(best)
                    }
                },
            },
        }
    }

    /// The aggregated rate of `(from, to)` with a one percent premium, or zero
    /// where the pair has none.
    pub open spec fn dex_rate(self, from: Seq<u8>, to: Seq<u8>) -> Result<u128, OracleError> {
        match lookup(self.aggregated, (from, to)) {
            None => Ok(0),
            Some(a) => if a.rate * 101 > u128::MAX {
                Err(OracleError::ArithmeticOverflow)
            } else {
                Ok(((a.rate * 101) / 100) as u128)
            },
        }
    }
}

/// A failed relaxation stays failed.
pub(crate) proof fn lemma_relax_all_err(
    e: OracleError,
    edges: Seq<((Seq<u8>, Seq<u8>), AggregatedRate)>,
)
    ensures
        relax_all(Err(e), edges) == Err::<(DistModel, PrevModel), OracleError>(e),
    decreases edges.len(),
{
    if edges.len() > 0 {
        lemma_relax_all_err(e, edges.drop_first());
    }
}

/// Where no currency holds a positive amount, relaxing changes nothing.
proof fn lemma_relax_all_idle(
    d: DistModel,
    p: PrevModel,
    edges: Seq<((Seq<u8>, Seq<u8>), AggregatedRate)>,
)
    requires
        forall|k: Seq<u8>| #[trigger] dist_of(d, k) <= 0,
    ensures
        relax_all(Ok((d, p)), edges) == Ok::<(DistModel, PrevModel), OracleError>((d, p)),
    decreases edges.len(),
{
    if edges.len() > 0 {
        assert(dist_of(d, edges[0].0.0) <= 0);
        lemma_relax_all_idle(d, p, edges.drop_first());
    }
}

/// The starting amounts are a sorted table that reads zero everywhere.
pub(crate) proof fn lemma_zero_dists(cs: Seq<Seq<u8>>)
    ensures
        sorted_by::<Vec<u8>, i128>(zero_dists(cs)),
        forall|k: Seq<u8>| #[trigger] dist_of(zero_dists(cs), k) == 0,
    decreases cs.len(),
{
    if cs.len() > 0 {
        lemma_zero_dists(cs.drop_last());
        lemma_table_insert::<Vec<u8>, i128>(zero_dists(cs.drop_last()), cs.last(), 0);
        assert forall|k: Seq<u8>| #[trigger] dist_of(zero_dists(cs), k) == 0 by {
            assert(dist_of(zero_dists(cs.drop_last()), k) == 0);
        }
    }
}

/// Starting from nothing, the search finds nothing.
proof fn lemma_search_from_zero(s: RateOracleModel, from: Seq<u8>)
    ensures
        s.search(from, 0) matches Ok((d, _)) && forall|k: Seq<u8>| #[trigger] dist_of(d, k) == 0,
{
    lemma_zero_dists(s.currencies);
    let d0 = table_insert::<Vec<u8>, i128>(zero_dists(s.currencies), from, 0);
    lemma_table_insert::<Vec<u8>, i128>(zero_dists(s.currencies), from, 0);
    assert forall|k: Seq<u8>| #[trigger] dist_of(d0, k) == 0 by {
        if k != from {
            assert(dist_of(zero_dists(s.currencies), k) == 0);
        }
    }
    let p0: PrevModel = Seq::empty();
    lemma_relax_all_idle(d0, p0, s.aggregated);
    lemma_relax_all_idle(d0, p0, s.aggregated);
    lemma_relax_all_idle(d0, p0, s.aggregated);
}

/// The result of walking `rest`, after `acc` was visited.
pub open spec fn after_walk(acc: Seq<Seq<u8>>, rest: Result<Seq<Seq<u8>>, OracleError>) -> Result<
    Seq<Seq<u8>>,
    OracleError,
> {
    match rest {
        Err(e) => Err(e),
        Ok(x) => Ok(acc + x),
    }
}

/// A signed number's bit pattern read as unsigned.
fn i128_to_u128_wrapping(x: i128) -> (r: u128)
    ensures
        r == unwrap_u128(x as int),
{
    if x >= 0 {
        x as u128
    } else {
        ((x + i128::MAX + 1) as u128) + 0x8000_0000_0000_0000_0000_0000_0000_0000
    }
}

/// The list in reverse order.
fn reversed(v: Vec<Vec<u8>>) -> (r: Vec<Vec<u8>>)
    ensures
        byte_list_view(r@) == byte_list_view(v@).reverse(),
{
    let ghost orig = byte_list_view(v@);
    let mut v = v;
    let mut r: Vec<Vec<u8>> = Vec::new();
    while v.len() > 0
        invariant
            orig.len() == v.len() + r.len(),
            byte_list_view(v@) == orig.take(v.len() as int),
            byte_list_view(r@) == orig.reverse().take(r.len() as int),
        decreases v.len(),
    {
        let ghost before_v = v@;
        let ghost before_r = r@;
        let x = v.pop().unwrap();
        proof {
            assert(byte_list_view(v@) =~= byte_list_view(before_v).drop_last());
            assert(x == before_v[before_v.len() - 1]);
            assert(byte_list_view(before_v)[v.len() as int] == x@);
            assert(orig.take(before_v.len() as int)[v.len() as int] == orig[v.len() as int]);
            assert(x@ == orig[v.len() as int]);
        }
        r.push(x);
        proof {
            assert(byte_list_view(v@) =~= orig.take(v.len() as int));
            assert(byte_list_view(r@) =~= byte_list_view(before_r).push(x@));
            assert(orig.reverse()[before_r.len() as int] == orig[v.len() as int]);
            assert(byte_list_view(r@) =~= orig.reverse().take(r.len() as int));
        }
    }
    assert(orig.reverse().take(r.len() as int) =~= orig.reverse());
    r
}

// ─── The contract ───────────────────────────────────────────────────────────

/// The oracle's state.  Its fields are open so that the host can load it from
/// its storage before a call and save it after.
pub struct RateOracleContract {
    pub admin: Option<Vec<u8>>,
    pub sources: Table<Vec<u8>, RateSource>,
    pub rates: Table<(Vec<u8>, Vec<u8>), RateList>,
    pub aggregated: Table<(Vec<u8>, Vec<u8>), AggregatedRate>,
    pub currencies: Vec<Vec<u8>>,
}

impl View for RateOracleContract {
    type V = RateOracleModel;

    closed spec fn view(&self) -> RateOracleModel {
        RateOracleModel {
            admin: match self.admin {
                Some(a) => Some(a@),
                None => None,
            },
            sources: self.sources@,
            rates: self.rates@,
            aggregated: self.aggregated@,
            currencies: byte_list_view(self.currencies@),
        }
    }
}

/// Adds one submission's weighted rate and confidence to the running sums.
fn accumulate(ws: u128, tc: u32, e: &ExchangeRate) -> (r: Option<(u128, u32)>)
    ensures
        match r {
            Some((a, b)) => a == ws + (e.rate as nat) * (e.confidence as nat) && b == tc
                + e.confidence,
            None => ws + (e.rate as nat) * (e.confidence as nat) > u128::MAX || tc + e.confidence
                > u32::MAX,
        },
{
    let term = match e.rate.checked_mul(e.confidence as u128) {
        Some(t) => t,
        None => {
            proof {
                assert((e.rate as nat) * (e.confidence as nat) <= ws + (e.rate as nat) * (
                e.confidence as nat)) by (nonlinear_arith);
            }
            return None;
        },
    };
    let a = match ws.checked_add(term) {
        Some(x) => x,
        None => {
            return None;
        },
    };
    let b = match tc.checked_add(e.confidence as u32) {
        Some(x) => x,
        None => {
            return None;
        },
    };
    Some((a, b))
}

/// The aggregate of `list` followed by `extra`, at `now`.
fn aggregate_with(list: &Vec<ExchangeRate>, extra: &ExchangeRate, now: u64) -> (r: Result<
    Option<AggregatedRate>,
    OracleError,
>)
    ensures
        r == aggregate(list@.map_values(|e: ExchangeRate| e@).push(extra@), now),
{
    let ghost l = list@.map_values(|e: ExchangeRate| e@).push(extra@);
    let n = list.len();
    let mut ws: u128 = 0;
    let mut tc: u32 = 0;
    let mut i: usize = 0;
    assert(l.take(0) =~= Seq::<ExchangeRateModel>::empty());
    while i < n
        invariant
            n == list.len(),
            l == list@.map_values(|e: ExchangeRate| e@).push(extra@),
            i <= n,
            ws == weighted_sum(l.take(i as int)),
            tc == total_confidence(l.take(i as int)),
        decreases n - i,
    {
        let e = &list[i];
        proof {
            assert(l[i as int] == e@);
            assert(l.take(i + 1).drop_last() =~= l.take(i as int));
            assert(l.take(i + 1).last() == e@);
            lemma_sums_monotone(l, i + 1);
        }
        match accumulate(ws, tc, e) {
            Some((a, b)) => {
                ws = a;
                tc = b;
            },
            None => {
                return Err(OracleError::ArithmeticOverflow);
            },
        }
        i = i + 1;
    }
    proof {
        assert(l[n as int] == extra@);
        assert(l.take(n + 1).drop_last() =~= l.take(n as int));
        assert(l.take(n + 1).last() == extra@);
        assert(l.take(n + 1) =~= l);
    }
    match accumulate(ws, tc, extra) {
        Some((a, b)) => {
            ws = a;
            tc = b;
        },
        None => {
            return Err(OracleError::ArithmeticOverflow);
        },
    }
    if n >= 0xffff_ffff {
        return Err(OracleError::ArithmeticOverflow);
    }
    if tc == 0 {
        return Ok(None);
    }
    let rate = ws / (tc as u128);
    Ok(
        Some(
            AggregatedRate {
                rate,
                weighted_average: rate,
                sources_count: (n + 1) as u32,
                last_updated: now,
                deviation_threshold: 10,
            },
        ),
    )
}

impl RateOracleContract {
    /// Every table of the state is ascending by key.
    pub open spec fn wf(&self) -> bool {
        self@.wf()
    }

    /// Brings the tables' ordering into view.
    fn tables_sorted(&self)
        ensures
            self.wf(),
    {
        proof {
            use_type_invariant(&self.sources);
            use_type_invariant(&self.rates);
            use_type_invariant(&self.aggregated);
        }
    }

    /// An oracle with no administrator, sources or rates.
    pub fn new() -> (c: Self)
        ensures
            c.wf(),
            c@ == (RateOracleModel {
                admin: None,
                sources: Seq::empty(),
                rates: Seq::empty(),
                aggregated: Seq::empty(),
                currencies: Seq::empty(),
            }),
    {
        let c = RateOracleContract {
            admin: None,
            sources: Table::new(),
            rates: Table::new(),
            aggregated: Table::new(),
            currencies: Vec::new(),
        };
        assert(c@ =~= RateOracleModel {
            admin: None,
            sources: Seq::empty(),
            rates: Seq::empty(),
            aggregated: Seq::empty(),
            currencies: Seq::empty(),
        });
        c
    }

    /// Sets the administrator.
    pub fn set_admin(&mut self, admin: Vec<u8>)
        ensures
            old(self).wf(),
            final(self).wf(),
            final(self)@ == (RateOracleModel { admin: Some(admin@), ..old(self)@ }),
    {
        self.tables_sorted();
        self.admin = Some(admin);
        assert(self@ =~= RateOracleModel { admin: Some(admin@), ..old(self)@ });
    }

    /// Registers (or replaces) an active source at `address`; its name joins
    /// the supported currencies.  Returns the administrator, who authorizes it.
    pub fn add_rate_source(&mut self, name: Vec<u8>, address: Vec<u8>, weight: u8) -> (r: Result<
        Vec<u8>,
        OracleError,
    >)
        ensures
            old(self).wf(),
            final(self).wf(),
            match (r, old(self)@.add_source(name@, address@, weight)) {
                (Ok(a), Ok((s, admin))) => a@ == admin && final(self)@ == s,
                (Err(e), Err(e2)) => e == e2 && final(self)@ == old(self)@,
                _ => false,
            },
    {
        self.tables_sorted();
        let admin = match &self.admin {
            Some(a) => copy_bytes(a),
            None => {
                return Err(OracleError::AdminNotSet);
            },
        };
        let ghost s0 = self@;
        let src = RateSource {
            name: copy_bytes(&name),
            address: copy_bytes(&address),
            weight,
            active: true,
        };
        self.sources.insert(address, src);
        if !list_contains(&self.currencies, &name) {
            let ghost before = self.currencies@;
            self.currencies.push(name);
            assert(byte_list_view(self.currencies@) =~= byte_list_view(before).push(name@));
        }
        assert(self@ =~= s0.add_source(name@, address@, weight).unwrap().0);
        Ok(admin)
    }

    /// Sets the weight and activity of the source at `address`.  Returns the
    /// administrator, who authorizes it.
    pub fn update_rate_source(&mut self, address: &Vec<u8>, weight: u8, active: bool) -> (r:
        Result<Vec<u8>, OracleError>)
        ensures
            old(self).wf(),
            final(self).wf(),
            match (r, old(self)@.update_source(address@, weight, active)) {
                (Ok(a), Ok((s, admin))) => a@ == admin && final(self)@ == s,
                (Err(e), Err(e2)) => e == e2 && final(self)@ == old(self)@,
                _ => false,
            },
    {
        self.tables_sorted();
        let admin = match &self.admin {
            Some(a) => copy_bytes(a),
            None => {
                return Err(OracleError::AdminNotSet);
            },
        };
        let i = match self.sources.find(address) {
            Some(i) => i,
            None => {
                return Err(OracleError::SourceNotFound);
            },
        };
        let ghost s0 = self@;
        let ghost t = self.sources@;
        proof {
            lemma_lookup_at::<Vec<u8>, RateSourceModel>(t, i as int);
        }
        let (k, mut src) = self.sources.take_at(i);
        src.weight = weight;
        src.active = active;
        proof {
            lemma_reinsert::<Vec<u8>, RateSourceModel>(t, i as int, src@);
        }
        self.sources.put_at(i, k, src);
        assert(self@ =~= s0.update_source(address@, weight, active).unwrap().0);
        Ok(admin)
    }

    /// The registered sources, in address order.
    pub fn get_rate_sources(&self) -> (r: Vec<&RateSource>)
        ensures
            self.wf(),
            r@.map_values(|s: &RateSource| s@) == self@.sources.map_values(
                |e: (Seq<u8>, RateSourceModel)| e.1,
            ),
    {
        self.tables_sorted();
        let ghost t = self@.sources;
        let n = self.sources.len();
        let mut out: Vec<&RateSource> = Vec::new();
        let mut i: usize = 0;
        while i < n
            invariant
                n == t.len(),
                t == self@.sources,
                i <= n,
                out@.map_values(|s: &RateSource| s@) =~= t.map_values(
                    |e: (Seq<u8>, RateSourceModel)| e.1,
                ).take(i as int),
            decreases n - i,
        {
            let s = self.sources.value_at(i);
            let ghost before = out@;
            out.push(s);
            proof {
                let f = |e: (Seq<u8>, RateSourceModel)| e.1;
                assert(t.map_values(f).take(i + 1) =~= t.map_values(f).take(i as int).push(s@));
                assert(out@.map_values(|s: &RateSource| s@) =~= before.map_values(
                    |s: &RateSource| s@,
                ).push(s@));
            }
            i = i + 1;
        }
        out
    }

    /// The currencies known to the path search, in the order they were added.
    pub fn get_supported_currencies(&self) -> (r: &Vec<Vec<u8>>)
        ensures
            self.wf(),
            byte_list_view(r@) == self@.currencies,
    {
        self.tables_sorted();
        &self.currencies
    }

    /// The source at `source` submits `rate` with `confidence` for the pair
    /// `(from_currency, to_currency)` at ledger time `now`; the source
    /// authorizes it.  The pair's aggregate is recomputed.
    pub fn submit_rate(
        &mut self,
        source: &Vec<u8>,
        from_currency: Vec<u8>,
        to_currency: Vec<u8>,
        rate: u128,
        confidence: u8,
        now: u64,
    ) -> (r: Result<(), OracleError>)
        ensures
            old(self).wf(),
            final(self).wf(),
            match old(self)@.submit(source@, from_currency@, to_currency@, rate, confidence, now) {
                Ok(s) => r is Ok && final(self)@ == s,
                Err(e) => r == Err::<(), OracleError>(e) && final(self)@ == old(self)@,
            },
    {
        self.tables_sorted();
        let src = match self.sources.get(source) {
            Some(s) => s,
            None => {
                return Err(OracleError::SourceNotAuthorized);
            },
        };
        if !src.active {
            return Err(OracleError::SourceInactive);
        }
        if confidence > 100 {
            return Err(OracleError::ConfidenceOutOfRange);
        }
        let entry = ExchangeRate {
            from_currency: copy_bytes(&from_currency),
            to_currency: copy_bytes(&to_currency),
            rate,
            timestamp: now,
            source: copy_bytes(&src.name),
            confidence,
        };
        let pair = (from_currency, to_currency);
        let ghost s0 = self@;
        let ghost l = rates_of(s0.rates, pair.0@, pair.1@).push(entry@);
        let pos = self.rates.find(&pair);
        let agg = match pos {
            Some(i) => {
                proof {
                    lemma_lookup_at::<(Vec<u8>, Vec<u8>), Seq<ExchangeRateModel>>(
                        s0.rates,
                        i as int,
                    );
                }
                aggregate_with(&self.rates.value_at(i).items, &entry, now)
            },
            None => {
                let empty: Vec<ExchangeRate> = Vec::new();
                assert(empty@.map_values(|e: ExchangeRate| e@) =~= Seq::<ExchangeRateModel>::empty());
                aggregate_with(&empty, &entry, now)
            },
        };
        let agg = match agg {
            Ok(a) => a,
            Err(e) => {
                return Err(e);
            },
        };
        let key = pair.clone_key();
        match pos {
            Some(i) => {
                let ghost t = self.rates@;
                let (k, mut list) = self.rates.take_at(i);
                let ghost before = list.items@;
                list.items.push(entry);
                assert(list@ =~= l);
                proof {
                    lemma_reinsert::<(Vec<u8>, Vec<u8>), Seq<ExchangeRateModel>>(t, i as int, l);
                }
                self.rates.put_at(i, k, list);
            },
            None => {
                let mut items: Vec<ExchangeRate> = Vec::new();
                items.push(entry);
                let list = RateList { items };
                assert(list@ =~= l);
                self.rates.insert(pair, list);
            },
        }
        match agg {
            Some(a) => {
                self.aggregated.insert(key, a);
            },
            None => {},
        }
        assert(self@ =~= s0.submit(source@, key@.0, key@.1, rate, confidence, now).unwrap());
        Ok(())
    }

    /// The aggregated rate of `(from_currency, to_currency)`.
    pub fn get_rate(&self, from_currency: &Vec<u8>, to_currency: &Vec<u8>) -> (r: Result<
        AggregatedRate,
        OracleError,
    >)
        ensures
            self.wf(),
            r == self@.rate(from_currency@, to_currency@),
    {
        self.tables_sorted();
        let pair = (copy_bytes(from_currency), copy_bytes(to_currency));
        match self.aggregated.get(&pair) {
            Some(a) => Ok(*a),
            None => Err(OracleError::RateNotFound),
        }
    }

    /// The aggregated rate of `(from, to)` with a one percent premium, or zero
    /// where the pair has none.
    pub fn get_dex_rate(&self, from: &Vec<u8>, to: &Vec<u8>) -> (r: Result<u128, OracleError>)
        ensures
            self.wf(),
            r == self@.dex_rate(from@, to@),
    {
        self.tables_sorted();
        let pair = (copy_bytes(from), copy_bytes(to));
        match self.aggregated.get(&pair) {
            None => Ok(0),
            Some(a) => match a.rate.checked_mul(101) {
                Some(x) => Ok(x / 100),
                None => Err(OracleError::ArithmeticOverflow),
            },
        }
    }

    /// Relaxes every aggregated rate once, in key order.
    fn relax_round(&self, dist: &mut Table<Vec<u8>, i128>, prev: &mut Table<Vec<u8>, Vec<u8>>) -> (r:
        Result<(), OracleError>)
        ensures
            match relax_all(Ok((old(dist)@, old(prev)@)), self@.aggregated) {
                Ok((d, p)) => r is Ok && final(dist)@ == d && final(prev)@ == p,
                Err(e) => r == Err::<(), OracleError>(e),
            },
    {
        let ghost edges = self@.aggregated;
        let ghost start = relax_all(Ok((dist@, prev@)), edges);
        let n = self.aggregated.len();
        let mut i: usize = 0;
        assert(edges.skip(0) =~= edges);
        while i < n
            invariant
                n == edges.len(),
                edges == self@.aggregated,
                i <= n,
                start == relax_all(Ok((dist@, prev@)), edges.skip(i as int)),
                start == relax_all(Ok((old(dist)@, old(prev)@)), edges),
            decreases n - i,
        {
            let key = self.aggregated.key_at(i);
            let edge = self.aggregated.value_at(i);
            let ghost st: Result<(DistModel, PrevModel), OracleError> = Ok((dist@, prev@));
            proof {
                assert(edges.skip(i as int)[0] == edges[i as int]);
                assert(edges.skip(i as int).drop_first() =~= edges.skip(i + 1));
                assert(edges[i as int] == (key@, *edge));
            }
            let ud = match dist.get(&key.0) {
                Some(x) => *x,
                None => 0,
            };
            if ud > 0 {
                match (ud as u128).checked_mul(edge.rate) {
                    None => {
                        proof {
                            assert(ud == dist_of(dist@, key@.0));
                            assert(relax(st, edges[i as int]) == Err::<(DistModel, PrevModel), OracleError>(
                                OracleError::ArithmeticOverflow,
                            ));
                            lemma_relax_all_err(OracleError::ArithmeticOverflow, edges.skip(i + 1));
                            assert(start == relax_all(
                                relax(st, edges.skip(i as int)[0]),
                                edges.skip(i as int).drop_first(),
                            ));
                        }
                        return Err(OracleError::ArithmeticOverflow);
                    },
                    Some(prod) => {
                        let nd = u128_to_i128_wrapping(prod / 1_000_000);
                        let vd = match dist.get(&key.1) {
                            Some(x) => *x,
                            None => 0,
                        };
                        if nd > vd {
                            dist.insert(copy_bytes(&key.1), nd);
                            prev.insert(copy_bytes(&key.1), copy_bytes(&key.0));
                        }
                    },
                }
            }
            i = i + 1;
        }
        proof {
            assert(edges.skip(n as int).len() == 0);
        }
        Ok(())
    }

    /// The conversion of `amount` from `from` to `to` with the largest output
    /// found in three rounds of relaxing every aggregated rate, with its path
    /// and effective rate.
    pub fn find_best_path(&self, from: &Vec<u8>, to: &Vec<u8>, amount: i128) -> (r: Result<
        PathResult,
        OracleError,
    >)
        ensures
            self.wf(),
            match (r, self@.best_path(from@, to@, amount)) {
                (Ok(x), Ok(m)) => x@ == m,
                (Err(e), Err(e2)) => e == e2,
                _ => false,
            },
    {
        self.tables_sorted();
        let ghost cs = self@.currencies;
        let mut dist: Table<Vec<u8>, i128> = Table::new();
        let n = self.currencies.len();
        let mut i: usize = 0;
        assert(cs.take(0) =~= Seq::<Seq<u8>>::empty());
        while i < n
            invariant
                self.wf(),
                n == cs.len(),
                cs == self@.currencies,
                i <= n,
                dist@ == zero_dists(cs.take(i as int)),
            decreases n - i,
        {
            proof {
                assert(cs.take(i + 1).drop_last() =~= cs.take(i as int));
                assert(cs.take(i + 1).last() == self.currencies@[i as int]@);
            }
            dist.insert(copy_bytes(&self.currencies[i]), 0);
            i = i + 1;
        }
        assert(cs.take(n as int) =~= cs);
        dist.insert(copy_bytes(from), amount);
        let mut prev: Table<Vec<u8>, Vec<u8>> = Table::new();
        let ghost s0: Result<(DistModel, PrevModel), OracleError> = Ok((dist@, prev@));
        let ghost edges = self@.aggregated;
        let ghost r1 = relax_all(s0, edges);
        let ghost r2 = relax_all(r1, edges);
        match self.relax_round(&mut dist, &mut prev) {
            Ok(()) => {},
            Err(e) => {
                proof {
                    lemma_relax_all_err(e, edges);
                    lemma_relax_all_err(e, edges);
                }
                return Err(e);
            },
        }
        match self.relax_round(&mut dist, &mut prev) {
            Ok(()) => {},
            Err(e) => {
                proof {
                    lemma_relax_all_err(e, edges);
                }
                return Err(e);
            },
        }
        match self.relax_round(&mut dist, &mut prev) {
            Ok(()) => {},
            Err(e) => {
                return Err(e);
            },
        }
        let ghost pm = prev@;
        let ghost dm = dist@;
        let best = match dist.get(to) {
            Some(x) => *x,
            None => 0,
        };
        if best == 0 {
            return Err(OracleError::NoPathFound);
        }
        let mut acc: Vec<Vec<u8>> = Vec::new();
        let mut curr = copy_bytes(to);
        let mut fuel = prev.len();
        assert(byte_list_view(acc@) =~= Seq::<Seq<u8>>::empty());
        assert(after_walk(Seq::empty(), walk_back(pm, from@, to@, pm.len())) =~= walk_back(
            pm,
            from@,
            to@,
            pm.len(),
        ));
        while !bytes_eq(&curr, from)
            invariant
                self.wf(),
                pm == prev@,
                self@.search(from@, amount) == Ok::<(DistModel, PrevModel), OracleError>((dm, pm)),
                best == dist_of(dm, to@),
                best != 0,
                walk_back(pm, from@, to@, pm.len()) == after_walk(
                    byte_list_view(acc@),
                    walk_back(pm, from@, curr@, fuel as nat),
                ),
            decreases fuel,
        {
            if fuel == 0 {
                return Err(OracleError::PathCycle);
            }
            let p = match prev.get(&curr) {
                Some(p) => copy_bytes(p),
                None => {
                    return Err(OracleError::InconsistentPath);
                },
            };
            let ghost before = byte_list_view(acc@);
            let ghost c = curr@;
            acc.push(curr);
            proof {
                assert(byte_list_view(acc@) =~= before.push(c));
                match walk_back(pm, from@, p@, (fuel - 1) as nat) {
                    Ok(x) => {
                        assert(before + (seq![c] + x) =~= before.push(c) + x);
                    },
                    Err(_) => {},
                }
            }
            curr = p;
            fuel = fuel - 1;
        }
        let ghost before = byte_list_view(acc@);
        let ghost c = curr@;
        acc.push(curr);
        assert(byte_list_view(acc@) =~= before + seq![c]);
        let path = reversed(acc);
        let best_bits = i128_to_u128_wrapping(best);
        let scaled = match best_bits.checked_mul(1_000_000) {
            Some(x) => x,
            None => {
                return Err(OracleError::ArithmeticOverflow);
            },
        };
        proof {
            if amount == 0 {
                lemma_search_from_zero(self@, from@);
            }
        }
        let divisor = i128_to_u128_wrapping(amount);
        Ok(PathResult { path, expected_amount: best, rate: scaled / divisor })
    }

    /// The better of the best path found and converting directly at the
    /// pair's aggregated rate.
    pub fn get_optimal_execution(&self, from: &Vec<u8>, to: &Vec<u8>, amount: i128) -> (r: Result<
        PathResult,
        OracleError,
    >)
        ensures
            self.wf(),
            match (r, self@.optimal(from@, to@, amount)) {
                (Ok(x), Ok(m)) => x@ == m,
                (Err(e), Err(e2)) => e == e2,
                _ => false,
            },
    {
        self.tables_sorted();
        let best = match self.find_best_path(from, to, amount) {
            Ok(b) => b,
            Err(e) => {
                return Err(e);
            },
        };
        let direct = match self.get_rate(from, to) {
            Ok(d) => d,
            Err(e) => {
                return Err(e);
            },
        };
        let scaled = match i128_to_u128_wrapping(amount).checked_mul(direct.rate) {
            Some(x) => x,
            None => {
                return Err(OracleError::ArithmeticOverflow);
            },
        };
        let direct_amount = u128_to_i128_wrapping(scaled / 1_000_000);
        if direct_amount > best.expected_amount {
            let mut path: Vec<Vec<u8>> = Vec::new();
            path.push(copy_bytes(from));
            path.push(copy_bytes(to));
            assert(byte_list_view(path@) =~= seq![from@, to@]);
            Ok(PathResult { path, expected_amount: direct_amount, rate: direct.rate })
        } else {
            Ok(best)
        }
    }
}

} // verus!
