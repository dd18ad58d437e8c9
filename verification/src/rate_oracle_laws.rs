//! What holds of the oracle across its operations.

use vstd::prelude::*;
use vstd::arithmetic::div_mod::{lemma_div_is_ordered, lemma_div_multiples_vanish};
use crate::rate_oracle::{RateOracleModel, ExchangeRateModel, AggregatedRate, OracleError,
    PathResultModel, PrevModel, DistModel, RateSourceModel, weighted_sum, total_confidence, aggregate, walk_back,
    rates_of, relax, relax_all, dist_of, zero_dists, lemma_relax_all_err, lemma_zero_dists};
use crate::table::{lookup, has_key, key_index, table_insert, lemma_table_insert, sorted_by};

verus! {

proof fn lemma_weighted_sum_bounds(l: Seq<ExchangeRateModel>, lo: int, hi: int)
    requires
        forall|i: int| 0 <= i < l.len() ==> lo <= #[trigger] l[i].rate <= hi,
    ensures
        lo * total_confidence(l) <= weighted_sum(l) <= hi * total_confidence(l),
    decreases l.len(),
{
    if l.len() > 0 {
        let p = l.drop_last();
        assert forall|i: int| 0 <= i < p.len() implies lo <= #[trigger] p[i].rate <= hi by {
            assert(p[i] == l[i]);
        }
        lemma_weighted_sum_bounds(p, lo, hi);
        let e = l.last();
        let r = e.rate as int;
        let c = e.confidence as int;
        assert(lo <= r <= hi) by {
            assert(l[l.len() - 1] == e);
        }
        let tp = total_confidence(p) as int;
        let wp = weighted_sum(p) as int;
        assert(total_confidence(l) == tp + c);
        assert(weighted_sum(l) == wp + r * c);
        assert(lo * (tp + c) <= wp + r * c <= hi * (tp + c)) by (nonlinear_arith)
            requires
                lo * tp <= wp <= hi * tp,
                lo <= r <= hi,
                c >= 0,
        ;
    } else {
        assert(total_confidence(l) == 0);
        assert(weighted_sum(l) == 0);
        assert(lo * 0 == 0 && hi * 0 == 0) by (nonlinear_arith);
    }
}

/// A pair's aggregated rate lies between the lowest and the highest rate
/// submitted for it.
pub proof fn lemma_aggregate_within_submitted_rates(
    l: Seq<ExchangeRateModel>,
    now: u64,
    lo: int,
    hi: int,
)
    requires
        forall|i: int| 0 <= i < l.len() ==> lo <= #[trigger] l[i].rate <= hi,
        aggregate(l, now) matches Ok(Some(_)),
    ensures
        lo <= aggregate(l, now).unwrap().unwrap().rate <= hi,
{
    lemma_weighted_sum_bounds(l, lo, hi);
    let ws = weighted_sum(l) as int;
    let tc = total_confidence(l) as int;
    lemma_div_is_ordered(lo * tc, ws, tc);
    lemma_div_is_ordered(ws, hi * tc, tc);
    lemma_div_multiples_vanish(lo, tc);
    lemma_div_multiples_vanish(hi, tc);
    assert(tc * lo == lo * tc) by (nonlinear_arith);
    assert(tc * hi == hi * tc) by (nonlinear_arith);
}

/// A single submission with positive confidence is its pair's rate.
pub proof fn lemma_single_submission_is_the_rate(e: ExchangeRateModel, now: u64)
    requires
        e.confidence > 0,
        (e.rate as nat) * (e.confidence as nat) <= u128::MAX,
    ensures
        aggregate(seq![e], now) matches Ok(Some(a)) && a.rate == e.rate && a.sources_count == 1,
{
    let l = seq![e];
    assert(l.drop_last() =~= Seq::<ExchangeRateModel>::empty());
    assert(l.last() == e);
    assert(weighted_sum(Seq::<ExchangeRateModel>::empty()) == 0);
    assert(total_confidence(Seq::<ExchangeRateModel>::empty()) == 0);
    assert(weighted_sum(l) == (e.rate as nat) * (e.confidence as nat));
    assert(total_confidence(l) == e.confidence);
    assert forall|i: int| 0 <= i < l.len() implies e.rate <= #[trigger] l[i].rate <= e.rate by {
        assert(l[i] == e);
    }
    lemma_aggregate_within_submitted_rates(l, now, e.rate as int, e.rate as int);
}

/// The walk back from `curr` visits `curr` first and ends at `from`.
proof fn lemma_walk_back_ends(prev: PrevModel, from: Seq<u8>, curr: Seq<u8>, fuel: nat)
    requires
        walk_back(prev, from, curr, fuel) is Ok,
    ensures
        walk_back(prev, from, curr, fuel).unwrap().len() >= 1,
        walk_back(prev, from, curr, fuel).unwrap()[0] == curr,
        walk_back(prev, from, curr, fuel).unwrap().last() == from,
    decreases fuel,
{
    if curr != from {
        let p = lookup(prev, curr).unwrap();
        lemma_walk_back_ends(prev, from, p, (fuel - 1) as nat);
        let rest = walk_back(prev, from, p, (fuel - 1) as nat).unwrap();
        assert((seq![curr] + rest).last() == rest.last());
    }
}

/// A path found leads from the source currency to the target currency.
pub proof fn lemma_best_path_endpoints(s: RateOracleModel, from: Seq<u8>, to: Seq<u8>, amount: i128)
    requires
        s.best_path(from, to, amount) is Ok,
    ensures
        s.best_path(from, to, amount).unwrap().path.len() >= 1,
        s.best_path(from, to, amount).unwrap().path[0] == from,
        s.best_path(from, to, amount).unwrap().path.last() == to,
{
    let (d, p) = s.search(from, amount).unwrap();
    lemma_walk_back_ends(p, from, to, p.len());
    let back = walk_back(p, from, to, p.len()).unwrap();
    assert(back.reverse()[0] == back[back.len() - 1]);
    assert(back.reverse()[back.len() - 1] == back[0]);
}

/// The optimal execution yields at least what the best path found yields.
pub proof fn lemma_optimal_at_least_best_path(s: RateOracleModel, from: Seq<u8>, to: Seq<u8>, amount: i128)
    requires
        s.optimal(from, to, amount) is Ok,
    ensures
        s.best_path(from, to, amount) is Ok,
        s.optimal(from, to, amount).unwrap().expected_amount >= s.best_path(
            from,
            to,
            amount,
        ).unwrap().expected_amount,
{
}

/// One relaxation never lowers an amount, keeps the amounts sorted, and leaves
/// the edge's target holding at least the converted amount of its source.
proof fn lemma_relax_grows(d: DistModel, p: PrevModel, e: ((Seq<u8>, Seq<u8>), AggregatedRate))
    requires
        sorted_by::<Vec<u8>, i128>(d),
        relax(Ok((d, p)), e) is Ok,
    ensures
        ({
            let d2 = relax(Ok((d, p)), e).unwrap().0;
            &&& sorted_by::<Vec<u8>, i128>(d2)
            &&& forall|c: Seq<u8>| #[trigger] dist_of(d2, c) >= dist_of(d, c)
            &&& dist_of(d, e.0.0) > 0 ==> dist_of(d2, e.0.1) >= (dist_of(d, e.0.0) * e.1.rate)
                / 1_000_000
        }),
{
    let u = e.0.0;
    let v = e.0.1;
    let ud = dist_of(d, u);
    if ud > 0 {
        let x = (ud * e.1.rate) / 1_000_000;
        assert(x < 0x8000_0000_0000_0000_0000_0000_0000_0000);
        if x > dist_of(d, v) {
            lemma_table_insert::<Vec<u8>, i128>(d, v, x as i128);
            let d2 = table_insert::<Vec<u8>, i128>(d, v, x as i128);
            assert forall|c: Seq<u8>| #[trigger] dist_of(d2, c) >= dist_of(d, c) by {
                if c != v {
                    assert(lookup(d2, c) == lookup(d, c));
                }
            }
        }
    }
}

/// Relaxing a run of edges never lowers an amount and keeps the amounts sorted.
proof fn lemma_relax_all_grows(
    d: DistModel,
    p: PrevModel,
    edges: Seq<((Seq<u8>, Seq<u8>), AggregatedRate)>,
)
    requires
        sorted_by::<Vec<u8>, i128>(d),
        relax_all(Ok((d, p)), edges) is Ok,
    ensures
        ({
            let d2 = relax_all(Ok((d, p)), edges).unwrap().0;
            &&& sorted_by::<Vec<u8>, i128>(d2)
            &&& forall|c: Seq<u8>| #[trigger] dist_of(d2, c) >= dist_of(d, c)
        }),
    decreases edges.len(),
{
    if edges.len() > 0 {
        let r = relax(Ok((d, p)), edges[0]);
        if let Err(x) = r {
            lemma_relax_all_err(x, edges.drop_first());
        }
        lemma_relax_grows(d, p, edges[0]);
        let (d1, p1) = r.unwrap();
        lemma_relax_all_grows(d1, p1, edges.drop_first());
        let d2 = relax_all(Ok((d, p)), edges).unwrap().0;
        assert forall|c: Seq<u8>| #[trigger] dist_of(d2, c) >= dist_of(d, c) by {
            assert(dist_of(d2, c) >= dist_of(d1, c));
        }
    }
}

/// Relaxing a run of edges that holds `u → v`, while `u` holds at least
/// `amount`, leaves `v` holding at least `amount` converted at that edge's rate.
proof fn lemma_relax_all_reaches(
    d: DistModel,
    p: PrevModel,
    edges: Seq<((Seq<u8>, Seq<u8>), AggregatedRate)>,
    k: int,
    amount: int,
)
    requires
        sorted_by::<Vec<u8>, i128>(d),
        relax_all(Ok((d, p)), edges) is Ok,
        0 <= k < edges.len(),
        0 < amount <= dist_of(d, edges[k].0.0),
    ensures
        dist_of(relax_all(Ok((d, p)), edges).unwrap().0, edges[k].0.1) >= (amount
            * edges[k].1.rate) / 1_000_000,
    decreases edges.len(),
{
    let r = relax(Ok((d, p)), edges[0]);
    if let Err(x) = r {
        lemma_relax_all_err(x, edges.drop_first());
    }
    lemma_relax_grows(d, p, edges[0]);
    let (d1, p1) = r.unwrap();
    let rate = edges[k].1.rate as int;
    if k == 0 {
        let ud = dist_of(d, edges[0].0.0) as int;
        assert(amount * rate <= ud * rate) by (nonlinear_arith)
            requires
                0 < amount <= ud,
                rate >= 0,
        ;
        lemma_div_is_ordered(amount * rate, ud * rate, 1_000_000);
        lemma_relax_all_grows(d1, p1, edges.drop_first());
        let d2 = relax_all(Ok((d, p)), edges).unwrap().0;
        assert(dist_of(d2, edges[0].0.1) >= dist_of(d1, edges[0].0.1));
    } else {
        assert(dist_of(d1, edges[k].0.0) >= dist_of(d, edges[k].0.0));
        assert(edges.drop_first()[k - 1] == edges[k]);
        lemma_relax_all_reaches(d1, p1, edges.drop_first(), k - 1, amount);
    }
}

/// Where `amount` is positive, converting it directly at the pair's aggregated
/// rate never yields more than the best path found, so the optimal execution is
/// that path, unchanged.
pub proof fn lemma_direct_never_beats_best_path(
    s: RateOracleModel,
    from: Seq<u8>,
    to: Seq<u8>,
    amount: i128,
)
    requires
        amount > 0,
        s.optimal(from, to, amount) is Ok,
    ensures
        s.best_path(from, to, amount) is Ok,
        s.rate(from, to) is Ok,
        (amount as int) * s.rate(from, to).unwrap().rate / 1_000_000 <= s.best_path(
            from,
            to,
            amount,
        ).unwrap().expected_amount,
        s.optimal(from, to, amount) == s.best_path(from, to, amount),
{
    let a = s.rate(from, to).unwrap();
    let k = key_index(s.aggregated, (from, to));
    assert(has_key(s.aggregated, (from, to)));
    assert(s.aggregated[k] == ((from, to), a));
    lemma_zero_dists(s.currencies);
    lemma_table_insert::<Vec<u8>, i128>(zero_dists(s.currencies), from, amount);
    let d0 = table_insert::<Vec<u8>, i128>(zero_dists(s.currencies), from, amount);
    let p0: PrevModel = Seq::empty();
    assert(dist_of(d0, from) == amount);
    let r1 = relax_all(Ok((d0, p0)), s.aggregated);
    let r2 = relax_all(r1, s.aggregated);
    if let Err(x) = r1 {
        lemma_relax_all_err(x, s.aggregated);
        lemma_relax_all_err(x, s.aggregated);
    }
    if let Err(x) = r2 {
        lemma_relax_all_err(x, s.aggregated);
    }
    lemma_relax_all_reaches(d0, p0, s.aggregated, k, amount as int);
    lemma_relax_all_grows(d0, p0, s.aggregated);
    let (d1, p1) = r1.unwrap();
    lemma_relax_all_grows(d1, p1, s.aggregated);
    let (d2, p2) = r2.unwrap();
    lemma_relax_all_grows(d2, p2, s.aggregated);
    let d3 = s.search(from, amount).unwrap().0;
    assert(dist_of(d3, to) >= dist_of(d2, to));
    assert(dist_of(d2, to) >= dist_of(d1, to));
    let x = (amount as int) * a.rate;
    assert(x / 1_000_000 <= x);
}

/// Every recorded predecessor `u` of a currency `v` is the source of a stored
/// rate `u → v`.
pub open spec fn preds_are_edges(
    p: PrevModel,
    edges: Seq<((Seq<u8>, Seq<u8>), AggregatedRate)>,
) -> bool {
    forall|v: Seq<u8>| #[trigger] has_key(p, v) ==> has_key(edges, (lookup(p, v).unwrap(), v))
}

/// Relaxing a stored rate records only that rate's source as a predecessor.
proof fn lemma_relax_keeps_preds(
    d: DistModel,
    p: PrevModel,
    e: ((Seq<u8>, Seq<u8>), AggregatedRate),
    all: Seq<((Seq<u8>, Seq<u8>), AggregatedRate)>,
)
    requires
        sorted_by::<Vec<u8>, Seq<u8>>(p),
        preds_are_edges(p, all),
        has_key(all, e.0),
        relax(Ok((d, p)), e) is Ok,
    ensures
        sorted_by::<Vec<u8>, Seq<u8>>(relax(Ok((d, p)), e).unwrap().1),
        preds_are_edges(relax(Ok((d, p)), e).unwrap().1, all),
{
    let u = e.0.0;
    let v = e.0.1;
    let p2 = relax(Ok((d, p)), e).unwrap().1;
    if p2 != p {
        assert(p2 == table_insert::<Vec<u8>, Seq<u8>>(p, v, u));
        lemma_table_insert::<Vec<u8>, Seq<u8>>(p, v, u);
        assert forall|c: Seq<u8>| #[trigger] has_key(p2, c) implies has_key(
            all,
            (lookup(p2, c).unwrap(), c),
        ) by {
            if c != v {
                assert(lookup(p2, c) == lookup(p, c));
                assert(has_key(p, c));
            }
        }
    }
}

/// Relaxing a run of stored rates records only stored rates' sources as
/// predecessors.
proof fn lemma_relax_all_keeps_preds(
    d: DistModel,
    p: PrevModel,
    edges: Seq<((Seq<u8>, Seq<u8>), AggregatedRate)>,
    all: Seq<((Seq<u8>, Seq<u8>), AggregatedRate)>,
)
    requires
        sorted_by::<Vec<u8>, Seq<u8>>(p),
        preds_are_edges(p, all),
        forall|i: int| 0 <= i < edges.len() ==> has_key(all, #[trigger] edges[i].0),
        relax_all(Ok((d, p)), edges) is Ok,
    ensures
        sorted_by::<Vec<u8>, Seq<u8>>(relax_all(Ok((d, p)), edges).unwrap().1),
        preds_are_edges(relax_all(Ok((d, p)), edges).unwrap().1, all),
    decreases edges.len(),
{
    if edges.len() > 0 {
        let r = relax(Ok((d, p)), edges[0]);
        if let Err(x) = r {
            lemma_relax_all_err(x, edges.drop_first());
        }
        assert(has_key(all, edges[0].0));
        lemma_relax_keeps_preds(d, p, edges[0], all);
        let (d1, p1) = r.unwrap();
        assert forall|i: int| 0 <= i < edges.drop_first().len() implies has_key(
            all,
            #[trigger] edges.drop_first()[i].0,
        ) by {
            assert(edges.drop_first()[i] == edges[i + 1]);
        }
        lemma_relax_all_keeps_preds(d1, p1, edges.drop_first(), all);
    }
}

/// Each step of a walk back follows a stored rate, from the currency visited
/// next to the one visited before it.
proof fn lemma_walk_back_follows_edges(
    p: PrevModel,
    all: Seq<((Seq<u8>, Seq<u8>), AggregatedRate)>,
    from: Seq<u8>,
    curr: Seq<u8>,
    fuel: nat,
)
    requires
        preds_are_edges(p, all),
        walk_back(p, from, curr, fuel) is Ok,
    ensures
        ({
            let w = walk_back(p, from, curr, fuel).unwrap();
            forall|i: int| 0 <= i < w.len() - 1 ==> has_key(all, (#[trigger] w[i + 1], w[i]))
        }),
    decreases fuel,
{
    if curr != from {
        let pp = lookup(p, curr).unwrap();
        assert(has_key(p, curr));
        lemma_walk_back_follows_edges(p, all, from, pp, (fuel - 1) as nat);
        lemma_walk_back_ends(p, from, pp, (fuel - 1) as nat);
        let rest = walk_back(p, from, pp, (fuel - 1) as nat).unwrap();
        let w = walk_back(p, from, curr, fuel).unwrap();
        assert(w == seq![curr] + rest);
        assert forall|i: int| 0 <= i < w.len() - 1 implies has_key(all, (#[trigger] w[i + 1], w[i])) by {
            if i > 0 {
                assert(w[i] == rest[i - 1]);
                assert(w[i + 1] == rest[i]);
                let i1 = i - 1;
                assert(has_key(all, (rest[i1 + 1], rest[i1])));
            } else {
                assert(w[1] == rest[0]);
                assert(w[0] == curr);
                assert(has_key(all, (pp, curr)));
            }
        }
    }
}

/// Every step of a path found converts at a stored aggregated rate.
pub proof fn lemma_best_path_follows_stored_rates(
    s: RateOracleModel,
    from: Seq<u8>,
    to: Seq<u8>,
    amount: i128,
)
    requires
        s.best_path(from, to, amount) is Ok,
    ensures
        ({
            let path = s.best_path(from, to, amount).unwrap().path;
            forall|j: int|
                0 <= j < path.len() - 1 ==> has_key(s.aggregated, (#[trigger] path[j], path[j + 1]))
        }),
{
    let all = s.aggregated;
    let d0 = table_insert::<Vec<u8>, i128>(zero_dists(s.currencies), from, amount);
    let p0: PrevModel = Seq::empty();
    let r1 = relax_all(Ok((d0, p0)), all);
    let r2 = relax_all(r1, all);
    if let Err(x) = r1 {
        lemma_relax_all_err(x, all);
        lemma_relax_all_err(x, all);
    }
    if let Err(x) = r2 {
        lemma_relax_all_err(x, all);
    }
    assert forall|i: int| 0 <= i < all.len() implies has_key(all, #[trigger] all[i].0) by {}
    lemma_relax_all_keeps_preds(d0, p0, all, all);
    let (d1, p1) = r1.unwrap();
    lemma_relax_all_keeps_preds(d1, p1, all, all);
    let (d2, p2) = r2.unwrap();
    lemma_relax_all_keeps_preds(d2, p2, all, all);
    let p3 = s.search(from, amount).unwrap().1;
    lemma_walk_back_follows_edges(p3, all, from, to, p3.len());
    let back = walk_back(p3, from, to, p3.len()).unwrap();
    let path = s.best_path(from, to, amount).unwrap().path;
    assert(path == back.reverse());
    let n = back.len();
    assert forall|j: int| 0 <= j < path.len() - 1 implies has_key(
        all,
        (#[trigger] path[j], path[j + 1]),
    ) by {
        let i = n - 2 - j;
        assert(path[j] == back[i + 1]);
        assert(path[j + 1] == back[i]);
        assert(has_key(all, (back[i + 1], back[i])));
    }
}

/// What `amount` becomes when converted along the currencies of `w` in turn, at
/// the stored aggregated rates, rounding down at each step.
pub open spec fn walk_amount(
    agg: Seq<((Seq<u8>, Seq<u8>), AggregatedRate)>,
    w: Seq<Seq<u8>>,
    amount: int,
) -> int
    decreases w.len(),
{
    if w.len() <= 1 {
        amount
    } else {
        walk_amount(agg, w.drop_last(), amount) * (lookup(
            agg,
            (w[w.len() - 2], w[w.len() - 1]),
        ).unwrap().rate as int) / 1_000_000
    }
}

/// `w` leads from `from` to `to` in one to three steps, each along a stored
/// aggregated rate.
pub open spec fn is_short_stored_walk(
    agg: Seq<((Seq<u8>, Seq<u8>), AggregatedRate)>,
    w: Seq<Seq<u8>>,
    from: Seq<u8>,
    to: Seq<u8>,
) -> bool {
    &&& 2 <= w.len() <= 4
    &&& w[0] == from
    &&& w.last() == to
    &&& forall|i: int| 0 <= i < w.len() - 1 ==> has_key(agg, (#[trigger] w[i], w[i + 1]))
}

/// One more step of a walk converts what the walk so far yields.
proof fn lemma_walk_amount_step(
    agg: Seq<((Seq<u8>, Seq<u8>), AggregatedRate)>,
    w: Seq<Seq<u8>>,
    amount: int,
    i: int,
)
    requires
        0 <= i < w.len() - 1,
        amount >= 0,
    ensures
        walk_amount(agg, w.take(i + 2), amount) == walk_amount(agg, w.take(i + 1), amount) * (
        lookup(agg, (w[i], w[i + 1])).unwrap().rate as int) / 1_000_000,
        walk_amount(agg, w.take(i + 1), amount) >= 0,
    decreases i,
{
    let t = w.take(i + 2);
    assert(t.drop_last() =~= w.take(i + 1));
    assert(t[t.len() - 2] == w[i]);
    assert(t[t.len() - 1] == w[i + 1]);
    if i == 0 {
        assert(w.take(1).len() == 1);
    } else {
        lemma_walk_amount_step(agg, w, amount, i - 1);
        let x = walk_amount(agg, w.take(i), amount);
        let r = lookup(agg, (w[i - 1], w[i])).unwrap().rate as int;
        assert(x * r >= 0) by (nonlinear_arith)
            requires
                x >= 0,
                r >= 0,
        ;
    }
}

/// One round of relaxing every stored rate carries an amount held in `u` over
/// a stored rate `u → v`.
proof fn lemma_round_carries(
    d: DistModel,
    p: PrevModel,
    all: Seq<((Seq<u8>, Seq<u8>), AggregatedRate)>,
    u: Seq<u8>,
    v: Seq<u8>,
    x: int,
)
    requires
        sorted_by::<Vec<u8>, i128>(d),
        forall|c: Seq<u8>| #[trigger] dist_of(d, c) >= 0,
        relax_all(Ok((d, p)), all) is Ok,
        has_key(all, (u, v)),
        0 <= x <= dist_of(d, u),
    ensures
        ({
            let d2 = relax_all(Ok((d, p)), all).unwrap().0;
            &&& sorted_by::<Vec<u8>, i128>(d2)
            &&& forall|c: Seq<u8>| #[trigger] dist_of(d2, c) >= dist_of(d, c)
            &&& dist_of(d2, v) >= x * (lookup(all, (u, v)).unwrap().rate as int) / 1_000_000
        }),
{
    lemma_relax_all_grows(d, p, all);
    let d2 = relax_all(Ok((d, p)), all).unwrap().0;
    if x > 0 {
        let k = key_index(all, (u, v));
        assert(all[k].0 == (u, v));
        lemma_relax_all_reaches(d, p, all, k, x);
    } else {
        assert(dist_of(d2, v) >= dist_of(d, v));
    }
}

/// Where `amount` is positive, the best path found yields at least what
/// converting along any stored rates in one to three steps yields.
pub proof fn lemma_best_path_beats_short_walks(
    s: RateOracleModel,
    from: Seq<u8>,
    to: Seq<u8>,
    amount: i128,
    w: Seq<Seq<u8>>,
)
    requires
        amount > 0,
        s.best_path(from, to, amount) is Ok,
        is_short_stored_walk(s.aggregated, w, from, to),
    ensures
        walk_amount(s.aggregated, w, amount as int) <= s.best_path(
            from,
            to,
            amount,
        ).unwrap().expected_amount,
{
    let all = s.aggregated;
    let a = amount as int;
    lemma_zero_dists(s.currencies);
    lemma_table_insert::<Vec<u8>, i128>(zero_dists(s.currencies), from, amount);
    let d0 = table_insert::<Vec<u8>, i128>(zero_dists(s.currencies), from, amount);
    assert forall|c: Seq<u8>| #[trigger] dist_of(d0, c) >= 0 by {
        if c != from {
            assert(dist_of(zero_dists(s.currencies), c) == 0);
        }
    }
    let p0: PrevModel = Seq::empty();
    let r1 = relax_all(Ok((d0, p0)), all);
    let r2 = relax_all(r1, all);
    if let Err(x) = r1 {
        lemma_relax_all_err(x, all);
        lemma_relax_all_err(x, all);
    }
    if let Err(x) = r2 {
        lemma_relax_all_err(x, all);
    }
    let (d1, p1) = r1.unwrap();
    let (d2, p2) = r2.unwrap();
    let d3 = s.search(from, amount).unwrap().0;
    let n = w.len();
    assert(w.take(n as int) =~= w);
    lemma_walk_amount_step(all, w, a, 0);
    assert(w.take(1).len() == 1);
    assert(has_key(all, (w[0], w[1])));
    lemma_round_carries(d0, p0, all, w[0], w[1], a);
    let x1 = walk_amount(all, w.take(2), a);
    assert(dist_of(d1, w[1]) >= x1);
    lemma_relax_all_grows(d1, p1, all);
    lemma_relax_all_grows(d2, p2, all);
    if n == 2 {
        assert(dist_of(d3, to) >= dist_of(d2, to));
    } else {
        lemma_walk_amount_step(all, w, a, 1);
        assert(has_key(all, (w[1], w[2])));
        lemma_round_carries(d1, p1, all, w[1], w[2], x1);
        let x2 = walk_amount(all, w.take(3), a);
        assert(dist_of(d2, w[2]) >= x2);
        if n == 3 {
            assert(dist_of(d3, to) >= dist_of(d2, to));
        } else {
            lemma_walk_amount_step(all, w, a, 2);
            assert(has_key(all, (w[2], w[3])));
            lemma_round_carries(d2, p2, all, w[2], w[3], x2);
        }
    }
}

/// The DEX rate is never below the pair's aggregated rate.
pub proof fn lemma_dex_rate_at_least_rate(s: RateOracleModel, from: Seq<u8>, to: Seq<u8>)
    requires
        s.rate(from, to) is Ok,
        s.dex_rate(from, to) is Ok,
    ensures
        s.dex_rate(from, to).unwrap() >= s.rate(from, to).unwrap().rate,
{
}

/// A submission is kept, after the earlier ones for its pair, and the pair's
/// rate is then read as the aggregate of all of them (where a confidence is
/// positive); other pairs read what they read before.
pub proof fn lemma_submit_then_read(
    s: RateOracleModel,
    source: Seq<u8>,
    from: Seq<u8>,
    to: Seq<u8>,
    rate: u128,
    confidence: u8,
    now: u64,
    other_from: Seq<u8>,
    other_to: Seq<u8>,
)
    requires
        s.wf(),
        s.submit(source, from, to, rate, confidence, now) is Ok,
    ensures
        ({
            let t = s.submit(source, from, to, rate, confidence, now).unwrap();
            &&& t.wf()
            &&& rates_of(t.rates, from, to).len() == rates_of(s.rates, from, to).len() + 1
            &&& rates_of(t.rates, from, to).drop_last() == rates_of(s.rates, from, to)
            &&& rates_of(t.rates, from, to).last().rate == rate
            &&& aggregate(rates_of(t.rates, from, to), now) matches Ok(agg)
            &&& (agg matches Some(a) ==> t.rate(from, to) == Ok::<AggregatedRate, OracleError>(a)
                && a.sources_count == rates_of(t.rates, from, to).len())
            &&& ((other_from, other_to) != (from, to) ==> t.rate(other_from, other_to) == s.rate(
                other_from,
                other_to,
            ) && rates_of(t.rates, other_from, other_to) == rates_of(s.rates, other_from, other_to))
        }),
{
    let src = lookup(s.sources, source).unwrap();
    let e = ExchangeRateModel {
        from_currency: from,
        to_currency: to,
        rate,
        timestamp: now,
        source: src.name,
        confidence,
    };
    let l = rates_of(s.rates, from, to).push(e);
    assert(l.drop_last() =~= rates_of(s.rates, from, to));
    lemma_table_insert::<(Vec<u8>, Vec<u8>), Seq<ExchangeRateModel>>(s.rates, (from, to), l);
    match aggregate(l, now) {
        Ok(Some(a)) => {
            lemma_table_insert::<(Vec<u8>, Vec<u8>), AggregatedRate>(s.aggregated, (from, to), a);
        },
        _ => {},
    }
}

/// Aggregation fails only on overflow: where the confidence-weighted sum fits
/// in 128 bits and the total confidence and the count fit in 32 bits, it
/// succeeds.  With some confidence its rate is the weighted sum divided by the
/// total confidence, rounded down, over every submission, and it counts every
/// submission; with none there is no rate.
pub proof fn lemma_aggregate_fails_only_on_overflow(l: Seq<ExchangeRateModel>, now: u64)
    ensures
        aggregate(l, now) is Err <==> (weighted_sum(l) > u128::MAX || total_confidence(l)
            > u32::MAX || l.len() > u32::MAX),
        (aggregate(l, now) is Ok && total_confidence(l) == 0) ==> aggregate(l, now) == Ok::<
            Option<AggregatedRate>,
            OracleError,
        >(None),
        (aggregate(l, now) is Ok && total_confidence(l) > 0) ==> (aggregate(l, now) matches Ok(
            Some(a),
        ) && a.rate as int == weighted_sum(l) as int / total_confidence(l) as int
            && a.weighted_average == a.rate && a.sources_count == l.len() && a.last_updated
            == now),
{
}

/// The sums over the submissions grow by the new submission's rate times its
/// confidence, and by its confidence.
proof fn lemma_sums_push(l: Seq<ExchangeRateModel>, e: ExchangeRateModel)
    ensures
        weighted_sum(l.push(e)) == weighted_sum(l) + (e.rate as nat) * (e.confidence as nat),
        total_confidence(l.push(e)) == total_confidence(l) + e.confidence as nat,
{
    assert(l.push(e).drop_last() =~= l);
}

/// A registered, active source submitting with a confidence of at most one
/// hundred is accepted exactly when the pair's sums, with the new submission,
/// fit: the weighted sum in 128 bits, the total confidence and the count in 32.
pub proof fn lemma_submit_fails_only_when_refused_or_overflowing(
    s: RateOracleModel,
    source: Seq<u8>,
    from: Seq<u8>,
    to: Seq<u8>,
    rate: u128,
    confidence: u8,
    now: u64,
)
    ensures
        s.submit(source, from, to, rate, confidence, now) is Ok <==> ({
            let old_list = rates_of(s.rates, from, to);
            &&& lookup(s.sources, source) matches Some(src) && src.active
            &&& confidence <= 100
            &&& weighted_sum(old_list) + (rate as nat) * (confidence as nat) <= u128::MAX
            &&& total_confidence(old_list) + confidence as nat <= u32::MAX
            &&& old_list.len() + 1 <= u32::MAX
        }),
{
    if let Some(src) = lookup(s.sources, source) {
        let e = ExchangeRateModel {
            from_currency: from,
            to_currency: to,
            rate,
            timestamp: now,
            source: src.name,
            confidence,
        };
        lemma_sums_push(rates_of(s.rates, from, to), e);
    }
}

/// The DEX quote is the pair's aggregated rate plus one percent, rounded down,
/// and zero for a pair without a rate; it fails only where the aggregated rate
/// times 101 overflows 128 bits.
pub proof fn lemma_dex_rate_is_one_percent_over(s: RateOracleModel, from: Seq<u8>, to: Seq<u8>)
    ensures
        lookup(s.aggregated, (from, to)) is None ==> s.dex_rate(from, to) == Ok::<u128, OracleError>(
            0,
        ),
        lookup(s.aggregated, (from, to)) matches Some(a) ==> (a.rate * 101 <= u128::MAX ==> (s.dex_rate(
            from,
            to,
        ) matches Ok(x) && x as int == a.rate * 101 / 100 && x * 100 <= a.rate * 101 < x * 100
            + 100)),
        s.dex_rate(from, to) is Err ==> (lookup(s.aggregated, (from, to)) matches Some(a) && a.rate
            * 101 > u128::MAX),
{
}

/// Adding a source needs an administrator, who authorizes it; the source is
/// then registered at its address, active, with the given name and weight,
/// other sources are untouched, and its name joins the supported currencies
/// unless it is among them already.
pub proof fn lemma_add_source_registers_it_active(
    s: RateOracleModel,
    name: Seq<u8>,
    address: Seq<u8>,
    weight: u8,
)
    requires
        s.wf(),
    ensures
        s.add_source(name, address, weight) is Ok <==> s.admin is Some,
        s.add_source(name, address, weight) matches Ok((t, admin)) ==> {
            &&& admin == s.admin.unwrap()
            &&& lookup(t.sources, address) == Some(
                RateSourceModel { name, address, weight, active: true },
            )
            &&& t.currencies.contains(name)
            &&& (s.currencies.contains(name) ==> t.currencies == s.currencies)
            &&& (!s.currencies.contains(name) ==> t.currencies == s.currencies.push(name))
            &&& forall|a: Seq<u8>| a != address ==> #[trigger] lookup(t.sources, a) == lookup(
                s.sources,
                a,
            )
        },
{
    if s.admin is Some {
        lemma_table_insert::<Vec<u8>, RateSourceModel>(
            s.sources,
            address,
            RateSourceModel { name, address, weight, active: true },
        );
        if !s.currencies.contains(name) {
            assert(s.currencies.push(name)[s.currencies.len() as int] == name);
        }
    }
}

/// Updating a source needs an administrator and a registered source; it sets
/// the weight and the activity and keeps the name and address.
pub proof fn lemma_update_source_sets_weight_and_activity(
    s: RateOracleModel,
    address: Seq<u8>,
    weight: u8,
    active: bool,
)
    requires
        s.wf(),
    ensures
        s.update_source(address, weight, active) is Ok <==> (s.admin is Some && lookup(
            s.sources,
            address,
        ) is Some),
        s.update_source(address, weight, active) matches Ok((t, admin)) ==> {
            let src = lookup(s.sources, address).unwrap();
            &&& admin == s.admin.unwrap()
            &&& lookup(t.sources, address) == Some(
                RateSourceModel { name: src.name, address: src.address, weight, active },
            )
            &&& t.currencies == s.currencies
            &&& t.rates == s.rates
            &&& t.aggregated == s.aggregated
        },
{
    if s.update_source(address, weight, active) is Ok {
        let src = lookup(s.sources, address).unwrap();
        lemma_table_insert::<Vec<u8>, RateSourceModel>(
            s.sources,
            address,
            RateSourceModel { weight, active, ..src },
        );
    }
}

/// The rate of a path found is its output per unit of input, scaled by a
/// million and rounded down.
pub proof fn lemma_best_path_rate_is_output_per_input(
    s: RateOracleModel,
    from: Seq<u8>,
    to: Seq<u8>,
    amount: i128,
)
    requires
        amount > 0,
        s.best_path(from, to, amount) is Ok,
    ensures
        ({
            let p = s.best_path(from, to, amount).unwrap();
            &&& p.expected_amount > 0
            &&& p.rate as int == p.expected_amount as int * 1_000_000 / amount as int
        }),
{
    let all = s.aggregated;
    lemma_zero_dists(s.currencies);
    lemma_table_insert::<Vec<u8>, i128>(zero_dists(s.currencies), from, amount);
    let d0 = table_insert::<Vec<u8>, i128>(zero_dists(s.currencies), from, amount);
    assert forall|c: Seq<u8>| #[trigger] dist_of(d0, c) >= 0 by {
        if c != from {
            assert(dist_of(zero_dists(s.currencies), c) == 0);
        }
    }
    let p0: PrevModel = Seq::empty();
    let r1 = relax_all(Ok((d0, p0)), all);
    let r2 = relax_all(r1, all);
    if let Err(x) = r1 {
        lemma_relax_all_err(x, all);
        lemma_relax_all_err(x, all);
    }
    if let Err(x) = r2 {
        lemma_relax_all_err(x, all);
    }
    lemma_relax_all_grows(d0, p0, all);
    let (d1, p1) = r1.unwrap();
    lemma_relax_all_grows(d1, p1, all);
    let (d2, p2) = r2.unwrap();
    lemma_relax_all_grows(d2, p2, all);
    let d3 = s.search(from, amount).unwrap().0;
    assert(dist_of(d3, to) >= dist_of(d2, to));
    assert(dist_of(d2, to) >= dist_of(d1, to));
    assert(dist_of(d1, to) >= dist_of(d0, to));
}

} // verus!
