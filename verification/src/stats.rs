//! Race statistics over the observed signatures: who delivered each
//! signature first, by how much the others lagged, and how endpoints fare
//! against each other pairwise.

use vstd::prelude::*;
use vstd::relations::sorted_by;
use crate::config::{Endpoint, EndpointView};
use crate::observation::{EndpointKey, EndpointObservation, KeyView, TxObservation, TxView, has_key, obs_of, keys_distinct, key_lt, lemma_key_lt_order, lemma_obs_of_index, find_key};
use crate::text::text_lt;

verus! {

// ---------------------------------------------------------------------------
// Time differences and percentiles

/// `later - earlier` in microseconds; a difference that does not fit an
/// `i64` reads as `i64::MAX`.
pub open spec fn span_us(later: i64, earlier: i64) -> i64 {
    let d = later - earlier;
    if i64::MIN <= d <= i64::MAX {
        d as i64
    } else {
        i64::MAX
    }
}

/// `later - earlier` in microseconds, `i64::MAX` when it does not fit.
pub fn duration_us(later: i64, earlier: i64) -> (res: i64)
    ensures
        res == span_us(later, earlier),
{
    let d: i128 = later as i128 - earlier as i128;
    if d <= i64::MAX as i128 && d >= i64::MIN as i128 {
        d as i64
    } else {
        i64::MAX
    }
}

/// Ascending order on `i64`.
pub open spec fn i64_le() -> spec_fn(i64, i64) -> bool {
    |a: i64, b: i64| a <= b
}

/// `s` sorted ascending.
pub open spec fn sorted_i64(s: Seq<i64>) -> Seq<i64> {
    s.sort_by(i64_le())
}

/// The element at `percent` percent of a sorted sequence: the one at index
/// `(len - 1) * percent / 100`, rounded half up; none when it is empty.
pub open spec fn percentile_of(s: Seq<i64>, percent: nat) -> Option<i64> {
    if s.len() == 0 {
        None
    } else {
        Some(s[(((s.len() - 1) * percent + 50) / 100) as int])
    }
}

/// The element at `percent` percent of the sorted `values`, `None` when
/// empty.  The index `(len - 1) * percent / 100` is rounded half up, as the
/// float computation `((len - 1) as f64 * p).round()` does for the lengths
/// allowed here.
pub fn percentile_sorted(values: &[i64], percent: u64) -> (res: Option<i64>)
    requires
        percent <= 100,
        values@.len() <= 0x1_0000_0000_0000,
    ensures
        res == percentile_of(values@, percent as nat),
{
    if values.len() == 0 {
        return None;
    }
    let k: u64 = (values.len() - 1) as u64;
    assert(k * percent <= k * 100) by (nonlinear_arith)
        requires percent <= 100;
    let idx: u64 = (k * percent + 50) / 100;
    assert(idx <= k);
    Some(values[idx as usize])
}

/// Sorts `values` ascending (`slice::sort_unstable`).
#[verifier::external_body]
fn sort_values(values: &mut Vec<i64>)
    ensures
        final(values)@.to_multiset() == old(values)@.to_multiset(),
        sorted_by(final(values)@, i64_le()),
{
    values.sort_unstable();
}

/// `values` sorted ascending.
pub fn sort_i64(values: &mut Vec<i64>)
    ensures
        final(values)@ == sorted_i64(old(values)@),
        final(values)@.len() == old(values)@.len(),
{
    let ghost before = values@;
    sort_values(values);
    proof {
        vstd::seq_lib::to_multiset_len(before);
        vstd::seq_lib::to_multiset_len(values@);
        assert(vstd::relations::total_ordering(i64_le()));
        before.lemma_sort_by_ensures(i64_le());
        vstd::seq_lib::lemma_sorted_unique(values@, sorted_i64(before), i64_le());
    }
}

/// The earlier of the current earliest time and `next`.
pub fn min_opt(current: Option<i64>, next: i64) -> (res: Option<i64>)
    ensures
        res == Some(match current {
            Some(c) => if next < c { next } else { c },
            None => next,
        }),
{
    match current {
        Some(c) => Some(if next < c { next } else { c }),
        None => Some(next),
    }
}

/// The later of the current latest time and `next`.
pub fn max_opt(current: Option<i64>, next: i64) -> (res: Option<i64>)
    ensures
        res == Some(match current {
            Some(c) => if next > c { next } else { c },
            None => next,
        }),
{
    match current {
        Some(c) => Some(if next > c { next } else { c }),
        None => Some(next),
    }
}

// ---------------------------------------------------------------------------
// The race a signature runs

/// The receive time of an observation.
pub open spec fn time_of(o: EndpointObservation) -> i64 {
    o.first.received_at_us
}

/// Whether a signature races: at least two endpoints delivered it.
pub open spec fn is_race(t: TxView) -> bool {
    t.len() >= 2
}

/// The index of the winning sighting: the earliest receive time, the first
/// such sighting on a tie.
pub open spec fn first_min(t: TxView) -> int
    decreases t.len(),
{
    if t.len() <= 1 {
        0
    } else {
        let j = first_min(t.drop_last());
        if time_of(t.last().1) < time_of(t[j].1) {
            t.len() - 1
        } else {
            j
        }
    }
}

pub proof fn lemma_first_min_bounds(t: TxView)
    requires
        t.len() >= 1,
    ensures
        0 <= first_min(t) < t.len(),
        forall|i: int| 0 <= i < t.len() ==> time_of(t[first_min(t)].1) <= #[trigger] time_of(t[i].1),
        forall|i: int| 0 <= i < first_min(t) ==> time_of(t[first_min(t)].1) < #[trigger] time_of(t[i].1),
    decreases t.len(),
{
    if t.len() > 1 {
        lemma_first_min_bounds(t.drop_last());
        assert forall|i: int| 0 <= i < t.len() - 1 implies #[trigger] t[i] == t.drop_last()[i] by {}
    }
}

/// The winning endpoint of a race.
pub open spec fn winner_key(t: TxView) -> KeyView {
    t[first_min(t)].0
}

/// The winning time of a race.
pub open spec fn winner_time(t: TxView) -> i64 {
    time_of(t[first_min(t)].1)
}

/// The sightings of each signature.
pub open spec fn txs_view(obs: Seq<(String, TxObservation)>) -> Seq<TxView> {
    obs.map_values(|e: (String, TxObservation)| e.1@)
}

// ---------------------------------------------------------------------------
// Per-endpoint tallies over a run of signatures

/// Signatures that endpoint `k` delivered.
pub open spec fn unique_count(txs: Seq<TxView>, k: KeyView) -> nat
    decreases txs.len(),
{
    if txs.len() == 0 {
        0
    } else {
        unique_count(txs.drop_last(), k) + if has_key(txs.last(), k) { 1nat } else { 0nat }
    }
}

/// Repeated deliveries by endpoint `k`.
pub open spec fn duplicate_sum(txs: Seq<TxView>, k: KeyView) -> nat
    decreases txs.len(),
{
    if txs.len() == 0 {
        0
    } else {
        duplicate_sum(txs.drop_last(), k) + if has_key(txs.last(), k) {
            obs_of(txs.last(), k).duplicates as nat
        } else {
            0nat
        }
    }
}

/// Races that endpoint `k` won.
pub open spec fn win_count(txs: Seq<TxView>, k: KeyView) -> nat
    decreases txs.len(),
{
    if txs.len() == 0 {
        0
    } else {
        win_count(txs.drop_last(), k) + if is_race(txs.last()) && winner_key(txs.last()) == k {
            1nat
        } else {
            0nat
        }
    }
}

/// Races among `n` endpoints that endpoint `k` won.
pub open spec fn full_win_count(txs: Seq<TxView>, k: KeyView, n: nat) -> nat
    decreases txs.len(),
{
    if txs.len() == 0 {
        0
    } else {
        full_win_count(txs.drop_last(), k, n) + if is_race(txs.last()) && txs.last().len() == n
            && winner_key(txs.last()) == k {
            1nat
        } else {
            0nat
        }
    }
}

/// Races that endpoint `k` took part in.
pub open spec fn race_count(txs: Seq<TxView>, k: KeyView) -> nat
    decreases txs.len(),
{
    if txs.len() == 0 {
        0
    } else {
        race_count(txs.drop_last(), k) + if is_race(txs.last()) && has_key(txs.last(), k) {
            1nat
        } else {
            0nat
        }
    }
}

/// How far endpoint `k` was behind the winner in each race it took part in.
pub open spec fn lags(txs: Seq<TxView>, k: KeyView) -> Seq<i64>
    decreases txs.len(),
{
    if txs.len() == 0 {
        Seq::empty()
    } else if is_race(txs.last()) && has_key(txs.last(), k) {
        lags(txs.drop_last(), k).push(
            span_us(time_of(obs_of(txs.last(), k)), winner_time(txs.last())),
        )
    } else {
        lags(txs.drop_last(), k)
    }
}

/// For batched deliveries by endpoint `k`: receive time minus batch time.
pub open spec fn decode_latencies(txs: Seq<TxView>, k: KeyView) -> Seq<i64>
    decreases txs.len(),
{
    if txs.len() == 0 {
        Seq::empty()
    } else if has_key(txs.last(), k) && obs_of(txs.last(), k).first.batch_received_at_us is Some {
        decode_latencies(txs.drop_last(), k).push(
            span_us(
                time_of(obs_of(txs.last(), k)),
                obs_of(txs.last(), k).first.batch_received_at_us->0,
            ),
        )
    } else {
        decode_latencies(txs.drop_last(), k)
    }
}

/// The wall-clock receive time of an observation.
pub open spec fn wall_time_of(o: EndpointObservation) -> i64 {
    o.first.received_at_utc_us
}

/// The earliest wall-clock receive time of endpoint `k`.
pub open spec fn first_seen(txs: Seq<TxView>, k: KeyView) -> Option<i64>
    decreases txs.len(),
{
    if txs.len() == 0 {
        None
    } else if has_key(txs.last(), k) {
        let t = wall_time_of(obs_of(txs.last(), k));
        Some(
            match first_seen(txs.drop_last(), k) {
                Some(c) => if t < c { t } else { c },
                None => t,
            },
        )
    } else {
        first_seen(txs.drop_last(), k)
    }
}

/// The latest wall-clock receive time of endpoint `k`.
pub open spec fn last_seen(txs: Seq<TxView>, k: KeyView) -> Option<i64>
    decreases txs.len(),
{
    if txs.len() == 0 {
        None
    } else if has_key(txs.last(), k) {
        let t = wall_time_of(obs_of(txs.last(), k));
        Some(
            match last_seen(txs.drop_last(), k) {
                Some(c) => if t > c { t } else { c },
                None => t,
            },
        )
    } else {
        last_seen(txs.drop_last(), k)
    }
}

/// Signatures delivered by at least two endpoints.
pub open spec fn race_total(txs: Seq<TxView>) -> nat
    decreases txs.len(),
{
    if txs.len() == 0 {
        0
    } else {
        race_total(txs.drop_last()) + if is_race(txs.last()) { 1nat } else { 0nat }
    }
}

/// Signatures delivered by at least two endpoints and by `n` endpoints.
pub open spec fn full_total(txs: Seq<TxView>, n: nat) -> nat
    decreases txs.len(),
{
    if txs.len() == 0 {
        0
    } else {
        full_total(txs.drop_last(), n) + if is_race(txs.last()) && txs.last().len() == n {
            1nat
        } else {
            0nat
        }
    }
}

// ---------------------------------------------------------------------------
// Pairwise leads

/// For each race with both `a` and `b`: `b`'s receive time minus `a`'s, so
/// positive where `a` was ahead.
pub open spec fn pair_leads(txs: Seq<TxView>, a: KeyView, b: KeyView) -> Seq<i64>
    decreases txs.len(),
{
    if txs.len() == 0 {
        Seq::empty()
    } else if is_race(txs.last()) && has_key(txs.last(), a) && has_key(txs.last(), b) {
        pair_leads(txs.drop_last(), a, b).push(
            span_us(time_of(obs_of(txs.last(), b)), time_of(obs_of(txs.last(), a))),
        )
    } else {
        pair_leads(txs.drop_last(), a, b)
    }
}

/// How many values are positive.
pub open spec fn count_positive(s: Seq<i64>) -> nat
    decreases s.len(),
{
    if s.len() == 0 {
        0
    } else {
        count_positive(s.drop_last()) + if s.last() > 0 { 1nat } else { 0nat }
    }
}

/// How many values are negative.
pub open spec fn count_negative(s: Seq<i64>) -> nat
    decreases s.len(),
{
    if s.len() == 0 {
        0
    } else {
        count_negative(s.drop_last()) + if s.last() < 0 { 1nat } else { 0nat }
    }
}

/// Every value negated.
pub open spec fn negated(s: Seq<i64>) -> Seq<i64> {
    s.map_values(|v: i64| (-v) as i64)
}

/// The negative values, negated, in order.
pub open spec fn behind_values(s: Seq<i64>) -> Seq<i64>
    decreases s.len(),
{
    if s.len() == 0 {
        Seq::empty()
    } else if s.last() < 0 {
        behind_values(s.drop_last()).push((-s.last()) as i64)
    } else {
        behind_values(s.drop_last())
    }
}

// ---------------------------------------------------------------------------
// Endpoint summaries

/// The key of a configured endpoint.
pub open spec fn endpoint_key(e: EndpointView) -> KeyView {
    (e.protocol.name(), e.alias)
}

/// The configured endpoints, as values.
pub open spec fn endpoints_view(eps: Seq<Endpoint>) -> Seq<EndpointView> {
    eps.map_values(|e: Endpoint| e@)
}

/// Whether endpoint `k` is configured.
pub open spec fn configured(eps: Seq<EndpointView>, k: KeyView) -> bool {
    exists|i: int| 0 <= i < eps.len() && #[trigger] endpoint_key(eps[i]) == k
}

/// Whether `i` is the first configured endpoint with key `k`.
pub open spec fn is_first_config(eps: Seq<EndpointView>, k: KeyView, i: int) -> bool {
    &&& 0 <= i < eps.len()
    &&& endpoint_key(eps[i]) == k
    &&& forall|j: int| 0 <= j < i ==> #[trigger] endpoint_key(eps[j]) != k
}

/// The first configured endpoint with key `k` (meaningful when configured).
pub open spec fn first_config(eps: Seq<EndpointView>, k: KeyView) -> int {
    choose|i: int| is_first_config(eps, k, i)
}

/// The mathematical content of an [`EndpointSummary`].
pub struct SummaryView {
    pub alias: Seq<char>,
    pub protocol: Seq<char>,
    pub protocol_label: Seq<char>,
    pub unique_signatures: nat,
    pub repeated_signatures: nat,
    pub wins: nat,
    pub full_coverage_wins: nat,
    pub seen_in_races: nat,
    pub median_lag_us: Option<i64>,
    pub p95_lag_us: Option<i64>,
    pub max_lag_us: Option<i64>,
    pub decode_latency_median_us: Option<i64>,
    pub first_seen_us: Option<i64>,
    pub last_seen_us: Option<i64>,
}

/// The summary of endpoint `k` over the signatures `txs`.  A configured
/// endpoint carries its alias, protocol name and label; an endpoint seen but
/// not configured carries empty ones.
pub open spec fn summary_of(eps: Seq<EndpointView>, txs: Seq<TxView>, k: KeyView) -> SummaryView {
    let sl = sorted_i64(lags(txs, k));
    let e = eps[first_config(eps, k)];
    SummaryView {
        alias: if configured(eps, k) { e.alias } else { Seq::empty() },
        protocol: if configured(eps, k) { e.protocol.name() } else { Seq::empty() },
        protocol_label: if configured(eps, k) { e.protocol.title() } else { Seq::empty() },
        unique_signatures: unique_count(txs, k),
        repeated_signatures: duplicate_sum(txs, k),
        wins: win_count(txs, k),
        full_coverage_wins: full_win_count(txs, k, eps.len()),
        seen_in_races: race_count(txs, k),
        median_lag_us: percentile_of(sl, 50),
        p95_lag_us: percentile_of(sl, 95),
        max_lag_us: if sl.len() == 0 { None } else { Some(sl.last()) },
        decode_latency_median_us: percentile_of(sorted_i64(decode_latencies(txs, k)), 50),
        first_seen_us: first_seen(txs, k),
        last_seen_us: last_seen(txs, k),
    }
}

/// How one endpoint fared.  Coverage and win rate are
/// `unique_signatures` over the observed signatures and `wins` over the race
/// eligible ones.
#[derive(Debug, Clone, Default)]
pub struct EndpointSummary {
    pub alias: String,
    pub protocol: String,
    pub protocol_label: String,
    pub unique_signatures: u64,
    pub repeated_signatures: u64,
    pub wins: u64,
    pub full_coverage_wins: u64,
    pub seen_in_races: u64,
    pub median_lag_us: Option<i64>,
    pub p95_lag_us: Option<i64>,
    pub max_lag_us: Option<i64>,
    pub decode_latency_median_us: Option<i64>,
    pub first_seen_us: Option<i64>,
    pub last_seen_us: Option<i64>,
}

impl View for EndpointSummary {
    type V = SummaryView;

    open spec fn view(&self) -> SummaryView {
        SummaryView {
            alias: self.alias@,
            protocol: self.protocol@,
            protocol_label: self.protocol_label@,
            unique_signatures: self.unique_signatures as nat,
            repeated_signatures: self.repeated_signatures as nat,
            wins: self.wins as nat,
            full_coverage_wins: self.full_coverage_wins as nat,
            seen_in_races: self.seen_in_races as nat,
            median_lag_us: self.median_lag_us,
            p95_lag_us: self.p95_lag_us,
            max_lag_us: self.max_lag_us,
            decode_latency_median_us: self.decode_latency_median_us,
            first_seen_us: self.first_seen_us,
            last_seen_us: self.last_seen_us,
        }
    }
}

/// The index of the winning sighting of a race.
pub fn winner_index(t: &Vec<(EndpointKey, EndpointObservation)>) -> (res: usize)
    requires
        t@.len() >= 1,
    ensures
        res as int == first_min(t@.map_values(|e: (EndpointKey, EndpointObservation)| (e.0@, e.1))),
        res < t@.len(),
{
    let ghost tv = t@.map_values(|e: (EndpointKey, EndpointObservation)| (e.0@, e.1));
    let mut best: usize = 0;
    for i in 1..t.len()
        invariant
            tv == t@.map_values(|e: (EndpointKey, EndpointObservation)| (e.0@, e.1)),
            1 <= i <= t@.len(),
            best as int == first_min(tv.take(i as int)),
            best < i,
    {
        assert(tv.take(i + 1).drop_last() == tv.take(i as int));
        assert(tv.take(i + 1).last() == tv[i as int]);
        assert(tv.take(i as int)[best as int] == tv[best as int]);
        if t[i].1.first.received_at_us < t[best].1.first.received_at_us {
            best = i;
        }
    }
    assert(tv.take(t@.len() as int) == tv);
    best
}

/// The well-formed inputs of the statistics: each signature's sightings
/// name distinct endpoints; at most 2^48 signatures (the range in which the
/// float percentile index is the exact rounded one); no endpoint's repeated
/// deliveries overflow a `u64`; and no pairwise lead is `i64::MIN`, whose
/// negation overflows.
pub open spec fn stats_input_ok(eps: Seq<EndpointView>, txs: Seq<TxView>) -> bool {
    &&& forall|i: int| 0 <= i < txs.len() ==> keys_distinct(#[trigger] txs[i])
    &&& txs.len() <= 0x1_0000_0000_0000
    &&& forall|k: KeyView| #[trigger] duplicate_sum(txs, k) <= u64::MAX
    &&& forall|i: int, a: int, b: int|
        0 <= i < txs.len() && 0 <= a < txs[i].len() && 0 <= b < txs[i].len() && is_race(txs[i])
            && key_lt(txs[i][a].0, txs[i][b].0) ==> span_us(
            time_of(#[trigger] txs[i][b].1),
            time_of(#[trigger] txs[i][a].1),
        ) != i64::MIN
}

proof fn lemma_duplicate_sum_prefix(txs: Seq<TxView>, k: KeyView, n: int)
    requires
        0 <= n <= txs.len(),
    ensures
        duplicate_sum(txs.take(n), k) <= duplicate_sum(txs, k),
    decreases txs.len() - n,
{
    if n < txs.len() {
        lemma_duplicate_sum_prefix(txs, k, n + 1);
        assert(txs.take(n + 1).drop_last() == txs.take(n));
    } else {
        assert(txs.take(n) == txs);
    }
}

/// The summary of endpoint `key` over the observed signatures.
pub fn summarize(endpoints: &[Endpoint], observations: &[(String, TxObservation)], key: &EndpointKey) -> (res:
    EndpointSummary)
    requires
        stats_input_ok(endpoints_view(endpoints@), txs_view(observations@)),
    ensures
        res@ == summary_of(endpoints_view(endpoints@), txs_view(observations@), key@),
{
    let ghost eps = endpoints_view(endpoints@);
    let ghost txs = txs_view(observations@);
    let ghost k = key@;
    let mut unique: u64 = 0;
    let mut repeated: u64 = 0;
    let mut wins: u64 = 0;
    let mut full_wins: u64 = 0;
    let mut seen: u64 = 0;
    let mut lag_us: Vec<i64> = Vec::new();
    let mut decode_us: Vec<i64> = Vec::new();
    let mut first: Option<i64> = None;
    let mut last: Option<i64> = None;
    for i in 0..observations.len()
        invariant
            eps == endpoints_view(endpoints@),
            txs == txs_view(observations@),
            k == key@,
            stats_input_ok(eps, txs),
            unique == unique_count(txs.take(i as int), k),
            repeated == duplicate_sum(txs.take(i as int), k),
            wins == win_count(txs.take(i as int), k),
            full_wins == full_win_count(txs.take(i as int), k, eps.len()),
            seen == race_count(txs.take(i as int), k),
            lag_us@ == lags(txs.take(i as int), k),
            decode_us@ == decode_latencies(txs.take(i as int), k),
            first == first_seen(txs.take(i as int), k),
            last == last_seen(txs.take(i as int), k),
            unique <= i,
            wins <= i,
            full_wins <= i,
            seen <= i,
            lag_us@.len() <= i,
            decode_us@.len() <= i,
    {
        let ghost pre = txs.take(i as int);
        let ghost t = txs[i as int];
        assert(txs.take(i + 1).drop_last() == pre);
        assert(txs.take(i + 1).last() == t);
        assert(t == observations@[i as int].1@);
        assert(keys_distinct(t));
        proof {
            lemma_duplicate_sum_prefix(txs, k, i + 1);
        }
        let tx = &observations[i].1;
        let found = find_key(&tx.endpoints, key);
        if let Some(j) = found {
            proof {
                lemma_obs_of_index(t, j as int);
            }
            let o = tx.endpoints[j].1;
            unique = unique + 1;
            repeated = repeated + o.duplicates;
            first = min_opt(first, o.first.received_at_utc_us);
            last = max_opt(last, o.first.received_at_utc_us);
            if let Some(b) = o.first.batch_received_at_us {
                decode_us.push(duration_us(o.first.received_at_us, b));
            }
        }
        if tx.endpoints.len() >= 2 {
            let w = winner_index(&tx.endpoints);
            if let Some(j) = found {
                seen = seen + 1;
                lag_us.push(duration_us(tx.endpoints[j].1.first.received_at_us, tx.endpoints[w].1.first.received_at_us));
            }
            if tx.endpoints[w].0.same(key) {
                wins = wins + 1;
                if tx.endpoints.len() == endpoints.len() {
                    full_wins = full_wins + 1;
                }
            }
        }
    }
    assert(txs.take(observations@.len() as int) == txs);
    let label = config_labels(endpoints, key);
    sort_i64(&mut lag_us);
    sort_i64(&mut decode_us);
    let max_lag = if lag_us.len() == 0 { None } else { Some(lag_us[lag_us.len() - 1]) };
    EndpointSummary {
        alias: label.0,
        protocol: label.1,
        protocol_label: label.2,
        unique_signatures: unique,
        repeated_signatures: repeated,
        wins,
        full_coverage_wins: full_wins,
        seen_in_races: seen,
        median_lag_us: percentile_sorted(lag_us.as_slice(), 50),
        p95_lag_us: percentile_sorted(lag_us.as_slice(), 95),
        max_lag_us: max_lag,
        decode_latency_median_us: percentile_sorted(decode_us.as_slice(), 50),
        first_seen_us: first,
        last_seen_us: last,
    }
}

/// The alias, protocol name and label of the first configured endpoint with
/// key `key`; empty strings when none is configured.
fn config_labels(endpoints: &[Endpoint], key: &EndpointKey) -> (res: (String, String, String))
    ensures
        ({
            let eps = endpoints_view(endpoints@);
            let e = eps[first_config(eps, key@)];
            if configured(eps, key@) {
                res.0@ == e.alias && res.1@ == e.protocol.name() && res.2@ == e.protocol.title()
            } else {
                res.0@ == Seq::<char>::empty() && res.1@ == Seq::<char>::empty() && res.2@
                    == Seq::<char>::empty()
            }
        }),
{
    let ghost eps = endpoints_view(endpoints@);
    for i in 0..endpoints.len()
        invariant
            eps == endpoints_view(endpoints@),
            forall|j: int| 0 <= j < i ==> #[trigger] endpoint_key(eps[j]) != key@,
    {
        let e = &endpoints[i];
        let ek = EndpointKey::new(e.protocol, e.alias.clone());
        if ek.same(key) {
            assert(is_first_config(eps, key@, i as int));
            let ghost f = first_config(eps, key@);
            assert(is_first_config(eps, key@, f));
            assert(f == i) by {
                if f < i {
                    assert(endpoint_key(eps[f]) != key@);
                }
                if i < f {
                    assert(endpoint_key(eps[i as int]) != key@);
                }
            }
            return (
                e.alias.clone(),
                String::from_str(e.protocol.as_str()),
                String::from_str(e.protocol.label()),
            );
        }
    }
    assert(!configured(eps, key@));
    (String::new(), String::new(), String::new())
}

// ---------------------------------------------------------------------------
// Pairwise summaries

/// The mathematical content of a [`PairwiseSummary`].
pub struct PairView {
    pub faster_alias: Seq<char>,
    pub faster_protocol: Seq<char>,
    pub slower_alias: Seq<char>,
    pub slower_protocol: Seq<char>,
    pub shared_signatures: nat,
    pub wins: nat,
    pub median_lag_us: Option<i64>,
    pub p95_lag_us: Option<i64>,
    pub median_behind_us: Option<i64>,
    pub p95_behind_us: Option<i64>,
}

/// Whether the first endpoint `a` of a pair (in key order) is shown as the
/// faster one: it won at least as many shared races as `b`.
pub open spec fn left_is_faster(txs: Seq<TxView>, a: KeyView, b: KeyView) -> bool {
    count_positive(pair_leads(txs, a, b)) >= count_negative(pair_leads(txs, a, b))
}

/// The leads of the endpoint shown as faster, per shared race.
pub open spec fn faster_leads(txs: Seq<TxView>, a: KeyView, b: KeyView) -> Seq<i64> {
    if left_is_faster(txs, a, b) {
        pair_leads(txs, a, b)
    } else {
        negated(pair_leads(txs, a, b))
    }
}

/// The summary of the pair `a`, `b` (with `a` before `b` in key order).
pub open spec fn pair_of(txs: Seq<TxView>, a: KeyView, b: KeyView) -> PairView {
    let left = left_is_faster(txs, a, b);
    let sl = sorted_i64(faster_leads(txs, a, b));
    let sb = sorted_i64(behind_values(faster_leads(txs, a, b)));
    PairView {
        faster_alias: if left { a.1 } else { b.1 },
        faster_protocol: if left { a.0 } else { b.0 },
        slower_alias: if left { b.1 } else { a.1 },
        slower_protocol: if left { b.0 } else { a.0 },
        shared_signatures: pair_leads(txs, a, b).len(),
        wins: if left {
            count_positive(pair_leads(txs, a, b))
        } else {
            count_negative(pair_leads(txs, a, b))
        },
        median_lag_us: percentile_of(sl, 50),
        p95_lag_us: percentile_of(sl, 95),
        median_behind_us: percentile_of(sb, 50),
        p95_behind_us: percentile_of(sb, 95),
    }
}

/// How two endpoints fared against each other over the signatures both
/// delivered.  The win rate is `wins` over `shared_signatures`.
#[derive(Debug, Clone)]
pub struct PairwiseSummary {
    pub faster_alias: String,
    pub faster_protocol: String,
    pub slower_alias: String,
    pub slower_protocol: String,
    pub shared_signatures: u64,
    pub wins: u64,
    pub median_lag_us: Option<i64>,
    pub p95_lag_us: Option<i64>,
    pub median_behind_us: Option<i64>,
    pub p95_behind_us: Option<i64>,
}

impl View for PairwiseSummary {
    type V = PairView;

    open spec fn view(&self) -> PairView {
        PairView {
            faster_alias: self.faster_alias@,
            faster_protocol: self.faster_protocol@,
            slower_alias: self.slower_alias@,
            slower_protocol: self.slower_protocol@,
            shared_signatures: self.shared_signatures as nat,
            wins: self.wins as nat,
            median_lag_us: self.median_lag_us,
            p95_lag_us: self.p95_lag_us,
            median_behind_us: self.median_behind_us,
            p95_behind_us: self.p95_behind_us,
        }
    }
}

/// The pair summary of `a` and `b`, `a` before `b` in key order.
pub fn summarize_pair(observations: &[(String, TxObservation)], a: &EndpointKey, b: &EndpointKey) -> (res:
    PairwiseSummary)
    requires
        key_lt(a@, b@),
        stats_input_ok(Seq::empty(), txs_view(observations@)),
    ensures
        res@ == pair_of(txs_view(observations@), a@, b@),
{
    let ghost txs = txs_view(observations@);
    let mut shared: u64 = 0;
    let mut left_wins: u64 = 0;
    let mut right_wins: u64 = 0;
    let mut leads: Vec<i64> = Vec::new();
    for i in 0..observations.len()
        invariant
            txs == txs_view(observations@),
            key_lt(a@, b@),
            stats_input_ok(Seq::empty(), txs),
            leads@ == pair_leads(txs.take(i as int), a@, b@),
            shared == leads@.len(),
            left_wins == count_positive(leads@),
            right_wins == count_negative(leads@),
            shared <= i,
            left_wins <= i,
            right_wins <= i,
            forall|j: int| 0 <= j < leads@.len() ==> #[trigger] leads@[j] != i64::MIN,
    {
        let ghost t = txs[i as int];
        assert(txs.take(i + 1).drop_last() == txs.take(i as int));
        assert(txs.take(i + 1).last() == t);
        assert(t == observations@[i as int].1@);
        assert(keys_distinct(t));
        let tx = &observations[i].1;
        if tx.endpoints.len() >= 2 {
            let fa = find_key(&tx.endpoints, a);
            let fb = find_key(&tx.endpoints, b);
            if let (Some(ja), Some(jb)) = (fa, fb) {
                proof {
                    lemma_obs_of_index(t, ja as int);
                    lemma_obs_of_index(t, jb as int);
                    assert(t[jb as int].1 == tx.endpoints@[jb as int].1);
                    assert(span_us(time_of(t[jb as int].1), time_of(t[ja as int].1)) != i64::MIN);
                }
                let lead = duration_us(tx.endpoints[jb].1.first.received_at_us, tx.endpoints[ja].1.first.received_at_us);
                let ghost before = leads@;
                leads.push(lead);
                assert(leads@.drop_last() == before);
                shared = shared + 1;
                if lead > 0 {
                    left_wins = left_wins + 1;
                } else if lead < 0 {
                    right_wins = right_wins + 1;
                }
            }
        }
    }
    assert(txs.take(observations@.len() as int) == txs);
    let left = left_wins >= right_wins;
    let wins = if left { left_wins } else { right_wins };
    let mut lead_us: Vec<i64> = Vec::new();
    if left {
        lead_us = leads;
    } else {
        for i in 0..leads.len()
            invariant
                lead_us@ == negated(leads@.take(i as int)),
                forall|j: int| 0 <= j < leads@.len() ==> #[trigger] leads@[j] != i64::MIN,
        {
            assert(leads@.take(i + 1) == leads@.take(i as int).push(leads@[i as int]));
            lead_us.push(-leads[i]);
        }
        assert(leads@.take(leads@.len() as int) == leads@);
    }
    let mut behind_us: Vec<i64> = Vec::new();
    for i in 0..lead_us.len()
        invariant
            behind_us@ == behind_values(lead_us@.take(i as int)),
            behind_us@.len() <= i,
            lead_us@ == faster_leads(txs, a@, b@),
            forall|j: int| 0 <= j < lead_us@.len() ==> #[trigger] lead_us@[j] != i64::MIN,
    {
        assert(lead_us@.take(i + 1).drop_last() == lead_us@.take(i as int));
        assert(lead_us@.take(i + 1).last() == lead_us@[i as int]);
        if lead_us[i] < 0 {
            behind_us.push(-lead_us[i]);
        }
    }
    assert(lead_us@.take(lead_us@.len() as int) == lead_us@);
    sort_i64(&mut lead_us);
    sort_i64(&mut behind_us);
    let (faster, slower) = if left { (a, b) } else { (b, a) };
    PairwiseSummary {
        faster_alias: faster.alias.clone(),
        faster_protocol: faster.protocol.clone(),
        slower_alias: slower.alias.clone(),
        slower_protocol: slower.protocol.clone(),
        shared_signatures: shared,
        wins,
        median_lag_us: percentile_sorted(lead_us.as_slice(), 50),
        p95_lag_us: percentile_sorted(lead_us.as_slice(), 95),
        median_behind_us: percentile_sorted(behind_us.as_slice(), 50),
        p95_behind_us: percentile_sorted(behind_us.as_slice(), 95),
    }
}

// ---------------------------------------------------------------------------
// The endpoints and pairs that get a summary

/// The values of a sequence of keys.
pub open spec fn key_views(s: Seq<EndpointKey>) -> Seq<KeyView> {
    s.map_values(|k: EndpointKey| k@)
}

/// Every configured endpoint and every endpoint that delivered a signature.
pub open spec fn key_set(eps: Seq<EndpointView>, txs: Seq<TxView>) -> Set<KeyView> {
    Set::new(
        |k: KeyView|
            configured(eps, k) || exists|i: int| 0 <= i < txs.len() && #[trigger] has_key(txs[i], k),
    )
}

/// Every pair of endpoints, in key order, that raced on a signature.
pub open spec fn pair_set(txs: Seq<TxView>) -> Set<(KeyView, KeyView)> {
    Set::new(|p: (KeyView, KeyView)| key_lt(p.0, p.1) && pair_leads(txs, p.0, p.1).len() > 0)
}

/// Adds `k` to `keys` unless a key with the same value is there.
fn add_key(keys: &mut Vec<EndpointKey>, k: &EndpointKey)
    requires
        key_views(old(keys)@).no_duplicates(),
    ensures
        key_views(final(keys)@).no_duplicates(),
        forall|x: KeyView| #[trigger] key_views(final(keys)@).contains(x) <==> key_views(old(keys)@).contains(x) || x == k@,
{
    let ghost before = key_views(keys@);
    for i in 0..keys.len()
        invariant
            before == key_views(keys@),
            keys@ == old(keys)@,
            before.no_duplicates(),
            forall|j: int| 0 <= j < i ==> #[trigger] before[j] != k@,
    {
        if keys[i].same(k) {
            assert(before[i as int] == k@);
            return;
        }
    }
    keys.push(k.clone());
    assert(key_views(keys@) == before.push(k@));
    assert forall|x: KeyView| #[trigger] key_views(keys@).contains(x) <==> before.contains(x) || x == k@ by {
        if x == k@ {
            assert(key_views(keys@)[before.len() as int] == k@);
        }
        if before.contains(x) {
            let j = choose|j: int| 0 <= j < before.len() && before[j] == x;
            assert(key_views(keys@)[j] == x);
        }
    }
}

/// The keys of every configured endpoint and every observed one, each once.
fn collect_keys(endpoints: &[Endpoint], observations: &[(String, TxObservation)]) -> (res: Vec<EndpointKey>)
    ensures
        key_views(res@).no_duplicates(),
        forall|k: KeyView| #[trigger] key_views(res@).contains(k) <==> key_set(endpoints_view(endpoints@), txs_view(observations@)).contains(k),
{
    let ghost eps = endpoints_view(endpoints@);
    let ghost txs = txs_view(observations@);
    let mut keys: Vec<EndpointKey> = Vec::new();
    for i in 0..endpoints.len()
        invariant
            eps == endpoints_view(endpoints@),
            key_views(keys@).no_duplicates(),
            forall|k: KeyView| #[trigger] key_views(keys@).contains(k) <==> exists|j: int| 0 <= j < i && #[trigger] endpoint_key(eps[j]) == k,
    {
        let k = EndpointKey::new(endpoints[i].protocol, endpoints[i].alias.clone());
        assert(k@ == endpoint_key(eps[i as int]));
        add_key(&mut keys, &k);
    }
    for i in 0..observations.len()
        invariant
            eps == endpoints_view(endpoints@),
            txs == txs_view(observations@),
            key_views(keys@).no_duplicates(),
            forall|k: KeyView| #[trigger] key_views(keys@).contains(k) <==> configured(eps, k) || exists|j: int| 0 <= j < i && #[trigger] has_key(txs[j], k),
    {
        let tx = &observations[i].1;
        let ghost t = txs[i as int];
        assert(t == tx@);
        let ghost mid = key_views(keys@);
        for j in 0..tx.endpoints.len()
            invariant
                t == tx@,
                key_views(keys@).no_duplicates(),
                forall|k: KeyView| #[trigger] key_views(keys@).contains(k) <==> mid.contains(k) || exists|m: int| 0 <= m < j && t[m].0 == k,
        {
            add_key(&mut keys, &tx.endpoints[j].0);
            assert(tx.endpoints@[j as int].0@ == t[j as int].0);
        }
        assert forall|k: KeyView| #[trigger] key_views(keys@).contains(k) <==> configured(eps, k) || exists|j: int| 0 <= j < i + 1 && #[trigger] has_key(txs[j], k) by {
            if has_key(t, k) {
                let m = choose|m: int| 0 <= m < t.len() && #[trigger] t[m].0 == k;
                assert(t[m].0 == k);
            }
            if exists|m: int| 0 <= m < t.len() && t[m].0 == k {
                let m = choose|m: int| 0 <= m < t.len() && t[m].0 == k;
                assert(has_key(t, k));
            }
        }
    }
    assert forall|k: KeyView| #[trigger] key_views(keys@).contains(k) <==> key_set(eps, txs).contains(k) by {}
    keys
}

// ---------------------------------------------------------------------------
// Orders of the summaries

/// The order of the endpoint ranking: most wins first, then by alias, then
/// by key.
pub open spec fn summary_before(x: (SummaryView, KeyView), y: (SummaryView, KeyView)) -> bool {
    x.0.wins > y.0.wins || (x.0.wins == y.0.wins && (text_lt(x.0.alias, y.0.alias) || (x.0.alias
        == y.0.alias && key_lt(x.1, y.1))))
}

/// The order of the pairwise table: most wins first, then by faster alias,
/// then by slower alias, then by the pair's keys.
pub open spec fn pair_before(x: (PairView, KeyView, KeyView), y: (PairView, KeyView, KeyView)) -> bool {
    x.0.wins > y.0.wins || (x.0.wins == y.0.wins && (text_lt(x.0.faster_alias, y.0.faster_alias) || (
    x.0.faster_alias == y.0.faster_alias && (text_lt(x.0.slower_alias, y.0.slower_alias) || (
    x.0.slower_alias == y.0.slower_alias && (key_lt(x.1, y.1) || (x.1 == y.1 && key_lt(
        x.2,
        y.2,
    ))))))))
}

proof fn lemma_summary_before_order(x: (SummaryView, KeyView), y: (SummaryView, KeyView), z: (SummaryView, KeyView))
    ensures
        !summary_before(x, x),
        summary_before(x, y) && summary_before(y, z) ==> summary_before(x, z),
        x.1 != y.1 ==> summary_before(x, y) || summary_before(y, x),
{
    lemma_key_lt_order(x.1, y.1, z.1);
    crate::text::lemma_text_lt_irreflexive(x.0.alias);
    crate::text::lemma_text_lt_connected(x.0.alias, y.0.alias);
    if summary_before(x, y) && summary_before(y, z) {
        if text_lt(x.0.alias, y.0.alias) && text_lt(y.0.alias, z.0.alias) {
            crate::text::lemma_text_lt_transitive(x.0.alias, y.0.alias, z.0.alias);
        }
    }
}

proof fn lemma_pair_before_order(x: (PairView, KeyView, KeyView), y: (PairView, KeyView, KeyView), z: (PairView, KeyView, KeyView))
    ensures
        !pair_before(x, x),
        pair_before(x, y) && pair_before(y, z) ==> pair_before(x, z),
        (x.1, x.2) != (y.1, y.2) ==> pair_before(x, y) || pair_before(y, x),
{
    lemma_key_lt_order(x.1, y.1, z.1);
    lemma_key_lt_order(x.2, y.2, z.2);
    crate::text::lemma_text_lt_irreflexive(x.0.faster_alias);
    crate::text::lemma_text_lt_irreflexive(x.0.slower_alias);
    crate::text::lemma_text_lt_connected(x.0.faster_alias, y.0.faster_alias);
    crate::text::lemma_text_lt_connected(x.0.slower_alias, y.0.slower_alias);
    if pair_before(x, y) && pair_before(y, z) {
        if text_lt(x.0.faster_alias, y.0.faster_alias) && text_lt(y.0.faster_alias, z.0.faster_alias) {
            crate::text::lemma_text_lt_transitive(x.0.faster_alias, y.0.faster_alias, z.0.faster_alias);
        }
        if text_lt(x.0.slower_alias, y.0.slower_alias) && text_lt(y.0.slower_alias, z.0.slower_alias) {
            crate::text::lemma_text_lt_transitive(x.0.slower_alias, y.0.slower_alias, z.0.slower_alias);
        }
    }
}

/// The values of ranked endpoint rows.
pub open spec fn summary_rows(s: Seq<(EndpointSummary, EndpointKey)>) -> Seq<(SummaryView, KeyView)> {
    s.map_values(|r: (EndpointSummary, EndpointKey)| (r.0@, r.1@))
}

/// The values of pairwise rows.
pub open spec fn pair_rows(s: Seq<(PairwiseSummary, EndpointKey, EndpointKey)>) -> Seq<(PairView, KeyView, KeyView)> {
    s.map_values(|r: (PairwiseSummary, EndpointKey, EndpointKey)| (r.0@, r.1@, r.2@))
}

fn summary_precedes(x: &(EndpointSummary, EndpointKey), y: &(EndpointSummary, EndpointKey)) -> (res: bool)
    ensures
        res == summary_before((x.0@, x.1@), (y.0@, y.1@)),
{
    if x.0.wins != y.0.wins {
        x.0.wins > y.0.wins
    } else if crate::text::text_less(x.0.alias.as_str(), y.0.alias.as_str()) {
        true
    } else if x.0.alias == y.0.alias {
        x.1.less(&y.1)
    } else {
        false
    }
}

fn pair_precedes(x: &(PairwiseSummary, EndpointKey, EndpointKey), y: &(PairwiseSummary, EndpointKey, EndpointKey)) -> (res: bool)
    ensures
        res == pair_before((x.0@, x.1@, x.2@), (y.0@, y.1@, y.2@)),
{
    if x.0.wins != y.0.wins {
        x.0.wins > y.0.wins
    } else if crate::text::text_less(x.0.faster_alias.as_str(), y.0.faster_alias.as_str()) {
        true
    } else if x.0.faster_alias != y.0.faster_alias {
        false
    } else if crate::text::text_less(x.0.slower_alias.as_str(), y.0.slower_alias.as_str()) {
        true
    } else if x.0.slower_alias != y.0.slower_alias {
        false
    } else if x.1.less(&y.1) {
        true
    } else if x.1.same(&y.1) {
        x.2.less(&y.2)
    } else {
        false
    }
}

/// Inserts an endpoint row at its place in the ranking.
fn insert_summary_row(rows: &mut Vec<(EndpointSummary, EndpointKey)>, item: (EndpointSummary, EndpointKey))
    requires
        forall|i: int, j: int| 0 <= i < j < old(rows)@.len() ==> summary_before(#[trigger] summary_rows(old(rows)@)[i], #[trigger] summary_rows(old(rows)@)[j]),
        forall|i: int| 0 <= i < old(rows)@.len() ==> #[trigger] old(rows)@[i].1@ != item.1@,
    ensures
        forall|i: int, j: int| 0 <= i < j < final(rows)@.len() ==> summary_before(#[trigger] summary_rows(final(rows)@)[i], #[trigger] summary_rows(final(rows)@)[j]),
        forall|x: (SummaryView, KeyView)| #[trigger] summary_rows(final(rows)@).contains(x) <==> summary_rows(old(rows)@).contains(x) || x == (item.0@, item.1@),
        final(rows)@.len() == old(rows)@.len() + 1,
{
    let ghost old_rows = summary_rows(rows@);
    let ghost it = (item.0@, item.1@);
    let mut p: usize = 0;
    while p < rows.len() && !summary_precedes(&item, &rows[p])
        invariant
            p <= rows@.len(),
            old_rows == summary_rows(rows@),
            it == (item.0@, item.1@),
            forall|i: int| 0 <= i < p ==> !summary_before(it, #[trigger] old_rows[i]),
        decreases rows@.len() - p,
    {
        p = p + 1;
    }
    rows.insert(p, item);
    let ghost new_rows = summary_rows(rows@);
    assert(new_rows == old_rows.insert(p as int, it));
    assert forall|i: int, j: int| 0 <= i < j < new_rows.len() implies summary_before(#[trigger] new_rows[i], #[trigger] new_rows[j]) by {
        if i < p {
            assert(old_rows[i].1 != it.1);
            lemma_summary_before_order(old_rows[i], it, it);
            if j > p {
                lemma_summary_before_order(old_rows[i], it, new_rows[j]);
                if p < old_rows.len() {
                    lemma_summary_before_order(old_rows[i], old_rows[p as int], old_rows[j - 1]);
                }
            }
        } else if i == p {
            if j - 1 > p {
                lemma_summary_before_order(it, old_rows[p as int], old_rows[j - 1]);
            }
        }
    }
    assert forall|x: (SummaryView, KeyView)| #[trigger] new_rows.contains(x) <==> old_rows.contains(x) || x == it by {
        if new_rows.contains(x) {
            let m = choose|m: int| 0 <= m < new_rows.len() && new_rows[m] == x;
            if m < p {
                assert(old_rows[m] == x);
            } else if m > p {
                assert(old_rows[m - 1] == x);
            }
        }
        if old_rows.contains(x) {
            let m = choose|m: int| 0 <= m < old_rows.len() && old_rows[m] == x;
            if m < p {
                assert(new_rows[m] == x);
            } else {
                assert(new_rows[m + 1] == x);
            }
        }
        if x == it {
            assert(new_rows[p as int] == x);
        }
    }
}

/// Inserts a pairwise row at its place in the table.
fn insert_pair_row(rows: &mut Vec<(PairwiseSummary, EndpointKey, EndpointKey)>, item: (PairwiseSummary, EndpointKey, EndpointKey))
    requires
        forall|i: int, j: int| 0 <= i < j < old(rows)@.len() ==> pair_before(#[trigger] pair_rows(old(rows)@)[i], #[trigger] pair_rows(old(rows)@)[j]),
        forall|i: int| 0 <= i < old(rows)@.len() ==> (#[trigger] old(rows)@[i].1@, old(rows)@[i].2@) != (item.1@, item.2@),
    ensures
        forall|i: int, j: int| 0 <= i < j < final(rows)@.len() ==> pair_before(#[trigger] pair_rows(final(rows)@)[i], #[trigger] pair_rows(final(rows)@)[j]),
        forall|x: (PairView, KeyView, KeyView)| #[trigger] pair_rows(final(rows)@).contains(x) <==> pair_rows(old(rows)@).contains(x) || x == (item.0@, item.1@, item.2@),
        final(rows)@.len() == old(rows)@.len() + 1,
{
    let ghost old_rows = pair_rows(rows@);
    let ghost it = (item.0@, item.1@, item.2@);
    let mut p: usize = 0;
    while p < rows.len() && !pair_precedes(&item, &rows[p])
        invariant
            p <= rows@.len(),
            old_rows == pair_rows(rows@),
            it == (item.0@, item.1@, item.2@),
            forall|i: int| 0 <= i < p ==> !pair_before(it, #[trigger] old_rows[i]),
        decreases rows@.len() - p,
    {
        p = p + 1;
    }
    rows.insert(p, item);
    let ghost new_rows = pair_rows(rows@);
    assert(new_rows == old_rows.insert(p as int, it));
    assert forall|i: int, j: int| 0 <= i < j < new_rows.len() implies pair_before(#[trigger] new_rows[i], #[trigger] new_rows[j]) by {
        if i < p {
            assert((old_rows[i].1, old_rows[i].2) != (it.1, it.2));
            lemma_pair_before_order(old_rows[i], it, it);
            if j > p {
                lemma_pair_before_order(old_rows[i], it, new_rows[j]);
                if p < old_rows.len() {
                    lemma_pair_before_order(old_rows[i], old_rows[p as int], old_rows[j - 1]);
                }
            }
        } else if i == p {
            if j - 1 > p {
                lemma_pair_before_order(it, old_rows[p as int], old_rows[j - 1]);
            }
        }
    }
    assert forall|x: (PairView, KeyView, KeyView)| #[trigger] new_rows.contains(x) <==> old_rows.contains(x) || x == it by {
        if new_rows.contains(x) {
            let m = choose|m: int| 0 <= m < new_rows.len() && new_rows[m] == x;
            if m < p {
                assert(old_rows[m] == x);
            } else if m > p {
                assert(old_rows[m - 1] == x);
            }
        }
        if old_rows.contains(x) {
            let m = choose|m: int| 0 <= m < old_rows.len() && old_rows[m] == x;
            if m < p {
                assert(new_rows[m] == x);
            } else {
                assert(new_rows[m + 1] == x);
            }
        }
        if x == it {
            assert(new_rows[p as int] == x);
        }
    }
}

// ---------------------------------------------------------------------------
// The statistics

/// The statistics of a benchmark run.  Percentages are the ratios of the
/// counts given here.
#[derive(Debug)]
pub struct BenchmarkStats {
    pub endpoint_summaries: Vec<EndpointSummary>,
    pub pairwise: Vec<PairwiseSummary>,
    pub total_unique_signatures: usize,
    pub race_eligible_signatures: usize,
    pub full_coverage_signatures: usize,
    pub configured_endpoint_count: usize,
}

/// The values of endpoint summaries.
pub open spec fn summary_views(s: Seq<EndpointSummary>) -> Seq<SummaryView> {
    s.map_values(|e: EndpointSummary| e@)
}

/// The values of pairwise summaries.
pub open spec fn pair_views(s: Seq<PairwiseSummary>) -> Seq<PairView> {
    s.map_values(|e: PairwiseSummary| e@)
}

/// `rows` is the ranking of the endpoints `ks`: one summary per endpoint of
/// the key set, in ranking order.
pub open spec fn ranking_with_keys(
    eps: Seq<EndpointView>,
    txs: Seq<TxView>,
    rows: Seq<SummaryView>,
    ks: Seq<KeyView>,
) -> bool {
    &&& ks.len() == rows.len()
    &&& ks.no_duplicates()
    &&& forall|k: KeyView| #[trigger] ks.contains(k) <==> key_set(eps, txs).contains(k)
    &&& forall|i: int| 0 <= i < rows.len() ==> #[trigger] rows[i] == summary_of(eps, txs, ks[i])
    &&& forall|i: int, j: int|
        0 <= i < j < rows.len() ==> summary_before((#[trigger] rows[i], ks[i]), (#[trigger] rows[j], ks[j]))
}

/// `rows` is the ranking of all endpoints.
pub open spec fn ranking_matches(eps: Seq<EndpointView>, txs: Seq<TxView>, rows: Seq<SummaryView>) -> bool {
    exists|ks: Seq<KeyView>| ranking_with_keys(eps, txs, rows, ks)
}

/// `rows` is the pairwise table of the pairs `ps`: one summary per pair that
/// raced, in table order.
pub open spec fn pairwise_with_keys(
    txs: Seq<TxView>,
    rows: Seq<PairView>,
    ps: Seq<(KeyView, KeyView)>,
) -> bool {
    &&& ps.len() == rows.len()
    &&& ps.no_duplicates()
    &&& forall|p: (KeyView, KeyView)| #[trigger] ps.contains(p) <==> pair_set(txs).contains(p)
    &&& forall|i: int| 0 <= i < rows.len() ==> #[trigger] rows[i] == pair_of(txs, ps[i].0, ps[i].1)
    &&& forall|i: int, j: int|
        0 <= i < j < rows.len() ==> pair_before(
            (#[trigger] rows[i], ps[i].0, ps[i].1),
            (#[trigger] rows[j], ps[j].0, ps[j].1),
        )
}

/// `rows` is the pairwise table of all pairs that raced.
pub open spec fn pairwise_matches(txs: Seq<TxView>, rows: Seq<PairView>) -> bool {
    exists|ps: Seq<(KeyView, KeyView)>| pairwise_with_keys(txs, rows, ps)
}

proof fn lemma_pair_leads_witness(txs: Seq<TxView>, a: KeyView, b: KeyView)
    requires
        pair_leads(txs, a, b).len() > 0,
    ensures
        exists|i: int| 0 <= i < txs.len() && #[trigger] has_key(txs[i], a) && has_key(txs[i], b),
    decreases txs.len(),
{
    if is_race(txs.last()) && has_key(txs.last(), a) && has_key(txs.last(), b) {
        assert(has_key(txs[txs.len() - 1], a));
    } else {
        lemma_pair_leads_witness(txs.drop_last(), a, b);
        let i = choose|i: int| 0 <= i < txs.drop_last().len() && #[trigger] has_key(txs.drop_last()[i], a)
            && has_key(txs.drop_last()[i], b);
        assert(txs.drop_last()[i] == txs[i]);
    }
}

/// Builds the endpoint ranking.
fn rank_endpoints(endpoints: &[Endpoint], observations: &[(String, TxObservation)]) -> (res: Vec<EndpointSummary>)
    requires
        stats_input_ok(endpoints_view(endpoints@), txs_view(observations@)),
    ensures
        ranking_matches(endpoints_view(endpoints@), txs_view(observations@), summary_views(res@)),
{
    let ghost eps = endpoints_view(endpoints@);
    let ghost txs = txs_view(observations@);
    let keys = collect_keys(endpoints, observations);
    let ghost kv = key_views(keys@);
    let mut ranked: Vec<(EndpointSummary, EndpointKey)> = Vec::new();
    for i in 0..keys.len()
        invariant
            eps == endpoints_view(endpoints@),
            txs == txs_view(observations@),
            stats_input_ok(eps, txs),
            kv == key_views(keys@),
            kv.no_duplicates(),
            ranked@.len() == i,
            forall|a: int, b: int| 0 <= a < b < ranked@.len() ==> summary_before(#[trigger] summary_rows(ranked@)[a], #[trigger] summary_rows(ranked@)[b]),
            forall|x: (SummaryView, KeyView)| #[trigger] summary_rows(ranked@).contains(x) <==> exists|j: int| 0 <= j < i && x == (summary_of(eps, txs, #[trigger] kv[j]), kv[j]),
    {
        let summary = summarize(endpoints, observations, &keys[i]);
        proof {
            assert forall|a: int| 0 <= a < ranked@.len() implies #[trigger] ranked@[a].1@ != keys@[i as int]@ by {
                let r = summary_rows(ranked@)[a];
                assert(summary_rows(ranked@).contains(r));
                let j = choose|j: int| 0 <= j < i && r == (summary_of(eps, txs, #[trigger] kv[j]), kv[j]);
                assert(kv[j] != kv[i as int]);
            }
        }
        insert_summary_row(&mut ranked, (summary, keys[i].clone()));
        proof {
            assert forall|x: (SummaryView, KeyView)| #[trigger] summary_rows(ranked@).contains(x) <==> exists|j: int| 0 <= j < i + 1 && x == (summary_of(eps, txs, #[trigger] kv[j]), kv[j]) by {
                if x == (summary_of(eps, txs, kv[i as int]), kv[i as int]) {
                }
            }
        }
    }
    let ghost rows = summary_rows(ranked@);
    let mut out: Vec<EndpointSummary> = Vec::new();
    let mut ks: Ghost<Seq<KeyView>> = Ghost(Seq::empty());
    let n = ranked.len();
    while ranked.len() > 0
        invariant
            n == rows.len(),
            out@.len() + ranked@.len() == n,
            summary_rows(ranked@) == rows.skip(out@.len() as int),
            forall|a: int| 0 <= a < out@.len() ==> (#[trigger] out@[a]@, ks@[a]) == rows[a],
            ks@.len() == out@.len(),
        decreases ranked@.len(),
    {
        let ghost before = ranked@;
        let ghost before_out = out@;
        let row = ranked.remove(0);
        proof {
            assert(summary_rows(ranked@) =~= summary_rows(before).drop_first());
            assert(rows.skip(out@.len() as int).drop_first() =~= rows.skip((out@.len() + 1) as int));
            assert(summary_rows(before)[0] == (row.0@, row.1@));
            assert(rows.skip(out@.len() as int)[0] == rows[out@.len() as int]);
            ks@ = ks@.push(row.1@);
        }
        out.push(row.0);
        proof {
            assert forall|a: int| 0 <= a < out@.len() implies (#[trigger] out@[a]@, ks@[a]) == rows[a] by {
                if a < before_out.len() {
                    assert(out@[a] == before_out[a]);
                }
            }
        }
    }
    proof {
        let ksv = ks@;
        assert(out@.len() == rows.len());
        assert forall|i: int| 0 <= i < rows.len() implies #[trigger] rows[i] == (summary_of(eps, txs, ksv[i]), ksv[i]) by {
            assert(rows.contains(rows[i]));
            assert((out@[i]@, ksv[i]) == rows[i]);
            let j = choose|j: int| 0 <= j < kv.len() && rows[i] == (summary_of(eps, txs, #[trigger] kv[j]), kv[j]);
        }
        assert forall|i: int, j: int| 0 <= i < ksv.len() && 0 <= j < ksv.len() && i != j implies ksv[i] != ksv[j] by {
            if ksv[i] == ksv[j] {
                if i < j {
                    lemma_summary_before_order(rows[i], rows[j], rows[j]);
                } else {
                    lemma_summary_before_order(rows[j], rows[i], rows[i]);
                }
            }
        }
        assert forall|k: KeyView| #[trigger] ksv.contains(k) <==> key_set(eps, txs).contains(k) by {
            if ksv.contains(k) {
                let i = choose|i: int| 0 <= i < ksv.len() && ksv[i] == k;
                assert(rows.contains(rows[i]));
                let j = choose|j: int| 0 <= j < kv.len() && rows[i] == (summary_of(eps, txs, #[trigger] kv[j]), kv[j]);
                assert(kv[j] == k);
                assert(kv.contains(k));
            }
            if key_set(eps, txs).contains(k) {
                assert(kv.contains(k));
                let j = choose|j: int| 0 <= j < kv.len() && kv[j] == k;
                let x = (summary_of(eps, txs, kv[j]), kv[j]);
                assert(rows.contains(x));
                let i = choose|i: int| 0 <= i < rows.len() && rows[i] == x;
                assert(ksv[i] == k);
            }
        }
        assert(ranking_with_keys(eps, txs, summary_views(out@), ksv));
    }
    out
}

/// Whether the pair at positions `i`, `j` of the key list is among those
/// visited before position (`i0`, `j0`) of a row-major scan.
pub open spec fn visited(i: int, j: int, i0: int, j0: int) -> bool {
    i < i0 || (i == i0 && j < j0)
}

/// Builds the pairwise table.
#[verifier::rlimit(100)]
#[verifier::spinoff_prover]
fn pair_table(endpoints: &[Endpoint], observations: &[(String, TxObservation)]) -> (res: Vec<PairwiseSummary>)
    requires
        stats_input_ok(endpoints_view(endpoints@), txs_view(observations@)),
    ensures
        pairwise_matches(txs_view(observations@), pair_views(res@)),
{
    let ghost eps = endpoints_view(endpoints@);
    let ghost txs = txs_view(observations@);
    let keys = collect_keys(endpoints, observations);
    let ghost kv = key_views(keys@);
    let mut table: Vec<(PairwiseSummary, EndpointKey, EndpointKey)> = Vec::new();
    let n = keys.len();
    for i in 0..n
        invariant
            n == keys@.len(),
            eps == endpoints_view(endpoints@),
            txs == txs_view(observations@),
            stats_input_ok(eps, txs),
            kv == key_views(keys@),
            kv.no_duplicates(),
            forall|a: int, b: int| 0 <= a < b < table@.len() ==> pair_before(#[trigger] pair_rows(table@)[a], #[trigger] pair_rows(table@)[b]),
            forall|x: (PairView, KeyView, KeyView)| #[trigger] pair_rows(table@).contains(x) <==> exists|a: int, b: int|
                0 <= a < n && 0 <= b < n && visited(a, b, i as int, 0) && key_lt(kv[a], kv[b])
                    && pair_leads(txs, kv[a], kv[b]).len() > 0 && x == (pair_of(txs, #[trigger] kv[a], #[trigger] kv[b]), kv[a], kv[b]),
    {
        for j in 0..n
            invariant
                n == keys@.len(),
                0 <= i < n,
                eps == endpoints_view(endpoints@),
                txs == txs_view(observations@),
                stats_input_ok(eps, txs),
                kv == key_views(keys@),
                kv.no_duplicates(),
                forall|a: int, b: int| 0 <= a < b < table@.len() ==> pair_before(#[trigger] pair_rows(table@)[a], #[trigger] pair_rows(table@)[b]),
                forall|x: (PairView, KeyView, KeyView)| #[trigger] pair_rows(table@).contains(x) <==> exists|a: int, b: int|
                    0 <= a < n && 0 <= b < n && visited(a, b, i as int, j as int) && key_lt(kv[a], kv[b])
                        && pair_leads(txs, kv[a], kv[b]).len() > 0 && x == (pair_of(txs, #[trigger] kv[a], #[trigger] kv[b]), kv[a], kv[b]),
        {
            let ghost old_rows = pair_rows(table@);
            assert(kv[i as int] == keys@[i as int]@ && kv[j as int] == keys@[j as int]@);
            if keys[i].less(&keys[j]) {
                let pair = summarize_pair(observations, &keys[i], &keys[j]);
                if pair.shared_signatures > 0 {
                    proof {
                        assert forall|m: int| 0 <= m < table@.len() implies (#[trigger] table@[m].1@, table@[m].2@) != (keys@[i as int]@, keys@[j as int]@) by {
                            let r = old_rows[m];
                            assert(old_rows.contains(r));
                            let (a, b) = choose|a: int, b: int|
                                0 <= a < n && 0 <= b < n && visited(a, b, i as int, j as int) && key_lt(kv[a], kv[b])
                                    && pair_leads(txs, kv[a], kv[b]).len() > 0 && r == (pair_of(txs, #[trigger] kv[a], #[trigger] kv[b]), kv[a], kv[b]);
                            if (kv[a], kv[b]) == (kv[i as int], kv[j as int]) {
                                assert(a == i && b == j);
                            }
                        }
                    }
                    insert_pair_row(&mut table, (pair, keys[i].clone(), keys[j].clone()));
                }
            }
            proof {
                assert forall|x: (PairView, KeyView, KeyView)| #[trigger] pair_rows(table@).contains(x) <==> exists|a: int, b: int|
                    0 <= a < n && 0 <= b < n && visited(a, b, i as int, j + 1) && key_lt(kv[a], kv[b])
                        && pair_leads(txs, kv[a], kv[b]).len() > 0 && x == (pair_of(txs, #[trigger] kv[a], #[trigger] kv[b]), kv[a], kv[b]) by {
                    if exists|a: int, b: int|
                        0 <= a < n && 0 <= b < n && visited(a, b, i as int, j + 1) && key_lt(kv[a], kv[b])
                            && pair_leads(txs, kv[a], kv[b]).len() > 0 && x == (pair_of(txs, #[trigger] kv[a], #[trigger] kv[b]), kv[a], kv[b]) {
                        let (a, b) = choose|a: int, b: int|
                            0 <= a < n && 0 <= b < n && visited(a, b, i as int, j + 1) && key_lt(kv[a], kv[b])
                                && pair_leads(txs, kv[a], kv[b]).len() > 0 && x == (pair_of(txs, #[trigger] kv[a], #[trigger] kv[b]), kv[a], kv[b]);
                        if !visited(a, b, i as int, j as int) {
                            assert(a == i && b == j);
                        }
                    }
                }
            }
        }
        proof {
            assert forall|x: (PairView, KeyView, KeyView)| #[trigger] pair_rows(table@).contains(x) <==> exists|a: int, b: int|
                0 <= a < n && 0 <= b < n && visited(a, b, i + 1, 0) && key_lt(kv[a], kv[b])
                    && pair_leads(txs, kv[a], kv[b]).len() > 0 && x == (pair_of(txs, #[trigger] kv[a], #[trigger] kv[b]), kv[a], kv[b]) by {
                if exists|a: int, b: int|
                    0 <= a < n && 0 <= b < n && visited(a, b, i + 1, 0) && key_lt(kv[a], kv[b])
                        && pair_leads(txs, kv[a], kv[b]).len() > 0 && x == (pair_of(txs, #[trigger] kv[a], #[trigger] kv[b]), kv[a], kv[b]) {
                    let (a, b) = choose|a: int, b: int|
                        0 <= a < n && 0 <= b < n && visited(a, b, i + 1, 0) && key_lt(kv[a], kv[b])
                            && pair_leads(txs, kv[a], kv[b]).len() > 0 && x == (pair_of(txs, #[trigger] kv[a], #[trigger] kv[b]), kv[a], kv[b]);
                    assert(visited(a, b, i as int, n as int));
                }
            }
        }
    }
    let ghost rows = pair_rows(table@);
    let mut out: Vec<PairwiseSummary> = Vec::new();
    let mut ps: Ghost<Seq<(KeyView, KeyView)>> = Ghost(Seq::empty());
    let total = table.len();
    while table.len() > 0
        invariant
            total == rows.len(),
            out@.len() + table@.len() == total,
            pair_rows(table@) == rows.skip(out@.len() as int),
            forall|a: int| 0 <= a < out@.len() ==> (#[trigger] out@[a]@, ps@[a].0, ps@[a].1) == rows[a],
            ps@.len() == out@.len(),
        decreases table@.len(),
    {
        let ghost before = table@;
        let ghost before_out = out@;
        let row = table.remove(0);
        proof {
            assert(pair_rows(table@) =~= pair_rows(before).drop_first());
            assert(rows.skip(out@.len() as int).drop_first() =~= rows.skip((out@.len() + 1) as int));
            assert(pair_rows(before)[0] == (row.0@, row.1@, row.2@));
            assert(rows.skip(out@.len() as int)[0] == rows[out@.len() as int]);
            ps@ = ps@.push((row.1@, row.2@));
        }
        out.push(row.0);
        proof {
            assert forall|a: int| 0 <= a < out@.len() implies (#[trigger] out@[a]@, ps@[a].0, ps@[a].1) == rows[a] by {
                if a < before_out.len() {
                    assert(out@[a] == before_out[a]);
                }
            }
        }
    }
    proof {
        let psv = ps@;
        assert(out@.len() == rows.len());
        assert forall|i: int| 0 <= i < rows.len() implies #[trigger] rows[i] == (pair_of(txs, psv[i].0, psv[i].1), psv[i].0, psv[i].1) by {
            assert(rows.contains(rows[i]));
            assert((out@[i]@, psv[i].0, psv[i].1) == rows[i]);
        }
        assert forall|i: int, j: int| 0 <= i < psv.len() && 0 <= j < psv.len() && i != j implies psv[i] != psv[j] by {
            if psv[i] == psv[j] {
                if i < j {
                    lemma_pair_before_order(rows[i], rows[j], rows[j]);
                } else {
                    lemma_pair_before_order(rows[j], rows[i], rows[i]);
                }
            }
        }
        assert forall|p: (KeyView, KeyView)| #[trigger] psv.contains(p) <==> pair_set(txs).contains(p) by {
            if psv.contains(p) {
                let i = choose|i: int| 0 <= i < psv.len() && psv[i] == p;
                assert(rows.contains(rows[i]));
            }
            if pair_set(txs).contains(p) {
                lemma_pair_leads_witness(txs, p.0, p.1);
                let t = choose|t: int| 0 <= t < txs.len() && #[trigger] has_key(txs[t], p.0) && has_key(txs[t], p.1);
                assert(key_set(eps, txs).contains(p.0));
                assert(key_set(eps, txs).contains(p.1));
                assert(kv.contains(p.0));
                assert(kv.contains(p.1));
                let a = choose|a: int| 0 <= a < kv.len() && kv[a] == p.0;
                let b = choose|b: int| 0 <= b < kv.len() && kv[b] == p.1;
                let x = (pair_of(txs, kv[a], kv[b]), kv[a], kv[b]);
                assert(visited(a, b, n as int, 0));
                assert(rows.contains(x));
                let i = choose|i: int| 0 <= i < rows.len() && rows[i] == x;
                assert(psv[i] == p);
            }
        }
        assert(pairwise_with_keys(txs, pair_views(out@), psv));
    }
    out
}

/// The race statistics of a run: for every endpoint, configured or seen,
/// its tallies, lags and place in the ranking; for every pair of endpoints
/// that raced, who was ahead and by how much; and the run's totals.
pub fn compute_stats(endpoints: &[Endpoint], observations: &[(String, TxObservation)]) -> (res: BenchmarkStats)
    requires
        stats_input_ok(endpoints_view(endpoints@), txs_view(observations@)),
    ensures
        ranking_matches(endpoints_view(endpoints@), txs_view(observations@), summary_views(res.endpoint_summaries@)),
        pairwise_matches(txs_view(observations@), pair_views(res.pairwise@)),
        res.total_unique_signatures == observations@.len(),
        res.race_eligible_signatures == race_total(txs_view(observations@)),
        res.full_coverage_signatures == full_total(txs_view(observations@), endpoints@.len()),
        res.configured_endpoint_count == endpoints@.len(),
{
    let ghost txs = txs_view(observations@);
    let mut race_eligible: usize = 0;
    let mut full_coverage: usize = 0;
    for i in 0..observations.len()
        invariant
            txs == txs_view(observations@),
            race_eligible == race_total(txs.take(i as int)),
            full_coverage == full_total(txs.take(i as int), endpoints@.len()),
            race_eligible <= i,
            full_coverage <= i,
    {
        assert(txs.take(i + 1).drop_last() == txs.take(i as int));
        assert(txs.take(i + 1).last() == txs[i as int]);
        assert(txs[i as int] == observations@[i as int].1@);
        let len = observations[i].1.endpoints.len();
        if len >= 2 {
            race_eligible = race_eligible + 1;
            if len == endpoints.len() {
                full_coverage = full_coverage + 1;
            }
        }
    }
    assert(txs.take(observations@.len() as int) == txs);
    BenchmarkStats {
        endpoint_summaries: rank_endpoints(endpoints, observations),
        pairwise: pair_table(endpoints, observations),
        total_unique_signatures: observations.len(),
        race_eligible_signatures: race_eligible,
        full_coverage_signatures: full_coverage,
        configured_endpoint_count: endpoints.len(),
    }
}

} // verus!
