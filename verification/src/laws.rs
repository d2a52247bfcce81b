//! What holds of the statistics, the observations and the reports across
//! all inputs.
use vstd::prelude::*;
use vstd::relations::{sorted_by, total_ordering};
use crate::config::{Config, EndpointPlan, EndpointView, Protocol, resolve_plans, section_plans, aperture_plans, aliases_ascending};
use crate::text::{text_lt, before_char};
use crate::config::{Endpoint, env_lookup, token_for};
use crate::meta::{ReportCells, ReportMeta};
use crate::stats::BenchmarkStats;
use crate::report::{aliases, labels, redacted_urls, stream_widths};
use crate::terminal::{terminal_report, stream_rows, streams_section, streams_cols, streams_width, filters_section};
use crate::html::{html_report, html_streams, endpoint_cards, html_hero, html_kpis, html_ranking, html_pairwise, html_filters, html_tail, endpoint_rows_html, endpoint_row_html, pair_rows_html, pair_row_html, account_codes, endpoint_card, listed_pairs};
use crate::meta::accounts_of;
use crate::stats::{EndpointSummary, PairwiseSummary};
use crate::meta::{EndpointCells, PairCells};
use crate::stats::{pairwise_matches, pairwise_with_keys, pair_views, PairView, key_set, ranking_matches, ranking_with_keys, SummaryView, behind_values, count_negative, count_positive, faster_leads, left_is_faster, negated, pair_leads, pair_of, stats_input_ok};
use crate::observation::{keys_distinct, key_lt, lemma_obs_of_index, obs_of, lookup, recorded, map_get, RunPhase};
use crate::observation::{has_key, merged, EndpointObservation, KeyView, Timing, TxView};
use crate::stats::{
    first_min, full_total, full_win_count, i64_le, is_race, lags, lemma_first_min_bounds, percentile_of, race_count,
    race_total, sorted_i64, span_us, summary_of, time_of, unique_count, win_count, winner_key, winner_time,
};
use crate::text::{centered, escape_char, escaped, repeated, truncated, decimal, pad_left, pad_right};
use crate::meta::latency_text;
use crate::report::{at_least, summary_aliases, summary_labels};
use crate::terminal::{counts_row, counts_heading, counts_rule, ranking_row, ranking_heading, ranking_rows, ranking_section, ranking_cols, pair_row, pairwise_heading};

verus! {

// ---------------------------------------------------------------------------
// Text

/// Escaped text holds no `<`, `>`, `"` or `'`: it cannot open or close
/// markup or an attribute.
pub proof fn law_escape_removes_markup(s: Seq<char>)
    ensures
        forall|i: int| 0 <= i < escaped(s).len() ==> {
            let c = #[trigger] escaped(s)[i];
            c != '<' && c != '>' && c != '"' && c != '\''
        },
    decreases s.len(),
{
    if s.len() > 0 {
        law_escape_removes_markup(s.drop_last());
        reveal_strlit("&amp;");
        reveal_strlit("&lt;");
        reveal_strlit("&gt;");
        reveal_strlit("&quot;");
        reveal_strlit("&#39;");
        let head = escaped(s.drop_last());
        let tail = escape_char(s.last());
        assert forall|i: int| 0 <= i < escaped(s).len() implies {
            let c = #[trigger] escaped(s)[i];
            c != '<' && c != '>' && c != '"' && c != '\''
        } by {
            if i < head.len() {
                assert(escaped(s)[i] == head[i]);
            } else {
                assert(escaped(s)[i] == tail[i - head.len()]);
            }
        }
    }
}

/// A cut text is as long as the text or the column, whichever is shorter,
/// and a text that fits is kept whole.
pub proof fn law_truncate_fits(s: Seq<char>, max: nat)
    ensures
        truncated(s, max).len() == if s.len() <= max { s.len() } else { max },
        s.len() <= max ==> truncated(s, max) == s,
{
}

/// Centring only adds spaces on the left: half the room the text leaves,
/// rounded down, and the text follows whole.
pub proof fn law_center_pads_left(s: Seq<char>, width: nat)
    ensures
        centered(s, width).len() == s.len() + if s.len() >= width { 0 } else { ((width - s.len()) / 2) as nat },
        centered(s, width).subrange(centered(s, width).len() - s.len(), centered(s, width).len() as int) == s,
        forall|i: int| 0 <= i < centered(s, width).len() - s.len() ==> #[trigger] centered(s, width)[i] == ' ',
{
    if s.len() < width {
        let pad = repeated(' ', ((width - s.len()) / 2) as nat);
        assert((pad + s).subrange(pad.len() as int, (pad + s).len() as int) =~= s);
    } else {
        assert(s.subrange(0, s.len() as int) =~= s);
    }
}

// ---------------------------------------------------------------------------
// Counts

/// Of a run of signatures, the races are at most all signatures, and races
/// among all `n` endpoints at most all races.
pub proof fn law_race_counts(txs: Seq<TxView>, n: nat)
    ensures
        race_total(txs) <= txs.len(),
        full_total(txs, n) <= race_total(txs),
    decreases txs.len(),
{
    if txs.len() > 0 {
        law_race_counts(txs.drop_last(), n);
    }
}

/// An endpoint's winner's share of a race implies it raced, and racing
/// implies it delivered: full-coverage wins at most wins, wins at most races
/// taken part in, races at most signatures delivered, and those at most all
/// signatures.
pub proof fn law_endpoint_counts(txs: Seq<TxView>, k: KeyView, n: nat)
    ensures
        full_win_count(txs, k, n) <= win_count(txs, k),
        win_count(txs, k) <= race_count(txs, k),
        race_count(txs, k) <= unique_count(txs, k),
        unique_count(txs, k) <= txs.len(),
    decreases txs.len(),
{
    if txs.len() > 0 {
        law_endpoint_counts(txs.drop_last(), k, n);
        let t = txs.last();
        if is_race(t) && winner_key(t) == k {
            lemma_first_min_bounds(t);
            assert(t[first_min(t)].0 == k);
            assert(has_key(t, k));
        }
    }
}

/// The counts of an endpoint's summary are ordered as `law_endpoint_counts`
/// says.
pub proof fn law_summary_counts(eps: Seq<EndpointView>, txs: Seq<TxView>, k: KeyView)
    ensures
        summary_of(eps, txs, k).full_coverage_wins <= summary_of(eps, txs, k).wins,
        summary_of(eps, txs, k).wins <= summary_of(eps, txs, k).seen_in_races,
        summary_of(eps, txs, k).seen_in_races <= summary_of(eps, txs, k).unique_signatures,
        summary_of(eps, txs, k).unique_signatures <= txs.len(),
{
    law_endpoint_counts(txs, k, eps.len());
}

// ---------------------------------------------------------------------------
// Lags

/// Lags are never negative: the winner of a race has the earliest time.
pub proof fn law_lags_nonnegative(txs: Seq<TxView>, k: KeyView)
    ensures
        forall|i: int| 0 <= i < lags(txs, k).len() ==> #[trigger] lags(txs, k)[i] >= 0,
    decreases txs.len(),
{
    if txs.len() > 0 {
        law_lags_nonnegative(txs.drop_last(), k);
        let t = txs.last();
        if is_race(t) && has_key(t, k) {
            lemma_first_min_bounds(t);
            let j = choose|j: int| 0 <= j < t.len() && #[trigger] t[j].0 == k;
            let prev = lags(txs.drop_last(), k);
            assert(time_of(t[first_min(t)].1) <= time_of(t[j].1));
            assert(lags(txs, k) == prev.push(span_us(time_of(crate::observation::obs_of(t, k)), winner_time(t))));
            assert(winner_time(t) <= time_of(crate::observation::obs_of(t, k)));
            assert forall|i: int| 0 <= i < lags(txs, k).len() implies #[trigger] lags(txs, k)[i] >= 0 by {
                if i < prev.len() {
                    assert(lags(txs, k)[i] == prev[i]);
                }
            }
        } else {
            assert(lags(txs, k) == lags(txs.drop_last(), k));
        }
    }
}

/// A sorted copy holds the same values.
proof fn lemma_sorted_same_values(s: Seq<i64>)
    ensures
        sorted_i64(s).len() == s.len(),
        sorted_by(sorted_i64(s), i64_le()),
        forall|i: int| 0 <= i < s.len() ==> sorted_i64(s).contains(#[trigger] s[i]),
        forall|i: int| 0 <= i < s.len() ==> s.contains(#[trigger] sorted_i64(s)[i]),
{
    assert(total_ordering(i64_le()));
    s.lemma_sort_by_ensures(i64_le());
    vstd::seq_lib::to_multiset_len(s);
    vstd::seq_lib::to_multiset_len(sorted_i64(s));
    assert forall|i: int| 0 <= i < s.len() implies sorted_i64(s).contains(#[trigger] s[i]) by {
        vstd::seq_lib::to_multiset_contains(s, s[i]);
        assert(s.to_multiset().count(s[i]) > 0);
        vstd::seq_lib::to_multiset_contains(sorted_i64(s), s[i]);
    }
    assert forall|i: int| 0 <= i < s.len() implies s.contains(#[trigger] sorted_i64(s)[i]) by {
        let v = sorted_i64(s)[i];
        assert(sorted_i64(s).contains(v));
        vstd::seq_lib::to_multiset_contains(sorted_i64(s), v);
        vstd::seq_lib::to_multiset_contains(s, v);
    }
}

/// Of a sorted sequence, a lower percentile is never above a higher one,
/// and each is one of the values.
pub proof fn law_percentiles_ordered(s: Seq<i64>, p: nat, q: nat)
    requires
        sorted_by(s, i64_le()),
        p <= q <= 100,
    ensures
        percentile_of(s, p) is Some <==> s.len() > 0,
        percentile_of(s, q) is Some <==> s.len() > 0,
        s.len() > 0 ==> percentile_of(s, p)->0 <= percentile_of(s, q)->0,
        s.len() > 0 ==> s.contains(percentile_of(s, p)->0),
        s.len() > 0 ==> percentile_of(s, q)->0 <= s.last(),
{
    if s.len() > 0 {
        let n = (s.len() - 1) as nat;
        assert(n * p <= n * q) by (nonlinear_arith)
            requires p <= q;
        assert(n * q <= n * 100) by (nonlinear_arith)
            requires q <= 100;
        let ip = ((n * p + 50) / 100) as int;
        let iq = ((n * q + 50) / 100) as int;
        assert(ip <= iq) by (nonlinear_arith)
            requires n * p <= n * q, ip == (n * p + 50) / 100, iq == (n * q + 50) / 100;
        assert(iq <= n) by (nonlinear_arith)
            requires n * q <= n * 100, iq == (n * q + 50) / 100;
        assert(0 <= ip);
        if ip < iq {
            assert(i64_le()(s[ip], s[iq]));
        }
        if iq < n {
            assert(i64_le()(s[iq], s[n as int]));
        }
        assert(s.contains(s[ip]));
    }
}

/// An endpoint's median lag is at most its 95th-percentile lag, which is at
/// most its largest lag; none is negative; and all three are present exactly
/// when the endpoint raced.
pub proof fn law_summary_lags(eps: Seq<EndpointView>, txs: Seq<TxView>, k: KeyView)
    ensures
        summary_of(eps, txs, k).median_lag_us is Some <==> lags(txs, k).len() > 0,
        summary_of(eps, txs, k).p95_lag_us is Some <==> lags(txs, k).len() > 0,
        summary_of(eps, txs, k).max_lag_us is Some <==> lags(txs, k).len() > 0,
        lags(txs, k).len() > 0 ==> {
            let s = summary_of(eps, txs, k);
            0 <= s.median_lag_us->0 <= s.p95_lag_us->0 <= s.max_lag_us->0
        },
{
    let l = lags(txs, k);
    let sl = sorted_i64(l);
    lemma_sorted_same_values(l);
    law_lags_nonnegative(txs, k);
    law_percentiles_ordered(sl, 50, 95);
    if l.len() > 0 {
        let m = percentile_of(sl, 50)->0;
        assert(sl.contains(m));
        let j = choose|j: int| 0 <= j < sl.len() && sl[j] == m;
        assert(l.contains(sl[j]));
        let i = choose|i: int| 0 <= i < l.len() && l[i] == sl[j];
        assert(l[i] >= 0);
    }
}

// ---------------------------------------------------------------------------
// Wins

/// The wins of ranked rows, added up.
pub open spec fn wins_total(rows: Seq<SummaryView>) -> nat
    decreases rows.len(),
{
    if rows.len() == 0 {
        0
    } else {
        wins_total(rows.drop_last()) + rows.last().wins
    }
}

/// The wins of the endpoints `ks`, added up.
spec fn key_wins(txs: Seq<TxView>, ks: Seq<KeyView>) -> nat
    decreases ks.len(),
{
    if ks.len() == 0 {
        0
    } else {
        key_wins(txs, ks.drop_last()) + win_count(txs, ks.last())
    }
}

/// How many of the endpoints `ks` won the race `t`.
spec fn winners_among(t: TxView, ks: Seq<KeyView>) -> nat
    decreases ks.len(),
{
    if ks.len() == 0 {
        0
    } else {
        winners_among(t, ks.drop_last()) + if is_race(t) && winner_key(t) == ks.last() { 1nat } else { 0nat }
    }
}

proof fn lemma_key_wins_step(txs: Seq<TxView>, ks: Seq<KeyView>)
    requires
        txs.len() > 0,
    ensures
        key_wins(txs, ks) == key_wins(txs.drop_last(), ks) + winners_among(txs.last(), ks),
    decreases ks.len(),
{
    if ks.len() > 0 {
        lemma_key_wins_step(txs, ks.drop_last());
    }
}

proof fn lemma_one_winner(t: TxView, ks: Seq<KeyView>)
    requires
        ks.no_duplicates(),
        is_race(t) ==> ks.contains(winner_key(t)),
    ensures
        winners_among(t, ks) == if is_race(t) { 1nat } else { 0nat },
    decreases ks.len(),
{
    if ks.len() > 0 {
        let rest = ks.drop_last();
        assert(rest.no_duplicates()) by {
            assert forall|i: int, j: int| 0 <= i < rest.len() && 0 <= j < rest.len() && i != j implies rest[i] != rest[j] by {
                assert(rest[i] == ks[i] && rest[j] == ks[j]);
            }
        }
        if is_race(t) && winner_key(t) == ks.last() {
            assert(!rest.contains(winner_key(t))) by {
                if rest.contains(winner_key(t)) {
                    let i = choose|i: int| 0 <= i < rest.len() && rest[i] == winner_key(t);
                    assert(ks[i] == ks[ks.len() - 1]);
                }
            }
            lemma_no_winner(t, rest);
        } else {
            if is_race(t) {
                let i = choose|i: int| 0 <= i < ks.len() && ks[i] == winner_key(t);
                assert(i != ks.len() - 1);
                assert(rest[i] == winner_key(t));
            }
            lemma_one_winner(t, rest);
        }
    }
}

proof fn lemma_no_winner(t: TxView, ks: Seq<KeyView>)
    requires
        !ks.contains(winner_key(t)),
    ensures
        winners_among(t, ks) == 0,
    decreases ks.len(),
{
    if ks.len() > 0 {
        assert(ks.last() == ks[ks.len() - 1]);
        assert(!ks.drop_last().contains(winner_key(t))) by {
            if ks.drop_last().contains(winner_key(t)) {
                let i = choose|i: int| 0 <= i < ks.drop_last().len() && ks.drop_last()[i] == winner_key(t);
                assert(ks[i] == winner_key(t));
            }
        }
        lemma_no_winner(t, ks.drop_last());
    }
}

proof fn lemma_key_wins_races(txs: Seq<TxView>, ks: Seq<KeyView>)
    requires
        ks.no_duplicates(),
        forall|i: int, k: KeyView| 0 <= i < txs.len() && #[trigger] has_key(txs[i], k) ==> ks.contains(k),
    ensures
        key_wins(txs, ks) == race_total(txs),
    decreases txs.len(),
{
    if txs.len() > 0 {
        let t = txs.last();
        let rest = txs.drop_last();
        assert forall|i: int, k: KeyView| 0 <= i < rest.len() && #[trigger] has_key(rest[i], k) implies ks.contains(k) by {
            assert(rest[i] == txs[i]);
            assert(has_key(txs[i], k));
        }
        lemma_key_wins_races(rest, ks);
        lemma_key_wins_step(txs, ks);
        if is_race(t) {
            lemma_first_min_bounds(t);
            assert(t[first_min(t)].0 == winner_key(t));
            assert(has_key(t, winner_key(t)));
            assert(has_key(txs[txs.len() - 1], winner_key(t)));
        }
        lemma_one_winner(t, ks);
    } else {
        lemma_key_wins_none(txs, ks);
    }
}

proof fn lemma_key_wins_none(txs: Seq<TxView>, ks: Seq<KeyView>)
    requires
        txs.len() == 0,
    ensures
        key_wins(txs, ks) == 0,
    decreases ks.len(),
{
    if ks.len() > 0 {
        lemma_key_wins_none(txs, ks.drop_last());
    }
}

proof fn lemma_rows_wins(txs: Seq<TxView>, rows: Seq<SummaryView>, ks: Seq<KeyView>)
    requires
        rows.len() == ks.len(),
        forall|i: int| 0 <= i < rows.len() ==> #[trigger] rows[i].wins == win_count(txs, ks[i]),
    ensures
        wins_total(rows) == key_wins(txs, ks),
    decreases rows.len(),
{
    if rows.len() > 0 {
        let r = rows.drop_last();
        let k = ks.drop_last();
        assert forall|i: int| 0 <= i < r.len() implies #[trigger] r[i].wins == win_count(txs, k[i]) by {
            assert(r[i] == rows[i] && k[i] == ks[i]);
        }
        lemma_rows_wins(txs, r, k);
        assert(rows.last().wins == win_count(txs, ks.last())) by {
            assert(rows[rows.len() - 1].wins == win_count(txs, ks[ks.len() - 1]));
        }
    }
}

/// Every race has exactly one winner: the wins of the endpoint ranking add
/// up to the race-eligible signatures.
pub proof fn law_wins_sum_to_races(eps: Seq<EndpointView>, txs: Seq<TxView>, rows: Seq<SummaryView>)
    requires
        ranking_matches(eps, txs, rows),
    ensures
        wins_total(rows) == race_total(txs),
{
    let ks = choose|ks: Seq<KeyView>| ranking_with_keys(eps, txs, rows, ks);
    assert forall|i: int| 0 <= i < rows.len() implies #[trigger] rows[i].wins == win_count(txs, ks[i]) by {
        assert(rows[i] == summary_of(eps, txs, ks[i]));
    }
    lemma_rows_wins(txs, rows, ks);
    assert forall|i: int, k: KeyView| 0 <= i < txs.len() && #[trigger] has_key(txs[i], k) implies ks.contains(k) by {
        assert(key_set(eps, txs).contains(k));
    }
    lemma_key_wins_races(txs, ks);
}

// ---------------------------------------------------------------------------
// Pairs

proof fn lemma_signs_count(s: Seq<i64>)
    ensures
        count_positive(s) + count_negative(s) <= s.len(),
    decreases s.len(),
{
    if s.len() > 0 {
        lemma_signs_count(s.drop_last());
    }
}

/// The endpoint shown as faster in a pair won at least as many of the
/// shared races as it lost, and its wins and losses together are at most
/// the shared races (ties count as neither).
pub proof fn law_pair_wins(txs: Seq<TxView>, a: KeyView, b: KeyView)
    ensures
        ({
            let leads = pair_leads(txs, a, b);
            let p = pair_of(txs, a, b);
            let losses = if left_is_faster(txs, a, b) { count_negative(leads) } else { count_positive(leads) };
            p.wins >= losses && p.wins + losses <= p.shared_signatures
        }),
{
    lemma_signs_count(pair_leads(txs, a, b));
}

proof fn lemma_leads_not_min(txs: Seq<TxView>, a: KeyView, b: KeyView, n: int)
    requires
        stats_input_ok(Seq::empty(), txs),
        key_lt(a, b),
        0 <= n <= txs.len(),
    ensures
        forall|i: int| 0 <= i < pair_leads(txs.take(n), a, b).len() ==> #[trigger] pair_leads(txs.take(n), a, b)[i] != i64::MIN,
    decreases n,
{
    if n > 0 {
        lemma_leads_not_min(txs, a, b, n - 1);
        let pre = txs.take(n);
        let t = txs[n - 1];
        assert(pre.drop_last() =~= txs.take(n - 1));
        assert(pre.last() == t);
        let prev = pair_leads(txs.take(n - 1), a, b);
        if is_race(t) && has_key(t, a) && has_key(t, b) {
            assert(keys_distinct(txs[n - 1]));
            let ia = choose|i: int| 0 <= i < t.len() && #[trigger] t[i].0 == a;
            let ib = choose|i: int| 0 <= i < t.len() && #[trigger] t[i].0 == b;
            lemma_obs_of_index(t, ia);
            lemma_obs_of_index(t, ib);
            assert(span_us(time_of(txs[n - 1][ib].1), time_of(txs[n - 1][ia].1)) != i64::MIN);
            let v = span_us(time_of(obs_of(t, b)), time_of(obs_of(t, a)));
            assert(pair_leads(pre, a, b) == prev.push(v));
            assert forall|i: int| 0 <= i < pair_leads(pre, a, b).len() implies #[trigger] pair_leads(pre, a, b)[i] != i64::MIN by {
                if i < prev.len() {
                    assert(pair_leads(pre, a, b)[i] == prev[i]);
                }
            }
        } else {
            assert(pair_leads(pre, a, b) == prev);
        }
    }
}

proof fn lemma_faster_leads_not_min(txs: Seq<TxView>, a: KeyView, b: KeyView)
    requires
        stats_input_ok(Seq::empty(), txs),
        key_lt(a, b),
    ensures
        forall|i: int| 0 <= i < faster_leads(txs, a, b).len() ==> #[trigger] faster_leads(txs, a, b)[i] != i64::MIN,
{
    lemma_leads_not_min(txs, a, b, txs.len() as int);
    assert(txs.take(txs.len() as int) =~= txs);
    let l = pair_leads(txs, a, b);
    if !left_is_faster(txs, a, b) {
        assert forall|i: int| 0 <= i < negated(l).len() implies #[trigger] negated(l)[i] != i64::MIN by {
            assert(l[i] != i64::MIN);
        }
    }
}

proof fn lemma_behind_values(s: Seq<i64>)
    requires
        forall|i: int| 0 <= i < s.len() ==> #[trigger] s[i] != i64::MIN,
    ensures
        behind_values(s).len() == 0 <==> forall|i: int| 0 <= i < s.len() ==> #[trigger] s[i] >= 0,
        forall|i: int| 0 <= i < behind_values(s).len() ==> #[trigger] behind_values(s)[i] > 0,
    decreases s.len(),
{
    if s.len() > 0 {
        let r = s.drop_last();
        assert forall|i: int| 0 <= i < r.len() implies #[trigger] r[i] != i64::MIN by {
            assert(r[i] == s[i]);
        }
        lemma_behind_values(r);
        let prev = behind_values(r);
        if s.last() < 0 {
            assert(behind_values(s) == prev.push((-s.last()) as i64));
            assert(s[s.len() - 1] != i64::MIN);
            assert forall|i: int| 0 <= i < behind_values(s).len() implies #[trigger] behind_values(s)[i] > 0 by {
                if i < prev.len() {
                    assert(behind_values(s)[i] == prev[i]);
                }
            }
        } else {
            assert(behind_values(s) == prev);
            if prev.len() == 0 {
                assert forall|i: int| 0 <= i < s.len() implies #[trigger] s[i] >= 0 by {
                    if i < r.len() {
                        assert(s[i] == r[i]);
                    }
                }
            } else {
                assert(!(forall|i: int| 0 <= i < r.len() ==> #[trigger] r[i] >= 0));
                let i = choose|i: int| 0 <= i < r.len() && !(#[trigger] r[i] >= 0);
                assert(s[i] == r[i]);
            }
        }
    }
}

/// The lag of the endpoint shown as faster in a pair, over the shared races
/// it lost, is positive, and there is none (`n/a`) exactly when it never
/// fell behind.
pub proof fn law_pair_behind(eps: Seq<EndpointView>, txs: Seq<TxView>, a: KeyView, b: KeyView)
    requires
        stats_input_ok(eps, txs),
        key_lt(a, b),
    ensures
        pair_of(txs, a, b).median_behind_us is None <==> forall|i: int|
            0 <= i < faster_leads(txs, a, b).len() ==> #[trigger] faster_leads(txs, a, b)[i] >= 0,
        pair_of(txs, a, b).median_behind_us is None <==> pair_of(txs, a, b).p95_behind_us is None,
        pair_of(txs, a, b).median_behind_us matches Some(v) ==> v > 0,
        pair_of(txs, a, b).p95_behind_us matches Some(v) ==> v > 0,
{
    let fl = faster_leads(txs, a, b);
    lemma_faster_leads_not_min(txs, a, b);
    lemma_behind_values(fl);
    let bv = behind_values(fl);
    let sb = sorted_i64(bv);
    lemma_sorted_same_values(bv);
    law_percentiles_ordered(sb, 50, 95);
    if bv.len() > 0 {
        let m = percentile_of(sb, 50)->0;
        let j = choose|j: int| 0 <= j < sb.len() && sb[j] == m;
        assert(bv.contains(sb[j]));
        let q = percentile_of(sb, 95)->0;
        assert(m <= q);
        let i = choose|i: int| 0 <= i < bv.len() && bv[i] == sb[j];
        assert(bv[i] > 0);
    }
}

// ---------------------------------------------------------------------------
// Observations

/// The record an endpoint keeps of a signature it delivered at each of `ts`,
/// in order of arrival.
pub open spec fn record_after(ts: Seq<Timing>) -> Option<EndpointObservation>
    decreases ts.len(),
{
    if ts.len() == 0 {
        None
    } else {
        Some(merged(record_after(ts.drop_last()), ts.last()))
    }
}

/// The earliest receive time among `ts`.
pub open spec fn earliest(ts: Seq<Timing>) -> i64
    decreases ts.len(),
{
    if ts.len() <= 1 {
        ts[0].received_at_us
    } else if ts.last().received_at_us < earliest(ts.drop_last()) {
        ts.last().received_at_us
    } else {
        earliest(ts.drop_last())
    }
}

/// How many deliveries after the first came strictly earlier than every one
/// before them.
pub open spec fn new_minima(ts: Seq<Timing>) -> nat
    decreases ts.len(),
{
    if ts.len() <= 1 {
        0
    } else {
        new_minima(ts.drop_last()) + if ts.last().received_at_us < earliest(ts.drop_last()) { 1nat } else { 0nat }
    }
}

/// Whatever order deliveries arrive in, the record keeps one of them with
/// the earliest receive time, and counts every other delivery as a duplicate
/// except those that replaced an earlier record; the first delivery counts
/// none.
pub proof fn law_record_keeps_earliest(ts: Seq<Timing>)
    requires
        ts.len() > 0,
        ts.len() <= u64::MAX,
    ensures
        record_after(ts) is Some,
        ts.contains(record_after(ts)->0.first),
        record_after(ts)->0.first.received_at_us == earliest(ts),
        forall|i: int| 0 <= i < ts.len() ==> earliest(ts) <= #[trigger] ts[i].received_at_us,
        record_after(ts)->0.duplicates + new_minima(ts) == ts.len() - 1,
    decreases ts.len(),
{
    if ts.len() > 1 {
        let r = ts.drop_last();
        law_record_keeps_earliest(r);
        let prev = record_after(r)->0;
        assert(ts.last() == ts[ts.len() - 1]);
        if ts.last().received_at_us < prev.first.received_at_us {
            assert(ts.contains(ts.last()));
        } else {
            let j = choose|j: int| 0 <= j < r.len() && r[j] == prev.first;
            assert(ts[j] == prev.first);
        }
        assert forall|i: int| 0 <= i < ts.len() implies earliest(ts) <= #[trigger] ts[i].received_at_us by {
            if i < r.len() {
                assert(ts[i] == r[i]);
            }
        }
    } else {
        assert(record_after(ts.drop_last()) is None);
        assert(ts.last() == ts[0]);
        assert(ts.contains(ts[0]));
    }
}

// ---------------------------------------------------------------------------
// Configuration

/// Resolving plans keeps them one for one, in order: each endpoint carries
/// its plan's alias (the name of its table), protocol and URL.
pub proof fn law_endpoints_follow_plans(plans: Seq<EndpointPlan>, env: Seq<(String, String)>)
    ensures
        resolve_plans(plans, env) matches Ok(v) ==> {
            &&& v.len() == plans.len()
            &&& forall|i: int| 0 <= i < plans.len() ==> {
                &&& (#[trigger] v[i]).alias == plans[i].alias
                &&& v[i].protocol == plans[i].protocol
                &&& v[i].url == plans[i].url
                &&& v[i].signatures_only == plans[i].signatures_only
                &&& v[i].include_simulation == plans[i].include_simulation
                &&& v[i].batch_mode == plans[i].batch_mode
            }
        },
    decreases plans.len(),
{
    if plans.len() > 0 {
        law_endpoints_follow_plans(plans.drop_last(), env);
        if let Ok(v) = resolve_plans(plans, env) {
            let done = resolve_plans(plans.drop_last(), env)->Ok_0;
            assert(v == done.push(crate::config::resolve_plan(plans.last(), env)->Ok_0));
            assert forall|i: int| 0 <= i < plans.len() implies {
                &&& (#[trigger] v[i]).alias == plans[i].alias
                &&& v[i].protocol == plans[i].protocol
                &&& v[i].url == plans[i].url
                &&& v[i].signatures_only == plans[i].signatures_only
                &&& v[i].include_simulation == plans[i].include_simulation
                &&& v[i].batch_mode == plans[i].batch_mode
            } by {
                if i < plans.len() - 1 {
                    assert(v[i] == done[i]);
                    assert(plans[i] == plans.drop_last()[i]);
                }
            }
        }
    }
}

/// A configuration plans one stream per entry of its protocol tables.
pub proof fn law_one_plan_per_entry(cfg: Config)
    ensures
        cfg.plans().len() == cfg.endpoint_count(),
{
}

/// Plans of one protocol list their aliases in ascending order.
pub open spec fn ascending_per_protocol(ps: Seq<EndpointPlan>) -> bool {
    forall|i: int, j: int| 0 <= i < j < ps.len() && ps[i].protocol == ps[j].protocol ==> text_lt(ps[i].alias, ps[j].alias)
}

proof fn lemma_section_ascending<E>(section: Seq<(String, E)>, ps: Seq<EndpointPlan>, p: Protocol)
    requires
        aliases_ascending(section),
        ps.len() == section.len(),
        forall|i: int| 0 <= i < ps.len() ==> (#[trigger] ps[i]).alias == section[i].0@ && ps[i].protocol == p,
    ensures
        ascending_per_protocol(ps),
        forall|i: int| 0 <= i < ps.len() ==> (#[trigger] ps[i]).protocol == p,
{
    assert forall|i: int, j: int| 0 <= i < j < ps.len() && ps[i].protocol == ps[j].protocol implies text_lt(ps[i].alias, ps[j].alias) by {
        assert(ps[i].alias == section[i].0@ && ps[j].alias == section[j].0@);
    }
}

proof fn lemma_append_ascending(a: Seq<EndpointPlan>, b: Seq<EndpointPlan>, p: Protocol)
    requires
        ascending_per_protocol(a),
        ascending_per_protocol(b),
        forall|i: int| 0 <= i < a.len() ==> (#[trigger] a[i]).protocol != p,
        forall|i: int| 0 <= i < b.len() ==> (#[trigger] b[i]).protocol == p,
    ensures
        ascending_per_protocol(a + b),
{
    let c = a + b;
    assert forall|i: int, j: int| 0 <= i < j < c.len() && c[i].protocol == c[j].protocol implies text_lt(c[i].alias, c[j].alias) by {
        if j < a.len() {
            assert(c[i] == a[i] && c[j] == a[j]);
        } else if i >= a.len() {
            assert(c[i] == b[i - a.len()] && c[j] == b[j - a.len()]);
        } else {
            assert(c[i] == a[i] && c[j] == b[j - a.len()]);
        }
    }
}

proof fn lemma_protocols_among(a: Seq<EndpointPlan>, b: Seq<EndpointPlan>, p: Protocol, q: Protocol)
    requires
        forall|i: int| 0 <= i < a.len() ==> (#[trigger] a[i]).protocol != q,
        p != q,
        forall|i: int| 0 <= i < b.len() ==> (#[trigger] b[i]).protocol == p,
    ensures
        forall|i: int| 0 <= i < (a + b).len() ==> (#[trigger] (a + b)[i]).protocol != q,
{
    assert forall|i: int| 0 <= i < (a + b).len() implies (#[trigger] (a + b)[i]).protocol != q by {
        if i < a.len() {
            assert((a + b)[i] == a[i]);
        } else {
            assert((a + b)[i] == b[i - a.len()]);
        }
    }
}

/// The endpoints of a well-formed configuration come protocol table by
/// protocol table, each table by ascending alias, as the ordered tables of
/// the file give them: of two endpoints of one protocol, the first has the
/// smaller alias.
pub proof fn law_endpoints_in_alias_order(cfg: Config, env: Seq<(String, String)>)
    requires
        cfg.wf(),
    ensures
        resolve_plans(cfg.plans(), env) matches Ok(v) ==> {
            &&& v.len() == cfg.endpoint_count()
            &&& forall|i: int, j: int| 0 <= i < j < v.len() && v[i].protocol == v[j].protocol ==> text_lt(v[i].alias, v[j].alias)
        },
{
    let p1 = section_plans(cfg.yellowstone@, Protocol::Yellowstone);
    let p2 = section_plans(cfg.jito_shredstream@, Protocol::JitoShredstream);
    let p3 = aperture_plans(cfg.aperture_txstream@);
    let p4 = section_plans(cfg.shreder_binary@, Protocol::ShrederBinary);
    let p5 = section_plans(cfg.arpc@, Protocol::Arpc);
    let p6 = section_plans(cfg.jetstream@, Protocol::Jetstream);
    lemma_section_ascending(cfg.yellowstone@, p1, Protocol::Yellowstone);
    lemma_section_ascending(cfg.jito_shredstream@, p2, Protocol::JitoShredstream);
    lemma_section_ascending(cfg.aperture_txstream@, p3, Protocol::ApertureTxstream);
    lemma_section_ascending(cfg.shreder_binary@, p4, Protocol::ShrederBinary);
    lemma_section_ascending(cfg.arpc@, p5, Protocol::Arpc);
    lemma_section_ascending(cfg.jetstream@, p6, Protocol::Jetstream);
    lemma_append_ascending(p1, p2, Protocol::JitoShredstream);
    lemma_protocols_among(p1, p2, Protocol::JitoShredstream, Protocol::ApertureTxstream);
    lemma_append_ascending(p1 + p2, p3, Protocol::ApertureTxstream);
    lemma_protocols_among(p1, p2, Protocol::JitoShredstream, Protocol::ShrederBinary);
    lemma_protocols_among(p1 + p2, p3, Protocol::ApertureTxstream, Protocol::ShrederBinary);
    lemma_append_ascending(p1 + p2 + p3, p4, Protocol::ShrederBinary);
    lemma_protocols_among(p1, p2, Protocol::JitoShredstream, Protocol::Arpc);
    lemma_protocols_among(p1 + p2, p3, Protocol::ApertureTxstream, Protocol::Arpc);
    lemma_protocols_among(p1 + p2 + p3, p4, Protocol::ShrederBinary, Protocol::Arpc);
    lemma_append_ascending(p1 + p2 + p3 + p4, p5, Protocol::Arpc);
    lemma_protocols_among(p1, p2, Protocol::JitoShredstream, Protocol::Jetstream);
    lemma_protocols_among(p1 + p2, p3, Protocol::ApertureTxstream, Protocol::Jetstream);
    lemma_protocols_among(p1 + p2 + p3, p4, Protocol::ShrederBinary, Protocol::Jetstream);
    lemma_protocols_among(p1 + p2 + p3 + p4, p5, Protocol::Arpc, Protocol::Jetstream);
    lemma_append_ascending(p1 + p2 + p3 + p4 + p5, p6, Protocol::Jetstream);
    let ps = cfg.plans();
    assert(ps == p1 + p2 + p3 + p4 + p5 + p6);
    law_endpoints_follow_plans(ps, env);
    if let Ok(v) = resolve_plans(ps, env) {
        assert forall|i: int, j: int| 0 <= i < j < v.len() && v[i].protocol == v[j].protocol implies text_lt(v[i].alias, v[j].alias) by {
            assert(v[i].alias == ps[i].alias && v[i].protocol == ps[i].protocol);
            assert(v[j].alias == ps[j].alias && v[j].protocol == ps[j].protocol);
        }
    }
}

/// Protocol names tell protocols apart: no two protocols share a name.
pub proof fn law_protocol_names_distinct(p: Protocol, q: Protocol)
    ensures
        p != q ==> p.name() != q.name(),
{
    reveal_strlit("yellowstone");
    reveal_strlit("jito-shredstream");
    reveal_strlit("aperture-txstream");
    reveal_strlit("shreder-binary");
    reveal_strlit("arpc");
    reveal_strlit("jetstream");
    assert(Protocol::Yellowstone.name().len() == 11);
    assert(Protocol::JitoShredstream.name().len() == 16);
    assert(Protocol::ApertureTxstream.name().len() == 17);
    assert(Protocol::ShrederBinary.name().len() == 14);
    assert(Protocol::Arpc.name().len() == 4);
    assert(Protocol::Jetstream.name().len() == 9);
}

proof fn lemma_no_new_minima(ts: Seq<Timing>)
    requires
        ts.len() > 0,
        ts.len() <= u64::MAX,
        forall|i: int, j: int| 0 <= i <= j < ts.len() ==> ts[i].received_at_us <= ts[j].received_at_us,
    ensures
        new_minima(ts) == 0,
    decreases ts.len(),
{
    if ts.len() > 1 {
        let r = ts.drop_last();
        assert forall|i: int, j: int| 0 <= i <= j < r.len() implies r[i].received_at_us <= r[j].received_at_us by {
            assert(r[i] == ts[i] && r[j] == ts[j]);
        }
        lemma_no_new_minima(r);
        law_record_keeps_earliest(r);
        assert(earliest(r) <= r[0].received_at_us);
        assert(ts[0].received_at_us <= ts[ts.len() - 1].received_at_us);
        assert(r[0] == ts[0]);
    }
}

/// Deliveries that arrive in order of their receive times (a repeat never
/// earlier than what came before) are each counted as a repeat after the
/// first: `n` deliveries leave `n - 1` duplicates.
pub proof fn law_in_order_repeats_all_count(ts: Seq<Timing>)
    requires
        ts.len() > 0,
        ts.len() <= u64::MAX,
        forall|i: int, j: int| 0 <= i <= j < ts.len() ==> ts[i].received_at_us <= ts[j].received_at_us,
    ensures
        record_after(ts)->0.duplicates == ts.len() - 1,
        record_after(ts)->0.first == ts[0],
{
    law_record_keeps_earliest(ts);
    lemma_no_new_minima(ts);
    lemma_in_order_keeps_first(ts);
}

proof fn lemma_in_order_keeps_first(ts: Seq<Timing>)
    requires
        ts.len() > 0,
        forall|i: int, j: int| 0 <= i <= j < ts.len() ==> ts[i].received_at_us <= ts[j].received_at_us,
    ensures
        record_after(ts) is Some,
        record_after(ts)->0.first == ts[0],
    decreases ts.len(),
{
    if ts.len() > 1 {
        let r = ts.drop_last();
        assert forall|i: int, j: int| 0 <= i <= j < r.len() implies r[i].received_at_us <= r[j].received_at_us by {
            assert(r[i] == ts[i] && r[j] == ts[j]);
        }
        lemma_in_order_keeps_first(r);
        assert(r[0] == ts[0]);
        assert(ts[0].received_at_us <= ts[ts.len() - 1].received_at_us);
    } else {
        assert(record_after(ts.drop_last()) is None);
    }
}

// ---------------------------------------------------------------------------
// Escaping undone

/// The five entities `escape` writes.
pub open spec fn amp_entity() -> Seq<char> { seq!['&', 'a', 'm', 'p', ';'] }
pub open spec fn lt_entity() -> Seq<char> { seq!['&', 'l', 't', ';'] }
pub open spec fn gt_entity() -> Seq<char> { seq!['&', 'g', 't', ';'] }
pub open spec fn quot_entity() -> Seq<char> { seq!['&', 'q', 'u', 'o', 't', ';'] }
pub open spec fn apos_entity() -> Seq<char> { seq!['&', '#', '3', '9', ';'] }

/// Whether `s` begins with `p`.
pub open spec fn begins_with(s: Seq<char>, p: Seq<char>) -> bool {
    p.len() <= s.len() && s.take(p.len() as int) == p
}

/// HTML text decoded left to right: each of the five entities becomes its
/// character, everything else stays.
pub open spec fn unescaped(s: Seq<char>) -> Seq<char>
    decreases s.len(),
{
    if s.len() == 0 {
        s
    } else if begins_with(s, amp_entity()) {
        seq!['&'] + unescaped(s.skip(5))
    } else if begins_with(s, lt_entity()) {
        seq!['<'] + unescaped(s.skip(4))
    } else if begins_with(s, gt_entity()) {
        seq!['>'] + unescaped(s.skip(4))
    } else if begins_with(s, quot_entity()) {
        seq!['"'] + unescaped(s.skip(6))
    } else if begins_with(s, apos_entity()) {
        seq!['\''] + unescaped(s.skip(5))
    } else {
        seq![s[0]] + unescaped(s.skip(1))
    }
}

proof fn lemma_escaped_append(a: Seq<char>, b: Seq<char>)
    ensures
        escaped(a + b) == escaped(a) + escaped(b),
    decreases b.len(),
{
    if b.len() == 0 {
        assert(a + b =~= a);
        assert(escaped(a) + escaped(b) =~= escaped(a));
    } else {
        lemma_escaped_append(a, b.drop_last());
        assert((a + b).drop_last() =~= a + b.drop_last());
        assert((a + b).last() == b.last());
        assert(escaped(a) + escaped(b) =~= escaped(a) + escaped(b.drop_last()) + escape_char(b.last()));
    }
}

proof fn lemma_unescape_char(c: char, x: Seq<char>)
    ensures
        unescaped(escape_char(c) + x) == seq![c] + unescaped(x),
{
    reveal_strlit("&amp;");
    reveal_strlit("&lt;");
    reveal_strlit("&gt;");
    reveal_strlit("&quot;");
    reveal_strlit("&#39;");
    let e = escape_char(c);
    let s = e + x;
    assert(s.len() > 0);
    if c == '&' {
        assert(s.take(5) =~= amp_entity());
        assert(s.skip(5) =~= x);
    } else if c == '<' {
        assert(s[1] == 'l');
        assert(!begins_with(s, amp_entity())) by { if 5 <= s.len() { assert(s.take(5)[1] == s[1]); } }
        assert(s.take(4) =~= lt_entity());
        assert(s.skip(4) =~= x);
    } else if c == '>' {
        assert(s[1] == 'g');
        assert(!begins_with(s, amp_entity())) by { if 5 <= s.len() { assert(s.take(5)[1] == s[1]); } }
        assert(!begins_with(s, lt_entity())) by { if 4 <= s.len() { assert(s.take(4)[1] == s[1]); } }
        assert(s.take(4) =~= gt_entity());
        assert(s.skip(4) =~= x);
    } else if c == '"' {
        assert(s[1] == 'q');
        assert(!begins_with(s, amp_entity())) by { if 5 <= s.len() { assert(s.take(5)[1] == s[1]); } }
        assert(!begins_with(s, lt_entity())) by { if 4 <= s.len() { assert(s.take(4)[1] == s[1]); } }
        assert(!begins_with(s, gt_entity())) by { if 4 <= s.len() { assert(s.take(4)[1] == s[1]); } }
        assert(s.take(6) =~= quot_entity());
        assert(s.skip(6) =~= x);
    } else if c == '\'' {
        assert(s[1] == '#');
        assert(!begins_with(s, amp_entity())) by { if 5 <= s.len() { assert(s.take(5)[1] == s[1]); } }
        assert(!begins_with(s, lt_entity())) by { if 4 <= s.len() { assert(s.take(4)[1] == s[1]); } }
        assert(!begins_with(s, gt_entity())) by { if 4 <= s.len() { assert(s.take(4)[1] == s[1]); } }
        assert(!begins_with(s, quot_entity())) by { if 6 <= s.len() { assert(s.take(6)[1] == s[1]); } }
        assert(s.take(5) =~= apos_entity());
        assert(s.skip(5) =~= x);
    } else {
        assert(s[0] == c);
        if begins_with(s, amp_entity()) { assert(s.take(5)[0] == s[0]); }
        if begins_with(s, lt_entity()) { assert(s.take(4)[0] == s[0]); }
        if begins_with(s, gt_entity()) { assert(s.take(4)[0] == s[0]); }
        if begins_with(s, quot_entity()) { assert(s.take(6)[0] == s[0]); }
        if begins_with(s, apos_entity()) { assert(s.take(5)[0] == s[0]); }
        assert(s.skip(1) =~= x);
    }
}

/// Decoding the entities of escaped text gives the text back, and text
/// without `&`, `<`, `>`, `"` or `'` is left as it is.
pub proof fn law_escape_round_trip(v: Seq<char>)
    ensures
        unescaped(escaped(v)) == v,
        (forall|i: int| 0 <= i < v.len() ==> {
            let c = #[trigger] v[i];
            c != '&' && c != '<' && c != '>' && c != '"' && c != '\''
        }) ==> escaped(v) == v,
    decreases v.len(),
{
    if v.len() > 0 {
        let rest = v.drop_first();
        law_escape_round_trip(rest);
        assert(v =~= seq![v[0]] + rest);
        lemma_escaped_append(seq![v[0]], rest);
        assert(seq![v[0]].drop_last() =~= Seq::<char>::empty());
        assert(escaped(Seq::<char>::empty()) =~= Seq::<char>::empty());
        assert(seq![v[0]].last() == v[0]);
        assert(escaped(seq![v[0]]) =~= escape_char(v[0]));
        lemma_unescape_char(v[0], escaped(rest));
        if forall|i: int| 0 <= i < v.len() ==> {
            let c = #[trigger] v[i];
            c != '&' && c != '<' && c != '>' && c != '"' && c != '\''
        } {
            assert forall|i: int| 0 <= i < rest.len() implies {
                let c = #[trigger] rest[i];
                c != '&' && c != '<' && c != '>' && c != '"' && c != '\''
            } by {
                assert(rest[i] == v[i + 1]);
            }
            let c0 = v[0];
            assert(c0 != '&' && c0 != '<' && c0 != '>' && c0 != '"' && c0 != '\'');
        }
    } else {
        assert(escaped(v) =~= v);
    }
}

// ---------------------------------------------------------------------------
// What the reports leave out

/// Two endpoint lists that differ at most in tokens, in URL query strings
/// (from the first `?` on) and in stream options.
pub open spec fn same_but_secrets(a: Seq<Endpoint>, b: Seq<Endpoint>) -> bool {
    &&& a.len() == b.len()
    &&& forall|i: int| 0 <= i < a.len() ==> {
        &&& (#[trigger] a[i]).alias@ == b[i].alias@
        &&& a[i].protocol == b[i].protocol
        &&& before_char(a[i].url@, '?') == before_char(b[i].url@, '?')
    }
}

proof fn lemma_stream_rows_same(a: Seq<Endpoint>, b: Seq<Endpoint>, aw: nat, pw: nat, ew: nat)
    requires
        same_but_secrets(a, b),
    ensures
        stream_rows(a, aw, pw, ew) == stream_rows(b, aw, pw, ew),
    decreases a.len(),
{
    if a.len() > 0 {
        let ra = a.drop_last();
        let rb = b.drop_last();
        assert forall|i: int| 0 <= i < ra.len() implies {
            &&& (#[trigger] ra[i]).alias@ == rb[i].alias@
            &&& ra[i].protocol == rb[i].protocol
            &&& before_char(ra[i].url@, '?') == before_char(rb[i].url@, '?')
        } by {
            assert(ra[i] == a[i] && rb[i] == b[i]);
        }
        lemma_stream_rows_same(ra, rb, aw, pw, ew);
        assert(a.last() == a[a.len() - 1] && b.last() == b[b.len() - 1]);
    }
}

proof fn lemma_cards_same(a: Seq<Endpoint>, b: Seq<Endpoint>)
    requires
        same_but_secrets(a, b),
    ensures
        endpoint_cards(a) == endpoint_cards(b),
    decreases a.len(),
{
    if a.len() > 0 {
        let ra = a.drop_last();
        let rb = b.drop_last();
        assert forall|i: int| 0 <= i < ra.len() implies {
            &&& (#[trigger] ra[i]).alias@ == rb[i].alias@
            &&& ra[i].protocol == rb[i].protocol
            &&& before_char(ra[i].url@, '?') == before_char(rb[i].url@, '?')
        } by {
            assert(ra[i] == a[i] && rb[i] == b[i]);
        }
        lemma_cards_same(ra, rb);
        assert(a.last() == a[a.len() - 1] && b.last() == b[b.len() - 1]);
    }
}

/// Neither report shows a token or a URL's query string: endpoint lists
/// that differ only there (and in stream options) give the same terminal
/// report and the same HTML report.
pub proof fn law_reports_hide_secrets(
    a: Seq<Endpoint>,
    b: Seq<Endpoint>,
    measured: Seq<char>,
    generated: Seq<char>,
    output_path: Seq<char>,
    payload_json: Seq<char>,
    tw: nat,
    meta: ReportMeta,
    stats: BenchmarkStats,
    cells: ReportCells,
)
    requires
        same_but_secrets(a, b),
    ensures
        terminal_report(measured, generated, output_path, tw, meta, a, stats, cells)
            == terminal_report(measured, generated, output_path, tw, meta, b, stats, cells),
        html_report(generated, measured, payload_json, meta, a, stats, cells)
            == html_report(generated, measured, payload_json, meta, b, stats, cells),
{
    assert(aliases(a) =~= aliases(b));
    assert(labels(a) =~= labels(b));
    assert(redacted_urls(a) =~= redacted_urls(b));
    assert(stream_widths(a) == stream_widths(b));
    assert(streams_cols(a, tw) == streams_cols(b, tw));
    let cols = streams_cols(a, tw);
    lemma_stream_rows_same(a, b, cols[0] as nat, cols[1] as nat, cols[2] as nat);
    reveal(streams_section);
    assert(streams_section(a, cols) == streams_section(b, cols));
    lemma_cards_same(a, b);
    reveal(html_streams);
    assert(html_streams(a) == html_streams(b));
}

// ---------------------------------------------------------------------------
// A whole run of sightings

/// A sighting as the collectors send it: signature, endpoint, timing and
/// the phase it was made in.
pub type Sighting = (Seq<char>, KeyView, Timing, RunPhase);

/// The table's content after recording `rs` in order, from empty.
pub open spec fn table_after(rs: Seq<Sighting>) -> Map<Seq<char>, Map<KeyView, EndpointObservation>>
    decreases rs.len(),
{
    if rs.len() == 0 {
        Map::empty()
    } else {
        let r = rs.last();
        recorded(table_after(rs.drop_last()), r.3, r.0, r.1, r.2)
    }
}

/// The timings of the measured sightings of `signature` on `endpoint`, in
/// order.
pub open spec fn timings_for(rs: Seq<Sighting>, signature: Seq<char>, endpoint: KeyView) -> Seq<Timing>
    decreases rs.len(),
{
    if rs.len() == 0 {
        Seq::empty()
    } else {
        let r = rs.last();
        let t = timings_for(rs.drop_last(), signature, endpoint);
        if r.3 == RunPhase::Measure && r.0 == signature && r.1 == endpoint {
            t.push(r.2)
        } else {
            t
        }
    }
}

/// Recording a run of sightings keeps exactly the signatures measured at
/// least once, and for each signature and endpoint the record that the
/// measured sightings of that pair alone give, in their order (none where
/// there is none): warmup sightings and other pairs never touch it.
pub proof fn law_table_replays_sightings(rs: Seq<Sighting>)
    ensures
        forall|s: Seq<char>, k: KeyView| #[trigger] lookup(table_after(rs), s, k) == record_after(timings_for(rs, s, k)),
        forall|s: Seq<char>| #[trigger] table_after(rs).contains_key(s) <==> exists|i: int|
            0 <= i < rs.len() && rs[i].3 == RunPhase::Measure && #[trigger] rs[i].0 == s,
    decreases rs.len(),
{
    if rs.len() > 0 {
        let prev = rs.drop_last();
        law_table_replays_sightings(prev);
        let r = rs.last();
        let m = table_after(prev);
        assert forall|s: Seq<char>, k: KeyView| #[trigger] lookup(table_after(rs), s, k) == record_after(timings_for(rs, s, k)) by {
            assert(lookup(m, s, k) == record_after(timings_for(prev, s, k)));
            if r.3 == RunPhase::Measure && r.0 == s && r.1 == k {
                let ts = timings_for(prev, s, k);
                assert(timings_for(rs, s, k) == ts.push(r.2));
                assert(ts.push(r.2).drop_last() =~= ts);
            }
        }
        assert forall|s: Seq<char>| #[trigger] table_after(rs).contains_key(s) <==> exists|i: int|
            0 <= i < rs.len() && rs[i].3 == RunPhase::Measure && #[trigger] rs[i].0 == s by {
            if table_after(rs).contains_key(s) {
                if m.contains_key(s) {
                    let i = choose|i: int| 0 <= i < prev.len() && prev[i].3 == RunPhase::Measure && #[trigger] prev[i].0 == s;
                    assert(rs[i] == prev[i]);
                } else {
                    assert(rs[rs.len() - 1] == r);
                }
            }
            if exists|i: int| 0 <= i < rs.len() && rs[i].3 == RunPhase::Measure && #[trigger] rs[i].0 == s {
                let i = choose|i: int| 0 <= i < rs.len() && rs[i].3 == RunPhase::Measure && #[trigger] rs[i].0 == s;
                if i < prev.len() {
                    assert(prev[i] == rs[i]);
                } else {
                    assert(rs[i] == r);
                }
            }
        }
    }
}

// ---------------------------------------------------------------------------
// Markup in the HTML report

/// How many times `c` occurs in `s`.
pub open spec fn count_char(s: Seq<char>, c: char) -> nat
    decreases s.len(),
{
    if s.len() == 0 {
        0
    } else {
        count_char(s.drop_last(), c) + if s.last() == c { 1nat } else { 0nat }
    }
}

proof fn lemma_count_add(a: Seq<char>, b: Seq<char>, c: char)
    ensures
        count_char(a + b, c) == count_char(a, c) + count_char(b, c),
    decreases b.len(),
{
    if b.len() == 0 {
        assert(a + b =~= a);
    } else {
        lemma_count_add(a, b.drop_last(), c);
        assert((a + b).drop_last() =~= a + b.drop_last());
        assert((a + b).last() == b.last());
    }
}

proof fn lemma_count_add_all(c: char)
    ensures
        forall|a: Seq<char>, b: Seq<char>| #[trigger] count_char(a + b, c) == count_char(a, c) + count_char(b, c),
{
    assert forall|a: Seq<char>, b: Seq<char>| #[trigger] count_char(a + b, c) == count_char(a, c) + count_char(b, c) by {
        lemma_count_add(a, b, c);
    }
}

proof fn lemma_count_absent(s: Seq<char>, c: char)
    requires
        forall|i: int| 0 <= i < s.len() ==> #[trigger] s[i] != c,
    ensures
        count_char(s, c) == 0,
    decreases s.len(),
{
    if s.len() > 0 {
        let r = s.drop_last();
        assert forall|i: int| 0 <= i < r.len() implies #[trigger] r[i] != c by {
            assert(r[i] == s[i]);
        }
        lemma_count_absent(r, c);
        assert(s.last() == s[s.len() - 1]);
    }
}

/// The markup characters.
pub open spec fn is_markup(c: char) -> bool {
    c == '<' || c == '>'
}

proof fn lemma_escaped_no_markup(x: Seq<char>, c: char)
    requires
        is_markup(c),
    ensures
        count_char(escaped(x), c) == 0,
{
    law_escape_removes_markup(x);
    assert forall|i: int| 0 <= i < escaped(x).len() implies #[trigger] escaped(x)[i] != c by {
        let d = escaped(x)[i];
        assert(d != '<' && d != '>');
    }
    lemma_count_absent(escaped(x), c);
}

/// Two endpoint rows whose printed numbers agree.
pub open spec fn same_summary_numbers(a: EndpointSummary, b: EndpointSummary) -> bool {
    &&& a.unique_signatures == b.unique_signatures
    &&& a.wins == b.wins
    &&& a.median_lag_us == b.median_lag_us
    &&& a.p95_lag_us == b.p95_lag_us
}

/// Two pairwise rows whose printed numbers agree.
pub open spec fn same_pair_numbers(a: PairwiseSummary, b: PairwiseSummary) -> bool {
    &&& a.shared_signatures == b.shared_signatures
    &&& a.wins == b.wins
    &&& a.median_lag_us == b.median_lag_us
    &&& a.p95_lag_us == b.p95_lag_us
    &&& a.median_behind_us == b.median_behind_us
    &&& a.p95_behind_us == b.p95_behind_us
}

/// Two report inputs that differ at most in the contents of their text:
/// aliases, URLs, tokens, protocol names and labels, accounts, and the
/// generated time and payload the report embeds.
pub open spec fn differ_in_text_only(
    meta1: ReportMeta,
    meta2: ReportMeta,
    eps1: Seq<Endpoint>,
    eps2: Seq<Endpoint>,
    stats1: BenchmarkStats,
    stats2: BenchmarkStats,
) -> bool {
    &&& meta1.endpoint_count == meta2.endpoint_count
    &&& meta1.account_include.len() == meta2.account_include.len()
    &&& eps1.len() == eps2.len()
    &&& stats1.total_unique_signatures == stats2.total_unique_signatures
    &&& stats1.race_eligible_signatures == stats2.race_eligible_signatures
    &&& stats1.full_coverage_signatures == stats2.full_coverage_signatures
    &&& stats1.endpoint_summaries.len() == stats2.endpoint_summaries.len()
    &&& forall|i: int| 0 <= i < stats1.endpoint_summaries.len()
        ==> same_summary_numbers(#[trigger] stats1.endpoint_summaries@[i], stats2.endpoint_summaries@[i])
    &&& stats1.pairwise.len() == stats2.pairwise.len()
    &&& forall|i: int| 0 <= i < stats1.pairwise.len()
        ==> same_pair_numbers(#[trigger] stats1.pairwise@[i], stats2.pairwise@[i])
}

proof fn lemma_ranking_rows_markup(
    s1: Seq<EndpointSummary>,
    s2: Seq<EndpointSummary>,
    cells: Seq<EndpointCells>,
    n: nat,
    c: char,
)
    requires
        is_markup(c),
        n <= s1.len(),
        s1.len() == s2.len(),
        forall|i: int| 0 <= i < s1.len() ==> same_summary_numbers(#[trigger] s1[i], s2[i]),
    ensures
        count_char(endpoint_rows_html(s1, cells, n), c) == count_char(endpoint_rows_html(s2, cells, n), c),
    decreases n,
{
    if n > 0 {
        lemma_ranking_rows_markup(s1, s2, cells, (n - 1) as nat, c);
        lemma_count_add_all(c);
        let a = s1[n - 1];
        let b = s2[n - 1];
        assert(same_summary_numbers(a, b));
        lemma_escaped_no_markup(a.alias@, c);
        lemma_escaped_no_markup(b.alias@, c);
        lemma_escaped_no_markup(a.protocol_label@, c);
        lemma_escaped_no_markup(b.protocol_label@, c);
    }
}

proof fn lemma_pair_rows_markup(p1: Seq<PairwiseSummary>, p2: Seq<PairwiseSummary>, cells: Seq<PairCells>, n: nat, c: char)
    requires
        is_markup(c),
        n <= p1.len(),
        p1.len() == p2.len(),
        forall|i: int| 0 <= i < p1.len() ==> same_pair_numbers(#[trigger] p1[i], p2[i]),
    ensures
        count_char(pair_rows_html(p1, cells, n), c) == count_char(pair_rows_html(p2, cells, n), c),
    decreases n,
{
    if n > 0 {
        lemma_pair_rows_markup(p1, p2, cells, (n - 1) as nat, c);
        lemma_count_add_all(c);
        let a = p1[n - 1];
        let b = p2[n - 1];
        assert(same_pair_numbers(a, b));
        lemma_escaped_no_markup(a.faster_alias@, c);
        lemma_escaped_no_markup(b.faster_alias@, c);
        lemma_escaped_no_markup(a.slower_alias@, c);
        lemma_escaped_no_markup(b.slower_alias@, c);
    }
}

proof fn lemma_cards_markup(e1: Seq<Endpoint>, e2: Seq<Endpoint>, c: char)
    requires
        is_markup(c),
        e1.len() == e2.len(),
    ensures
        count_char(endpoint_cards(e1), c) == count_char(endpoint_cards(e2), c),
    decreases e1.len(),
{
    if e1.len() > 0 {
        lemma_cards_markup(e1.drop_last(), e2.drop_last(), c);
        lemma_count_add_all(c);
        let a = e1.last();
        let b = e2.last();
        lemma_escaped_no_markup(a.alias@, c);
        lemma_escaped_no_markup(b.alias@, c);
        lemma_escaped_no_markup(a.protocol.title(), c);
        lemma_escaped_no_markup(b.protocol.title(), c);
        lemma_escaped_no_markup(before_char(a.url@, '?'), c);
        lemma_escaped_no_markup(before_char(b.url@, '?'), c);
    }
}

proof fn lemma_codes_markup(a1: Seq<Seq<char>>, a2: Seq<Seq<char>>, c: char)
    requires
        is_markup(c),
        a1.len() == a2.len(),
    ensures
        count_char(account_codes(a1), c) == count_char(account_codes(a2), c),
    decreases a1.len(),
{
    if a1.len() > 0 {
        lemma_codes_markup(a1.drop_last(), a2.drop_last(), c);
        lemma_count_add_all(c);
        lemma_escaped_no_markup(a1.last(), c);
        lemma_escaped_no_markup(a2.last(), c);
    }
}

/// User text never adds markup to the HTML report: inputs that differ only
/// in the contents of their text give reports with as many `<` and as many
/// `>` characters, since every such text is escaped (the embedded payload
/// too).
pub proof fn law_text_adds_no_markup(
    generated1: Seq<char>,
    generated2: Seq<char>,
    payload1: Seq<char>,
    payload2: Seq<char>,
    measured: Seq<char>,
    meta1: ReportMeta,
    meta2: ReportMeta,
    eps1: Seq<Endpoint>,
    eps2: Seq<Endpoint>,
    stats1: BenchmarkStats,
    stats2: BenchmarkStats,
    cells: ReportCells,
    c: char,
)
    requires
        is_markup(c),
        differ_in_text_only(meta1, meta2, eps1, eps2, stats1, stats2),
    ensures
        count_char(html_report(generated1, measured, payload1, meta1, eps1, stats1, cells), c)
            == count_char(html_report(generated2, measured, payload2, meta2, eps2, stats2, cells), c),
{
    lemma_count_add_all(c);
    reveal(html_hero);
    reveal(html_kpis);
    reveal(html_ranking);
    reveal(html_pairwise);
    reveal(html_streams);
    reveal(html_filters);
    lemma_escaped_no_markup(generated1, c);
    lemma_escaped_no_markup(generated2, c);
    lemma_escaped_no_markup(payload1, c);
    lemma_escaped_no_markup(payload2, c);
    assert(count_char(html_hero(generated1, measured), c) == count_char(html_hero(generated2, measured), c));
    assert(html_kpis(stats1, meta1.endpoint_count as nat) == html_kpis(stats2, meta2.endpoint_count as nat));
    let s1 = stats1.endpoint_summaries@;
    let s2 = stats2.endpoint_summaries@;
    lemma_ranking_rows_markup(s1, s2, cells.endpoints@, s1.len(), c);
    assert(count_char(html_ranking(s1, cells.endpoints@), c) == count_char(html_ranking(s2, cells.endpoints@), c));
    let p1 = stats1.pairwise@;
    let p2 = stats2.pairwise@;
    lemma_pair_rows_markup(p1, p2, cells.pairs@, listed_pairs(p1.len()), c);
    assert(count_char(html_pairwise(p1, cells.pairs@), c) == count_char(html_pairwise(p2, cells.pairs@), c));
    lemma_cards_markup(eps1, eps2, c);
    assert(count_char(html_streams(eps1), c) == count_char(html_streams(eps2), c));
    lemma_codes_markup(accounts_of(meta1), accounts_of(meta2), c);
    assert(count_char(html_filters(accounts_of(meta1)), c) == count_char(html_filters(accounts_of(meta2)), c));
    assert(count_char(html_tail(payload1), c) == count_char(html_tail(payload2), c));
}

/// Whether `s` begins with one of the five entities.
pub open spec fn begins_with_entity(s: Seq<char>) -> bool {
    ||| begins_with(s, amp_entity())
    ||| begins_with(s, lt_entity())
    ||| begins_with(s, gt_entity())
    ||| begins_with(s, quot_entity())
    ||| begins_with(s, apos_entity())
}

proof fn lemma_begins_extend(s: Seq<char>, t: Seq<char>, i: int)
    requires
        0 <= i < s.len(),
        begins_with_entity(s.skip(i)),
    ensures
        begins_with_entity((s + t).skip(i)),
{
    let a = s.skip(i);
    let b = (s + t).skip(i);
    assert forall|e: Seq<char>| begins_with(a, e) implies begins_with(b, e) by {
        assert(b.take(e.len() as int) =~= a.take(e.len() as int));
    }
}

/// Every `&` in escaped text starts one of the five entities.
pub proof fn law_escape_ampersands_start_entities(v: Seq<char>)
    ensures
        forall|i: int| 0 <= i < escaped(v).len() && #[trigger] escaped(v)[i] == '&' ==> begins_with_entity(escaped(v).skip(i)),
    decreases v.len(),
{
    if v.len() > 0 {
        let r = v.drop_last();
        law_escape_ampersands_start_entities(r);
        reveal_strlit("&amp;");
        reveal_strlit("&lt;");
        reveal_strlit("&gt;");
        reveal_strlit("&quot;");
        reveal_strlit("&#39;");
        let h = escaped(r);
        let t = escape_char(v.last());
        assert(escaped(v) == h + t);
        assert forall|i: int| 0 <= i < escaped(v).len() && #[trigger] escaped(v)[i] == '&' implies begins_with_entity(escaped(v).skip(i)) by {
            if i < h.len() {
                assert(escaped(v)[i] == h[i]);
                lemma_begins_extend(h, t, i);
            } else {
                let j = i - h.len();
                assert(escaped(v)[i] == t[j]);
                assert(j == 0);
                assert(escaped(v).skip(i) =~= t);
                let c = v.last();
                if c == '&' {
                    assert(t.take(5) =~= amp_entity());
                } else if c == '<' {
                    assert(t.take(4) =~= lt_entity());
                } else if c == '>' {
                    assert(t.take(4) =~= gt_entity());
                } else if c == '"' {
                    assert(t.take(6) =~= quot_entity());
                } else if c == '\'' {
                    assert(t.take(5) =~= apos_entity());
                }
            }
        }
    }
}

// ---------------------------------------------------------------------------
// Audited behaviours

/// The configured options of each Aperture stream reach its endpoint: the
/// endpoint of Aperture entry `i` (after the Yellowstone and ShredStream
/// tables) has that entry's alias, URL, `signatures_only`,
/// `include_simulation` and `batch_mode`; every other stream asks for
/// signatures only, without simulation or batches.
pub proof fn law_aperture_options_reach_endpoints(cfg: Config, env: Seq<(String, String)>)
    ensures
        resolve_plans(cfg.plans(), env) matches Ok(v) ==> {
            let off = cfg.yellowstone@.len() + cfg.jito_shredstream@.len();
            &&& forall|i: int| 0 <= i < cfg.aperture_txstream@.len() ==> {
                let e = #[trigger] cfg.aperture_txstream@[i];
                &&& v[off + i].alias == e.0@
                &&& v[off + i].protocol == Protocol::ApertureTxstream
                &&& v[off + i].url == e.1.url@
                &&& v[off + i].signatures_only == e.1.signatures_only
                &&& v[off + i].include_simulation == e.1.include_simulation
                &&& v[off + i].batch_mode == e.1.batch_mode
            }
            &&& forall|i: int| 0 <= i < v.len() && (#[trigger] v[i]).protocol != Protocol::ApertureTxstream ==> {
                &&& v[i].signatures_only
                &&& !v[i].include_simulation
                &&& !v[i].batch_mode
            }
        },
{
    let ps = cfg.plans();
    law_endpoints_follow_plans(ps, env);
    let p1 = section_plans(cfg.yellowstone@, Protocol::Yellowstone);
    let p2 = section_plans(cfg.jito_shredstream@, Protocol::JitoShredstream);
    let p3 = aperture_plans(cfg.aperture_txstream@);
    let p4 = section_plans(cfg.shreder_binary@, Protocol::ShrederBinary);
    let p5 = section_plans(cfg.arpc@, Protocol::Arpc);
    let p6 = section_plans(cfg.jetstream@, Protocol::Jetstream);
    assert(ps == p1 + p2 + p3 + p4 + p5 + p6);
    if let Ok(v) = resolve_plans(ps, env) {
        let off = cfg.yellowstone@.len() + cfg.jito_shredstream@.len();
        assert forall|i: int| 0 <= i < cfg.aperture_txstream@.len() implies {
            let e = #[trigger] cfg.aperture_txstream@[i];
            &&& v[off + i].alias == e.0@
            &&& v[off + i].protocol == Protocol::ApertureTxstream
            &&& v[off + i].url == e.1.url@
            &&& v[off + i].signatures_only == e.1.signatures_only
            &&& v[off + i].include_simulation == e.1.include_simulation
            &&& v[off + i].batch_mode == e.1.batch_mode
        } by {
            assert(ps[off + i] == p3[i]);
            assert(v[off + i].alias == ps[off + i].alias);
        }
        assert forall|i: int| 0 <= i < v.len() && (#[trigger] v[i]).protocol != Protocol::ApertureTxstream implies {
            &&& v[i].signatures_only
            &&& !v[i].include_simulation
            &&& !v[i].batch_mode
        } by {
            assert(v[i].protocol == ps[i].protocol);
            let a = p1.len() as int;
            let b = a + p2.len();
            let c = b + p3.len();
            let d = c + p4.len();
            let e = d + p5.len();
            if i < a {
                assert(ps[i] == p1[i]);
            } else if i < b {
                assert(ps[i] == p2[i - a]);
            } else if i < c {
                assert(ps[i] == p3[i - b]);
            } else if i < d {
                assert(ps[i] == p4[i - c]);
            } else if i < e {
                assert(ps[i] == p5[i - d]);
            } else {
                assert(ps[i] == p6[i - e]);
            }
        }
    }
}

/// A ShredStream transaction passes an account filter exactly when some one
/// of its account keys, at any position, is one of the filter's keys; with
/// no filter every transaction passes; either way it needs a signature.
pub proof fn law_shred_filter_any_key(filter: Option<Vec<[u8; 32]>>, tx: crate::collector::ShredTransaction)
    ensures
        crate::collector::shred_recorded(filter, tx) <==> {
            &&& tx.signatures@.len() > 0
            &&& match filter {
                None => true,
                Some(f) => exists|i: int, j: int|
                    0 <= i < tx.account_keys@.len() && 0 <= j < f@.len() && #[trigger] tx.account_keys@[i]@ == #[trigger] f@[j]@,
            }
        },
{
}

/// One of a transaction's keys in the filter, wherever it stands, is
/// enough for it to touch the filter, and it touches the filter only so.
pub proof fn law_touches_any_position(keys: Seq<[u8; 32]>, filter: Seq<[u8; 32]>, i: int, j: int)
    requires
        0 <= i < keys.len(),
        0 <= j < filter.len(),
        keys[i]@ == filter[j]@,
    ensures
        crate::collector::touches(keys, filter),
{
}

/// The pairwise table lists the pair with the most wins first: of two rows,
/// the earlier has at least as many wins.
pub proof fn law_pairwise_most_wins_first(txs: Seq<TxView>, rows: Seq<PairView>)
    requires
        pairwise_matches(txs, rows),
    ensures
        forall|i: int, j: int| 0 <= i < j < rows.len() ==> (#[trigger] rows[i]).wins >= (#[trigger] rows[j]).wins,
{
    let ps = choose|ps: Seq<(KeyView, KeyView)>| pairwise_with_keys(txs, rows, ps);
    assert forall|i: int, j: int| 0 <= i < j < rows.len() implies (#[trigger] rows[i]).wins >= (#[trigger] rows[j]).wins by {
        assert(crate::stats::pair_before((rows[i], ps[i].0, ps[i].1), (rows[j], ps[j].0, ps[j].1)));
    }
}

/// The endpoint ranking lists the endpoint with the most wins first: of two
/// rows, the earlier has at least as many wins.
pub proof fn law_ranking_most_wins_first(eps: Seq<EndpointView>, txs: Seq<TxView>, rows: Seq<SummaryView>)
    requires
        ranking_matches(eps, txs, rows),
    ensures
        forall|i: int, j: int| 0 <= i < j < rows.len() ==> (#[trigger] rows[i]).wins >= (#[trigger] rows[j]).wins,
{
    let ks = choose|ks: Seq<KeyView>| ranking_with_keys(eps, txs, rows, ks);
    assert forall|i: int, j: int| 0 <= i < j < rows.len() implies (#[trigger] rows[i]).wins >= (#[trigger] rows[j]).wins by {
        assert(crate::stats::summary_before((rows[i], ks[i]), (rows[j], ks[j])));
    }
}


/// A field padded on the right is as wide as the field or its text,
/// whichever is wider.
proof fn lemma_pad_right_len(x: Seq<char>, w: nat)
    ensures
        pad_right(x, w).len() == at_least(x.len(), w),
{
}

/// A field padded on the left is as wide as the field or its text,
/// whichever is wider.
proof fn lemma_pad_left_len(x: Seq<char>, w: nat)
    ensures
        pad_left(x, w).len() == at_least(x.len(), w),
{
}

/// Text cut to `max` characters is at most `max` characters long.
proof fn lemma_truncated_len(x: Seq<char>, max: nat)
    ensures
        truncated(x, max).len() <= max,
{
}

/// The column at which the Wins cell of a terminal ranking row starts: after
/// the rank, endpoint, protocol, unique and coverage fields and their
/// separators, each field as wide as its column or its text.
pub open spec fn ranking_wins_column(rank: nat, s: EndpointSummary, c: EndpointCells, ew: nat, pw: nat) -> nat {
    2 + at_least(decimal(rank).len(), 3) + 1 + ew + 1 + pw + 1 + at_least(decimal(s.unique_signatures as nat).len(), 10)
        + 1 + at_least(c.coverage_pct@.len(), 8) + 2
}

/// The Wins cell of a terminal ranking row is the number of races that
/// endpoint won, right-aligned in eight columns and followed by a space,
/// whatever else the summary holds.
pub proof fn law_ranking_row_wins_cell(rank: nat, s: EndpointSummary, c: EndpointCells, ew: nat, pw: nat)
    ensures
        ({
            let o: int = ranking_wins_column(rank, s, c, ew, pw) as int;
            let cell = pad_left(decimal(s.wins as nat), 8);
            &&& ranking_row(rank, s, c, ew, pw).subrange(o, o + cell.len()) == cell
            &&& ranking_row(rank, s, c, ew, pw)[o + cell.len() as int] == ' '
        }),
{
    let a = "  "@ + pad_right(decimal(rank), 3) + " "@ + pad_right(truncated(s.alias@, ew), ew) + " "@
        + pad_right(truncated(s.protocol_label@, pw), pw) + " "@ + pad_left(decimal(s.unique_signatures as nat), 10)
        + " "@ + pad_left(c.coverage_pct@, 8) + "%"@ + " "@;
    let cell = pad_left(decimal(s.wins as nat), 8);
    let rest = " "@ + pad_left(c.win_pct@, 8) + "%"@ + " "@ + pad_left(crate::meta::latency_text(s.median_lag_us, c.median_lag_ms@), 11)
        + " "@ + pad_left(crate::meta::latency_text(s.p95_lag_us, c.p95_lag_ms@), 11);
    reveal_strlit("  ");
    reveal_strlit(" ");
    reveal_strlit("%");
    lemma_pad_right_len(decimal(rank), 3);
    lemma_truncated_len(s.alias@, ew);
    lemma_truncated_len(s.protocol_label@, pw);
    lemma_pad_right_len(truncated(s.alias@, ew), ew);
    lemma_pad_right_len(truncated(s.protocol_label@, pw), pw);
    lemma_pad_left_len(decimal(s.unique_signatures as nat), 10);
    lemma_pad_left_len(c.coverage_pct@, 8);
    assert(a.len() == ranking_wins_column(rank, s, c, ew, pw));
    assert(ranking_row(rank, s, c, ew, pw) =~= a + cell + rest);
    assert((a + cell + rest).subrange(a.len() as int, a.len() + cell.len() as int) =~= cell);
    assert((a + cell + rest)[a.len() + cell.len() as int] == rest[0]);
}

/// Where the rank, unique count and coverage fit their columns and the
/// endpoint and protocol columns are at least as wide as their headings,
/// as the terminal layout makes them, the Wins cell of every ranking row
/// stands under the "Wins" heading.
pub proof fn law_ranking_wins_under_heading(rank: nat, s: EndpointSummary, c: EndpointCells, ew: nat, pw: nat)
    requires
        ew >= 8,
        pw >= 8,
        decimal(rank).len() <= 3,
        decimal(s.unique_signatures as nat).len() <= 10,
        c.coverage_pct@.len() <= 8,
    ensures
        ranking_wins_column(rank, s, c, ew, pw) == 29 + ew + pw,
        ranking_heading(ew, pw).subrange(29 + ew + pw as int, 29 + ew + pw + 8 as int) == pad_left("Wins"@, 8),
{
    let a = "  "@ + pad_right("#"@, 3) + " "@ + pad_right("Endpoint"@, ew) + " "@ + pad_right("Protocol"@, pw) + " "@
        + pad_left("Unique"@, 10) + " "@ + pad_left("Coverage"@, 9) + " "@;
    let cell = pad_left("Wins"@, 8);
    let rest = " "@ + pad_left("Win rate"@, 9) + " "@ + pad_left("Med lag"@, 11) + " "@ + pad_left("P95 lag"@, 11);
    reveal_strlit("  ");
    reveal_strlit(" ");
    reveal_strlit("#");
    reveal_strlit("Endpoint");
    reveal_strlit("Protocol");
    reveal_strlit("Unique");
    reveal_strlit("Coverage");
    reveal_strlit("Wins");
    lemma_pad_right_len("#"@, 3);
    lemma_pad_right_len("Endpoint"@, ew);
    lemma_pad_right_len("Protocol"@, pw);
    lemma_pad_left_len("Unique"@, 10);
    lemma_pad_left_len("Coverage"@, 9);
    lemma_pad_left_len("Wins"@, 8);
    assert(a.len() == 29 + ew + pw);
    assert(ranking_heading(ew, pw) =~= a + cell + rest);
    assert((a + cell + rest).subrange(a.len() as int, a.len() + cell.len() as int) =~= cell);
}


/// Two lists of endpoint summaries that differ at most in how many races
/// each endpoint took part in.
pub open spec fn same_but_races(s: Seq<EndpointSummary>, t: Seq<EndpointSummary>) -> bool {
    &&& s.len() == t.len()
    &&& forall|i: int| 0 <= i < s.len() ==> #[trigger] t[i] == (EndpointSummary { seen_in_races: t[i].seen_in_races, ..s[i] })
}

proof fn lemma_ranking_rows_ignore_races(
    s: Seq<EndpointSummary>,
    t: Seq<EndpointSummary>,
    c: Seq<EndpointCells>,
    ew: nat,
    pw: nat,
    n: nat,
)
    requires
        same_but_races(s, t),
        n <= s.len(),
    ensures
        ranking_rows(s, c, ew, pw, n) == ranking_rows(t, c, ew, pw, n),
    decreases n,
{
    if n > 0 {
        lemma_ranking_rows_ignore_races(s, t, c, ew, pw, (n - 1) as nat);
        assert(t[n - 1] == (EndpointSummary { seen_in_races: t[n - 1].seen_in_races, ..s[n - 1] }));
    }
}

/// The terminal report does not depend on how many races each endpoint
/// took part in: two statistics that differ only there give the same
/// report, so no cell of the ranking shows that count in place of the
/// races won.
pub proof fn law_terminal_report_ignores_races(
    measured: Seq<char>,
    generated: Seq<char>,
    output_path: Seq<char>,
    tw: nat,
    meta: ReportMeta,
    eps: Seq<Endpoint>,
    stats: BenchmarkStats,
    other: BenchmarkStats,
    cells: ReportCells,
)
    requires
        same_but_races(stats.endpoint_summaries@, other.endpoint_summaries@),
        other == (BenchmarkStats { endpoint_summaries: other.endpoint_summaries, ..stats }),
    ensures
        terminal_report(measured, generated, output_path, tw, meta, eps, stats, cells)
            == terminal_report(measured, generated, output_path, tw, meta, eps, other, cells),
{
    let s = stats.endpoint_summaries@;
    let t = other.endpoint_summaries@;
    assert(summary_aliases(s) =~= summary_aliases(t));
    assert(summary_labels(s) =~= summary_labels(t));
    assert(ranking_cols(s, tw) == ranking_cols(t, tw));
    let cols = ranking_cols(s, tw);
    lemma_ranking_rows_ignore_races(s, t, cells.endpoints@, cols[0] as nat, cols[1] as nat, s.len());
    reveal(ranking_section);
    reveal(crate::terminal::counts_table);
}


/// Each of `cells` wrapped in `open` and `close`, one after another.
pub open spec fn tagged_cells(open: Seq<char>, close: Seq<char>, cells: Seq<Seq<char>>) -> Seq<char>
    decreases cells.len(),
{
    if cells.len() == 0 {
        Seq::empty()
    } else {
        tagged_cells(open, close, cells.drop_last()) + open + cells.last() + close
    }
}

/// The column headings of the HTML pairwise table, left to right.
pub open spec fn pairwise_headings() -> Seq<Seq<char>> {
    seq![
        "Faster endpoint"@,
        "Slower endpoint"@,
        "Shared txs"@,
        "Wins"@,
        "Win rate"@,
        "Median lead"@,
        "p95 lead"@,
        "Median lag"@,
        "p95 lag"@,
    ]
}

/// The HTML pairwise table is a heading row of the nine column headings
/// followed by one row per listed pair, each row a cell under each heading:
/// the faster and slower aliases (escaped, in bold), the shared and won
/// signatures, the win rate, then the faster endpoint's median and p95
/// lead and its median and p95 lag behind the slower one.
pub proof fn law_html_pair_cells_follow_headings(p: PairwiseSummary, c: PairCells, ps: Seq<PairwiseSummary>, cs: Seq<PairCells>)
    ensures
        pair_row_html(p, c) == "<tr>"@ + tagged_cells(
            "<td>"@,
            "</td>"@,
            seq![
                "<strong>"@ + escaped(p.faster_alias@) + "</strong>"@,
                "<strong>"@ + escaped(p.slower_alias@) + "</strong>"@,
                decimal(p.shared_signatures as nat),
                decimal(p.wins as nat),
                c.win_pct@ + "%"@,
                latency_text(p.median_lag_us, c.median_lead_ms@),
                latency_text(p.p95_lag_us, c.p95_lead_ms@),
                latency_text(p.median_behind_us, c.median_behind_ms@),
                latency_text(p.p95_behind_us, c.p95_behind_ms@),
            ],
        ) + "</tr>"@,
        html_pairwise(ps, cs) == "<section><h2>Pairwise winners</h2><div class=\"table-wrap\"><table><thead><tr>"@
            + tagged_cells("<th>"@, "</th>"@, pairwise_headings()) + "</tr></thead><tbody>"@
            + pair_rows_html(ps, cs, listed_pairs(ps.len())) + "</tbody></table></div></section>"@,
        pairwise_headings()[5] == "Median lead"@,
        pairwise_headings()[7] == "Median lag"@,
{
    lemma_pair_row_cells(p, c);
    lemma_pairwise_heading_row(ps, cs);
    reveal_strlit("Median lead");
    reveal_strlit("Median lag");
}

proof fn lemma_tagged_cells_push(open: Seq<char>, close: Seq<char>, cells: Seq<Seq<char>>, x: Seq<char>)
    ensures
        tagged_cells(open, close, cells.push(x)) == tagged_cells(open, close, cells) + open + x + close,
{
    assert(cells.push(x).drop_last() =~= cells);
}

proof fn lemma_pair_row_cells(p: PairwiseSummary, c: PairCells)
    ensures
        pair_row_html(p, c) == "<tr>"@ + tagged_cells(
            "<td>"@,
            "</td>"@,
            seq![
                "<strong>"@ + escaped(p.faster_alias@) + "</strong>"@,
                "<strong>"@ + escaped(p.slower_alias@) + "</strong>"@,
                decimal(p.shared_signatures as nat),
                decimal(p.wins as nat),
                c.win_pct@ + "%"@,
                latency_text(p.median_lag_us, c.median_lead_ms@),
                latency_text(p.p95_lag_us, c.p95_lead_ms@),
                latency_text(p.median_behind_us, c.median_behind_ms@),
                latency_text(p.p95_behind_us, c.p95_behind_ms@),
            ],
        ) + "</tr>"@,
{
    let td = "<td>"@;
    let etd = "</td>"@;
    let tr = "<tr>"@;
    let st = "<strong>"@;
    let est = "</strong>"@;
    lemma_row_literals();
    let e1 = escaped(p.faster_alias@);
    let e2 = escaped(p.slower_alias@);
    let c0 = st + e1 + est;
    let c1 = st + e2 + est;
    let c2 = decimal(p.shared_signatures as nat);
    let c3 = decimal(p.wins as nat);
    let c4 = c.win_pct@ + "%"@;
    let c5 = latency_text(p.median_lag_us, c.median_lead_ms@);
    let c6 = latency_text(p.p95_lag_us, c.p95_lead_ms@);
    let c7 = latency_text(p.median_behind_us, c.median_behind_ms@);
    let c8 = latency_text(p.p95_behind_us, c.p95_behind_ms@);
    let e = Seq::<char>::empty();
    let l0 = Seq::<Seq<char>>::empty();
    let l1 = l0.push(c0);
    let l2 = l1.push(c1);
    let l3 = l2.push(c2);
    let l4 = l3.push(c3);
    let l5 = l4.push(c4);
    let l6 = l5.push(c5);
    let l7 = l6.push(c6);
    let l8 = l7.push(c7);
    let l9 = l8.push(c8);
    let p0 = tr + tagged_cells(td, etd, l0);
    assert(p0 =~= tr);
    let p1 = lemma_row_grows(tr, td, etd, l0, c0);
    let p2 = lemma_row_grows(tr, td, etd, l1, c1);
    let p3 = lemma_row_grows(tr, td, etd, l2, c2);
    let p4 = lemma_row_grows(tr, td, etd, l3, c3);
    let p5 = lemma_row_grows(tr, td, etd, l4, c4);
    let p6 = lemma_row_grows(tr, td, etd, l5, c5);
    let p7 = lemma_row_grows(tr, td, etd, l6, c6);
    let p8 = lemma_row_grows(tr, td, etd, l7, c7);
    let p9 = lemma_row_grows(tr, td, etd, l8, c8);
    let q1 = "<tr><td><strong>"@ + e1;
    lemma_cat3(tr, td, st, e1);
    lemma_cat_step(q1, p0, st + e1, est, "</strong></td><td><strong>"@, st, e2, td, etd);
    let q2 = q1 + "</strong></td><td><strong>"@ + e2;
    lemma_cat_step(q2, p1, st + e2, est, "</strong></td><td>"@, e, c2, td, etd);
    let q3 = q2 + "</strong></td><td>"@ + c2;
    lemma_cat_step(q3, p2, c2, e, "</td><td>"@, e, c3, td, etd);
    let q4 = q3 + "</td><td>"@ + c3;
    lemma_cat_step(q4, p3, c3, e, "</td><td>"@, e, c.win_pct@, td, etd);
    let q5 = q4 + "</td><td>"@ + c.win_pct@;
    lemma_cat_step(q5, p4, c.win_pct@, "%"@, "%</td><td>"@, e, c5, td, etd);
    let q6 = q5 + "%</td><td>"@ + c5;
    lemma_cat_step(q6, p5, c5, e, "</td><td>"@, e, c6, td, etd);
    let q7 = q6 + "</td><td>"@ + c6;
    lemma_cat_step(q7, p6, c6, e, "</td><td>"@, e, c7, td, etd);
    let q8 = q7 + "</td><td>"@ + c7;
    lemma_cat_step(q8, p7, c7, e, "</td><td>"@, e, c8, td, etd);
    let q9 = q8 + "</td><td>"@ + c8;
    lemma_cat_end(q9, p8, c8, td, etd, "</tr>"@, "</td></tr>"@);
    assert(l9 =~= seq![c0, c1, c2, c3, c4, c5, c6, c7, c8]);
}

/// The literals of a pairwise row, split at their tags.
proof fn lemma_row_literals()
    ensures
        "</strong></td><td><strong>"@ == "</strong>"@ + "</td>"@ + "<td>"@ + "<strong>"@,
        "</strong></td><td>"@ == "</strong>"@ + "</td>"@ + "<td>"@ + Seq::<char>::empty(),
        "</td><td>"@ == Seq::<char>::empty() + "</td>"@ + "<td>"@ + Seq::<char>::empty(),
        "%</td><td>"@ == "%"@ + "</td>"@ + "<td>"@ + Seq::<char>::empty(),
        "<tr><td><strong>"@ == "<tr>"@ + "<td>"@ + "<strong>"@,
        "</td></tr>"@ == "</td>"@ + "</tr>"@,
{
    reveal_strlit("<td>");
    reveal_strlit("</td>");
    reveal_strlit("<tr>");
    reveal_strlit("</tr>");
    reveal_strlit("<strong>");
    reveal_strlit("</strong>");
    reveal_strlit("%");
    reveal_strlit("<tr><td><strong>");
    reveal_strlit("</strong></td><td><strong>");
    reveal_strlit("</strong></td><td>");
    reveal_strlit("</td><td>");
    reveal_strlit("%</td><td>");
    reveal_strlit("</td></tr>");
    assert("</strong></td><td><strong>"@ =~= "</strong>"@ + "</td>"@ + "<td>"@ + "<strong>"@);
    assert("</strong></td><td>"@ =~= "</strong>"@ + "</td>"@ + "<td>"@ + Seq::<char>::empty());
    assert("</td><td>"@ =~= Seq::<char>::empty() + "</td>"@ + "<td>"@ + Seq::<char>::empty());
    assert("%</td><td>"@ =~= "%"@ + "</td>"@ + "<td>"@ + Seq::<char>::empty());
    assert("<tr><td><strong>"@ =~= "<tr>"@ + "<td>"@ + "<strong>"@);
    assert("</td></tr>"@ =~= "</td>"@ + "</tr>"@);
}

proof fn lemma_row_grows(tr: Seq<char>, td: Seq<char>, etd: Seq<char>, l: Seq<Seq<char>>, x: Seq<char>) -> (r: Seq<char>)
    ensures
        r == tr + tagged_cells(td, etd, l.push(x)),
        r == tr + tagged_cells(td, etd, l) + td + x + etd,
{
    lemma_tagged_cells_push(td, etd, l, x);
    assert(tr + tagged_cells(td, etd, l.push(x)) =~= tr + tagged_cells(td, etd, l) + td + x + etd);
    tr + tagged_cells(td, etd, l.push(x))
}

proof fn lemma_cat3(a: Seq<char>, b: Seq<char>, c: Seq<char>, d: Seq<char>)
    ensures
        (a + b + c) + d == (a + Seq::<char>::empty()) + b + (c + d),
{
    assert((a + b + c) + d =~= (a + Seq::<char>::empty()) + b + (c + d));
}

proof fn lemma_cat_step(
    q: Seq<char>,
    p: Seq<char>,
    y: Seq<char>,
    tail: Seq<char>,
    lit: Seq<char>,
    head: Seq<char>,
    x: Seq<char>,
    td: Seq<char>,
    etd: Seq<char>,
)
    requires
        q == p + td + y,
        lit == tail + etd + td + head,
    ensures
        q + lit + x == (p + td + (y + tail) + etd) + td + (head + x),
{
    assert(q + lit + x =~= (p + td + (y + tail) + etd) + td + (head + x));
}

proof fn lemma_cat_end(q: Seq<char>, p: Seq<char>, y: Seq<char>, td: Seq<char>, etd: Seq<char>, tr: Seq<char>, lit: Seq<char>)
    requires
        q == p + td + y,
        lit == etd + tr,
    ensures
        q + lit == (p + td + y + etd) + tr,
{
    assert(q + lit =~= (p + td + y + etd) + tr);
}

proof fn lemma_pairwise_heading_row(ps: Seq<PairwiseSummary>, cs: Seq<PairCells>)
    ensures
        html_pairwise(ps, cs) == "<section><h2>Pairwise winners</h2><div class=\"table-wrap\"><table><thead><tr>"@
            + tagged_cells("<th>"@, "</th>"@, pairwise_headings()) + "</tr></thead><tbody>"@
            + pair_rows_html(ps, cs, listed_pairs(ps.len())) + "</tbody></table></div></section>"@,
{
    reveal(html_pairwise);
    let th = "<th>"@;
    let eth = "</th>"@;
    reveal_strlit("<th>");
    reveal_strlit("</th>");
    reveal_strlit("Faster endpoint");
    reveal_strlit("Slower endpoint");
    reveal_strlit("Shared txs");
    reveal_strlit("Wins");
    reveal_strlit("Win rate");
    reveal_strlit("Median lead");
    reveal_strlit("p95 lead");
    reveal_strlit("Median lag");
    reveal_strlit("p95 lag");
    reveal_strlit("<section><h2>Pairwise winners</h2><div class=\"table-wrap\"><table>");
    reveal_strlit("<thead><tr><th>Faster endpoint</th><th>Slower endpoint</th><th>Shared txs</th><th>Wins</th><th>Win rate</th><th>Median lead</th><th>p95 lead</th><th>Median lag</th><th>p95 lag</th></tr></thead><tbody>");
    reveal_strlit("<section><h2>Pairwise winners</h2><div class=\"table-wrap\"><table><thead><tr>");
    reveal_strlit("</tr></thead><tbody>");
    let h = pairwise_headings();
    let l0 = Seq::<Seq<char>>::empty();
    let l1 = l0.push(h[0]);
    let l2 = l1.push(h[1]);
    let l3 = l2.push(h[2]);
    let l4 = l3.push(h[3]);
    let l5 = l4.push(h[4]);
    let l6 = l5.push(h[5]);
    let l7 = l6.push(h[6]);
    let l8 = l7.push(h[7]);
    let l9 = l8.push(h[8]);
    assert(l9 =~= h);
    lemma_tagged_cells_push(th, eth, l0, h[0]);
    lemma_tagged_cells_push(th, eth, l1, h[1]);
    lemma_tagged_cells_push(th, eth, l2, h[2]);
    lemma_tagged_cells_push(th, eth, l3, h[3]);
    lemma_tagged_cells_push(th, eth, l4, h[4]);
    lemma_tagged_cells_push(th, eth, l5, h[5]);
    lemma_tagged_cells_push(th, eth, l6, h[6]);
    lemma_tagged_cells_push(th, eth, l7, h[7]);
    lemma_tagged_cells_push(th, eth, l8, h[8]);
    let head = "<section><h2>Pairwise winners</h2><div class=\"table-wrap\"><table>"@
        + "<thead><tr><th>Faster endpoint</th><th>Slower endpoint</th><th>Shared txs</th><th>Wins</th><th>Win rate</th><th>Median lead</th><th>p95 lead</th><th>Median lag</th><th>p95 lag</th></tr></thead><tbody>"@;
    assert(head =~= "<section><h2>Pairwise winners</h2><div class=\"table-wrap\"><table><thead><tr>"@
        + tagged_cells(th, eth, h) + "</tr></thead><tbody>"@);
}


/// The column headings of the HTML ranking table, left to right.
pub open spec fn ranking_headings() -> Seq<Seq<char>> {
    seq![
        "Rank"@,
        "Endpoint"@,
        "Protocol"@,
        "Unique txs"@,
        "Coverage"@,
        "Wins"@,
        "Win rate"@,
        "Median lag"@,
        "p95 lag"@,
    ]
}

/// The HTML ranking table is a heading row of the nine column headings
/// followed by one row per endpoint, each row a cell under each heading:
/// the rank, the alias (escaped, in bold), the protocol label (escaped),
/// the signatures seen, the coverage, the races won, the win rate, and the
/// median and p95 lag.
pub proof fn law_html_ranking_cells_follow_headings(
    rank: nat,
    s: EndpointSummary,
    c: EndpointCells,
    ss: Seq<EndpointSummary>,
    cs: Seq<EndpointCells>,
)
    ensures
        endpoint_row_html(rank, s, c) == "<tr>"@ + tagged_cells(
            "<td>"@,
            "</td>"@,
            seq![
                decimal(rank),
                "<strong>"@ + escaped(s.alias@) + "</strong>"@,
                escaped(s.protocol_label@),
                decimal(s.unique_signatures as nat),
                c.coverage_pct@ + "%"@,
                decimal(s.wins as nat),
                c.win_pct@ + "%"@,
                latency_text(s.median_lag_us, c.median_lag_ms@),
                latency_text(s.p95_lag_us, c.p95_lag_ms@),
            ],
        ) + "</tr>"@,
        html_ranking(ss, cs) == "<section><h2>Endpoint ranking</h2><div class=\"table-wrap\"><table><thead><tr>"@
            + tagged_cells("<th>"@, "</th>"@, ranking_headings()) + "</tr></thead><tbody>"@
            + endpoint_rows_html(ss, cs, ss.len()) + "</tbody></table></div></section>"@,
        ranking_headings()[5] == "Wins"@,
{
    lemma_endpoint_row_cells(rank, s, c);
    lemma_ranking_heading_row(ss, cs);
    reveal_strlit("Wins");
}

proof fn lemma_endpoint_row_cells(rank: nat, s: EndpointSummary, c: EndpointCells)
    ensures
        endpoint_row_html(rank, s, c) == "<tr>"@ + tagged_cells(
            "<td>"@,
            "</td>"@,
            seq![
                decimal(rank),
                "<strong>"@ + escaped(s.alias@) + "</strong>"@,
                escaped(s.protocol_label@),
                decimal(s.unique_signatures as nat),
                c.coverage_pct@ + "%"@,
                decimal(s.wins as nat),
                c.win_pct@ + "%"@,
                latency_text(s.median_lag_us, c.median_lag_ms@),
                latency_text(s.p95_lag_us, c.p95_lag_ms@),
            ],
        ) + "</tr>"@,
{
    let td = "<td>"@;
    let etd = "</td>"@;
    let tr = "<tr>"@;
    let st = "<strong>"@;
    let est = "</strong>"@;
    lemma_row_literals();
    lemma_ranking_row_literals();
    let e = Seq::<char>::empty();
    let c0 = decimal(rank);
    let c1 = st + escaped(s.alias@) + est;
    let c2 = escaped(s.protocol_label@);
    let c3 = decimal(s.unique_signatures as nat);
    let c4 = c.coverage_pct@ + "%"@;
    let c5 = decimal(s.wins as nat);
    let c6 = c.win_pct@ + "%"@;
    let c7 = latency_text(s.median_lag_us, c.median_lag_ms@);
    let c8 = latency_text(s.p95_lag_us, c.p95_lag_ms@);
    let l0 = Seq::<Seq<char>>::empty();
    let l1 = l0.push(c0);
    let l2 = l1.push(c1);
    let l3 = l2.push(c2);
    let l4 = l3.push(c3);
    let l5 = l4.push(c4);
    let l6 = l5.push(c5);
    let l7 = l6.push(c6);
    let l8 = l7.push(c7);
    let l9 = l8.push(c8);
    let p0 = tr + tagged_cells(td, etd, l0);
    assert(p0 =~= tr);
    let p1 = lemma_row_grows(tr, td, etd, l0, c0);
    let p2 = lemma_row_grows(tr, td, etd, l1, c1);
    let p3 = lemma_row_grows(tr, td, etd, l2, c2);
    let p4 = lemma_row_grows(tr, td, etd, l3, c3);
    let p5 = lemma_row_grows(tr, td, etd, l4, c4);
    let p6 = lemma_row_grows(tr, td, etd, l5, c5);
    let p7 = lemma_row_grows(tr, td, etd, l6, c6);
    let p8 = lemma_row_grows(tr, td, etd, l7, c7);
    let p9 = lemma_row_grows(tr, td, etd, l8, c8);
    let q1 = "<tr><td>"@ + c0;
    lemma_cat3(tr, td, e, c0);
    assert(e + c0 =~= c0);
    assert(tr + e =~= tr);
    assert(q1 == p0 + td + c0);
    assert(c0 + e =~= c0);
    lemma_cat_step(q1, p0, c0, e, "</td><td><strong>"@, st, escaped(s.alias@), td, etd);
    let q2 = q1 + "</td><td><strong>"@ + escaped(s.alias@);
    lemma_cat_step(q2, p1, st + escaped(s.alias@), est, "</strong></td><td>"@, e, c2, td, etd);
    let q3 = q2 + "</strong></td><td>"@ + c2;
    lemma_cat_step(q3, p2, c2, e, "</td><td>"@, e, c3, td, etd);
    let q4 = q3 + "</td><td>"@ + c3;
    lemma_cat_step(q4, p3, c3, e, "</td><td>"@, e, c.coverage_pct@, td, etd);
    let q5 = q4 + "</td><td>"@ + c.coverage_pct@;
    lemma_cat_step(q5, p4, c.coverage_pct@, "%"@, "%</td><td>"@, e, c5, td, etd);
    let q6 = q5 + "%</td><td>"@ + c5;
    lemma_cat_step(q6, p5, c5, e, "</td><td>"@, e, c.win_pct@, td, etd);
    let q7 = q6 + "</td><td>"@ + c.win_pct@;
    lemma_cat_step(q7, p6, c.win_pct@, "%"@, "%</td><td>"@, e, c7, td, etd);
    let q8 = q7 + "%</td><td>"@ + c7;
    lemma_cat_step(q8, p7, c7, e, "</td><td>"@, e, c8, td, etd);
    let q9 = q8 + "</td><td>"@ + c8;
    lemma_cat_end(q9, p8, c8, td, etd, "</tr>"@, "</td></tr>"@);
    assert(l9 =~= seq![c0, c1, c2, c3, c4, c5, c6, c7, c8]);
}

/// The literals of a ranking row, split at their tags.
proof fn lemma_ranking_row_literals()
    ensures
        "<tr><td>"@ == "<tr>"@ + "<td>"@ + Seq::<char>::empty(),
        "</td><td><strong>"@ == Seq::<char>::empty() + "</td>"@ + "<td>"@ + "<strong>"@,
{
    reveal_strlit("<td>");
    reveal_strlit("</td>");
    reveal_strlit("<tr>");
    reveal_strlit("<strong>");
    reveal_strlit("<tr><td>");
    reveal_strlit("</td><td><strong>");
    assert("<tr><td>"@ =~= "<tr>"@ + "<td>"@ + Seq::<char>::empty());
    assert("</td><td><strong>"@ =~= Seq::<char>::empty() + "</td>"@ + "<td>"@ + "<strong>"@);
}

proof fn lemma_ranking_heading_row(ss: Seq<EndpointSummary>, cs: Seq<EndpointCells>)
    ensures
        html_ranking(ss, cs) == "<section><h2>Endpoint ranking</h2><div class=\"table-wrap\"><table><thead><tr>"@
            + tagged_cells("<th>"@, "</th>"@, ranking_headings()) + "</tr></thead><tbody>"@
            + endpoint_rows_html(ss, cs, ss.len()) + "</tbody></table></div></section>"@,
{
    reveal(html_ranking);
    let th = "<th>"@;
    let eth = "</th>"@;
    reveal_strlit("<th>");
    reveal_strlit("</th>");
    reveal_strlit("Rank");
    reveal_strlit("Endpoint");
    reveal_strlit("Protocol");
    reveal_strlit("Unique txs");
    reveal_strlit("Coverage");
    reveal_strlit("Wins");
    reveal_strlit("Win rate");
    reveal_strlit("Median lag");
    reveal_strlit("p95 lag");
    reveal_strlit("<section><h2>Endpoint ranking</h2><div class=\"table-wrap\"><table>");
    reveal_strlit("<thead><tr><th>Rank</th><th>Endpoint</th><th>Protocol</th><th>Unique txs</th><th>Coverage</th><th>Wins</th><th>Win rate</th><th>Median lag</th><th>p95 lag</th></tr></thead><tbody>");
    reveal_strlit("<section><h2>Endpoint ranking</h2><div class=\"table-wrap\"><table><thead><tr>");
    reveal_strlit("</tr></thead><tbody>");
    let h = ranking_headings();
    let l0 = Seq::<Seq<char>>::empty();
    let l1 = l0.push(h[0]);
    let l2 = l1.push(h[1]);
    let l3 = l2.push(h[2]);
    let l4 = l3.push(h[3]);
    let l5 = l4.push(h[4]);
    let l6 = l5.push(h[5]);
    let l7 = l6.push(h[6]);
    let l8 = l7.push(h[7]);
    let l9 = l8.push(h[8]);
    assert(l9 =~= h);
    lemma_tagged_cells_push(th, eth, l0, h[0]);
    lemma_tagged_cells_push(th, eth, l1, h[1]);
    lemma_tagged_cells_push(th, eth, l2, h[2]);
    lemma_tagged_cells_push(th, eth, l3, h[3]);
    lemma_tagged_cells_push(th, eth, l4, h[4]);
    lemma_tagged_cells_push(th, eth, l5, h[5]);
    lemma_tagged_cells_push(th, eth, l6, h[6]);
    lemma_tagged_cells_push(th, eth, l7, h[7]);
    lemma_tagged_cells_push(th, eth, l8, h[8]);
    let head = "<section><h2>Endpoint ranking</h2><div class=\"table-wrap\"><table>"@
        + "<thead><tr><th>Rank</th><th>Endpoint</th><th>Protocol</th><th>Unique txs</th><th>Coverage</th><th>Wins</th><th>Win rate</th><th>Median lag</th><th>p95 lag</th></tr></thead><tbody>"@;
    assert(head =~= "<section><h2>Endpoint ranking</h2><div class=\"table-wrap\"><table><thead><tr>"@
        + tagged_cells(th, eth, h) + "</tr></thead><tbody>"@);
}


/// Fields set one after another, a space between each two.
pub open spec fn spaced(fields: Seq<Seq<char>>) -> Seq<char>
    decreases fields.len(),
{
    if fields.len() == 0 {
        Seq::empty()
    } else if fields.len() == 1 {
        fields[0]
    } else {
        spaced(fields.drop_last()) + " "@ + fields.last()
    }
}

proof fn lemma_spaced_push(lead: Seq<char>, fields: Seq<Seq<char>>, x: Seq<char>) -> (r: Seq<char>)
    requires
        fields.len() >= 1,
    ensures
        r == lead + spaced(fields.push(x)),
        r == lead + spaced(fields) + " "@ + x,
{
    assert(fields.push(x).drop_last() =~= fields);
    assert(lead + spaced(fields.push(x)) =~= lead + spaced(fields) + " "@ + x);
    lead + spaced(fields.push(x))
}

/// The cells of a terminal pairwise row, left to right.
pub open spec fn terminal_pair_cells(p: PairwiseSummary, c: PairCells, fw: nat, sw: nat) -> Seq<Seq<char>> {
    seq![
        pad_right(truncated(p.faster_alias@, fw), fw),
        pad_right(truncated(p.slower_alias@, sw), sw),
        pad_left(decimal(p.shared_signatures as nat), 9),
        pad_left(decimal(p.wins as nat), 8),
        pad_left(c.win_pct@, 8) + "%"@,
        pad_left(latency_text(p.median_lag_us, c.median_lead_ms@), 11),
        pad_left(latency_text(p.p95_lag_us, c.p95_lead_ms@), 11),
        pad_left(latency_text(p.median_behind_us, c.median_behind_ms@), 11),
        pad_left(latency_text(p.p95_behind_us, c.p95_behind_ms@), 11),
    ]
}

/// The headings of the terminal pairwise table, left to right.
pub open spec fn terminal_pair_headings(fw: nat, sw: nat) -> Seq<Seq<char>> {
    seq![
        pad_right("Faster"@, fw),
        pad_right("Slower"@, sw),
        pad_left("Shared"@, 9),
        pad_left("Wins"@, 8),
        pad_left("Win rate"@, 9),
        pad_left("Med lead"@, 11),
        pad_left("P95 lead"@, 11),
        pad_left("Med lag"@, 11),
        pad_left("P95 lag"@, 11),
    ]
}

/// A terminal pairwise row and its heading are the same number of fields
/// set the same way: the faster and slower aliases, the shared signatures,
/// the wins, the win rate, the median and p95 lead, then the median and p95
/// lag. Where each value fits its column and the alias columns are at
/// least as wide as their headings, every cell is exactly as wide as its
/// heading, so it stands under it.
pub proof fn law_terminal_pair_cells_under_headings(p: PairwiseSummary, c: PairCells, fw: nat, sw: nat)
    ensures
        pair_row(p, c, fw, sw) == "  "@ + spaced(terminal_pair_cells(p, c, fw, sw)),
        pairwise_heading(fw, sw) == "  "@ + spaced(terminal_pair_headings(fw, sw)),
        terminal_pair_cells(p, c, fw, sw).len() == terminal_pair_headings(fw, sw).len(),
        fw >= 6 && sw >= 6 && decimal(p.shared_signatures as nat).len() <= 9 && decimal(p.wins as nat).len() <= 8
            && c.win_pct@.len() <= 8 && latency_text(p.median_lag_us, c.median_lead_ms@).len() <= 11
            && latency_text(p.p95_lag_us, c.p95_lead_ms@).len() <= 11
            && latency_text(p.median_behind_us, c.median_behind_ms@).len() <= 11
            && latency_text(p.p95_behind_us, c.p95_behind_ms@).len() <= 11
            ==> forall|k: int| 0 <= k < 9 ==> (#[trigger] terminal_pair_cells(p, c, fw, sw)[k]).len()
                == terminal_pair_headings(fw, sw)[k].len(),
{
    lemma_terminal_pair_row_fields(p, c, fw, sw);
    lemma_terminal_pair_heading_fields(fw, sw);
    lemma_terminal_pair_widths(p, c, fw, sw);
}

proof fn lemma_terminal_pair_row_fields(p: PairwiseSummary, c: PairCells, fw: nat, sw: nat)
    ensures
        pair_row(p, c, fw, sw) == "  "@ + spaced(terminal_pair_cells(p, c, fw, sw)),
{
    let sp = "  "@;
    let b = " "@;
    let f = terminal_pair_cells(p, c, fw, sw);
    let a = pad_left(c.win_pct@, 8);
    let l1 = seq![f[0]];
    let l2 = l1.push(f[1]);
    let l3 = l2.push(f[2]);
    let l4 = l3.push(f[3]);
    let l5 = l4.push(f[4]);
    let l6 = l5.push(f[5]);
    let l7 = l6.push(f[6]);
    let l8 = l7.push(f[7]);
    let l9 = l8.push(f[8]);
    assert(l9 =~= f);
    assert(spaced(l1) == f[0]);
    lemma_spaced_push(sp, l1, f[1]);
    lemma_spaced_push(sp, l2, f[2]);
    let r4 = lemma_spaced_push(sp, l3, f[3]);
    let r5 = lemma_spaced_push(sp, l4, f[4]);
    lemma_spaced_push(sp, l5, f[5]);
    lemma_spaced_push(sp, l6, f[6]);
    lemma_spaced_push(sp, l7, f[7]);
    let r9 = lemma_spaced_push(sp, l8, f[8]);
    let t4 = sp + f[0] + b + f[1] + b + f[2] + b + f[3];
    assert(r4 == t4);
    vstd::seq_lib::lemma_concat_associative(t4 + b, a, "%"@);
    let t5 = t4 + b + a + "%"@;
    assert(r5 == t5);
    let t9 = t5 + b + f[5] + b + f[6] + b + f[7] + b + f[8];
    assert(r9 == t9);
}

proof fn lemma_terminal_pair_heading_fields(fw: nat, sw: nat)
    ensures
        pairwise_heading(fw, sw) == "  "@ + spaced(terminal_pair_headings(fw, sw)),
{
    let sp = "  "@;
    let h = terminal_pair_headings(fw, sw);
    let m1 = seq![h[0]];
    let m2 = m1.push(h[1]);
    let m3 = m2.push(h[2]);
    let m4 = m3.push(h[3]);
    let m5 = m4.push(h[4]);
    let m6 = m5.push(h[5]);
    let m7 = m6.push(h[6]);
    let m8 = m7.push(h[7]);
    let m9 = m8.push(h[8]);
    assert(m9 =~= h);
    assert(spaced(m1) == h[0]);
    lemma_spaced_push(sp, m1, h[1]);
    lemma_spaced_push(sp, m2, h[2]);
    lemma_spaced_push(sp, m3, h[3]);
    lemma_spaced_push(sp, m4, h[4]);
    lemma_spaced_push(sp, m5, h[5]);
    lemma_spaced_push(sp, m6, h[6]);
    lemma_spaced_push(sp, m7, h[7]);
    lemma_spaced_push(sp, m8, h[8]);
}

proof fn lemma_terminal_pair_widths(p: PairwiseSummary, c: PairCells, fw: nat, sw: nat)
    ensures
        terminal_pair_cells(p, c, fw, sw).len() == terminal_pair_headings(fw, sw).len(),
        fw >= 6 && sw >= 6 && decimal(p.shared_signatures as nat).len() <= 9 && decimal(p.wins as nat).len() <= 8
            && c.win_pct@.len() <= 8 && latency_text(p.median_lag_us, c.median_lead_ms@).len() <= 11
            && latency_text(p.p95_lag_us, c.p95_lead_ms@).len() <= 11
            && latency_text(p.median_behind_us, c.median_behind_ms@).len() <= 11
            && latency_text(p.p95_behind_us, c.p95_behind_ms@).len() <= 11
            ==> forall|k: int| 0 <= k < 9 ==> (#[trigger] terminal_pair_cells(p, c, fw, sw)[k]).len()
                == terminal_pair_headings(fw, sw)[k].len(),
{
    reveal_strlit("%");
    reveal_strlit("Faster");
    reveal_strlit("Slower");
    reveal_strlit("Shared");
    reveal_strlit("Wins");
    reveal_strlit("Win rate");
    reveal_strlit("Med lead");
    reveal_strlit("P95 lead");
    reveal_strlit("Med lag");
    reveal_strlit("P95 lag");
    lemma_truncated_len(p.faster_alias@, fw);
    lemma_truncated_len(p.slower_alias@, sw);
    let f = terminal_pair_cells(p, c, fw, sw);
    let h = terminal_pair_headings(fw, sw);
    assert(f[0].len() == at_least(truncated(p.faster_alias@, fw).len(), fw));
    assert(f[1].len() == at_least(truncated(p.slower_alias@, sw).len(), sw));
}


/// The cells of a terminal ranking row, left to right.
pub open spec fn terminal_ranking_cells(rank: nat, s: EndpointSummary, c: EndpointCells, ew: nat, pw: nat) -> Seq<Seq<char>> {
    seq![
        pad_right(decimal(rank), 3),
        pad_right(truncated(s.alias@, ew), ew),
        pad_right(truncated(s.protocol_label@, pw), pw),
        pad_left(decimal(s.unique_signatures as nat), 10),
        pad_left(c.coverage_pct@, 8) + "%"@,
        pad_left(decimal(s.wins as nat), 8),
        pad_left(c.win_pct@, 8) + "%"@,
        pad_left(latency_text(s.median_lag_us, c.median_lag_ms@), 11),
        pad_left(latency_text(s.p95_lag_us, c.p95_lag_ms@), 11),
    ]
}

/// The headings of the terminal ranking table, left to right.
pub open spec fn terminal_ranking_headings(ew: nat, pw: nat) -> Seq<Seq<char>> {
    seq![
        pad_right("#"@, 3),
        pad_right("Endpoint"@, ew),
        pad_right("Protocol"@, pw),
        pad_left("Unique"@, 10),
        pad_left("Coverage"@, 9),
        pad_left("Wins"@, 8),
        pad_left("Win rate"@, 9),
        pad_left("Med lag"@, 11),
        pad_left("P95 lag"@, 11),
    ]
}

/// A terminal ranking row and its heading are the same number of fields
/// set the same way: the rank, alias, protocol label, signatures seen,
/// coverage, races won, win rate, and median and p95 lag. Where each value
/// fits its column and the alias and protocol columns are at least as wide
/// as their headings, every cell is exactly as wide as its heading, so it
/// stands under it.
pub proof fn law_terminal_ranking_cells_under_headings(rank: nat, s: EndpointSummary, c: EndpointCells, ew: nat, pw: nat)
    ensures
        ranking_row(rank, s, c, ew, pw) == "  "@ + spaced(terminal_ranking_cells(rank, s, c, ew, pw)),
        ranking_heading(ew, pw) == "  "@ + spaced(terminal_ranking_headings(ew, pw)),
        terminal_ranking_cells(rank, s, c, ew, pw).len() == terminal_ranking_headings(ew, pw).len(),
        ew >= 8 && pw >= 8 && decimal(rank).len() <= 3 && decimal(s.unique_signatures as nat).len() <= 10
            && c.coverage_pct@.len() <= 8 && decimal(s.wins as nat).len() <= 8 && c.win_pct@.len() <= 8
            && latency_text(s.median_lag_us, c.median_lag_ms@).len() <= 11
            && latency_text(s.p95_lag_us, c.p95_lag_ms@).len() <= 11
            ==> forall|k: int| 0 <= k < 9 ==> (#[trigger] terminal_ranking_cells(rank, s, c, ew, pw)[k]).len()
                == terminal_ranking_headings(ew, pw)[k].len(),
{
    lemma_terminal_ranking_row_fields(rank, s, c, ew, pw);
    lemma_terminal_ranking_heading_fields(ew, pw);
    lemma_terminal_ranking_widths(rank, s, c, ew, pw);
}

proof fn lemma_terminal_ranking_row_fields(rank: nat, s: EndpointSummary, c: EndpointCells, ew: nat, pw: nat)
    ensures
        ranking_row(rank, s, c, ew, pw) == "  "@ + spaced(terminal_ranking_cells(rank, s, c, ew, pw)),
{
    let sp = "  "@;
    let b = " "@;
    let f = terminal_ranking_cells(rank, s, c, ew, pw);
    let a4 = pad_left(c.coverage_pct@, 8);
    let a6 = pad_left(c.win_pct@, 8);
    let l1 = seq![f[0]];
    let l2 = l1.push(f[1]);
    let l3 = l2.push(f[2]);
    let l4 = l3.push(f[3]);
    let l5 = l4.push(f[4]);
    let l6 = l5.push(f[5]);
    let l7 = l6.push(f[6]);
    let l8 = l7.push(f[7]);
    let l9 = l8.push(f[8]);
    assert(l9 =~= f);
    assert(spaced(l1) == f[0]);
    lemma_spaced_push(sp, l1, f[1]);
    lemma_spaced_push(sp, l2, f[2]);
    let r4 = lemma_spaced_push(sp, l3, f[3]);
    let r5 = lemma_spaced_push(sp, l4, f[4]);
    let r6 = lemma_spaced_push(sp, l5, f[5]);
    let r7 = lemma_spaced_push(sp, l6, f[6]);
    lemma_spaced_push(sp, l7, f[7]);
    let r9 = lemma_spaced_push(sp, l8, f[8]);
    let t4 = sp + f[0] + b + f[1] + b + f[2] + b + f[3];
    assert(r4 == t4);
    vstd::seq_lib::lemma_concat_associative(t4 + b, a4, "%"@);
    let t5 = t4 + b + a4 + "%"@;
    assert(r5 == t5);
    let t6 = t5 + b + f[5];
    assert(r6 == t6);
    vstd::seq_lib::lemma_concat_associative(t6 + b, a6, "%"@);
    let t7 = t6 + b + a6 + "%"@;
    assert(r7 == t7);
    let t9 = t7 + b + f[7] + b + f[8];
    assert(r9 == t9);
}

proof fn lemma_terminal_ranking_heading_fields(ew: nat, pw: nat)
    ensures
        ranking_heading(ew, pw) == "  "@ + spaced(terminal_ranking_headings(ew, pw)),
{
    let sp = "  "@;
    let h = terminal_ranking_headings(ew, pw);
    let m1 = seq![h[0]];
    let m2 = m1.push(h[1]);
    let m3 = m2.push(h[2]);
    let m4 = m3.push(h[3]);
    let m5 = m4.push(h[4]);
    let m6 = m5.push(h[5]);
    let m7 = m6.push(h[6]);
    let m8 = m7.push(h[7]);
    let m9 = m8.push(h[8]);
    assert(m9 =~= h);
    assert(spaced(m1) == h[0]);
    lemma_spaced_push(sp, m1, h[1]);
    lemma_spaced_push(sp, m2, h[2]);
    lemma_spaced_push(sp, m3, h[3]);
    lemma_spaced_push(sp, m4, h[4]);
    lemma_spaced_push(sp, m5, h[5]);
    lemma_spaced_push(sp, m6, h[6]);
    lemma_spaced_push(sp, m7, h[7]);
    lemma_spaced_push(sp, m8, h[8]);
}

proof fn lemma_terminal_ranking_widths(rank: nat, s: EndpointSummary, c: EndpointCells, ew: nat, pw: nat)
    ensures
        terminal_ranking_cells(rank, s, c, ew, pw).len() == terminal_ranking_headings(ew, pw).len(),
        ew >= 8 && pw >= 8 && decimal(rank).len() <= 3 && decimal(s.unique_signatures as nat).len() <= 10
            && c.coverage_pct@.len() <= 8 && decimal(s.wins as nat).len() <= 8 && c.win_pct@.len() <= 8
            && latency_text(s.median_lag_us, c.median_lag_ms@).len() <= 11
            && latency_text(s.p95_lag_us, c.p95_lag_ms@).len() <= 11
            ==> forall|k: int| 0 <= k < 9 ==> (#[trigger] terminal_ranking_cells(rank, s, c, ew, pw)[k]).len()
                == terminal_ranking_headings(ew, pw)[k].len(),
{
    reveal_strlit("%");
    reveal_strlit("#");
    reveal_strlit("Endpoint");
    reveal_strlit("Protocol");
    reveal_strlit("Unique");
    reveal_strlit("Coverage");
    reveal_strlit("Wins");
    reveal_strlit("Win rate");
    reveal_strlit("Med lag");
    reveal_strlit("P95 lag");
    lemma_truncated_len(s.alias@, ew);
    lemma_truncated_len(s.protocol_label@, pw);
    let f = terminal_ranking_cells(rank, s, c, ew, pw);
    assert(f[1].len() == at_least(truncated(s.alias@, ew).len(), ew));
    assert(f[2].len() == at_least(truncated(s.protocol_label@, pw).len(), pw));
}


/// In the terminal counts table the heading, the data row and the border
/// are equally wide and have their bars at the same columns; between the
/// bars the data row holds, right-aligned under each heading, the observed
/// signatures, the race-eligible ones, the fully covered ones and the
/// number of endpoints, where each count fits its column.
pub proof fn law_counts_under_headings(total: nat, race: nat, full: nat, endpoints: nat)
    requires
        decimal(total).len() <= 18,
        decimal(race).len() <= 12,
        decimal(full).len() <= 12,
        decimal(endpoints).len() <= 12,
    ensures
        counts_row(total, race, full, endpoints).len() == 67,
        counts_heading().len() == 67,
        counts_rule().len() == 67,
        forall|k: int| #![auto] k == 0 || k == 21 || k == 36 || k == 51 || k == 66 ==> {
            &&& counts_row(total, race, full, endpoints)[k] == '|'
            &&& counts_heading()[k] == '|'
            &&& counts_rule()[k] == '+'
        },
        counts_row(total, race, full, endpoints).subrange(2, 20) == pad_left(decimal(total), 18),
        counts_heading().subrange(2, 21) == "Observed signatures"@,
        counts_row(total, race, full, endpoints).subrange(23, 35) == pad_left(decimal(race), 12),
        counts_heading().subrange(23, 36) == "Race eligible"@,
        counts_row(total, race, full, endpoints).subrange(38, 50) == pad_left(decimal(full), 12),
        counts_heading().subrange(38, 51) == "Full coverage"@,
        counts_row(total, race, full, endpoints).subrange(53, 65) == pad_left(decimal(endpoints), 12),
        counts_heading().subrange(53, 62) == "Endpoints"@,
{
    reveal_strlit("+--------------------+--------------+--------------+--------------+");
    reveal_strlit("| Observed signatures| Race eligible| Full coverage| Endpoints    |");
    reveal_strlit("Observed signatures");
    reveal_strlit("Race eligible");
    reveal_strlit("Full coverage");
    reveal_strlit("Endpoints");
    reveal_strlit("| ");
    reveal_strlit(" | ");
    reveal_strlit(" |");
    let a = pad_left(decimal(total), 18);
    let b = pad_left(decimal(race), 12);
    let c = pad_left(decimal(full), 12);
    let d = pad_left(decimal(endpoints), 12);
    lemma_pad_left_len(decimal(total), 18);
    lemma_pad_left_len(decimal(race), 12);
    lemma_pad_left_len(decimal(full), 12);
    lemma_pad_left_len(decimal(endpoints), 12);
    let row = counts_row(total, race, full, endpoints);
    let x1 = "| "@ + a;
    let x2 = x1 + " | "@ + b;
    let x3 = x2 + " | "@ + c;
    let x4 = x3 + " | "@ + d;
    assert(row == x4 + " |"@);
    assert(row.subrange(2, 20) =~= a);
    assert(row.subrange(23, 35) =~= b);
    assert(row.subrange(38, 50) =~= c);
    assert(row.subrange(53, 65) =~= d);
    assert(counts_heading().subrange(2, 21) =~= "Observed signatures"@);
    assert(counts_heading().subrange(23, 36) =~= "Race eligible"@);
    assert(counts_heading().subrange(38, 51) =~= "Full coverage"@);
    assert(counts_heading().subrange(53, 62) =~= "Endpoints"@);
}


proof fn lemma_env_lookup_first(env: Seq<(String, String)>, name: Seq<char>)
    ensures
        env_lookup(env, name) is None <==> forall|i: int| 0 <= i < env.len() ==> (#[trigger] env[i]).0@ != name,
        forall|i: int| 0 <= i < env.len() && (#[trigger] env[i]).0@ == name
            && (forall|j: int| 0 <= j < i ==> (#[trigger] env[j]).0@ != name) ==> env_lookup(env, name) == Some(env[i].1@),
    decreases env.len(),
{
    if env.len() > 0 {
        let rest = env.drop_first();
        lemma_env_lookup_first(rest, name);
        assert forall|i: int| 0 <= i < rest.len() implies #[trigger] rest[i] == env[i + 1] by {}
        if env[0].0@ != name {
            assert(forall|i: int| 0 <= i < rest.len() ==> (#[trigger] rest[i]).0@ != name ==> env[i + 1].0@ != name);
            assert forall|i: int| 0 <= i < env.len() && (#[trigger] env[i]).0@ == name
                && (forall|j: int| 0 <= j < i ==> (#[trigger] env[j]).0@ != name) implies env_lookup(env, name) == Some(env[i].1@) by {
                assert(i > 0);
                assert(rest[i - 1] == env[i]);
                assert forall|j: int| 0 <= j < i - 1 implies (#[trigger] rest[j]).0@ != name by {
                    assert(rest[j] == env[j + 1]);
                }
            }
            if env_lookup(env, name) is None {
                assert forall|i: int| 0 <= i < env.len() implies (#[trigger] env[i]).0@ != name by {
                    if i > 0 {
                        assert(rest[i - 1] == env[i]);
                    }
                }
            }
            if forall|i: int| 0 <= i < env.len() ==> (#[trigger] env[i]).0@ != name {
                assert forall|i: int| 0 <= i < rest.len() implies (#[trigger] rest[i]).0@ != name by {
                    assert(env[i + 1] == rest[i]);
                }
            }
        }
    }
}

/// Where a stream's token comes from: the inline token when one is given,
/// whatever the environment holds; else, when an environment variable is
/// named, the value of its first setting, and an error naming it exactly
/// when it is not set; else the empty token.
pub proof fn law_token_sources(value: Option<Seq<char>>, env_name: Option<Seq<char>>, env: Seq<(String, String)>)
    ensures
        value matches Some(v) ==> token_for(value, env_name, env) == Ok::<Seq<char>, Seq<char>>(v),
        value is None && env_name is None ==> token_for(value, env_name, env) == Ok::<Seq<char>, Seq<char>>(Seq::empty()),
        value is None && env_name is Some ==> {
            let n = env_name->0;
            &&& (token_for(value, env_name, env) == Err::<Seq<char>, Seq<char>>(n)
                <==> forall|i: int| 0 <= i < env.len() ==> (#[trigger] env[i]).0@ != n)
            &&& forall|i: int| 0 <= i < env.len() && (#[trigger] env[i]).0@ == n
                && (forall|j: int| 0 <= j < i ==> (#[trigger] env[j]).0@ != n)
                ==> token_for(value, env_name, env) == Ok::<Seq<char>, Seq<char>>(env[i].1@)
        },
{
    if let Some(n) = env_name {
        lemma_env_lookup_first(env, n);
    }
}

} // verus!
