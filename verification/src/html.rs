//! The self-contained HTML report.
use vstd::prelude::*;
use crate::config::Endpoint;
use crate::meta::{accounts_of, fmt_duration, humantime_of, latency_cell, latency_text, EndpointCells, PairCells, ReportCells, ReportMeta};
use crate::stats::{BenchmarkStats, EndpointSummary, PairwiseSummary};
use crate::terminal::{pair_latencies_ok, summary_latencies_ok};
use crate::text::{before_char, decimal, escape, escaped, redact_url, u64_text, usize_text};

verus! {

/// The style sheet of the report.
pub const STYLE: &'static str = r#"
<style>
:root{color-scheme:dark;--ink:#fff;--muted:#c8c8c8;--line:#3a332f;--paper:#111;--panel:#1a1b1f;--panel2:#1f2220;--coral:#ff6928;--coral-hover:#ff8540;--coral-active:#f84b15;--peach:#ffcd9f;--blue:#b4dcfa;--violet:#e3b4fa;--seashell:#fdf2ec}
*{box-sizing:border-box}body{margin:0;background:var(--paper);color:var(--ink);font:14px/1.45 Inter,ui-sans-serif,system-ui,-apple-system,BlinkMacSystemFont,"Segoe UI",sans-serif}
.shell{max-width:1180px;margin:0 auto;padding:32px 22px 48px}.hero{display:flex;align-items:flex-end;justify-content:space-between;gap:24px;padding:34px 0 22px;border-bottom:1px solid var(--line)}
.eyebrow{margin:0 0 8px;color:var(--coral);font-weight:800;text-transform:uppercase;letter-spacing:.08em;font-size:12px}h1{margin:0;font-size:42px;line-height:1.05;letter-spacing:0}h2{margin:34px 0 14px;font-size:20px}
.lede{max-width:760px;margin:12px 0 0;color:var(--muted);font-size:16px}.stamp{display:grid;grid-template-columns:auto;gap:4px;min-width:220px;text-align:right}.stamp span{color:var(--muted);font-size:12px}.stamp strong{font-size:15px}
.kpis{display:grid;grid-template-columns:repeat(4,minmax(0,1fr));gap:12px;margin:22px 0 10px}.kpi{background:var(--panel);border:1px solid var(--line);border-radius:8px;padding:16px}.kpi span{display:block;color:var(--peach);font-size:12px}.kpi strong{display:block;margin-top:4px;color:var(--seashell);font-size:28px}
.table-wrap{overflow:auto;background:var(--panel);border:1px solid var(--line);border-radius:8px}table{width:100%;border-collapse:collapse;min-width:880px}th,td{padding:11px 12px;border-bottom:1px solid var(--line);text-align:left;white-space:nowrap}th{background:var(--panel2);color:var(--peach);font-size:12px;text-transform:uppercase;letter-spacing:.04em}tr:last-child td{border-bottom:0}td small{display:block;color:var(--blue);margin-top:2px}
.endpoint-grid{display:grid;grid-template-columns:repeat(auto-fit,minmax(260px,1fr));gap:12px}.endpoint{background:var(--panel);border:1px solid var(--line);border-radius:8px;padding:14px;min-width:0}.endpoint span{display:block;color:var(--blue);font-weight:700;margin:3px 0}.endpoint code{display:block;overflow:hidden;text-overflow:ellipsis;color:var(--muted);font-size:12px}
.filter-box{background:var(--panel);border:1px solid var(--line);border-radius:8px;padding:14px}.filter-box span{display:block;color:var(--peach);font-size:12px;text-transform:uppercase;letter-spacing:.04em}.filter-box strong{display:block;margin-top:4px}.filter-list{display:flex;flex-wrap:wrap;gap:8px;margin-top:8px}.filter-list code{background:var(--panel2);border:1px solid var(--line);border-radius:6px;padding:6px 8px;color:var(--violet);font-size:12px}
.notes{background:#201915;border:1px solid #5b3828;border-radius:8px;padding:16px;margin-top:30px}.notes h2{margin-top:0;color:var(--coral-hover)}.notes p{margin:8px 0;color:var(--peach)}details{background:var(--panel);border:1px solid var(--line);border-radius:8px;padding:12px}summary{cursor:pointer;color:var(--coral-hover);font-weight:800}pre{overflow:auto;max-height:520px;font-size:12px;color:var(--seashell)}
@media(max-width:760px){.hero{display:block}.stamp{text-align:left;margin-top:18px}.kpis{grid-template-columns:repeat(2,minmax(0,1fr))}h1{font-size:34px}.shell{padding:22px 14px 36px}}
</style>
"#;

// ---------------------------------------------------------------------------
// Heading

/// The document head and the heading with the time the report was
/// generated and the measured duration.
#[verifier::opaque]
pub open spec fn html_hero(generated: Seq<char>, measured: Seq<char>) -> Seq<char> {
    "<!doctype html><html lang=\"en\"><head><meta charset=\"utf-8\">"@
        + "<meta name=\"viewport\" content=\"width=device-width,initial-scale=1\">"@
        + "<title>RPCFast gRPC Stream Benchmark</title>"@ + STYLE@ + "</head><body>"@ + "<main class=\"shell\">"@
        + "<section class=\"hero\">"@ + "<div><p class=\"eyebrow\">RPCFast gRPCBench</p>"@
        + "<h1>gRPC stream speed report</h1>"@
        + "<p class=\"lede\">Local receive-time comparison across shared transaction signatures.</p></div>"@
        + "<div class=\"stamp\">"@ + "<span>Generated</span><strong>"@ + escaped(generated)
        + "</strong><span>Measured</span><strong>"@ + measured + "</strong>"@ + "</div></section>"@
}

fn hero_html(generated: &str, measured: &str) -> (res: String)
    ensures
        res@ == html_hero(generated@, measured@),
{
    proof {
        reveal(html_hero);
    }
    let mut html = String::from_str("<!doctype html><html lang=\"en\"><head><meta charset=\"utf-8\">");
    html.append("<meta name=\"viewport\" content=\"width=device-width,initial-scale=1\">");
    html.append("<title>RPCFast gRPC Stream Benchmark</title>");
    html.append(STYLE);
    html.append("</head><body>");
    html.append("<main class=\"shell\">");
    html.append("<section class=\"hero\">");
    html.append("<div><p class=\"eyebrow\">RPCFast gRPCBench</p>");
    html.append("<h1>gRPC stream speed report</h1>");
    html.append("<p class=\"lede\">Local receive-time comparison across shared transaction signatures.</p></div>");
    html.append("<div class=\"stamp\">");
    html.append("<span>Generated</span><strong>");
    html.append(escape(generated).as_str());
    html.append("</strong><span>Measured</span><strong>");
    html.append(measured);
    html.append("</strong>");
    html.append("</div></section>");
    html
}

// ---------------------------------------------------------------------------
// Key figures

/// A key figure: its label and value, both escaped.
pub open spec fn kpi_html(label: Seq<char>, value: Seq<char>) -> Seq<char> {
    "<div class=\"kpi\"><span>"@ + escaped(label) + "</span><strong>"@ + escaped(value) + "</strong></div>"@
}

/// Appends the key figure `label` with `value`.
pub fn kpi(html: &mut String, label: &str, value: String)
    ensures
        final(html)@ == old(html)@ + kpi_html(label@, value@),
{
    let mut k = String::from_str("<div class=\"kpi\"><span>");
    k.append(escape(label).as_str());
    k.append("</span><strong>");
    k.append(escape(value.as_str()).as_str());
    k.append("</strong></div>");
    html.append(k.as_str());
}

/// The key figures: observed, race-eligible and fully covered signatures,
/// and the number of endpoints.
#[verifier::opaque]
pub open spec fn html_kpis(stats: BenchmarkStats, endpoint_count: nat) -> Seq<char> {
    "<section class=\"kpis\">"@ + kpi_html("Observed signatures"@, decimal(stats.total_unique_signatures as nat))
        + kpi_html("Race eligible"@, decimal(stats.race_eligible_signatures as nat))
        + kpi_html("Full coverage"@, decimal(stats.full_coverage_signatures as nat))
        + kpi_html("Endpoints"@, decimal(endpoint_count)) + "</section>"@
}

fn kpis_html(stats: &BenchmarkStats, endpoint_count: usize) -> (res: String)
    ensures
        res@ == html_kpis(*stats, endpoint_count as nat),
{
    proof {
        reveal(html_kpis);
    }
    let mut html = String::from_str("<section class=\"kpis\">");
    kpi(&mut html, "Observed signatures", usize_text(stats.total_unique_signatures));
    kpi(&mut html, "Race eligible", usize_text(stats.race_eligible_signatures));
    kpi(&mut html, "Full coverage", usize_text(stats.full_coverage_signatures));
    kpi(&mut html, "Endpoints", usize_text(endpoint_count));
    html.append("</section>");
    html
}

// ---------------------------------------------------------------------------
// Endpoint ranking

/// The table row of endpoint `s` at rank `rank`, with its floating-point
/// cells `c`.
pub open spec fn endpoint_row_html(rank: nat, s: EndpointSummary, c: EndpointCells) -> Seq<char> {
    "<tr><td>"@ + decimal(rank) + "</td><td><strong>"@ + escaped(s.alias@) + "</strong></td><td>"@
        + escaped(s.protocol_label@) + "</td><td>"@ + decimal(s.unique_signatures as nat) + "</td><td>"@
        + c.coverage_pct@ + "%</td><td>"@ + decimal(s.wins as nat) + "</td><td>"@ + c.win_pct@ + "%</td><td>"@
        + latency_text(s.median_lag_us, c.median_lag_ms@) + "</td><td>"@ + latency_text(s.p95_lag_us, c.p95_lag_ms@)
        + "</td></tr>"@
}

/// Appends the table row of endpoint `endpoint` at rank `rank`.
pub fn endpoint_row(html: &mut String, rank: usize, endpoint: &EndpointSummary, cells: &EndpointCells)
    requires
        summary_latencies_ok(*endpoint),
    ensures
        final(html)@ == old(html)@ + endpoint_row_html(rank as nat, *endpoint, *cells),
{
    let mut row = String::from_str("<tr><td>");
    row.append(usize_text(rank).as_str());
    row.append("</td><td><strong>");
    row.append(escape(endpoint.alias.as_str()).as_str());
    row.append("</strong></td><td>");
    row.append(escape(endpoint.protocol_label.as_str()).as_str());
    row.append("</td><td>");
    row.append(u64_text(endpoint.unique_signatures).as_str());
    row.append("</td><td>");
    row.append(cells.coverage_pct.as_str());
    row.append("%</td><td>");
    row.append(u64_text(endpoint.wins).as_str());
    row.append("</td><td>");
    row.append(cells.win_pct.as_str());
    row.append("%</td><td>");
    row.append(latency_cell(endpoint.median_lag_us, cells.median_lag_ms.as_str()).as_str());
    row.append("</td><td>");
    row.append(latency_cell(endpoint.p95_lag_us, cells.p95_lag_ms.as_str()).as_str());
    row.append("</td></tr>");
    html.append(row.as_str());
}

/// The first `n` rows of the ranking table.
pub open spec fn endpoint_rows_html(s: Seq<EndpointSummary>, c: Seq<EndpointCells>, n: nat) -> Seq<char>
    decreases n,
{
    if n == 0 {
        Seq::empty()
    } else {
        endpoint_rows_html(s, c, (n - 1) as nat) + endpoint_row_html(n, s[n - 1], c[n - 1])
    }
}

/// The ranking section.
#[verifier::opaque]
pub open spec fn html_ranking(s: Seq<EndpointSummary>, c: Seq<EndpointCells>) -> Seq<char> {
    "<section><h2>Endpoint ranking</h2><div class=\"table-wrap\"><table>"@
        + "<thead><tr><th>Rank</th><th>Endpoint</th><th>Protocol</th><th>Unique txs</th><th>Coverage</th><th>Wins</th><th>Win rate</th><th>Median lag</th><th>p95 lag</th></tr></thead><tbody>"@
        + endpoint_rows_html(s, c, s.len()) + "</tbody></table></div></section>"@
}

fn ranking_html(summaries: &Vec<EndpointSummary>, cells: &Vec<EndpointCells>) -> (res: String)
    requires
        cells.len() == summaries.len(),
        forall|i: int| 0 <= i < summaries.len() ==> summary_latencies_ok(#[trigger] summaries@[i]),
    ensures
        res@ == html_ranking(summaries@, cells@),
{
    proof {
        reveal(html_ranking);
    }
    let mut rows = String::new();
    for i in 0..summaries.len()
        invariant
            cells.len() == summaries.len(),
            forall|j: int| 0 <= j < summaries.len() ==> summary_latencies_ok(#[trigger] summaries@[j]),
            rows@ == endpoint_rows_html(summaries@, cells@, i as nat),
    {
        endpoint_row(&mut rows, i + 1, &summaries[i], &cells[i]);
    }
    let mut html = String::from_str("<section><h2>Endpoint ranking</h2><div class=\"table-wrap\"><table>");
    html.append("<thead><tr><th>Rank</th><th>Endpoint</th><th>Protocol</th><th>Unique txs</th><th>Coverage</th><th>Wins</th><th>Win rate</th><th>Median lag</th><th>p95 lag</th></tr></thead><tbody>");
    html.append(rows.as_str());
    html.append("</tbody></table></div></section>");
    html
}

// ---------------------------------------------------------------------------
// Pairwise winners

/// The table row of pair `p` with its floating-point cells `c`.
pub open spec fn pair_row_html(p: PairwiseSummary, c: PairCells) -> Seq<char> {
    "<tr><td><strong>"@ + escaped(p.faster_alias@) + "</strong></td><td><strong>"@ + escaped(p.slower_alias@)
        + "</strong></td><td>"@ + decimal(p.shared_signatures as nat) + "</td><td>"@ + decimal(p.wins as nat)
        + "</td><td>"@ + c.win_pct@ + "%</td><td>"@ + latency_text(p.median_lag_us, c.median_lead_ms@) + "</td><td>"@
        + latency_text(p.p95_lag_us, c.p95_lead_ms@) + "</td><td>"@
        + latency_text(p.median_behind_us, c.median_behind_ms@) + "</td><td>"@
        + latency_text(p.p95_behind_us, c.p95_behind_ms@) + "</td></tr>"@
}

/// Appends the table row of pair `pair`.
pub fn pair_row(html: &mut String, pair: &PairwiseSummary, cells: &PairCells)
    requires
        pair_latencies_ok(*pair),
    ensures
        final(html)@ == old(html)@ + pair_row_html(*pair, *cells),
{
    let mut row = String::from_str("<tr><td><strong>");
    row.append(escape(pair.faster_alias.as_str()).as_str());
    row.append("</strong></td><td><strong>");
    row.append(escape(pair.slower_alias.as_str()).as_str());
    row.append("</strong></td><td>");
    row.append(u64_text(pair.shared_signatures).as_str());
    row.append("</td><td>");
    row.append(u64_text(pair.wins).as_str());
    row.append("</td><td>");
    row.append(cells.win_pct.as_str());
    row.append("%</td><td>");
    row.append(latency_cell(pair.median_lag_us, cells.median_lead_ms.as_str()).as_str());
    row.append("</td><td>");
    row.append(latency_cell(pair.p95_lag_us, cells.p95_lead_ms.as_str()).as_str());
    row.append("</td><td>");
    row.append(latency_cell(pair.median_behind_us, cells.median_behind_ms.as_str()).as_str());
    row.append("</td><td>");
    row.append(latency_cell(pair.p95_behind_us, cells.p95_behind_ms.as_str()).as_str());
    row.append("</td></tr>");
    html.append(row.as_str());
}

/// The first `n` rows of the pairwise table.
pub open spec fn pair_rows_html(p: Seq<PairwiseSummary>, c: Seq<PairCells>, n: nat) -> Seq<char>
    decreases n,
{
    if n == 0 {
        Seq::empty()
    } else {
        pair_rows_html(p, c, (n - 1) as nat) + pair_row_html(p[n - 1], c[n - 1])
    }
}

/// How many pairwise rows the HTML report shows: the first thirty.
pub open spec fn listed_pairs(n: nat) -> nat {
    if n > 30 { 30 } else { n }
}

/// The pairwise section.
#[verifier::opaque]
pub open spec fn html_pairwise(p: Seq<PairwiseSummary>, c: Seq<PairCells>) -> Seq<char> {
    "<section><h2>Pairwise winners</h2><div class=\"table-wrap\"><table>"@
        + "<thead><tr><th>Faster endpoint</th><th>Slower endpoint</th><th>Shared txs</th><th>Wins</th><th>Win rate</th><th>Median lead</th><th>p95 lead</th><th>Median lag</th><th>p95 lag</th></tr></thead><tbody>"@
        + pair_rows_html(p, c, listed_pairs(p.len())) + "</tbody></table></div></section>"@
}

fn pairwise_html(pairs: &Vec<PairwiseSummary>, cells: &Vec<PairCells>) -> (res: String)
    requires
        cells.len() == pairs.len(),
        forall|i: int| 0 <= i < listed_pairs(pairs.len() as nat) ==> pair_latencies_ok(#[trigger] pairs@[i]),
    ensures
        res@ == html_pairwise(pairs@, cells@),
{
    proof {
        reveal(html_pairwise);
    }
    let n: usize = if pairs.len() > 30 { 30 } else { pairs.len() };
    let mut rows = String::new();
    for i in 0..n
        invariant
            n == listed_pairs(pairs.len() as nat),
            cells.len() == pairs.len(),
            forall|j: int| 0 <= j < n ==> pair_latencies_ok(#[trigger] pairs@[j]),
            rows@ == pair_rows_html(pairs@, cells@, i as nat),
    {
        pair_row(&mut rows, &pairs[i], &cells[i]);
    }
    let mut html = String::from_str("<section><h2>Pairwise winners</h2><div class=\"table-wrap\"><table>");
    html.append("<thead><tr><th>Faster endpoint</th><th>Slower endpoint</th><th>Shared txs</th><th>Wins</th><th>Win rate</th><th>Median lead</th><th>p95 lead</th><th>Median lag</th><th>p95 lag</th></tr></thead><tbody>");
    html.append(rows.as_str());
    html.append("</tbody></table></div></section>");
    html
}

// ---------------------------------------------------------------------------
// Configured streams and filters

/// The card of endpoint `e`: alias, protocol label and URL without its
/// query string, all escaped.
pub open spec fn endpoint_card(e: Endpoint) -> Seq<char> {
    "<div class=\"endpoint\"><strong>"@ + escaped(e.alias@) + "</strong><span>"@ + escaped(e.protocol.title())
        + "</span><code>"@ + escaped(before_char(e.url@, '?')) + "</code></div>"@
}

/// The cards of the endpoints.
pub open spec fn endpoint_cards(eps: Seq<Endpoint>) -> Seq<char>
    decreases eps.len(),
{
    if eps.len() == 0 {
        Seq::empty()
    } else {
        endpoint_cards(eps.drop_last()) + endpoint_card(eps.last())
    }
}

/// The configured-streams section.
#[verifier::opaque]
pub open spec fn html_streams(eps: Seq<Endpoint>) -> Seq<char> {
    "<section><h2>Configured streams</h2><div class=\"endpoint-grid\">"@ + endpoint_cards(eps) + "</div></section>"@
}

fn streams_html(endpoints: &[Endpoint]) -> (res: String)
    ensures
        res@ == html_streams(endpoints@),
{
    proof {
        reveal(html_streams);
    }
    let ghost eps = endpoints@;
    let mut cards = String::new();
    for i in 0..endpoints.len()
        invariant
            eps == endpoints@,
            cards@ == endpoint_cards(eps.take(i as int)),
    {
        let e = &endpoints[i];
        let mut card = String::from_str("<div class=\"endpoint\"><strong>");
        card.append(escape(e.alias.as_str()).as_str());
        card.append("</strong><span>");
        card.append(escape(e.protocol.label()).as_str());
        card.append("</span><code>");
        card.append(escape(redact_url(e.url.as_str()).as_str()).as_str());
        card.append("</code></div>");
        cards.append(card.as_str());
        assert(eps.take(i + 1).drop_last() =~= eps.take(i as int));
    }
    assert(eps.take(endpoints.len() as int) =~= eps);
    let mut html = String::from_str("<section><h2>Configured streams</h2><div class=\"endpoint-grid\">");
    html.append(cards.as_str());
    html.append("</div></section>");
    html
}

/// The accounts of the filter, each escaped in a `code` element.
pub open spec fn account_codes(accounts: Seq<Seq<char>>) -> Seq<char>
    decreases accounts.len(),
{
    if accounts.len() == 0 {
        Seq::empty()
    } else {
        account_codes(accounts.drop_last()) + "<code>"@ + escaped(accounts.last()) + "</code>"@
    }
}

/// The filters section.
#[verifier::opaque]
pub open spec fn html_filters(accounts: Seq<Seq<char>>) -> Seq<char> {
    "<section><h2>Filters</h2>"@ + (if accounts.len() == 0 {
        "<div class=\"filter-box\"><span>Account include</span><strong>None</strong></div>"@
    } else {
        "<div class=\"filter-box\"><span>Account include</span><div class=\"filter-list\">"@ + account_codes(accounts)
            + "</div></div>"@
    }) + "</section>"@
}

fn filters_html(accounts: &Vec<String>) -> (res: String)
    ensures
        res@ == html_filters(accounts@.map_values(|a: String| a@)),
{
    proof {
        reveal(html_filters);
    }
    let ghost all = accounts@.map_values(|a: String| a@);
    let mut html = String::from_str("<section><h2>Filters</h2>");
    if accounts.len() == 0 {
        html.append("<div class=\"filter-box\"><span>Account include</span><strong>None</strong></div>");
    } else {
        let mut codes = String::new();
        for i in 0..accounts.len()
            invariant
                all == accounts@.map_values(|a: String| a@),
                codes@ == account_codes(all.take(i as int)),
        {
            codes.append("<code>");
            codes.append(escape(accounts[i].as_str()).as_str());
            codes.append("</code>");
            assert(all.take(i + 1).drop_last() =~= all.take(i as int));
        }
        assert(all.take(accounts.len() as int) =~= all);
        let mut list = String::from_str("<div class=\"filter-box\"><span>Account include</span><div class=\"filter-list\">");
        list.append(codes.as_str());
        list.append("</div></div>");
        html.append(list.as_str());
    }
    html.append("</section>");
    html
}

// ---------------------------------------------------------------------------
// The whole report

/// The timing notes, the raw payload and the end of the document.
pub open spec fn html_tail(payload_json: Seq<char>) -> Seq<char> {
    "<section class=\"notes\"><h2>Timing notes</h2>"@ + "<p>All endpoints are measured by timestamp of receive event.</p>"@
        + "</section>"@ + "<section><h2>Raw JSON</h2><details><summary>Open report payload</summary><pre>"@
        + escaped(payload_json) + "</pre></details></section>"@ + "</main></body></html>"@
}

/// The HTML report, given the text of the time it was generated, of the
/// measured duration, and of the JSON payload it embeds.
pub open spec fn html_report(
    generated: Seq<char>,
    measured: Seq<char>,
    payload_json: Seq<char>,
    meta: ReportMeta,
    eps: Seq<Endpoint>,
    stats: BenchmarkStats,
    cells: ReportCells,
) -> Seq<char> {
    html_hero(generated, measured) + html_kpis(stats, meta.endpoint_count as nat)
        + html_ranking(stats.endpoint_summaries@, cells.endpoints@) + html_pairwise(stats.pairwise@, cells.pairs@)
        + html_streams(eps) + html_filters(accounts_of(meta)) + html_tail(payload_json)
}

/// What the HTML report can be written from: a cell set for each row and no
/// listed latency of `i64::MIN`.
pub open spec fn html_inputs_ok(stats: BenchmarkStats, cells: ReportCells) -> bool {
    let s = stats.endpoint_summaries@;
    let p = stats.pairwise@;
    &&& cells.endpoints.len() == s.len()
    &&& cells.pairs.len() == p.len()
    &&& forall|i: int| 0 <= i < s.len() ==> summary_latencies_ok(#[trigger] s[i])
    &&& forall|i: int| 0 <= i < listed_pairs(p.len()) ==> pair_latencies_ok(#[trigger] p[i])
}

/// The HTML report, given the text of the time it was generated, of the
/// measured duration, and of the JSON payload it embeds.
pub fn compose_report(
    generated: &str,
    measured: &str,
    payload_json: &str,
    meta: &ReportMeta,
    endpoints: &[Endpoint],
    stats: &BenchmarkStats,
    cells: &ReportCells,
) -> (res: String)
    requires
        html_inputs_ok(*stats, *cells),
    ensures
        res@ == html_report(generated@, measured@, payload_json@, *meta, endpoints@, *stats, *cells),
{
    let mut html = hero_html(generated, measured);
    html.append(kpis_html(stats, meta.endpoint_count).as_str());
    html.append(ranking_html(&stats.endpoint_summaries, &cells.endpoints).as_str());
    html.append(pairwise_html(&stats.pairwise, &cells.pairs).as_str());
    html.append(streams_html(endpoints).as_str());
    html.append(filters_html(&meta.account_include).as_str());
    let mut tail = String::from_str("<section class=\"notes\"><h2>Timing notes</h2>");
    tail.append("<p>All endpoints are measured by timestamp of receive event.</p>");
    tail.append("</section>");
    tail.append("<section><h2>Raw JSON</h2><details><summary>Open report payload</summary><pre>");
    tail.append(escape(payload_json).as_str());
    tail.append("</pre></details></section>");
    tail.append("</main></body></html>");
    html.append(tail.as_str());
    html
}

/// The self-contained HTML report: the run's heading, the key figures, the
/// endpoint ranking, up to thirty pairwise rows, the configured streams, the
/// account filter, the timing notes and `payload_json`, the report's data as
/// JSON, escaped.
pub fn render_report(
    meta: &ReportMeta,
    endpoints: &[Endpoint],
    stats: &BenchmarkStats,
    cells: &ReportCells,
    payload_json: &str,
) -> (res: String)
    requires
        html_inputs_ok(*stats, *cells),
    ensures
        res@ == html_report(
            meta.generated_at.text(),
            humantime_of(meta.duration_secs),
            payload_json@,
            *meta,
            endpoints@,
            *stats,
            *cells,
        ),
{
    let generated = meta.generated_at.to_rfc3339();
    let measured = fmt_duration(meta.duration_secs);
    compose_report(generated.as_str(), measured.as_str(), payload_json, meta, endpoints, stats, cells)
}

} // verus!
