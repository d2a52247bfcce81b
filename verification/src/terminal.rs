//! The report printed to the terminal once a run ends.
use vstd::prelude::*;
use crate::config::Endpoint;
use crate::meta::{accounts_of, fmt_duration, humantime_of, latency_cell, latency_text, EndpointCells, PairCells, ReportCells, ReportMeta};
use crate::report::{
    blue, bold_blue, coral, line, muted, pairwise_table_layout, pairwise_widths, peach, push_line, ranking_table_layout,
    ranking_widths, section_rule, separator_rule, shrunk, stream_widths, streams_table_layout, term_blue,
    term_bold_blue, term_coral, term_muted, term_peach, term_violet, term_white, terminal_data, terminal_header,
    terminal_line, terminal_section, terminal_table_separator, violet, white, aliases, labels, redacted_urls,
    summary_aliases, summary_labels, faster_aliases, slower_aliases, max_len, lemma_shrunk_bounds,
    lemma_section_matches_separator,
};
use crate::stats::{BenchmarkStats, EndpointSummary, PairwiseSummary};
use crate::text::{
    before_char, center_text, centered, decimal, pad_left, pad_right, push_left, push_right, redact_url, truncate,
    truncated, u64_text, usize_text, parse_usize, parsed_usize,
};

verus! {

// ---------------------------------------------------------------------------
// Heading

/// The title, the run's duration and time, and where the HTML report went.
#[verifier::opaque]
pub open spec fn report_head(width: nat, measured: Seq<char>, generated: Seq<char>, output_path: Seq<char>) -> Seq<char> {
    "\n"@
        + line(bold_blue(centered("RPC Fast gRPCBench report"@, width)))
        + "\n"@
        + line(peach("Measured"@) + "  "@ + white(measured))
        + line(peach("Generated"@) + " "@ + white(generated))
        + line(peach("HTML"@) + "      "@ + blue(output_path))
        + "\n"@
}

fn head_text(width: usize, measured: &str, generated: &str, output_path: &str) -> (res: String)
    ensures
        res@ == report_head(width as nat, measured@, generated@, output_path@),
{
    proof {
        reveal(report_head);
    }
    let mut out = String::from_str("\n");
    let title = center_text("RPC Fast gRPCBench report", width);
    push_line(&mut out, term_bold_blue(title.as_str()));
    out.append("\n");
    let mut l = term_peach("Measured");
    l.append("  ");
    l.append(term_white(measured).as_str());
    push_line(&mut out, l);
    let mut l = term_peach("Generated");
    l.append(" ");
    l.append(term_white(generated).as_str());
    push_line(&mut out, l);
    let mut l = term_peach("HTML");
    l.append("      ");
    l.append(term_blue(output_path).as_str());
    push_line(&mut out, l);
    out.append("\n");
    out
}

// ---------------------------------------------------------------------------
// Counts

/// The border of the counts table.
pub open spec fn counts_rule() -> Seq<char> {
    "+--------------------+--------------+--------------+--------------+"@
}

/// The heading row of the counts table.
pub open spec fn counts_heading() -> Seq<char> {
    "| Observed signatures| Race eligible| Full coverage| Endpoints    |"@
}

/// The data row of the counts table.
pub open spec fn counts_row(total: nat, race: nat, full: nat, endpoints: nat) -> Seq<char> {
    "| "@ + pad_left(decimal(total), 18) + " | "@ + pad_left(decimal(race), 12) + " | "@ + pad_left(decimal(full), 12)
        + " | "@ + pad_left(decimal(endpoints), 12) + " |"@
}

/// The counts table: observed, race-eligible and fully covered signatures,
/// and the number of endpoints.
#[verifier::opaque]
pub open spec fn counts_table(stats: BenchmarkStats, endpoint_count: nat) -> Seq<char> {
    line(coral(counts_rule())) + line(peach(counts_heading())) + line(coral(counts_rule()))
        + line(white(counts_row(
            stats.total_unique_signatures as nat,
            stats.race_eligible_signatures as nat,
            stats.full_coverage_signatures as nat,
            endpoint_count,
        ))) + line(coral(counts_rule())) + "\n"@
}

fn counts_text(stats: &BenchmarkStats, endpoint_count: usize) -> (res: String)
    ensures
        res@ == counts_table(*stats, endpoint_count as nat),
{
    proof {
        reveal(counts_table);
    }
    let mut out = String::new();
    terminal_line(&mut out, "+--------------------+--------------+--------------+--------------+");
    assert(out@ =~= line(coral(counts_rule())));
    terminal_header(&mut out, "| Observed signatures| Race eligible| Full coverage| Endpoints    |");
    terminal_line(&mut out, "+--------------------+--------------+--------------+--------------+");
    let mut row = String::from_str("| ");
    push_right(&mut row, usize_text(stats.total_unique_signatures).as_str(), 18);
    row.append(" | ");
    push_right(&mut row, usize_text(stats.race_eligible_signatures).as_str(), 12);
    row.append(" | ");
    push_right(&mut row, usize_text(stats.full_coverage_signatures).as_str(), 12);
    row.append(" | ");
    push_right(&mut row, usize_text(endpoint_count).as_str(), 12);
    row.append(" |");
    terminal_data(&mut out, row.as_str());
    terminal_line(&mut out, "+--------------------+--------------+--------------+--------------+");
    out.append("\n");
    out
}

// ---------------------------------------------------------------------------
// Filters

/// One line per account of the filter.
pub open spec fn account_lines(accounts: Seq<Seq<char>>) -> Seq<char>
    decreases accounts.len(),
{
    if accounts.len() == 0 {
        Seq::empty()
    } else {
        account_lines(accounts.drop_last()) + line("    "@ + coral("-"@) + " "@ + violet(accounts.last()))
    }
}

/// The filters section, ruled out to `width` columns.
#[verifier::opaque]
pub open spec fn filters_section(accounts: Seq<Seq<char>>, width: nat) -> Seq<char> {
    line(coral(section_rule("Filters"@, width))) + (if accounts.len() == 0 {
        line("  "@ + peach("account_include"@) + "  "@ + muted("none"@))
    } else {
        line("  "@ + peach("account_include"@)) + account_lines(accounts)
    }) + "\n"@
}

fn account_lines_text(accounts: &Vec<String>) -> (res: String)
    ensures
        res@ == account_lines(accounts@.map_values(|a: String| a@)),
{
    let ghost all = accounts@.map_values(|a: String| a@);
    let mut out = String::new();
    for i in 0..accounts.len()
        invariant
            all == accounts@.map_values(|a: String| a@),
            out@ == account_lines(all.take(i as int)),
    {
        let mut l = String::from_str("    ");
        l.append(term_coral("-").as_str());
        l.append(" ");
        l.append(term_violet(accounts[i].as_str()).as_str());
        push_line(&mut out, l);
        assert(all.take(i + 1).drop_last() =~= all.take(i as int));
    }
    assert(all.take(accounts.len() as int) =~= all);
    out
}

fn filters_text(accounts: &Vec<String>, width: usize) -> (res: String)
    ensures
        res@ == filters_section(accounts@.map_values(|a: String| a@), width as nat),
{
    proof {
        reveal(filters_section);
    }
    let mut out = String::new();
    terminal_section(&mut out, "Filters", width);
    assert(out@ =~= line(coral(section_rule("Filters"@, width as nat))));
    let ghost base = out@;
    if accounts.len() == 0 {
        let mut l = String::from_str("  ");
        l.append(term_peach("account_include").as_str());
        l.append("  ");
        l.append(term_muted("none").as_str());
        push_line(&mut out, l);
    } else {
        let mut l = String::from_str("  ");
        l.append(term_peach("account_include").as_str());
        let mut both = String::new();
        push_line(&mut both, l);
        let lines = account_lines_text(accounts);
        both.append(lines.as_str());
        assert(both@ =~= line("  "@ + peach("account_include"@)) + account_lines(accounts@.map_values(|a: String| a@)));
        out.append(both.as_str());
    }
    out.append("\n");
    out
}

// ---------------------------------------------------------------------------
// Configured streams

/// The width of a configured-streams row for column widths `cols`.
pub open spec fn streams_width(cols: Seq<usize>) -> nat {
    (2 + cols[0] + 1 + cols[1] + 1 + cols[2]) as nat
}

/// The heading row of the configured-streams table.
pub open spec fn streams_heading(aw: nat, pw: nat) -> Seq<char> {
    "  "@ + pad_right("Alias"@, aw) + " "@ + pad_right("Protocol"@, pw) + " Endpoint"@
}

/// The row of endpoint `e`: alias, protocol label and URL without its query
/// string, each cut to its column.
pub open spec fn stream_row(e: Endpoint, aw: nat, pw: nat, ew: nat) -> Seq<char> {
    "  "@ + pad_right(truncated(e.alias@, aw), aw) + " "@ + pad_right(truncated(e.protocol.title(), pw), pw) + " "@
        + truncated(before_char(e.url@, '?'), ew)
}

/// The rows of the configured-streams table.
pub open spec fn stream_rows(eps: Seq<Endpoint>, aw: nat, pw: nat, ew: nat) -> Seq<char>
    decreases eps.len(),
{
    if eps.len() == 0 {
        Seq::empty()
    } else {
        stream_rows(eps.drop_last(), aw, pw, ew) + line(white(stream_row(eps.last(), aw, pw, ew)))
    }
}

/// The configured-streams section with column widths `cols`.
#[verifier::opaque]
pub open spec fn streams_section(eps: Seq<Endpoint>, cols: Seq<usize>) -> Seq<char> {
    line(coral(section_rule("Configured streams"@, streams_width(cols))))
        + line(peach(streams_heading(cols[0] as nat, cols[1] as nat)))
        + line(coral(separator_rule(streams_width(cols))))
        + stream_rows(eps, cols[0] as nat, cols[1] as nat, cols[2] as nat)
        + "\n"@
}

fn stream_row_text(e: &Endpoint, aw: usize, pw: usize, ew: usize) -> (res: String)
    ensures
        res@ == stream_row(*e, aw as nat, pw as nat, ew as nat),
{
    let mut row = String::from_str("  ");
    push_left(&mut row, truncate(e.alias.as_str(), aw).as_str(), aw);
    row.append(" ");
    push_left(&mut row, truncate(e.protocol.label(), pw).as_str(), pw);
    row.append(" ");
    let url = redact_url(e.url.as_str());
    row.append(truncate(url.as_str(), ew).as_str());
    row
}

fn stream_rows_text(endpoints: &[Endpoint], aw: usize, pw: usize, ew: usize) -> (res: String)
    ensures
        res@ == stream_rows(endpoints@, aw as nat, pw as nat, ew as nat),
{
    let ghost eps = endpoints@;
    let mut out = String::new();
    for i in 0..endpoints.len()
        invariant
            eps == endpoints@,
            out@ == stream_rows(eps.take(i as int), aw as nat, pw as nat, ew as nat),
    {
        let row = stream_row_text(&endpoints[i], aw, pw, ew);
        terminal_data(&mut out, row.as_str());
        assert(eps.take(i + 1).drop_last() =~= eps.take(i as int));
    }
    assert(eps.take(endpoints.len() as int) =~= eps);
    out
}

fn streams_text(endpoints: &[Endpoint], aw: usize, pw: usize, ew: usize) -> (res: String)
    requires
        streams_width(seq![aw, pw, ew]) <= usize::MAX,
    ensures
        res@ == streams_section(endpoints@, seq![aw, pw, ew]),
{
    proof {
        reveal(streams_section);
    }
    let width = 2 + aw + 1 + pw + 1 + ew;
    let mut out = String::new();
    terminal_section(&mut out, "Configured streams", width);
    assert(out@ =~= line(coral(section_rule("Configured streams"@, width as nat))));
    let mut heading = String::from_str("  ");
    push_left(&mut heading, "Alias", aw);
    heading.append(" ");
    push_left(&mut heading, "Protocol", pw);
    heading.append(" Endpoint");
    terminal_header(&mut out, heading.as_str());
    terminal_table_separator(&mut out, width);
    let rows = stream_rows_text(endpoints, aw, pw, ew);
    out.append(rows.as_str());
    out.append("\n");
    out
}

// ---------------------------------------------------------------------------
// Endpoint ranking

/// The width of a ranking row for column widths `cols`.
pub open spec fn ranking_width(cols: Seq<usize>) -> nat {
    (2 + 3 + 1 + cols[0] + 1 + cols[1] + 1 + 10 + 1 + 9 + 1 + 8 + 1 + 9 + 1 + 11 + 1 + 11) as nat
}

/// The heading row of the ranking table.
pub open spec fn ranking_heading(ew: nat, pw: nat) -> Seq<char> {
    "  "@ + pad_right("#"@, 3) + " "@ + pad_right("Endpoint"@, ew) + " "@ + pad_right("Protocol"@, pw) + " "@
        + pad_left("Unique"@, 10) + " "@ + pad_left("Coverage"@, 9) + " "@ + pad_left("Wins"@, 8) + " "@
        + pad_left("Win rate"@, 9) + " "@ + pad_left("Med lag"@, 11) + " "@ + pad_left("P95 lag"@, 11)
}

/// The ranking row of endpoint `s` at rank `rank`, with its floating-point
/// cells `c`.
pub open spec fn ranking_row(rank: nat, s: EndpointSummary, c: EndpointCells, ew: nat, pw: nat) -> Seq<char> {
    "  "@ + pad_right(decimal(rank), 3) + " "@ + pad_right(truncated(s.alias@, ew), ew) + " "@
        + pad_right(truncated(s.protocol_label@, pw), pw) + " "@ + pad_left(decimal(s.unique_signatures as nat), 10)
        + " "@ + pad_left(c.coverage_pct@, 8) + "%"@ + " "@ + pad_left(decimal(s.wins as nat), 8) + " "@
        + pad_left(c.win_pct@, 8) + "%"@ + " "@ + pad_left(latency_text(s.median_lag_us, c.median_lag_ms@), 11)
        + " "@ + pad_left(latency_text(s.p95_lag_us, c.p95_lag_ms@), 11)
}

/// The first `n` rows of the ranking table.
pub open spec fn ranking_rows(s: Seq<EndpointSummary>, c: Seq<EndpointCells>, ew: nat, pw: nat, n: nat) -> Seq<char>
    decreases n,
{
    if n == 0 {
        Seq::empty()
    } else {
        ranking_rows(s, c, ew, pw, (n - 1) as nat) + line(white(ranking_row(n, s[n - 1], c[n - 1], ew, pw)))
    }
}

/// The ranking section with column widths `cols`.
#[verifier::opaque]
pub open spec fn ranking_section(s: Seq<EndpointSummary>, c: Seq<EndpointCells>, cols: Seq<usize>) -> Seq<char> {
    line(coral(section_rule("Endpoint ranking"@, ranking_width(cols))))
        + line(peach(ranking_heading(cols[0] as nat, cols[1] as nat)))
        + line(coral(separator_rule(ranking_width(cols))))
        + ranking_rows(s, c, cols[0] as nat, cols[1] as nat, s.len())
        + "\n"@
}

/// No shown latency is `i64::MIN`, whose magnitude has no `i64`.
pub open spec fn summary_latencies_ok(s: EndpointSummary) -> bool {
    s.median_lag_us != Some(i64::MIN) && s.p95_lag_us != Some(i64::MIN)
}

fn ranking_row_text(rank: usize, s: &EndpointSummary, c: &EndpointCells, ew: usize, pw: usize) -> (res: String)
    requires
        summary_latencies_ok(*s),
    ensures
        res@ == ranking_row(rank as nat, *s, *c, ew as nat, pw as nat),
{
    let mut row = String::from_str("  ");
    push_left(&mut row, usize_text(rank).as_str(), 3);
    row.append(" ");
    push_left(&mut row, truncate(s.alias.as_str(), ew).as_str(), ew);
    row.append(" ");
    push_left(&mut row, truncate(s.protocol_label.as_str(), pw).as_str(), pw);
    row.append(" ");
    push_right(&mut row, u64_text(s.unique_signatures).as_str(), 10);
    row.append(" ");
    push_right(&mut row, c.coverage_pct.as_str(), 8);
    row.append("%");
    row.append(" ");
    push_right(&mut row, u64_text(s.wins).as_str(), 8);
    row.append(" ");
    push_right(&mut row, c.win_pct.as_str(), 8);
    row.append("%");
    row.append(" ");
    push_right(&mut row, latency_cell(s.median_lag_us, c.median_lag_ms.as_str()).as_str(), 11);
    row.append(" ");
    push_right(&mut row, latency_cell(s.p95_lag_us, c.p95_lag_ms.as_str()).as_str(), 11);
    row
}

fn ranking_rows_text(summaries: &Vec<EndpointSummary>, cells: &Vec<EndpointCells>, ew: usize, pw: usize) -> (res: String)
    requires
        cells.len() == summaries.len(),
        forall|i: int| 0 <= i < summaries.len() ==> summary_latencies_ok(#[trigger] summaries@[i]),
    ensures
        res@ == ranking_rows(summaries@, cells@, ew as nat, pw as nat, summaries.len() as nat),
{
    let mut out = String::new();
    for i in 0..summaries.len()
        invariant
            cells.len() == summaries.len(),
            forall|j: int| 0 <= j < summaries.len() ==> summary_latencies_ok(#[trigger] summaries@[j]),
            out@ == ranking_rows(summaries@, cells@, ew as nat, pw as nat, i as nat),
    {
        let row = ranking_row_text(i + 1, &summaries[i], &cells[i], ew, pw);
        terminal_data(&mut out, row.as_str());
    }
    out
}

fn ranking_text(summaries: &Vec<EndpointSummary>, cells: &Vec<EndpointCells>, ew: usize, pw: usize) -> (res: String)
    requires
        cells.len() == summaries.len(),
        forall|i: int| 0 <= i < summaries.len() ==> summary_latencies_ok(#[trigger] summaries@[i]),
        ranking_width(seq![ew, pw]) <= usize::MAX,
    ensures
        res@ == ranking_section(summaries@, cells@, seq![ew, pw]),
{
    proof {
        reveal(ranking_section);
    }
    let width = 2 + 3 + 1 + ew + 1 + pw + 1 + 10 + 1 + 9 + 1 + 8 + 1 + 9 + 1 + 11 + 1 + 11;
    let mut out = String::new();
    terminal_section(&mut out, "Endpoint ranking", width);
    assert(out@ =~= line(coral(section_rule("Endpoint ranking"@, width as nat))));
    let mut heading = String::from_str("  ");
    push_left(&mut heading, "#", 3);
    heading.append(" ");
    push_left(&mut heading, "Endpoint", ew);
    heading.append(" ");
    push_left(&mut heading, "Protocol", pw);
    heading.append(" ");
    push_right(&mut heading, "Unique", 10);
    heading.append(" ");
    push_right(&mut heading, "Coverage", 9);
    heading.append(" ");
    push_right(&mut heading, "Wins", 8);
    heading.append(" ");
    push_right(&mut heading, "Win rate", 9);
    heading.append(" ");
    push_right(&mut heading, "Med lag", 11);
    heading.append(" ");
    push_right(&mut heading, "P95 lag", 11);
    terminal_header(&mut out, heading.as_str());
    terminal_table_separator(&mut out, width);
    let rows = ranking_rows_text(summaries, cells, ew, pw);
    out.append(rows.as_str());
    out.append("\n");
    out
}

// ---------------------------------------------------------------------------
// Pairwise winners

/// The width of a pairwise row for column widths `cols`.
pub open spec fn pairwise_width(cols: Seq<usize>) -> nat {
    (2 + cols[0] + 1 + cols[1] + 1 + 9 + 1 + 8 + 1 + 9 + 1 + 11 + 1 + 11 + 1 + 11 + 1 + 11) as nat
}

/// The heading row of the pairwise table.
pub open spec fn pairwise_heading(fw: nat, sw: nat) -> Seq<char> {
    "  "@ + pad_right("Faster"@, fw) + " "@ + pad_right("Slower"@, sw) + " "@ + pad_left("Shared"@, 9) + " "@
        + pad_left("Wins"@, 8) + " "@ + pad_left("Win rate"@, 9) + " "@ + pad_left("Med lead"@, 11) + " "@
        + pad_left("P95 lead"@, 11) + " "@ + pad_left("Med lag"@, 11) + " "@ + pad_left("P95 lag"@, 11)
}

/// The row of pair `p` with its floating-point cells `c`.
pub open spec fn pair_row(p: PairwiseSummary, c: PairCells, fw: nat, sw: nat) -> Seq<char> {
    "  "@ + pad_right(truncated(p.faster_alias@, fw), fw) + " "@ + pad_right(truncated(p.slower_alias@, sw), sw)
        + " "@ + pad_left(decimal(p.shared_signatures as nat), 9) + " "@ + pad_left(decimal(p.wins as nat), 8) + " "@
        + pad_left(c.win_pct@, 8) + "%"@ + " "@ + pad_left(latency_text(p.median_lag_us, c.median_lead_ms@), 11)
        + " "@ + pad_left(latency_text(p.p95_lag_us, c.p95_lead_ms@), 11) + " "@
        + pad_left(latency_text(p.median_behind_us, c.median_behind_ms@), 11) + " "@
        + pad_left(latency_text(p.p95_behind_us, c.p95_behind_ms@), 11)
}

/// The first `n` rows of the pairwise table.
pub open spec fn pair_rows(p: Seq<PairwiseSummary>, c: Seq<PairCells>, fw: nat, sw: nat, n: nat) -> Seq<char>
    decreases n,
{
    if n == 0 {
        Seq::empty()
    } else {
        pair_rows(p, c, fw, sw, (n - 1) as nat) + line(white(pair_row(p[n - 1], c[n - 1], fw, sw)))
    }
}

/// How many pairwise rows are shown: the first ten.
pub open spec fn shown_pairs(n: nat) -> nat {
    if n > 10 { 10 } else { n }
}

/// The pairwise section with column widths `cols`; nothing when there are
/// no pairs.
#[verifier::opaque]
pub open spec fn pairwise_section(p: Seq<PairwiseSummary>, c: Seq<PairCells>, cols: Seq<usize>) -> Seq<char> {
    if p.len() == 0 {
        Seq::empty()
    } else {
        line(coral(section_rule("Pairwise winners"@, pairwise_width(cols))))
            + line(peach(pairwise_heading(cols[0] as nat, cols[1] as nat)))
            + line(coral(separator_rule(pairwise_width(cols))))
            + pair_rows(p, c, cols[0] as nat, cols[1] as nat, shown_pairs(p.len()))
            + "\n"@
    }
}

/// No latency of pair `p` is `i64::MIN`, whose magnitude has no `i64`.
pub open spec fn pair_latencies_ok(p: PairwiseSummary) -> bool {
    &&& p.median_lag_us != Some(i64::MIN)
    &&& p.p95_lag_us != Some(i64::MIN)
    &&& p.median_behind_us != Some(i64::MIN)
    &&& p.p95_behind_us != Some(i64::MIN)
}

fn pair_row_text(p: &PairwiseSummary, c: &PairCells, fw: usize, sw: usize) -> (res: String)
    requires
        pair_latencies_ok(*p),
    ensures
        res@ == pair_row(*p, *c, fw as nat, sw as nat),
{
    let mut row = String::from_str("  ");
    push_left(&mut row, truncate(p.faster_alias.as_str(), fw).as_str(), fw);
    row.append(" ");
    push_left(&mut row, truncate(p.slower_alias.as_str(), sw).as_str(), sw);
    row.append(" ");
    push_right(&mut row, u64_text(p.shared_signatures).as_str(), 9);
    row.append(" ");
    push_right(&mut row, u64_text(p.wins).as_str(), 8);
    row.append(" ");
    push_right(&mut row, c.win_pct.as_str(), 8);
    row.append("%");
    row.append(" ");
    push_right(&mut row, latency_cell(p.median_lag_us, c.median_lead_ms.as_str()).as_str(), 11);
    row.append(" ");
    push_right(&mut row, latency_cell(p.p95_lag_us, c.p95_lead_ms.as_str()).as_str(), 11);
    row.append(" ");
    push_right(&mut row, latency_cell(p.median_behind_us, c.median_behind_ms.as_str()).as_str(), 11);
    row.append(" ");
    push_right(&mut row, latency_cell(p.p95_behind_us, c.p95_behind_ms.as_str()).as_str(), 11);
    row
}

fn pair_rows_text(pairs: &Vec<PairwiseSummary>, cells: &Vec<PairCells>, fw: usize, sw: usize) -> (res: String)
    requires
        cells.len() == pairs.len(),
        forall|i: int| 0 <= i < shown_pairs(pairs.len() as nat) ==> pair_latencies_ok(#[trigger] pairs@[i]),
    ensures
        res@ == pair_rows(pairs@, cells@, fw as nat, sw as nat, shown_pairs(pairs.len() as nat)),
{
    let n: usize = if pairs.len() > 10 { 10 } else { pairs.len() };
    let mut out = String::new();
    for i in 0..n
        invariant
            n == shown_pairs(pairs.len() as nat),
            cells.len() == pairs.len(),
            forall|j: int| 0 <= j < n ==> pair_latencies_ok(#[trigger] pairs@[j]),
            out@ == pair_rows(pairs@, cells@, fw as nat, sw as nat, i as nat),
    {
        let row = pair_row_text(&pairs[i], &cells[i], fw, sw);
        terminal_data(&mut out, row.as_str());
    }
    out
}

fn pairwise_text(pairs: &Vec<PairwiseSummary>, cells: &Vec<PairCells>, fw: usize, sw: usize) -> (res: String)
    requires
        cells.len() == pairs.len(),
        forall|i: int| 0 <= i < shown_pairs(pairs.len() as nat) ==> pair_latencies_ok(#[trigger] pairs@[i]),
        pairwise_width(seq![fw, sw]) <= usize::MAX,
    ensures
        res@ == pairwise_section(pairs@, cells@, seq![fw, sw]),
{
    proof {
        reveal(pairwise_section);
    }
    if pairs.len() == 0 {
        return String::new();
    }
    let width = 2 + fw + 1 + sw + 1 + 9 + 1 + 8 + 1 + 9 + 1 + 11 + 1 + 11 + 1 + 11 + 1 + 11;
    let mut out = String::new();
    terminal_section(&mut out, "Pairwise winners", width);
    assert(out@ =~= line(coral(section_rule("Pairwise winners"@, width as nat))));
    let mut heading = String::from_str("  ");
    push_left(&mut heading, "Faster", fw);
    heading.append(" ");
    push_left(&mut heading, "Slower", sw);
    heading.append(" ");
    push_right(&mut heading, "Shared", 9);
    heading.append(" ");
    push_right(&mut heading, "Wins", 8);
    heading.append(" ");
    push_right(&mut heading, "Win rate", 9);
    heading.append(" ");
    push_right(&mut heading, "Med lead", 11);
    heading.append(" ");
    push_right(&mut heading, "P95 lead", 11);
    heading.append(" ");
    push_right(&mut heading, "Med lag", 11);
    heading.append(" ");
    push_right(&mut heading, "P95 lag", 11);
    terminal_header(&mut out, heading.as_str());
    terminal_table_separator(&mut out, width);
    let rows = pair_rows_text(pairs, cells, fw, sw);
    out.append(rows.as_str());
    out.append("\n");
    out
}

// ---------------------------------------------------------------------------
// The whole report

/// The note that closes the report.
pub open spec fn closing_note() -> Seq<char> {
    line(peach("Note: all endpoints are measured by timestamp of receive event."@))
}

/// The column widths of the configured-streams table on a terminal `tw`
/// columns wide.
pub open spec fn streams_cols(eps: Seq<Endpoint>, tw: nat) -> Seq<usize> {
    shrunk(stream_widths(eps), seq![5usize, 8, 24], tw, 4)
}

/// The column widths of the ranking table on a terminal `tw` columns wide.
pub open spec fn ranking_cols(s: Seq<EndpointSummary>, tw: nat) -> Seq<usize> {
    shrunk(ranking_widths(s), seq![8usize, 8], tw, 71)
}

/// The column widths of the pairwise table on a terminal `tw` columns wide.
pub open spec fn pairwise_cols(p: Seq<PairwiseSummary>, tw: nat) -> Seq<usize> {
    shrunk(pairwise_widths(p), seq![12usize, 12], tw, 80)
}

/// The terminal report for a terminal `tw` columns wide, given the text of
/// the measured duration and of the time the report was generated.
pub open spec fn terminal_report(
    measured: Seq<char>,
    generated: Seq<char>,
    output_path: Seq<char>,
    tw: nat,
    meta: ReportMeta,
    eps: Seq<Endpoint>,
    stats: BenchmarkStats,
    cells: ReportCells,
) -> Seq<char> {
    report_head(tw, measured, generated, output_path)
        + counts_table(stats, meta.endpoint_count as nat)
        + filters_section(accounts_of(meta), streams_width(streams_cols(eps, tw)))
        + streams_section(eps, streams_cols(eps, tw))
        + ranking_section(stats.endpoint_summaries@, cells.endpoints@, ranking_cols(stats.endpoint_summaries@, tw))
        + pairwise_section(stats.pairwise@, cells.pairs@, pairwise_cols(stats.pairwise@, tw))
        + closing_note()
}

/// What a report can be written from: a cell set for each row, no shown
/// latency of `i64::MIN`, and column widths that a `usize` can add up.
pub open spec fn report_inputs_ok(eps: Seq<Endpoint>, stats: BenchmarkStats, cells: ReportCells) -> bool {
    let s = stats.endpoint_summaries@;
    let p = stats.pairwise@;
    &&& cells.endpoints.len() == s.len()
    &&& cells.pairs.len() == p.len()
    &&& forall|i: int| 0 <= i < s.len() ==> summary_latencies_ok(#[trigger] s[i])
    &&& forall|i: int| 0 <= i < shown_pairs(p.len()) ==> pair_latencies_ok(#[trigger] p[i])
    &&& max_len(aliases(eps)) + max_len(labels(eps)) + max_len(redacted_urls(eps)) + 25 <= usize::MAX
    &&& max_len(summary_aliases(s)) + max_len(summary_labels(s)) + 90 <= usize::MAX
    &&& max_len(faster_aliases(p)) + max_len(slower_aliases(p)) + 100 <= usize::MAX
}

/// The terminal report, given the text of the measured duration and of the
/// time the report was generated.
pub fn compose_terminal_report(
    measured: &str,
    generated: &str,
    output_path: &str,
    terminal_width: usize,
    meta: &ReportMeta,
    endpoints: &[Endpoint],
    stats: &BenchmarkStats,
    cells: &ReportCells,
) -> (res: String)
    requires
        report_inputs_ok(endpoints@, *stats, *cells),
    ensures
        res@ == terminal_report(measured@, generated@, output_path@, terminal_width as nat, *meta, endpoints@, *stats, *cells),
{
    let mut out = head_text(terminal_width, measured, generated, output_path);
    out.append(counts_text(stats, meta.endpoint_count).as_str());
    let streams = streams_table_layout(endpoints, terminal_width);
    let streams_total = streams.total_width();
    out.append(filters_text(&meta.account_include, streams_total).as_str());
    out.append(streams_text(endpoints, streams.alias_width, streams.protocol_width, streams.endpoint_width).as_str());
    let ranking = ranking_table_layout(stats.endpoint_summaries.as_slice(), terminal_width);
    out.append(ranking_text(&stats.endpoint_summaries, &cells.endpoints, ranking.endpoint_width, ranking.protocol_width).as_str());
    let pairwise = pairwise_table_layout(stats.pairwise.as_slice(), terminal_width);
    out.append(pairwise_text(&stats.pairwise, &cells.pairs, pairwise.faster_width, pairwise.slower_width).as_str());
    terminal_header(&mut out, "Note: all endpoints are measured by timestamp of receive event.");
    out
}

/// The report printed to the terminal when a run ends, laid out for a
/// terminal `terminal_width` columns wide: the run's heading, the counts,
/// the account filter, the configured streams, the endpoint ranking and up
/// to ten pairwise rows.
pub fn render_terminal_report(
    meta: &ReportMeta,
    endpoints: &[Endpoint],
    stats: &BenchmarkStats,
    output_path: &str,
    terminal_width: usize,
    cells: &ReportCells,
) -> (res: String)
    requires
        report_inputs_ok(endpoints@, *stats, *cells),
    ensures
        res@ == terminal_report(
            humantime_of(meta.duration_secs),
            meta.generated_at.text(),
            output_path@,
            terminal_width as nat,
            *meta,
            endpoints@,
            *stats,
            *cells,
        ),
{
    let measured = fmt_duration(meta.duration_secs);
    let generated = meta.generated_at.to_rfc3339();
    compose_terminal_report(measured.as_str(), generated.as_str(), output_path, terminal_width, meta, endpoints, stats, cells)
}

// ---------------------------------------------------------------------------
// Terminal width

/// The width assumed when the terminal's width is unknown.
pub const DEFAULT_TERMINAL_WIDTH: usize = 120;

/// The narrowest width the report is laid out for.
pub const MIN_TERMINAL_WIDTH: usize = 72;

/// The width to lay the report out for: the terminal's own width when it is
/// known, else the `COLUMNS` setting when it reads as a number, else 120;
/// never below 72.
pub open spec fn chosen_width(detected: Option<u16>, columns: Option<&str>) -> nat {
    let w: nat = match detected {
        Some(w) => w as nat,
        None => match columns {
            Some(c) => match parsed_usize(c@) {
                Some(v) => v,
                None => DEFAULT_TERMINAL_WIDTH as nat,
            },
            None => DEFAULT_TERMINAL_WIDTH as nat,
        },
    };
    if w > MIN_TERMINAL_WIDTH { w } else { MIN_TERMINAL_WIDTH as nat }
}

/// The width to lay the report out for, from the width the terminal reports
/// (if any) and the `COLUMNS` setting (if any).
pub fn terminal_width_from(detected: Option<u16>, columns: Option<&str>) -> (res: usize)
    ensures
        res == chosen_width(detected, columns),
{
    let w: usize = match detected {
        Some(w) => w as usize,
        None => match columns {
            Some(c) => match parse_usize(c) {
                Some(v) => v,
                None => DEFAULT_TERMINAL_WIDTH,
            },
            None => DEFAULT_TERMINAL_WIDTH,
        },
    };
    if w > MIN_TERMINAL_WIDTH { w } else { MIN_TERMINAL_WIDTH }
}

// ---------------------------------------------------------------------------
// Rules

/// In the terminal report every section's heading rule is exactly as wide
/// as the table separator under it, for any endpoints, rows and terminal
/// width: each table is wider than its title needs.
pub proof fn law_section_rules_match_separators(
    eps: Seq<Endpoint>,
    s: Seq<EndpointSummary>,
    p: Seq<PairwiseSummary>,
    tw: nat,
)
    requires
        max_len(aliases(eps)) + max_len(labels(eps)) + max_len(redacted_urls(eps)) + 25 <= usize::MAX,
    ensures
        section_rule("Configured streams"@, streams_width(streams_cols(eps, tw))).len() == streams_width(streams_cols(eps, tw)),
        separator_rule(streams_width(streams_cols(eps, tw))).len() == streams_width(streams_cols(eps, tw)),
        section_rule("Endpoint ranking"@, ranking_width(ranking_cols(s, tw))).len() == ranking_width(ranking_cols(s, tw)),
        separator_rule(ranking_width(ranking_cols(s, tw))).len() == ranking_width(ranking_cols(s, tw)),
        section_rule("Pairwise winners"@, pairwise_width(pairwise_cols(p, tw))).len() == pairwise_width(pairwise_cols(p, tw)),
        separator_rule(pairwise_width(pairwise_cols(p, tw))).len() == pairwise_width(pairwise_cols(p, tw)),
{
    reveal_strlit("Configured streams");
    reveal_strlit("Endpoint ranking");
    reveal_strlit("Pairwise winners");
    assert(vstd::utf8::is_ascii_chars("Configured streams"@));
    assert(vstd::utf8::is_ascii_chars("Endpoint ranking"@));
    assert(vstd::utf8::is_ascii_chars("Pairwise winners"@));
    let ws = stream_widths(eps);
    let mins = seq![5usize, 8, 24];
    lemma_shrunk_bounds(ws, mins, tw, 4);
    let cols = streams_cols(eps, tw);
    assert(ws[0] >= 5 && ws[1] >= 8 && ws[2] >= 8);
    assert(cols[0] >= 5 && cols[1] >= 8 && cols[2] >= 8);
    lemma_section_matches_separator("Configured streams"@, streams_width(cols));
    lemma_section_matches_separator("Endpoint ranking"@, ranking_width(ranking_cols(s, tw)));
    lemma_section_matches_separator("Pairwise winners"@, pairwise_width(pairwise_cols(p, tw)));
}

} // verus!
