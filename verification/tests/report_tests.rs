use grpcbench::config::{Endpoint, Protocol};
use grpcbench::html::{kpi, render_report};
use grpcbench::meta::{latency_cell, EndpointCells, PairCells, ReportCells, ReportMeta, Timestamp};
use grpcbench::report::{pairwise_table_layout, ranking_table_layout, shrink_columns, streams_table_layout};
use grpcbench::stats::{BenchmarkStats, EndpointSummary, PairwiseSummary};
use grpcbench::terminal::{render_terminal_report, terminal_width_from};

fn now() -> Timestamp {
    let t = chrono::Utc::now();
    Timestamp::from_unix(t.timestamp(), t.timestamp_subsec_nanos()).expect("representable")
}

fn meta(accounts: Vec<String>) -> ReportMeta {
    ReportMeta {
        generated_at: now(),
        started_at: now(),
        finished_at: now(),
        duration_secs: 10,
        warmup_secs: 0,
        endpoint_count: 0,
        account_include: accounts,
    }
}

fn empty_stats(pairwise: Vec<PairwiseSummary>) -> BenchmarkStats {
    BenchmarkStats {
        endpoint_summaries: Vec::new(),
        pairwise,
        total_unique_signatures: 0,
        race_eligible_signatures: 0,
        full_coverage_signatures: 0,
        configured_endpoint_count: 0,
    }
}

fn pair(faster: &str, faster_protocol: &str, slower: &str, slower_protocol: &str) -> PairwiseSummary {
    PairwiseSummary {
        faster_alias: faster.to_string(),
        faster_protocol: faster_protocol.to_string(),
        slower_alias: slower.to_string(),
        slower_protocol: slower_protocol.to_string(),
        shared_signatures: 1,
        wins: 1,
        median_lag_us: Some(1),
        p95_lag_us: Some(1),
        median_behind_us: Some(2),
        p95_behind_us: Some(2),
    }
}

fn pair_cells(win_pct: &str) -> PairCells {
    PairCells {
        win_pct: win_pct.to_string(),
        median_lead_ms: String::new(),
        p95_lead_ms: String::new(),
        median_behind_ms: String::new(),
        p95_behind_ms: String::new(),
    }
}

fn summary(alias: &str, label: &str) -> EndpointSummary {
    EndpointSummary {
        alias: alias.to_string(),
        protocol: String::new(),
        protocol_label: label.to_string(),
        unique_signatures: 0,
        repeated_signatures: 0,
        wins: 0,
        full_coverage_wins: 0,
        seen_in_races: 0,
        median_lag_us: None,
        p95_lag_us: None,
        max_lag_us: None,
        decode_latency_median_us: None,
        first_seen_us: None,
        last_seen_us: None,
    }
}

fn strip_ansi(value: &str) -> String {
    let mut stripped = String::new();
    let mut chars = value.chars();
    while let Some(ch) = chars.next() {
        if ch == '\x1b' {
            for escape_ch in chars.by_ref() {
                if escape_ch == 'm' {
                    break;
                }
            }
        } else {
            stripped.push(ch);
        }
    }
    stripped
}

fn assert_section_matches_separator(lines: &[&str], title: &str) {
    let section_idx = lines
        .iter()
        .position(|line| line.contains(&format!("-- {title} ")))
        .expect("section line exists");
    let separator_idx = lines[section_idx + 1..]
        .iter()
        .position(|line| line.trim_start().starts_with("---"))
        .expect("table separator exists")
        + section_idx
        + 1;

    assert_eq!(lines[section_idx].len(), lines[separator_idx].len());
}

#[test]
fn terminal_report_includes_key_sections() {
    let meta = meta(vec!["11111111111111111111111111111111".to_string()]);
    let stats = empty_stats(Vec::new());
    let cells = ReportCells { endpoints: Vec::new(), pairs: Vec::new() };

    let report = render_terminal_report(&meta, &[], &stats, "report.html", terminal_width_from(None, None), &cells);

    assert!(report.contains("RPC Fast gRPCBench report"));
    assert!(report.contains("gRPCBench"));
    assert!(report.contains("account_include"));
    assert!(report.contains("all endpoints are measured"));
}

#[test]
fn terminal_section_rules_match_table_separators() {
    let meta = meta(Vec::new());
    let stats = empty_stats(vec![pair("fast", "yellowstone", "slow", "aperture-txstream")]);
    let cells = ReportCells { endpoints: Vec::new(), pairs: vec![pair_cells("100.0")] };

    let report = strip_ansi(&render_terminal_report(
        &meta,
        &[],
        &stats,
        "report.html",
        terminal_width_from(None, None),
        &cells,
    ));
    let lines: Vec<&str> = report.lines().collect();

    assert_section_matches_separator(&lines, "Configured streams");
    assert_section_matches_separator(&lines, "Endpoint ranking");
    assert_section_matches_separator(&lines, "Pairwise winners");
}

#[test]
fn terminal_layout_keeps_full_values_when_they_fit() {
    let endpoints = vec![Endpoint {
        alias: "rpcfast_shredstream".to_string(),
        protocol: Protocol::JitoShredstream,
        url: "https://beta-solana-shredstream-grpc.rpcfast.com:443".to_string(),
        token: String::new(),
        signatures_only: true,
        include_simulation: false,
        batch_mode: false,
    }];
    let streams = streams_table_layout(&endpoints, 180);
    assert_eq!(streams.alias_width, "rpcfast_shredstream".len());
    assert_eq!(
        streams.endpoint_width,
        "https://beta-solana-shredstream-grpc.rpcfast.com:443".len()
    );

    let ranking = ranking_table_layout(&[summary("rpcfast_shredstream", "Jito ShredStream")], 180);
    assert_eq!(ranking.endpoint_width, "rpcfast_shredstream".len());
    assert_eq!(ranking.protocol_width, "Jito ShredStream".len());

    let pairwise = pairwise_table_layout(
        &[pair("rpcfast_shredstream", "Jito ShredStream", "rpcfast_txstream", "Aperture txstream")],
        180,
    );
    assert_eq!(pairwise.faster_width, "rpcfast_shredstream".len());
    assert_eq!(pairwise.slower_width, "rpcfast_txstream".len());
}

#[test]
fn narrow_terminal_shrinks_widest_column_first() {
    let mut widths = vec![30, 10, 40];
    shrink_columns(&mut widths, &[5, 8, 24], 60, 4);
    assert_eq!(widths, vec![22, 10, 24]);

    let mut widths = vec![6, 9, 25];
    shrink_columns(&mut widths, &[5, 8, 24], 10, 4);
    assert_eq!(widths, vec![5, 8, 24]);
}

#[test]
fn terminal_width_prefers_terminal_then_columns() {
    assert_eq!(terminal_width_from(Some(200), Some("90")), 200);
    assert_eq!(terminal_width_from(None, Some("90")), 90);
    assert_eq!(terminal_width_from(None, Some("wide")), 120);
    assert_eq!(terminal_width_from(None, None), 120);
    assert_eq!(terminal_width_from(Some(40), None), 72);
    assert_eq!(terminal_width_from(None, Some("10")), 72);
}

#[test]
fn terminal_report_truncates_long_aliases_on_narrow_terminals() {
    let endpoints = vec![Endpoint {
        alias: "an_alias_that_is_far_too_long_for_a_narrow_terminal_column".to_string(),
        protocol: Protocol::Yellowstone,
        url: "https://example.com:443/?token=secret".to_string(),
        token: String::new(),
        signatures_only: true,
        include_simulation: false,
        batch_mode: false,
    }];
    let report = strip_ansi(&render_terminal_report(
        &meta(Vec::new()),
        &endpoints,
        &empty_stats(Vec::new()),
        "out.html",
        72,
        &ReportCells { endpoints: Vec::new(), pairs: Vec::new() },
    ));
    assert!(report.contains("~"));
    assert!(!report.contains("secret"));
    assert!(report.contains("account_include  none"));
}

#[test]
fn latency_cells_switch_to_milliseconds() {
    assert_eq!(latency_cell(None, "x"), "n/a");
    assert_eq!(latency_cell(Some(999), "x"), "999 us");
    assert_eq!(latency_cell(Some(-999), "x"), "-999 us");
    assert_eq!(latency_cell(Some(1000), "1.00 ms"), "1.00 ms");
}

#[test]
fn html_report_escapes_values_and_lists_rows() {
    let mut stats = empty_stats(vec![pair("<fast>", "yellowstone", "slow", "aperture-txstream")]);
    stats.endpoint_summaries.push(summary("a&b", "Yellowstone"));
    let cells = ReportCells {
        endpoints: vec![EndpointCells {
            coverage_pct: "50.0".to_string(),
            win_pct: "0.0".to_string(),
            median_lag_ms: String::new(),
            p95_lag_ms: String::new(),
        }],
        pairs: vec![pair_cells("100.0")],
    };
    let html = render_report(&meta(vec!["acc'1".to_string()]), &[], &stats, &cells, "{\"k\": \"<v>\"}");
    assert!(html.starts_with("<!doctype html>"));
    assert!(html.ends_with("</main></body></html>"));
    assert!(html.contains("<td><strong>a&amp;b</strong></td>"));
    assert!(html.contains("<td><strong>&lt;fast&gt;</strong></td>"));
    assert!(html.contains("<td>50.0%</td>"));
    assert!(html.contains("<code>acc&#39;1</code>"));
    assert!(html.contains("{&quot;k&quot;: &quot;&lt;v&gt;&quot;}"));
    assert!(html.contains("<span>Measured</span><strong>10s</strong>"));
}

#[test]
fn kpi_escapes_label_and_value() {
    let mut html = String::new();
    kpi(&mut html, "A<B", "7&".to_string());
    assert_eq!(html, "<div class=\"kpi\"><span>A&lt;B</span><strong>7&amp;</strong></div>");
}

#[test]
fn timestamps_render_as_rfc3339() {
    let t = Timestamp::from_unix(0, 0).expect("epoch");
    assert_eq!(t.to_rfc3339(), "1970-01-01T00:00:00+00:00");
    assert!(Timestamp::from_unix(i64::MAX, 0).is_none());
}

#[test]
fn reports_hide_tokens_and_query_strings() {
    let endpoint = |url: &str, token: &str| Endpoint {
        alias: "ys".to_string(),
        protocol: Protocol::Yellowstone,
        url: url.to_string(),
        token: token.to_string(),
        signatures_only: true,
        include_simulation: false,
        batch_mode: false,
    };
    let plain = vec![endpoint("https://a.example.com/x", "")];
    let secret = vec![endpoint("https://a.example.com/x?api-key=hunter2", "tok-123")];
    let meta = meta(Vec::new());
    let stats = empty_stats(Vec::new());
    let cells = ReportCells { endpoints: Vec::new(), pairs: Vec::new() };
    let a = render_terminal_report(&meta, &plain, &stats, "r.html", 120, &cells);
    let b = render_terminal_report(&meta, &secret, &stats, "r.html", 120, &cells);
    assert_eq!(a, b);
    let a = render_report(&meta, &plain, &stats, &cells, "{}");
    let b = render_report(&meta, &secret, &stats, &cells, "{}");
    assert_eq!(a, b);
    assert!(!b.contains("hunter2") && !b.contains("tok-123"));
}

#[test]
fn user_text_adds_no_markup() {
    let count = |s: &str, c: char| s.chars().filter(|x| *x == c).count();
    let cells = ReportCells { endpoints: Vec::new(), pairs: Vec::new() };
    let stats = empty_stats(Vec::new());
    let plain = render_report(&meta(vec!["a".to_string()]), &[], &stats, &cells, "{}");
    let hostile = render_report(&meta(vec!["<script>".to_string()]), &[], &stats, &cells, "</pre><b>");
    assert_eq!(count(&plain, '<'), count(&hostile, '<'));
    assert_eq!(count(&plain, '>'), count(&hostile, '>'));
}
