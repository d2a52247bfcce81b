use grpcbench::config::{Endpoint, Protocol};
use grpcbench::observation::{EndpointKey, EndpointObservation, Timing, TxObservation};
use grpcbench::stats::{compute_stats, percentile_sorted};

fn endpoint(alias: &str, protocol: Protocol) -> Endpoint {
    Endpoint {
        alias: alias.to_string(),
        protocol,
        url: "http://localhost:1".to_string(),
        token: String::new(),
        signatures_only: true,
        include_simulation: false,
        batch_mode: false,
    }
}

fn timing(received_at_us: i64) -> Timing {
    Timing::at(received_at_us, received_at_us + 1_000, None, None)
}

fn tx_observation(entries: &[(Protocol, &str, i64)]) -> TxObservation {
    TxObservation {
        endpoints: entries
            .iter()
            .map(|(protocol, alias, received_at)| {
                (
                    EndpointKey::new(*protocol, alias.to_string()),
                    EndpointObservation { first: timing(*received_at), duplicates: 0 },
                )
            })
            .collect(),
    }
}

#[test]
fn shared_signature_race_counts_winner_and_lag() {
    let endpoints = vec![endpoint("ys", Protocol::Yellowstone), endpoint("ap", Protocol::ApertureTxstream)];
    let t0 = 1_700_000_000_000_000;
    let observations = vec![(
        "sig".to_string(),
        TxObservation {
            endpoints: vec![
                (
                    EndpointKey::new(Protocol::Yellowstone, "ys".to_string()),
                    EndpointObservation { first: timing(t0), duplicates: 0 },
                ),
                (
                    EndpointKey::new(Protocol::ApertureTxstream, "ap".to_string()),
                    EndpointObservation { first: timing(t0 + 500), duplicates: 1 },
                ),
            ],
        },
    )];

    let stats = compute_stats(&endpoints, &observations);

    assert_eq!(stats.race_eligible_signatures, 1);
    assert_eq!(stats.endpoint_summaries[0].alias, "ys");
    assert_eq!(stats.endpoint_summaries[0].wins, 1);
    assert_eq!(stats.endpoint_summaries[1].repeated_signatures, 1);
    assert_eq!(stats.endpoint_summaries[1].median_lag_us, Some(500));
}

#[test]
fn pairwise_summary_aggregates_unordered_pairs_with_signed_lead() {
    let endpoints = vec![endpoint("ys", Protocol::Yellowstone), endpoint("ap", Protocol::ApertureTxstream)];
    let t0 = 1_700_000_000_000_000;
    let observations = vec![
        (
            "sig-ys-wins-1".to_string(),
            tx_observation(&[(Protocol::Yellowstone, "ys", t0), (Protocol::ApertureTxstream, "ap", t0 + 500)]),
        ),
        (
            "sig-ys-wins-2".to_string(),
            tx_observation(&[(Protocol::Yellowstone, "ys", t0 + 100), (Protocol::ApertureTxstream, "ap", t0 + 300)]),
        ),
        (
            "sig-ap-wins".to_string(),
            tx_observation(&[(Protocol::Yellowstone, "ys", t0 + 200), (Protocol::ApertureTxstream, "ap", t0 + 100)]),
        ),
    ];

    let stats = compute_stats(&endpoints, &observations);

    assert_eq!(stats.pairwise.len(), 1);
    let pair = &stats.pairwise[0];
    assert_eq!(pair.faster_alias, "ys");
    assert_eq!(pair.slower_alias, "ap");
    assert_eq!(pair.shared_signatures, 3);
    assert_eq!(pair.wins, 2);
    assert_eq!(pair.wins as f64 * 100.0 / pair.shared_signatures as f64, 100.0 * 2.0 / 3.0);
    assert_eq!(pair.median_lag_us, Some(200));
    assert_eq!(pair.p95_lag_us, Some(500));
    assert_eq!(pair.median_behind_us, Some(100));
    assert_eq!(pair.p95_behind_us, Some(100));
}

#[test]
fn wins_add_up_to_race_eligible_signatures() {
    let endpoints = vec![
        endpoint("a", Protocol::Yellowstone),
        endpoint("b", Protocol::ApertureTxstream),
        endpoint("c", Protocol::Jetstream),
    ];
    let observations = vec![
        ("s1".to_string(), tx_observation(&[(Protocol::Yellowstone, "a", 5), (Protocol::Jetstream, "c", 3)])),
        ("s2".to_string(), tx_observation(&[(Protocol::ApertureTxstream, "b", 1)])),
        (
            "s3".to_string(),
            tx_observation(&[(Protocol::Yellowstone, "a", 2), (Protocol::ApertureTxstream, "b", 2), (Protocol::Jetstream, "c", 9)]),
        ),
    ];
    let stats = compute_stats(&endpoints, &observations);
    assert_eq!(stats.total_unique_signatures, 3);
    assert_eq!(stats.race_eligible_signatures, 2);
    assert_eq!(stats.full_coverage_signatures, 1);
    assert_eq!(stats.configured_endpoint_count, 3);
    let wins: u64 = stats.endpoint_summaries.iter().map(|s| s.wins).sum();
    assert_eq!(wins as usize, stats.race_eligible_signatures);
    for summary in &stats.endpoint_summaries {
        assert!(summary.wins <= summary.seen_in_races);
        assert!(summary.seen_in_races <= summary.unique_signatures);
        if let (Some(median), Some(p95), Some(max)) = (summary.median_lag_us, summary.p95_lag_us, summary.max_lag_us) {
            assert!(0 <= median && median <= p95 && p95 <= max);
        }
    }
    assert_eq!(stats.endpoint_summaries[0].alias, "a");
    assert_eq!(stats.endpoint_summaries[0].wins, 1);
    assert_eq!(stats.endpoint_summaries[0].full_coverage_wins, 1);
    assert_eq!(stats.endpoint_summaries[1].alias, "c");
    assert_eq!(stats.endpoint_summaries[1].median_lag_us, Some(7));
}

#[test]
fn pair_lag_is_absent_when_the_faster_endpoint_never_lost() {
    let endpoints = vec![endpoint("ys", Protocol::Yellowstone), endpoint("ap", Protocol::ApertureTxstream)];
    let observations = vec![
        ("s1".to_string(), tx_observation(&[(Protocol::Yellowstone, "ys", 10), (Protocol::ApertureTxstream, "ap", 20)])),
        ("s2".to_string(), tx_observation(&[(Protocol::Yellowstone, "ys", 10), (Protocol::ApertureTxstream, "ap", 10)])),
    ];
    let stats = compute_stats(&endpoints, &observations);
    let pair = &stats.pairwise[0];
    assert_eq!(pair.wins, 1);
    assert_eq!(pair.shared_signatures, 2);
    assert_eq!(pair.median_behind_us, None);
    assert_eq!(pair.p95_behind_us, None);
}

#[test]
fn percentile_rounds_index_half_up() {
    assert_eq!(percentile_sorted(&[], 50), None);
    assert_eq!(percentile_sorted(&[7], 95), Some(7));
    assert_eq!(percentile_sorted(&[1, 2], 50), Some(2));
    assert_eq!(percentile_sorted(&[1, 2, 3, 4, 5], 95), Some(5));
    assert_eq!(percentile_sorted(&[1, 2, 3, 4, 5], 50), Some(3));
}

#[test]
fn first_and_last_seen_come_from_the_wall_clock() {
    let endpoints = vec![endpoint("ys", Protocol::Yellowstone)];
    let key = EndpointKey::new(Protocol::Yellowstone, "ys".to_string());
    let observations = vec![
        (
            "s1".to_string(),
            TxObservation {
                endpoints: vec![(key.clone(), EndpointObservation { first: Timing::at(50, 9_000, None, None), duplicates: 0 })],
            },
        ),
        (
            "s2".to_string(),
            TxObservation {
                endpoints: vec![(key.clone(), EndpointObservation { first: Timing::at(10, 7_000, Some(4), None), duplicates: 0 })],
            },
        ),
    ];
    let stats = compute_stats(&endpoints, &observations);
    let summary = &stats.endpoint_summaries[0];
    assert_eq!(summary.first_seen_us, Some(7_000));
    assert_eq!(summary.last_seen_us, Some(9_000));
    assert_eq!(summary.decode_latency_median_us, Some(6));
}
