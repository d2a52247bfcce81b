use grpcbench::config::Protocol;
use grpcbench::observation::{phase_of, EndpointKey, EndpointObservation, ObservationTable, RunPhase, Timing};

fn record_of(table: &ObservationTable, signature: &str, endpoint: &EndpointKey) -> Option<EndpointObservation> {
    let entry = table.entries().iter().find(|(s, _)| s == signature)?;
    entry
        .1
        .endpoints
        .iter()
        .find(|(k, _)| k.protocol == endpoint.protocol && k.alias == endpoint.alias)
        .map(|(_, o)| *o)
}

#[test]
fn first_observation_is_not_counted_as_duplicate() {
    let mut table = ObservationTable::new();
    let endpoint = EndpointKey::new(Protocol::Yellowstone, "ys".to_string());
    table.record(RunPhase::Measure, "sig".to_string(), endpoint.clone(), Timing::at(100, 1_700_000_000_000_000 + 100, None, None));
    assert_eq!(record_of(&table, "sig", &endpoint).expect("recorded").duplicates, 0);
}

#[test]
fn repeated_observation_increments_duplicate_count() {
    let mut table = ObservationTable::new();
    let endpoint = EndpointKey::new(Protocol::Yellowstone, "ys".to_string());
    for at in [100, 150] {
        table.record(RunPhase::Measure, "sig".to_string(), endpoint.clone(), Timing::at(at, 1_700_000_000_000_000 + at, None, None));
    }
    assert_eq!(record_of(&table, "sig", &endpoint).expect("recorded").duplicates, 1);
}

#[test]
fn warmup_observations_are_not_enqueued() {
    let mut table = ObservationTable::new();
    let kept = table.record(
        RunPhase::Warmup,
        "sig".to_string(),
        EndpointKey::new(Protocol::Yellowstone, "ys".to_string()),
        Timing::at(100, 1_700_000_000_000_000 + 100, None, None),
    );
    assert!(!kept);
    assert!(table.entries().is_empty());
}

#[test]
fn batch_transactions_can_share_one_usable_timestamp() {
    let usable_at = 1_000_000;
    let usable_at_utc = 1_700_000_000_000_000;
    let batch_received_at = usable_at - 10;

    let first = Timing::at(usable_at, usable_at_utc, Some(batch_received_at), Some(0));
    let later_position = Timing::at(usable_at, usable_at_utc, Some(batch_received_at), Some(32));

    assert_eq!(first.received_at_us, later_position.received_at_us);
    assert_eq!(first.received_at_utc_us, later_position.received_at_utc_us);
    assert_eq!(first.batch_received_at_us, later_position.batch_received_at_us);
    assert_ne!(first.batch_position, later_position.batch_position);
}

#[test]
fn earlier_delivery_replaces_the_record_without_counting() {
    let mut table = ObservationTable::new();
    let endpoint = EndpointKey::new(Protocol::ApertureTxstream, "ap".to_string());
    for at in [300, 100, 200, 100] {
        table.record(RunPhase::Measure, "sig".to_string(), endpoint.clone(), Timing::at(at, 1_700_000_000_000_000 + at, None, None));
    }
    let record = record_of(&table, "sig", &endpoint).expect("recorded");
    assert_eq!(record.first.received_at_us, 100);
    assert_eq!(record.duplicates, 2);
}

#[test]
fn endpoints_keep_separate_records() {
    let mut table = ObservationTable::new();
    let ys = EndpointKey::new(Protocol::Yellowstone, "ys".to_string());
    let ap = EndpointKey::new(Protocol::ApertureTxstream, "ap".to_string());
    table.record(RunPhase::Measure, "sig".to_string(), ys.clone(), Timing::at(1, 1_700_000_000_000_000 + 1, None, None));
    table.record(RunPhase::Measure, "sig".to_string(), ap.clone(), Timing::at(2, 1_700_000_000_000_000 + 2, None, None));
    table.record(RunPhase::Measure, "other".to_string(), ys.clone(), Timing::at(3, 1_700_000_000_000_000 + 3, None, None));
    assert_eq!(table.entries().len(), 2);
    assert_eq!(record_of(&table, "sig", &ap).expect("recorded").first.received_at_us, 2);
    assert_eq!(record_of(&table, "other", &ys).expect("recorded").duplicates, 0);
    assert_eq!(phase_of(true), RunPhase::Measure);
    assert_eq!(phase_of(false), RunPhase::Warmup);
}

#[test]
fn warmup_sightings_never_touch_measured_records() {
    let mut table = ObservationTable::new();
    let endpoint = EndpointKey::new(Protocol::Yellowstone, "ys".to_string());
    table.record(RunPhase::Warmup, "sig".to_string(), endpoint.clone(), Timing::at(1, 1, None, None));
    table.record(RunPhase::Measure, "sig".to_string(), endpoint.clone(), Timing::at(10, 10, None, None));
    table.record(RunPhase::Warmup, "sig".to_string(), endpoint.clone(), Timing::at(2, 2, None, None));
    table.record(RunPhase::Measure, "sig".to_string(), endpoint.clone(), Timing::at(20, 20, None, None));
    let record = record_of(&table, "sig", &endpoint).expect("recorded");
    assert_eq!(record.first.received_at_us, 10);
    assert_eq!(record.duplicates, 1);
}
