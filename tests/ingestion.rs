use issuance::codec::decode;
use issuance::flow::{check_pool_config, ConfigError, Flow, FlowAction};
use issuance::ingest::{date_offset, day_offset_from_seconds, parse_record, SourceError, EPOCH_UNIX_SECONDS};
use issuance::pipeline::{ingest_records, MergeStrategy};
use issuance::store::MemStore;

fn row(cols: &[&str]) -> Vec<String> {
    cols.iter().map(|c| c.to_string()).collect()
}

#[test]
fn date_offsets_from_epoch() {
    assert_eq!(date_offset("2015-09-14 00:00:00"), Ok(0));
    assert_eq!(date_offset("2015-11-13 10:00:00"), Ok(60));
    assert_eq!(date_offset("2016-01-23 00:00:00"), Ok(131));
    assert_eq!(date_offset("2015-09-13 00:00:00"), Ok(-1));
    assert_eq!(date_offset("2015-09-13 12:00:00"), Ok(-1));
    assert_eq!(date_offset("2015-09-13 23:59:59"), Ok(-1));
    assert_eq!(date_offset("2015-09-12 01:00:00"), Ok(-2));
    assert_eq!(date_offset("2015-09-14 23:59:59"), Ok(0));
}

#[test]
fn date_offset_errors() {
    assert_eq!(date_offset("not a date"), Err(SourceError::InvalidDate));
    assert_eq!(date_offset("2016-01-23"), Err(SourceError::InvalidDate));
    assert_eq!(date_offset("2200-01-01 00:00:00"), Err(SourceError::DateOutOfRange));
    assert_eq!(date_offset("1900-01-01 00:00:00"), Err(SourceError::DateOutOfRange));
}

#[test]
fn day_offset_is_calendar_difference() {
    assert_eq!(day_offset_from_seconds(EPOCH_UNIX_SECONDS - 1), Ok(-1));
    assert_eq!(day_offset_from_seconds(EPOCH_UNIX_SECONDS - 86401), Ok(-2));
    assert_eq!(day_offset_from_seconds(EPOCH_UNIX_SECONDS - 86400 * 32768), Ok(-32768));
    assert_eq!(
        day_offset_from_seconds(EPOCH_UNIX_SECONDS - 86400 * 32768 - 1),
        Err(SourceError::DateOutOfRange)
    );
    assert_eq!(day_offset_from_seconds(EPOCH_UNIX_SECONDS - 86400), Ok(-1));
    assert_eq!(day_offset_from_seconds(EPOCH_UNIX_SECONDS + 86400 * 32767), Ok(32767));
    assert_eq!(
        day_offset_from_seconds(EPOCH_UNIX_SECONDS + 86400 * 32768),
        Err(SourceError::DateOutOfRange)
    );
    assert_eq!(day_offset_from_seconds(i64::MIN), Err(SourceError::DateOutOfRange));
}

#[test]
fn parse_record_columns() {
    assert_eq!(
        parse_record(&row(&["1", "a.example", "2015-11-13 10:00:00"])),
        Ok(("a.example".to_string(), 60))
    );
    assert_eq!(parse_record(&row(&["1", "a.example"])), Err(SourceError::MissingColumn));
}

#[test]
fn end_to_end_three_rows() {
    let recs = vec![
        row(&["1", "a.example", "2015-11-13 10:00:00"]),
        row(&["2", "b.example", "2015-10-01 00:00:00"]),
        row(&["3", "a.example", "2016-01-23 00:00:00"]),
    ];
    for s in [MergeStrategy::Transactional, MergeStrategy::AtomicAppend] {
        let mut store = MemStore::new();
        assert_eq!(ingest_records(&mut store, &recs, s), Ok(3));
        assert_eq!(store.len(), 2);
        let a = decode(store.get(&"a.example".to_string()).unwrap()).unwrap();
        assert_eq!(a, vec![60, 131]);
    }
}

#[test]
fn ingestion_stops_at_first_bad_record() {
    let recs = vec![
        row(&["1", "a.example", "2015-11-13 10:00:00"]),
        row(&["2", "b.example", "yesterday"]),
        row(&["3", "c.example", "2016-01-23 00:00:00"]),
    ];
    let mut store = MemStore::new();
    assert_eq!(
        ingest_records(&mut store, &recs, MergeStrategy::Transactional),
        Err((1, SourceError::InvalidDate))
    );
    assert_eq!(store.len(), 1);
    assert!(store.get(&"c.example".to_string()).is_none());
}

#[test]
fn pool_config_guard() {
    assert_eq!(check_pool_config(5, 25, 25), Ok(()));
    assert_eq!(check_pool_config(30, 25, 25), Err(ConfigError::MinAboveMax));
    assert_eq!(check_pool_config(1, 10, 25), Err(ConfigError::PoolTooSmall));
    assert_eq!(check_pool_config(1, 10, 0), Err(ConfigError::ZeroConcurrency));
}

#[test]
fn flow_bounds_in_flight_and_drains() {
    let mut f = Flow::new(2);
    assert_eq!(f.next_action(), FlowAction::Dispatch);
    f.on_dispatched();
    f.on_dispatched();
    assert_eq!(f.in_flight(), 2);
    assert_eq!(f.next_action(), FlowAction::AwaitCompletion);
    f.on_completed(true);
    assert_eq!(f.next_action(), FlowAction::Dispatch);
    f.on_dispatched();
    f.on_completed(false);
    assert!(f.failed());
    assert_eq!(f.next_action(), FlowAction::AwaitCompletion);
    f.on_completed(true);
    assert_eq!(f.next_action(), FlowAction::Finish);
    assert_eq!(f.completed(), 3);
}

#[test]
fn flow_finishes_when_source_ends() {
    let mut f = Flow::new(3);
    f.on_dispatched();
    f.on_source_end();
    assert_eq!(f.next_action(), FlowAction::AwaitCompletion);
    f.on_completed(true);
    assert_eq!(f.next_action(), FlowAction::Finish);
    let mut g = Flow::new(3);
    g.on_record_failed();
    assert_eq!(g.next_action(), FlowAction::Finish);
}

#[test]
fn pre_epoch_record_merges_calendar_offset() {
    let recs = vec![row(&["1", "a", "2015-09-13 12:00:00"])];
    let mut store = MemStore::new();
    assert_eq!(ingest_records(&mut store, &recs, MergeStrategy::Transactional), Ok(1));
    assert_eq!(store.get(&"a".to_string()), Some(&vec![0xFF, 0xFF]));
}
