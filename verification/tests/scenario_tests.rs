use docstore_bench::bench::{drive, saturating_nanos, Stopwatch};
use docstore_bench::collection::{Collection, IndexKind};
use docstore_bench::document::{synthetic_document, Value};
use docstore_bench::kind::OpKind;
use docstore_bench::ops::Failure;
use docstore_bench::random::RandomSource;
use docstore_bench::report::BenchmarkReport;
use docstore_bench::store::Store;
use docstore_bench::workload::{Action, Event, WorkloadRunner};

#[test]
fn insert_three_index_then_read_three() {
    let mut store = Store::new();
    let users = store.collection("user_idx").unwrap();
    for user_id in 1..=3 {
        store.insert_one(&users, &synthetic_document(user_id)).unwrap();
    }
    assert_eq!(store.create_index(&users, "user_id", IndexKind::Numeric), Ok(()));
    let mut runner = WorkloadRunner::sequential_read(3).starting_at(1).unwrap();
    let clock = Stopwatch::start();
    let mut lookups = 0;
    loop {
        let event = match runner.next_action() {
            Action::ReadClock => Event::Clock(clock.read()),
            Action::Perform(operation) => {
                lookups += 1;
                Event::Answer(store.perform(&users, &operation))
            }
            Action::Stop => break,
        };
        assert!(runner.advance(event));
    }
    assert_eq!(lookups, 3);
    assert_eq!(runner.error(), None);
    let result = runner.result().unwrap();
    assert_eq!(result.kind, OpKind::SequentialRead);
    assert_eq!(result.count, 3);
    assert_eq!(runner.records_done(), 3);
    let report = BenchmarkReport::from_result(&result);
    assert_eq!(report.count, 3);
    assert_eq!(report.per_record_nanos, Some(result.elapsed_nanos / 3));
    assert!(report.total_line().starts_with("Time taken to search 3 records: "));
    assert!(report.per_record_line().starts_with("Time taken to search 1 record: "));
    assert!(!report.per_record_line().ends_with("n/a"));
    assert!(report.rate_line().starts_with("Records per second: "));
    assert_eq!(store.count(&users), Ok(3));
    assert_eq!(store.close(), Ok(()));
}

#[test]
fn same_read_on_a_collection_gives_the_same_end() {
    let mut users = Collection::new("user_idx");
    let clock = Stopwatch::start();
    let mut writer = WorkloadRunner::sequential_insert(3).starting_at(1).unwrap();
    drive(&mut writer, &mut users, &clock);
    assert_eq!(writer.result().map(|r| r.count), Some(3));
    let mut reader = WorkloadRunner::sequential_read(3).starting_at(1).unwrap();
    drive(&mut reader, &mut users, &clock);
    assert_eq!(reader.result().map(|r| r.count), Some(3));
    assert_eq!(users.count(), 3);
}

#[test]
fn read_on_an_empty_collection_fails_at_the_first_record() {
    let mut users = Collection::new("user_idx");
    let clock = Stopwatch::start();
    let mut reader = WorkloadRunner::random_read(5, RandomSource::seeded(1));
    drive(&mut reader, &mut users, &clock);
    let error = reader.error().unwrap();
    assert_eq!(error.operation, OpKind::RandomRead);
    assert_eq!(error.index, 0);
    assert_eq!(error.cause, Failure::NotFound);
    assert_eq!(reader.result(), None);
    assert_eq!(users.count(), 0);
}

#[test]
fn every_kind_of_phase_runs_on_one_collection() {
    let mut users = Collection::new("user_idx");
    let clock = Stopwatch::start();
    users.create_index("user_id", IndexKind::Numeric).unwrap();

    let mut writer = WorkloadRunner::sequential_insert(50);
    drive(&mut writer, &mut users, &clock);
    assert_eq!(writer.result().map(|r| (r.kind, r.count)), Some((OpKind::SequentialInsert, 50)));
    assert_eq!(users.count(), 50);
    let ids = writer.inserted_ids().clone();
    assert_eq!(ids.len(), 50);

    let mut batch = WorkloadRunner::batch_insert(25).starting_at(50).unwrap();
    drive(&mut batch, &mut users, &clock);
    assert_eq!(batch.result().map(|r| (r.kind, r.count)), Some((OpKind::BatchInsert, 25)));
    assert_eq!(users.count(), 75);
    assert_eq!(users.find_one_by_field("user_id", &Value::Int(74)), Some(synthetic_document(74)));

    let mut reader = WorkloadRunner::sequential_read(75);
    drive(&mut reader, &mut users, &clock);
    assert_eq!(reader.result().map(|r| (r.kind, r.count)), Some((OpKind::SequentialRead, 75)));

    let mut random = WorkloadRunner::random_read(75, RandomSource::seeded(99));
    drive(&mut random, &mut users, &clock);
    assert_eq!(random.result().map(|r| (r.kind, r.count)), Some((OpKind::RandomRead, 75)));

    let mut by_id =
        WorkloadRunner::random_read(50, RandomSource::seeded(100)).by_id(ids).unwrap();
    drive(&mut by_id, &mut users, &clock);
    assert_eq!(by_id.result().map(|r| (r.kind, r.count)), Some((OpKind::RandomRead, 50)));
    assert_eq!(users.count(), 75);
}

#[test]
fn read_of_what_was_never_written_fails_without_a_result() {
    let mut users = Collection::new("user_standard");
    let clock = Stopwatch::start();
    let mut writer = WorkloadRunner::batch_insert(4);
    drive(&mut writer, &mut users, &clock);
    let mut reader = WorkloadRunner::sequential_read(6);
    drive(&mut reader, &mut users, &clock);
    assert_eq!(reader.result(), None);
    let error = reader.error().unwrap();
    assert_eq!(error.operation, OpKind::SequentialRead);
    assert_eq!(error.index, 4);
    assert_eq!(error.cause, Failure::NotFound);
    assert_eq!(reader.records_done(), 4);
}

#[test]
fn batch_phase_over_no_records_reports_sentinels() {
    let mut users = Collection::new("user_idx");
    let clock = Stopwatch::start();
    let mut writer = WorkloadRunner::batch_insert(0);
    drive(&mut writer, &mut users, &clock);
    let result = writer.result().unwrap();
    assert_eq!(result.count, 0);
    assert_eq!(users.count(), 0);
    let report = BenchmarkReport::from_result(&result);
    assert_eq!(report.per_record_line(), "Time taken to add 1 record: n/a");
    assert_eq!(report.rate_line(), "Records per second: n/a");
}

#[test]
fn stopwatch_does_not_run_backwards() {
    let clock = Stopwatch::start();
    let first = clock.read();
    let mut users = Collection::new("busy");
    let mut writer = WorkloadRunner::batch_insert(2000);
    drive(&mut writer, &mut users, &clock);
    let second = clock.read();
    assert!(second >= first);
    assert!(second > 0);
    assert!(writer.result().unwrap().elapsed_nanos <= second);
}

#[test]
fn clock_readings_stop_at_the_largest_number() {
    assert_eq!(saturating_nanos(0), 0);
    assert_eq!(saturating_nanos(1_500), 1_500);
    assert_eq!(saturating_nanos(u64::MAX as u128 - 1), u64::MAX - 1);
    assert_eq!(saturating_nanos(u64::MAX as u128), u64::MAX);
    assert_eq!(saturating_nanos(u64::MAX as u128 + 1), u64::MAX);
    assert_eq!(saturating_nanos(u128::MAX), u64::MAX);
}
