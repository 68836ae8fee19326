use docstore_bench::document::synthetic_document;
use docstore_bench::kind::OpKind;
use docstore_bench::ops::{DocumentId, Failure, Lookup, Operation, Outcome, WorkloadError};
use docstore_bench::order::{check_visit_order, sequential_order};
use docstore_bench::random::RandomSource;
use docstore_bench::report::WorkloadResult;
use docstore_bench::workload::{Action, Event, Stage, WorkloadRunner};

fn id(low: u64) -> DocumentId {
    DocumentId { high: 0, low }
}

#[test]
fn sequential_insert_walks_the_records_in_order() {
    let mut runner = WorkloadRunner::sequential_insert(3);
    assert_eq!(runner.kind(), OpKind::SequentialInsert);
    assert_eq!(runner.count(), 3);
    assert_eq!(runner.stage(), Stage::Ready);
    assert_eq!(runner.next_action(), Action::ReadClock);
    assert!(runner.advance(Event::Clock(100)));
    assert_eq!(runner.stage(), Stage::Timing { started_at: 100 });
    for i in 0..3 {
        assert_eq!(runner.records_done(), i as u32);
        assert_eq!(
            runner.next_action(),
            Action::Perform(Operation::InsertOne(synthetic_document(i)))
        );
        assert!(runner.advance(Event::Answer(Outcome::Inserted(id(10 + i as u64)))));
    }
    assert_eq!(runner.next_action(), Action::ReadClock);
    assert!(!runner.is_over());
    assert_eq!(runner.result(), None);
    assert!(runner.advance(Event::Clock(350)));
    assert!(runner.is_over());
    assert_eq!(runner.next_action(), Action::Stop);
    assert_eq!(
        runner.result(),
        Some(WorkloadResult { kind: OpKind::SequentialInsert, count: 3, elapsed_nanos: 250 })
    );
    assert_eq!(runner.error(), None);
    assert_eq!(runner.inserted_ids(), &vec![id(10), id(11), id(12)]);
    assert_eq!(runner.records_done(), 3);
}

#[test]
fn batch_insert_is_one_operation() {
    let mut runner = WorkloadRunner::batch_insert(3);
    assert!(runner.advance(Event::Clock(5)));
    let expected: Vec<_> = (0..3).map(synthetic_document).collect();
    assert_eq!(runner.next_action(), Action::Perform(Operation::InsertMany(expected)));
    assert_eq!(runner.records_done(), 0);
    assert!(runner.advance(Event::Answer(Outcome::InsertedMany(vec![id(1), id(2), id(3)]))));
    assert_eq!(runner.records_done(), 3);
    assert_eq!(runner.next_action(), Action::ReadClock);
    assert!(runner.advance(Event::Clock(9)));
    assert_eq!(
        runner.result(),
        Some(WorkloadResult { kind: OpKind::BatchInsert, count: 3, elapsed_nanos: 4 })
    );
    assert_eq!(runner.inserted_ids(), &vec![id(1), id(2), id(3)]);
}

#[test]
fn batch_of_no_records_still_asks_the_store() {
    let mut runner = WorkloadRunner::batch_insert(0);
    assert!(runner.advance(Event::Clock(1)));
    assert_eq!(runner.next_action(), Action::Perform(Operation::InsertMany(vec![])));
    assert!(runner.advance(Event::Answer(Outcome::InsertedMany(vec![]))));
    assert!(runner.advance(Event::Clock(1)));
    assert_eq!(
        runner.result(),
        Some(WorkloadResult { kind: OpKind::BatchInsert, count: 0, elapsed_nanos: 0 })
    );
}

#[test]
fn short_batch_fails_the_run() {
    for ids in [vec![], vec![id(1), id(2)], vec![id(1), id(2), id(3), id(4)]] {
        let mut runner = WorkloadRunner::batch_insert(3);
        assert!(runner.advance(Event::Clock(5)));
        assert!(runner.advance(Event::Answer(Outcome::InsertedMany(ids))));
        assert!(runner.is_over());
        assert_eq!(runner.result(), None);
        assert_eq!(
            runner.error(),
            Some(WorkloadError {
                operation: OpKind::BatchInsert,
                index: 0,
                cause: Failure::Storage
            })
        );
        assert!(runner.inserted_ids().is_empty());
        assert_eq!(runner.next_action(), Action::Stop);
        assert!(!runner.advance(Event::Clock(9)));
        assert_eq!(runner.result(), None);
    }
}

#[test]
fn run_over_no_records_only_reads_the_clock() {
    for mut runner in [
        WorkloadRunner::sequential_insert(0),
        WorkloadRunner::sequential_read(0),
        WorkloadRunner::random_read(0, RandomSource::seeded(3)),
    ] {
        let kind = runner.kind();
        assert_eq!(runner.next_action(), Action::ReadClock);
        assert!(runner.advance(Event::Clock(40)));
        assert_eq!(runner.next_action(), Action::ReadClock);
        assert!(runner.advance(Event::Clock(45)));
        assert_eq!(runner.result(), Some(WorkloadResult { kind, count: 0, elapsed_nanos: 5 }));
    }
}

#[test]
fn sequential_read_looks_up_each_user_id() {
    let mut runner = WorkloadRunner::sequential_read(3).starting_at(1).unwrap();
    assert!(runner.advance(Event::Clock(0)));
    for user_id in 1..=3 {
        assert_eq!(runner.next_action(), Action::Perform(Operation::FindByUserId(user_id)));
        assert!(runner.advance(Event::Answer(Outcome::Found)));
    }
    assert!(runner.advance(Event::Clock(30)));
    assert_eq!(
        runner.result(),
        Some(WorkloadResult { kind: OpKind::SequentialRead, count: 3, elapsed_nanos: 30 })
    );
    assert!(runner.inserted_ids().is_empty());
}

#[test]
fn random_read_visits_each_index_once() {
    let n = 200;
    let mut runner = WorkloadRunner::random_read(n, RandomSource::seeded(11));
    assert_eq!(runner.kind(), OpKind::RandomRead);
    assert!(check_visit_order(runner.order()));
    assert_ne!(runner.order(), &sequential_order(n));
    let planned = runner.order().clone();
    let mut visited: Vec<i64> = Vec::new();
    assert!(runner.advance(Event::Clock(0)));
    loop {
        match runner.next_action() {
            Action::Perform(Operation::FindByUserId(user_id)) => {
                visited.push(user_id);
                assert!(runner.advance(Event::Answer(Outcome::Found)));
            }
            Action::ReadClock => {
                assert!(runner.advance(Event::Clock(1)));
            }
            Action::Stop => break,
            other => panic!("unexpected action {:?}", other),
        }
    }
    assert_eq!(visited, planned);
    let mut sorted = visited.clone();
    sorted.sort();
    assert_eq!(sorted, sequential_order(n));
    assert_eq!(runner.result().map(|r| r.count), Some(n));
}

#[test]
fn random_read_in_a_given_order_replays_it() {
    let order = vec![2, 0, 3, 1];
    let mut runner =
        WorkloadRunner::random_read_in(order.clone()).unwrap().starting_at(10).unwrap();
    assert_eq!(runner.order(), &order);
    assert!(runner.advance(Event::Clock(0)));
    for index in order {
        assert_eq!(runner.next_action(), Action::Perform(Operation::FindByUserId(10 + index)));
        assert!(runner.advance(Event::Answer(Outcome::Found)));
    }
    assert_eq!(runner.next_action(), Action::ReadClock);
}

#[test]
fn random_read_in_rejects_what_is_no_visit_order() {
    assert!(WorkloadRunner::random_read_in(vec![0, 0]).is_none());
    assert!(WorkloadRunner::random_read_in(vec![1, 2]).is_none());
    assert!(WorkloadRunner::random_read_in(vec![-1]).is_none());
    assert!(WorkloadRunner::random_read_in(vec![]).is_some());
    assert!(WorkloadRunner::random_read_in(vec![1, 0]).is_some());
}

#[test]
fn reads_by_identifier_use_the_identifier_of_each_record() {
    let ids = vec![id(70), id(71), id(72)];
    let mut runner =
        WorkloadRunner::random_read_in(vec![2, 0, 1]).unwrap().by_id(ids.clone()).unwrap();
    assert!(runner.advance(Event::Clock(0)));
    for index in [2usize, 0, 1] {
        assert_eq!(runner.next_action(), Action::Perform(Operation::FindById(ids[index])));
        assert!(runner.advance(Event::Answer(Outcome::Found)));
    }
    assert!(runner.advance(Event::Clock(3)));
    assert_eq!(runner.result().map(|r| r.count), Some(3));
}

#[test]
fn by_id_needs_one_identifier_for_each_record() {
    let mut runner = WorkloadRunner::sequential_read(2).by_id(vec![id(1)]).unwrap_err();
    assert!(runner.advance(Event::Clock(0)));
    assert_eq!(runner.next_action(), Action::Perform(Operation::FindByUserId(0)));
    let mut writer = WorkloadRunner::sequential_insert(1).by_id(vec![id(1)]).unwrap_err();
    assert!(writer.advance(Event::Clock(0)));
    assert_eq!(
        writer.next_action(),
        Action::Perform(Operation::InsertOne(synthetic_document(0)))
    );
    let mut started = WorkloadRunner::sequential_read(1);
    assert!(started.advance(Event::Clock(0)));
    let started = started.by_id(vec![id(5)]).unwrap_err();
    assert_eq!(started.next_action(), Action::Perform(Operation::FindByUserId(0)));
    assert!(WorkloadRunner::sequential_read(0).by_id(vec![]).is_ok());
}

#[test]
fn starting_at_keeps_user_ids_in_range() {
    let mut runner = WorkloadRunner::sequential_insert(2).starting_at(i64::MAX - 2).unwrap();
    assert!(runner.advance(Event::Clock(0)));
    assert_eq!(
        runner.next_action(),
        Action::Perform(Operation::InsertOne(synthetic_document(i64::MAX - 2)))
    );
    let mut runner =
        WorkloadRunner::sequential_insert(2).starting_at(i64::MAX - 1).unwrap_err();
    assert!(runner.advance(Event::Clock(0)));
    assert_eq!(
        runner.next_action(),
        Action::Perform(Operation::InsertOne(synthetic_document(0)))
    );
    let mut runner = WorkloadRunner::sequential_read(2).starting_at(-7).unwrap();
    assert!(runner.advance(Event::Clock(0)));
    assert_eq!(runner.next_action(), Action::Perform(Operation::FindByUserId(-7)));
    let mut started = WorkloadRunner::sequential_read(1);
    assert!(started.advance(Event::Clock(0)));
    let started = started.starting_at(5).unwrap_err();
    assert_eq!(started.next_action(), Action::Perform(Operation::FindByUserId(0)));
}

#[test]
fn failure_stops_the_run_and_names_the_place() {
    for cause in [Failure::Engine, Failure::Index, Failure::Storage, Failure::NotFound] {
        let mut runner = WorkloadRunner::sequential_insert(5);
        assert!(runner.advance(Event::Clock(10)));
        assert!(runner.advance(Event::Answer(Outcome::Inserted(id(1)))));
        assert!(runner.advance(Event::Answer(Outcome::Inserted(id(2)))));
        assert!(runner.advance(Event::Answer(Outcome::Failed(cause))));
        assert!(runner.is_over());
        assert_eq!(
            runner.stage(),
            Stage::Failed(WorkloadError { operation: OpKind::SequentialInsert, index: 2, cause })
        );
        assert_eq!(
            runner.error(),
            Some(WorkloadError { operation: OpKind::SequentialInsert, index: 2, cause })
        );
        assert_eq!(runner.result(), None);
        assert_eq!(runner.next_action(), Action::Stop);
        assert!(!runner.advance(Event::Clock(20)));
        assert!(!runner.advance(Event::Answer(Outcome::Inserted(id(3)))));
        assert_eq!(runner.result(), None);
        assert_eq!(runner.records_done(), 2);
        assert_eq!(runner.inserted_ids(), &vec![id(1), id(2)]);
    }
}

#[test]
fn missing_record_fails_a_read_run() {
    let mut runner = WorkloadRunner::sequential_read(3);
    assert!(runner.advance(Event::Clock(10)));
    assert!(runner.advance(Event::Answer(Outcome::Found)));
    assert!(runner.advance(Event::Answer(Outcome::Missing)));
    assert_eq!(
        runner.error(),
        Some(WorkloadError {
            operation: OpKind::SequentialRead,
            index: 1,
            cause: Failure::NotFound
        })
    );
    assert_eq!(runner.result(), None);
}

#[test]
fn events_out_of_turn_change_nothing() {
    let mut runner = WorkloadRunner::sequential_insert(1);
    assert!(!runner.advance(Event::Answer(Outcome::Inserted(id(1)))));
    assert!(!runner.advance(Event::Answer(Outcome::Failed(Failure::Storage))));
    assert_eq!(runner.stage(), Stage::Ready);
    assert!(runner.advance(Event::Clock(1)));
    assert!(!runner.advance(Event::Clock(2)));
    assert!(!runner.advance(Event::Answer(Outcome::Found)));
    assert!(!runner.advance(Event::Answer(Outcome::Missing)));
    assert!(!runner.advance(Event::Answer(Outcome::InsertedMany(vec![id(1)]))));
    assert_eq!(runner.stage(), Stage::Timing { started_at: 1 });
    assert_eq!(runner.records_done(), 0);
    assert!(runner.advance(Event::Answer(Outcome::Inserted(id(1)))));
    assert!(!runner.advance(Event::Answer(Outcome::Inserted(id(2)))));
    assert_eq!(runner.inserted_ids(), &vec![id(1)]);
    let mut reader = WorkloadRunner::sequential_read(1);
    assert!(reader.advance(Event::Clock(1)));
    assert!(!reader.advance(Event::Answer(Outcome::Inserted(id(1)))));
    assert!(!reader.advance(Event::Answer(Outcome::InsertedMany(vec![]))));
    let mut batch = WorkloadRunner::batch_insert(1);
    assert!(batch.advance(Event::Clock(1)));
    assert!(!batch.advance(Event::Answer(Outcome::Inserted(id(1)))));
    assert!(!batch.advance(Event::Answer(Outcome::Found)));
}

#[test]
fn clock_that_runs_backwards_gives_no_time() {
    let mut runner = WorkloadRunner::sequential_read(0);
    assert!(runner.advance(Event::Clock(500)));
    assert!(runner.advance(Event::Clock(400)));
    assert_eq!(
        runner.result(),
        Some(WorkloadResult { kind: OpKind::SequentialRead, count: 0, elapsed_nanos: 0 })
    );
}

#[test]
fn lookups_are_by_user_id_unless_asked_otherwise() {
    assert_ne!(Lookup::ByUserId, Lookup::ById);
    let mut runner = WorkloadRunner::random_read(1, RandomSource::seeded(0));
    assert!(runner.advance(Event::Clock(0)));
    assert_eq!(runner.next_action(), Action::Perform(Operation::FindByUserId(0)));
}

#[test]
fn of_kind_builds_each_kind_of_phase() {
    for kind in [OpKind::SequentialInsert, OpKind::BatchInsert, OpKind::SequentialRead] {
        let runner = WorkloadRunner::of_kind(kind, 100, RandomSource::seeded(5));
        assert_eq!(runner.kind(), kind);
        assert_eq!(runner.count(), 100);
        assert_eq!(runner.order(), &sequential_order(100));
        assert_eq!(runner.stage(), Stage::Ready);
    }
    let runner = WorkloadRunner::of_kind(OpKind::RandomRead, 100, RandomSource::seeded(5));
    assert_eq!(runner.kind(), OpKind::RandomRead);
    assert_eq!(runner.count(), 100);
    assert!(check_visit_order(runner.order()));
    assert_ne!(runner.order(), &sequential_order(100));
}

#[test]
fn workload_error_names_phase_place_and_cause() {
    let error =
        WorkloadError { operation: OpKind::SequentialInsert, index: 41, cause: Failure::Storage };
    assert_eq!(error.message(), "Sequential Writes failed at record 41: storage error");
    let error = WorkloadError { operation: OpKind::RandomRead, index: 0, cause: Failure::NotFound };
    assert_eq!(error.message(), "Random Reads failed at record 0: not found");
    assert_eq!(Failure::Engine.describe(), "engine error");
    assert_eq!(Failure::Index.describe(), "index error");
    assert_eq!(Failure::Storage.describe(), "storage error");
    assert_eq!(Failure::NotFound.describe(), "not found");
}

#[test]
fn kinds_go_by_their_names() {
    for kind in
        [OpKind::SequentialInsert, OpKind::BatchInsert, OpKind::SequentialRead, OpKind::RandomRead]
    {
        assert_eq!(OpKind::from_name(kind.name()), Some(kind));
    }
    assert_eq!(OpKind::from_name("seq-insert"), Some(OpKind::SequentialInsert));
    assert_eq!(OpKind::from_name("batch-insert"), Some(OpKind::BatchInsert));
    assert_eq!(OpKind::from_name("seq-read"), Some(OpKind::SequentialRead));
    assert_eq!(OpKind::from_name("random-read"), Some(OpKind::RandomRead));
    assert_eq!(OpKind::from_name(""), None);
    assert_eq!(OpKind::from_name("Seq-Read"), None);
    assert_eq!(OpKind::from_name("random-read "), None);
}

#[test]
fn runs_from_one_seed_walk_one_order() {
    let first = WorkloadRunner::random_read(300, RandomSource::seeded(8));
    let second = WorkloadRunner::random_read(300, RandomSource::seeded(8));
    let other = WorkloadRunner::random_read(300, RandomSource::seeded(9));
    assert_eq!(first.order(), second.order());
    assert_ne!(first.order(), other.order());
}

#[test]
fn identifiers_are_twelve_bytes() {
    let id = DocumentId { high: 0x0102_0304, low: 0x0506_0708_090a_0b0c };
    assert_eq!(id.to_bytes(), [1, 2, 3, 4, 5, 6, 7, 8, 9, 10, 11, 12]);
    assert_eq!(DocumentId::from_bytes(&[1, 2, 3, 4, 5, 6, 7, 8, 9, 10, 11, 12]), id);
    let zero = DocumentId { high: 0, low: 0 };
    assert_eq!(zero.to_bytes(), [0u8; 12]);
    assert_eq!(DocumentId::from_bytes(&[0u8; 12]), zero);
    let top = DocumentId { high: u32::MAX, low: u64::MAX };
    assert_eq!(top.to_bytes(), [0xffu8; 12]);
    assert_eq!(DocumentId::from_bytes(&[0xffu8; 12]), top);
    let mixed = DocumentId { high: 0x5f00_ab01, low: 0x8000_0000_0000_0001 };
    assert_eq!(
        mixed.to_bytes(),
        [0x5f, 0x00, 0xab, 0x01, 0x80, 0, 0, 0, 0, 0, 0, 0x01]
    );
    for id in [id, zero, top, mixed] {
        assert_eq!(DocumentId::from_bytes(&id.to_bytes()), id);
    }
    let bytes = [0xde, 0xad, 0xbe, 0xef, 0, 1, 2, 3, 0xfc, 0xfd, 0xfe, 0xff];
    assert_eq!(DocumentId::from_bytes(&bytes).to_bytes(), bytes);
}
