//! Timed runs of a workload on a collection held in memory.

use std::time::Instant;
use vstd::prelude::*;

use crate::collection::{
    appended, find_by_field, find_by_id, lemma_id_is_found, lemma_match_is_found,
    lemma_unique_match_is_found, has_value, Collection, CollectionModel, EntryModel,
};
use crate::document::{lemma_synthetic_model, synthetic_model, DocumentModel, ValueModel};
use crate::kind::OpKind;
use crate::ops::{DocumentId, Failure, Lookup, OperationModel};
use crate::run::replay;
use crate::workload::{Action, Event, EventModel, RunnerModel, Stage, WorkloadRunner};

verus! {

/// `std::time::Instant`, carried as an opaque value.
#[verifier::external_type_specification]
#[verifier::external_body]
pub struct ExInstant(Instant);

/// Calls `Instant::now`. Nothing is claimed of the instant that comes back.
#[verifier::external_body]
fn instant_now() -> Instant {
    Instant::now()
}

/// Calls `Instant::elapsed` and gives the span in whole nanoseconds.
/// Nothing is claimed of the number: it depends on when the call is made.
#[verifier::external_body]
fn nanos_since(origin: &Instant) -> u128 {
    origin.elapsed().as_nanos()
}

/// A span of nanoseconds as the clock reports it: the span itself, or the
/// largest number of the type where the span is larger.
pub open spec fn saturated(nanos: u128) -> u64 {
    if nanos > u64::MAX {
        u64::MAX
    } else {
        nanos as u64
    }
}

/// Fits a span of nanoseconds into the type of a clock reading.
pub fn saturating_nanos(nanos: u128) -> (reading: u64)
    ensures
        reading == saturated(nanos),
{
    if nanos > u64::MAX as u128 {
        u64::MAX
    } else {
        nanos as u64
    }
}

/// A monotonic clock that counts nanoseconds from the moment it was made.
pub struct Stopwatch {
    origin: Instant,
}

impl Stopwatch {
    /// A clock that starts now.
    pub fn start() -> (clock: Stopwatch) {
        Stopwatch { origin: instant_now() }
    }

    /// The nanoseconds since the clock was made; the largest number of the
    /// type where they are more.
    pub fn read(&self) -> (nanos: u64) {
        saturating_nanos(nanos_since(&self.origin))
    }
}

/// The collection has an answer to the lookup; any other operation needs
/// none.
pub open spec fn can_answer(entries: Seq<EntryModel>, operation: OperationModel) -> bool {
    match operation {
        OperationModel::FindByUserId(user_id) => find_by_field(
            entries,
            "user_id"@,
            ValueModel::Int(user_id as int),
        ) is Some,
        OperationModel::FindById(id) => find_by_id(entries, id) is Some,
        _ => true,
    }
}

/// The collection has what the whole phase needs: for a phase that writes,
/// an identifier for each record; for one that reads, a document for each
/// lookup.
pub open spec fn can_serve(collection: CollectionModel, m: RunnerModel) -> bool {
    if m.kind.spec_is_insert() {
        collection.issued + m.count() <= u64::MAX
    } else {
        forall|i: int|
            0 <= i < m.operations() ==> can_answer(collection.entries, #[trigger] m.operation_at(i))
    }
}

/// The number of events that a run still takes at most.
pub open spec fn steps_left(m: RunnerModel) -> nat {
    match m.stage {
        Stage::Ready => (m.operations() - m.done + 2) as nat,
        Stage::Timing { .. } => (m.operations() - m.done + 1) as nat,
        Stage::Finished(_) | Stage::Failed(_) => 0,
    }
}

/// The state after a sequence of events and one more is the step of the
/// state after the sequence.
pub proof fn lemma_replay_push(m: RunnerModel, events: Seq<EventModel>, event: EventModel)
    ensures
        replay(m, events.push(event)) == replay(m, events).step(event),
    decreases events.len(),
{
    let longer = events.push(event);
    if events.len() == 0 {
        assert(longer.first() == event);
        assert(longer.drop_first() =~= Seq::<EventModel>::empty());
        assert(replay(m.step(event), longer.drop_first()) == m.step(event));
    } else {
        assert(longer.first() == events.first());
        assert(longer.drop_first() =~= events.drop_first().push(event));
        lemma_replay_push(m.step(events.first()), events.drop_first(), event);
    }
}

/// Storing documents one by one gives what storing them at once gives.
pub proof fn lemma_inserted_in_steps(held: CollectionModel, documents: Seq<DocumentModel>, k: int)
    requires
        0 <= k < documents.len(),
    ensures
        held.inserted(documents.take(k)).inserted(seq![documents[k]]) == held.inserted(
            documents.take(k + 1),
        ),
        held.next_ids(k as nat).push(held.inserted(documents.take(k)).next_id()) == held.next_ids(
            (k + 1) as nat,
        ),
        held.inserted(documents.take(k)).issued == held.issued + k,
{
    let step = held.inserted(documents.take(k)).inserted(seq![documents[k]]);
    let whole = held.inserted(documents.take(k + 1));
    assert(step.entries =~= whole.entries);
    assert(held.next_ids(k as nat).push(held.inserted(documents.take(k)).next_id())
        =~= held.next_ids((k + 1) as nat));
}

/// What holds of a run that started on a collection holding `held` once
/// it has failed: a phase that writes found no identifier left, and a phase
/// that reads found no document for the first time at the record where it
/// stopped.
pub open spec fn failed_for_want(start: RunnerModel, held: CollectionModel, m: RunnerModel) -> bool {
    m.stage matches Stage::Failed(error) ==> {
        &&& error.operation == start.kind
        &&& error.index == m.records_done()
        &&& if start.kind.spec_is_insert() {
            &&& error.cause == Failure::Storage
            &&& !held.has_room(start.count())
            &&& start.kind == OpKind::SequentialInsert ==> error.index == u64::MAX - held.issued
            &&& start.kind == OpKind::BatchInsert ==> error.index == 0
        } else {
            &&& error.cause == Failure::NotFound
            &&& error.index < start.count()
            &&& !can_answer(held.entries, start.operation_at(error.index as int))
        }
    }
}

/// Every lookup of the phase before the `n`-th has a document in the
/// collection.
pub open spec fn answers_up_to(start: RunnerModel, held: CollectionModel, n: nat) -> bool {
    forall|j: int| 0 <= j < n ==> can_answer(held.entries, #[trigger] start.operation_at(j))
}

/// Drives the run to its end on the collection: reads `clock` where the
/// runner asks for the time, and runs on the collection each operation it
/// asks for. A phase that reads leaves the collection as it was. A run from
/// the start ends with a result exactly where the collection has what the
/// phase needs; a phase that writes has then stored, behind what the
/// collection held, the records it covered, and holds their identifiers. A
/// phase that reads fails at the first record for which the collection has
/// no document, and one that writes where no identifier is left.
pub fn drive(runner: &mut WorkloadRunner, collection: &mut Collection, clock: &Stopwatch)
    ensures
        final(runner)@.wf(),
        final(collection)@.wf(),
        final(runner)@.is_over(),
        exists|events: Seq<EventModel>| final(runner)@ == replay(old(runner)@, events),
        final(runner)@.kind == old(runner)@.kind,
        final(runner)@.lookup == old(runner)@.lookup,
        final(runner)@.order == old(runner)@.order,
        final(runner)@.first == old(runner)@.first,
        final(runner)@.known_ids == old(runner)@.known_ids,
        !old(runner)@.kind.spec_is_insert() ==> final(collection)@ == old(collection)@,
        old(runner)@.stage is Ready ==> {
            &&& final(runner)@.stage is Finished <==> can_serve(old(collection)@, old(runner)@)
            &&& final(runner)@.stage matches Stage::Finished(result) ==> result.count == old(
                runner,
            )@.count() && result.kind == old(runner)@.kind && final(runner)@.records_done() == old(
                runner,
            )@.count()
            &&& failed_for_want(old(runner)@, old(collection)@, final(runner)@)
            &&& !old(runner)@.kind.spec_is_insert() ==> answers_up_to(
                old(runner)@,
                old(collection)@,
                final(runner)@.records_done(),
            )
            &&& old(runner)@.kind.spec_is_insert() ==> {
                &&& final(collection)@ == old(collection)@.inserted(
                    old(runner)@.batch().take(final(runner)@.records_done() as int),
                )
                &&& final(runner)@.collected == old(collection)@.next_ids(
                    final(runner)@.records_done(),
                )
            }
        },
{
    let ghost start = runner@;
    let ghost held = collection@;
    let ghost mut events: Seq<EventModel> = Seq::empty();
    let ghost ready = start.stage is Ready;
    proof {
        use_type_invariant(&*runner);
        use_type_invariant(&*collection);
        assert(held.inserted(start.batch().take(0)).entries =~= held.entries);
        if ready {
            assert(runner@.collected =~= held.next_ids(0));
        }
    }
    while !runner.is_over()
        invariant
            runner@.wf(),
            collection@.wf(),
            start.wf(),
            held.wf(),
            runner@ == replay(start, events),
            runner@.kind == start.kind,
            runner@.lookup == start.lookup,
            runner@.order == start.order,
            runner@.first == start.first,
            runner@.known_ids == start.known_ids,
            ready == (start.stage is Ready),
            !start.kind.spec_is_insert() ==> collection@ == held,
            ready ==> failed_for_want(start, held, runner@),
            ready && !start.kind.spec_is_insert() ==> answers_up_to(
                start,
                held,
                runner@.records_done(),
            ),
            ready && start.kind.spec_is_insert() ==> collection@ == held.inserted(
                start.batch().take(runner@.records_done() as int),
            ) && runner@.collected == held.next_ids(runner@.records_done()),
        decreases steps_left(runner@),
    {
        let ghost before = runner@;
        let action = runner.next_action();
        let event = match action {
            Action::ReadClock => Event::Clock(clock.read()),
            Action::Perform(operation) => {
                proof {
                    assert(before.batch() =~= start.batch());
                    assert(before.operation_at(before.done as int) == start.operation_at(
                        before.done as int,
                    ));
                }
                Event::Answer(collection.perform(&operation))
            },
            // A run that is not over always asks for something.
            Action::Stop => Event::Clock(0),
        };
        let ghost reported = event@;
        let accepted = runner.advance(event);
        proof {
            lemma_replay_push(start, events, reported);
            events = events.push(reported);
            assert(accepted);
            if ready && start.kind == OpKind::SequentialInsert && before.done < before.operations() {
                lemma_inserted_in_steps(held, start.batch(), before.done as int);
            }
            if ready && start.kind == OpKind::BatchInsert && before.done < before.operations() {
                assert(start.batch().take(start.count() as int) =~= start.batch());
                assert(start.batch().take(0).len() == 0);
            }
        }
    }
    proof {
        if ready && start.kind.spec_is_insert() && runner@.stage is Finished {
            assert(held.has_room(start.count()));
        }
    }
}

/// What a phase wrote, a phase can read: after a phase that writes has
/// stored its records behind whatever the collection held, the collection
/// has a document for each lookup of a phase that reads as many records,
/// numbered alike, by `user_id`; and, where the read phase was given the
/// identifiers that the store gave the records, by identifier too.
pub proof fn lemma_written_records_can_be_read(
    held: CollectionModel,
    ids: Seq<DocumentId>,
    writer: RunnerModel,
    reader: RunnerModel,
    stored: CollectionModel,
)
    requires
        writer.wf(),
        reader.wf(),
        writer.kind.spec_is_insert(),
        !reader.kind.spec_is_insert(),
        reader.count() == writer.count(),
        reader.first == writer.first,
        ids.len() == writer.count(),
        reader.lookup == Lookup::ById ==> reader.known_ids == ids,
        stored.entries == appended(held.entries, ids, writer.batch()),
    ensures
        can_serve(stored, reader),
{
    let entries = appended(held.entries, ids, writer.batch());
    assert forall|i: int| 0 <= i < reader.operations() implies can_answer(
        entries,
        #[trigger] reader.operation_at(i),
    ) by {
        let index = reader.order[i];
        assert(0 <= index < reader.order.len());
        let place = held.entries.len() + index;
        assert(writer.order[index as int] == index);
        assert(entries[place].id == ids[index as int]);
        assert(entries[place].document == synthetic_model(reader.user_id_at(i)));
        lemma_synthetic_model(reader.user_id_at(i));
        match reader.lookup {
            Lookup::ByUserId => {
                lemma_match_is_found(
                    entries,
                    "user_id"@,
                    ValueModel::Int(reader.user_id_at(i) as int),
                    place,
                );
            },
            Lookup::ById => {
                lemma_id_is_found(entries, ids[index as int], place);
            },
        }
    }
}

/// What a phase wrote is what a lookup finds: after a phase that writes
/// has stored its records in a collection that held no document with one
/// of their numbers, a lookup by the `user_id` of any of the records gives
/// exactly the record that was written for it.
pub proof fn lemma_written_record_is_found(
    held: Seq<EntryModel>,
    ids: Seq<DocumentId>,
    writer: RunnerModel,
    index: int,
)
    requires
        writer.wf(),
        writer.kind.spec_is_insert(),
        ids.len() == writer.count(),
        0 <= index < writer.count(),
        forall|i: int, k: int|
            0 <= i < held.len() && 0 <= k < writer.count() ==> !has_value(
                (#[trigger] held[i]).document,
                "user_id"@,
                ValueModel::Int(#[trigger] writer.user_id_at(k) as int),
            ),
    ensures
        find_by_field(
            appended(held, ids, writer.batch()),
            "user_id"@,
            ValueModel::Int(writer.user_id_at(index) as int),
        ) == Some(synthetic_model(writer.user_id_at(index))),
{
    let entries = appended(held, ids, writer.batch());
    let wanted = ValueModel::Int(writer.user_id_at(index) as int);
    let place = held.len() + index;
    assert(writer.order[index] == index);
    assert(entries[place].document == synthetic_model(writer.user_id_at(index)));
    lemma_synthetic_model(writer.user_id_at(index));
    assert forall|i: int| 0 <= i < entries.len() && i != place implies !has_value(
        (#[trigger] entries[i]).document,
        "user_id"@,
        wanted,
    ) by {
        if i < held.len() {
            assert(entries[i] == held[i]);
            assert(!has_value(
                held[i].document,
                "user_id"@,
                ValueModel::Int(writer.user_id_at(index) as int),
            ));
        } else {
            let k = i - held.len();
            assert(writer.order[k] == k);
            assert(entries[i].document == synthetic_model(writer.user_id_at(k)));
            lemma_synthetic_model(writer.user_id_at(k));
        }
    }
    lemma_unique_match_is_found(entries, "user_id"@, wanted, place);
}

} // verus!
