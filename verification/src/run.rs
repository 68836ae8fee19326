//! Whole runs: what holds of a runner over any sequence of events.

use vstd::prelude::*;

use crate::ops::{Lookup, OperationModel};
use crate::order::{lemma_visit_order_visits_each_once, visits_each_once};
use crate::workload::{ActionModel, EventModel, RunnerModel};

verus! {

/// The state after all the events, one after the other.
pub open spec fn replay(m: RunnerModel, events: Seq<EventModel>) -> RunnerModel
    decreases events.len(),
{
    if events.len() == 0 {
        m
    } else {
        replay(m.step(events.first()), events.drop_first())
    }
}

/// The operations that the driver ran in the course of the events: for
/// each event that the run took in while it was asking for an operation,
/// that operation.
pub open spec fn performed(m: RunnerModel, events: Seq<EventModel>) -> Seq<OperationModel>
    decreases events.len(),
{
    if events.len() == 0 {
        Seq::empty()
    } else {
        let rest = performed(m.step(events.first()), events.drop_first());
        match m.next_action() {
            ActionModel::Perform(operation) => if m.accepts(events.first()) {
                seq![operation] + rest
            } else {
                rest
            },
            _ => rest,
        }
    }
}

/// The operations of the phase from the number `from` on.
pub open spec fn remaining_operations(m: RunnerModel, from: nat) -> Seq<OperationModel> {
    Seq::new((m.operations() - from) as nat, |i: int| m.operation_at(from + i))
}

/// The lookups by `user_id` of the records with the indices of `order`,
/// numbered from `first` on, one after the other.
pub open spec fn lookups_of(order: Seq<i64>, first: i64) -> Seq<OperationModel> {
    Seq::new(order.len(), |i: int| OperationModel::FindByUserId((first + order[i]) as i64))
}

/// Whatever events follow, a valid state stays valid.
pub proof fn lemma_replay_keeps_wf(m: RunnerModel, events: Seq<EventModel>)
    requires
        m.wf(),
    ensures
        replay(m, events).wf(),
    decreases events.len(),
{
    if events.len() > 0 {
        lemma_replay_keeps_wf(m.step(events.first()), events.drop_first());
    }
}

/// A run that is over stays as it is, and no further operation is run.
pub proof fn lemma_over_stays_over(m: RunnerModel, events: Seq<EventModel>)
    requires
        m.is_over(),
    ensures
        replay(m, events) == m,
        performed(m, events) == Seq::<OperationModel>::empty(),
    decreases events.len(),
{
    if events.len() > 0 {
        lemma_over_stays_over(m, events.drop_first());
    }
}

/// A run never changes what it is about: its kind, its way of looking
/// records up, its visit order, its numbering and the identifiers it was
/// given.
pub proof fn lemma_replay_keeps_plan(m: RunnerModel, events: Seq<EventModel>)
    ensures
        replay(m, events).kind == m.kind,
        replay(m, events).lookup == m.lookup,
        replay(m, events).order == m.order,
        replay(m, events).first == m.first,
        replay(m, events).known_ids == m.known_ids,
    decreases events.len(),
{
    if events.len() > 0 {
        lemma_replay_keeps_plan(m.step(events.first()), events.drop_first());
    }
}

/// A run that finishes has run exactly the operations that were still
/// to come, in their order, each once.
pub proof fn lemma_finished_run_performed_the_rest(m: RunnerModel, events: Seq<EventModel>)
    requires
        m.wf(),
        replay(m, events).stage is Finished,
    ensures
        performed(m, events) == remaining_operations(m, m.done),
    decreases events.len(),
{
    if m.is_over() {
        lemma_over_stays_over(m, events);
        assert(performed(m, events) =~= remaining_operations(m, m.done));
    } else if events.len() == 0 {
    } else {
        let event = events.first();
        let next = m.step(event);
        let rest = events.drop_first();
        lemma_finished_run_performed_the_rest(next, rest);
        if next.stage is Failed {
            lemma_over_stays_over(next, rest);
        }
        assert(next.batch() =~= m.batch());
        assert forall|i: int| next.operation_at(i) == m.operation_at(i) by {}
        assert(performed(m, events) =~= remaining_operations(m, m.done));
    }
}

/// A run from the start that finishes has run every operation of the
/// phase, in order, each once; its result counts every record, and where
/// it wrote, the store gave one identifier for each record.
pub proof fn lemma_finished_run_is_complete(m: RunnerModel, events: Seq<EventModel>)
    requires
        m.wf(),
        m.stage is Ready,
        replay(m, events).stage is Finished,
    ensures
        performed(m, events) == remaining_operations(m, 0),
        replay(m, events).stage->Finished_0.count == m.count(),
        replay(m, events).stage->Finished_0.kind == m.kind,
        replay(m, events).records_done() == m.count(),
        replay(m, events).visited() == m.order,
        m.kind.spec_is_insert() ==> replay(m, events).collected.len() == m.count(),
{
    lemma_finished_run_performed_the_rest(m, events);
    lemma_replay_keeps_wf(m, events);
    lemma_replay_keeps_plan(m, events);
    assert(replay(m, events).visited() =~= m.order);
}

/// A run that fails reports no result: the time up to the failure is not
/// reported.
pub proof fn lemma_failed_run_has_no_result(m: RunnerModel, events: Seq<EventModel>)
    requires
        m.wf(),
        replay(m, events).stage is Failed,
    ensures
        !(replay(m, events).stage is Finished),
        replay(m, events).stage->Failed_0.operation == m.kind,
        replay(m, events).stage->Failed_0.index == replay(m, events).records_done(),
        replay(m, events).records_done() <= m.count(),
{
    lemma_replay_keeps_wf(m, events);
    lemma_replay_keeps_plan(m, events);
}

/// A read phase by `user_id` that finishes has looked up the indices of
/// its visit order, one after the other, and so every index below the
/// number of records exactly once.
pub proof fn lemma_read_run_visits_each_index_once(m: RunnerModel, events: Seq<EventModel>)
    requires
        m.wf(),
        m.stage is Ready,
        !m.kind.spec_is_insert(),
        m.lookup == Lookup::ByUserId,
        replay(m, events).stage is Finished,
    ensures
        performed(m, events) == lookups_of(m.order, m.first),
        visits_each_once(m.order, m.count()),
{
    lemma_finished_run_is_complete(m, events);
    lemma_visit_order_visits_each_once(m.order);
    assert(remaining_operations(m, 0) =~= lookups_of(m.order, m.first));
}

} // verus!
