//! The workload runner: one timed phase of operations on a collection.
//!
//! The runner decides; its driver acts. The driver asks the runner for the
//! next action, performs it (reads the clock, or runs the operation on the
//! collection), and hands back what happened as an event. A run is over when
//! the runner holds a result or an error.

use vstd::prelude::*;

use crate::document::{synthetic_document, synthetic_model, Document, DocumentModel};
use crate::kind::OpKind;
use crate::ops::{
    document_models, DocumentId, Failure, Lookup, Operation, OperationModel, Outcome,
    OutcomeModel, WorkloadError,
};
use crate::order::{
    check_visit_order, identity_order, is_visit_order, lemma_identity_visits_each_once,
    lemma_visit_order_visits_each_once, sequential_order, visits_each_once,
};
use crate::random::{shuffled_order, RandomSource};
use crate::report::WorkloadResult;

verus! {

/// Where a run stands.
#[derive(Clone, Copy, Debug, PartialEq, Eq, Structural)]
pub enum Stage {
    /// Nothing has happened yet; the run starts with a reading of the clock.
    Ready,
    /// The clock read `started_at` nanoseconds when the run started.
    Timing { started_at: u64 },
    /// Every operation succeeded and the clock was read again.
    Finished(WorkloadResult),
    /// An operation failed; no time is reported.
    Failed(WorkloadError),
}

/// What the driver is to do next.
#[derive(Debug, PartialEq, Eq)]
pub enum Action {
    /// Read the monotonic clock.
    ReadClock,
    /// Run the operation on the collection.
    Perform(Operation),
    /// Nothing: the run is over.
    Stop,
}

/// The mathematical content of an `Action`.
pub enum ActionModel {
    ReadClock,
    Perform(OperationModel),
    Stop,
}

impl View for Action {
    type V = ActionModel;

    open spec fn view(&self) -> ActionModel {
        match self {
            Action::ReadClock => ActionModel::ReadClock,
            Action::Perform(operation) => ActionModel::Perform(operation@),
            Action::Stop => ActionModel::Stop,
        }
    }
}

/// What the driver reports back.
#[derive(Debug, PartialEq, Eq)]
pub enum Event {
    /// The monotonic clock, in nanoseconds since an origin of its own.
    Clock(u64),
    /// The answer of the collection to the operation last asked for.
    Answer(Outcome),
}

/// The mathematical content of an `Event`.
pub enum EventModel {
    Clock(u64),
    Answer(OutcomeModel),
}

impl View for Event {
    type V = EventModel;

    open spec fn view(&self) -> EventModel {
        match self {
            Event::Clock(nanos) => EventModel::Clock(*nanos),
            Event::Answer(outcome) => EventModel::Answer(outcome@),
        }
    }
}

/// The time between two readings of the clock; none where the second
/// reading lies before the first.
pub open spec fn span_between(started_at: u64, stopped_at: u64) -> u64 {
    if stopped_at >= started_at {
        (stopped_at - started_at) as u64
    } else {
        0
    }
}

/// The mathematical content of a runner.
pub struct RunnerModel {
    /// What the phase does.
    pub kind: OpKind,
    /// How a read phase finds its records.
    pub lookup: Lookup,
    /// The record indices in the order in which the phase walks them.
    pub order: Seq<i64>,
    /// The `user_id` of the record with the index 0; the record with the
    /// index `i` has the `user_id` `first + i`.
    pub first: i64,
    /// For lookups by identifier: the identifier of each record, by index.
    pub known_ids: Seq<DocumentId>,
    /// Where the run stands.
    pub stage: Stage,
    /// The number of operations answered with success.
    pub done: nat,
    /// The identifiers that the store gave the records written so far.
    pub collected: Seq<DocumentId>,
}

impl RunnerModel {
    /// The number of records of the phase.
    pub open spec fn count(self) -> nat {
        self.order.len()
    }

    /// The number of operations of the phase: one for a batch, else one for
    /// each record.
    pub open spec fn operations(self) -> nat {
        if self.kind == OpKind::BatchInsert {
            1
        } else {
            self.count()
        }
    }

    /// The number of records that the operations answered so far covered.
    pub open spec fn records_done(self) -> nat {
        if self.kind == OpKind::BatchInsert {
            if self.done >= 1 {
                self.count()
            } else {
                0
            }
        } else {
            self.done
        }
    }

    /// The record indices that the operations answered so far covered, in
    /// the order in which they were covered.
    pub open spec fn visited(self) -> Seq<i64> {
        self.order.take(self.records_done() as int)
    }

    /// The `user_id` of the record that the phase walks as its `i`-th.
    pub open spec fn user_id_at(self, i: int) -> i64 {
        (self.first + self.order[i]) as i64
    }

    /// The records of the whole phase, in visit order.
    pub open spec fn batch(self) -> Seq<DocumentModel> {
        Seq::new(self.order.len(), |i: int| synthetic_model(self.user_id_at(i)))
    }

    /// The operation with the number `i`.
    pub open spec fn operation_at(self, i: int) -> OperationModel {
        match self.kind {
            OpKind::SequentialInsert => OperationModel::InsertOne(
                synthetic_model(self.user_id_at(i)),
            ),
            OpKind::BatchInsert => OperationModel::InsertMany(self.batch()),
            OpKind::SequentialRead | OpKind::RandomRead => match self.lookup {
                Lookup::ByUserId => OperationModel::FindByUserId(self.user_id_at(i)),
                Lookup::ById => OperationModel::FindById(self.known_ids[self.order[i] as int]),
            },
        }
    }

    /// The state is one that a run can be in.
    pub open spec fn wf(self) -> bool {
        &&& self.order.len() <= u32::MAX
        &&& self.first + self.order.len() <= i64::MAX
        &&& is_visit_order(self.order)
        &&& self.kind != OpKind::RandomRead ==> self.order == identity_order(self.order.len())
        &&& match self.lookup {
            Lookup::ByUserId => self.known_ids.len() == 0,
            Lookup::ById => !self.kind.spec_is_insert() && self.known_ids.len()
                == self.order.len(),
        }
        &&& self.done <= self.operations()
        &&& self.collected.len() == (if self.kind.spec_is_insert() {
            self.records_done()
        } else {
            0
        })
        &&& match self.stage {
            Stage::Ready => self.done == 0,
            Stage::Timing { .. } => true,
            Stage::Finished(result) => self.done == self.operations() && result.kind
                == self.kind && result.count == self.count(),
            Stage::Failed(error) => self.done < self.operations() && error.operation
                == self.kind && error.index == self.records_done(),
        }
    }

    /// The run is over: it holds a result or an error.
    pub open spec fn is_over(self) -> bool {
        self.stage is Finished || self.stage is Failed
    }

    /// What the driver is to do next.
    pub open spec fn next_action(self) -> ActionModel {
        match self.stage {
            Stage::Ready => ActionModel::ReadClock,
            Stage::Timing { .. } => if self.done < self.operations() {
                ActionModel::Perform(self.operation_at(self.done as int))
            } else {
                ActionModel::ReadClock
            },
            Stage::Finished(_) | Stage::Failed(_) => ActionModel::Stop,
        }
    }

    /// The answer is one that the kind of phase can get.
    pub open spec fn answer_fits(self, outcome: OutcomeModel) -> bool {
        match outcome {
            OutcomeModel::Failed(_) => true,
            OutcomeModel::Inserted(_) => self.kind == OpKind::SequentialInsert,
            OutcomeModel::InsertedMany(_) => self.kind == OpKind::BatchInsert,
            OutcomeModel::Found | OutcomeModel::Missing => !self.kind.spec_is_insert(),
        }
    }

    /// The event is the answer to the action that the run is waiting for.
    pub open spec fn accepts(self, event: EventModel) -> bool {
        match self.stage {
            Stage::Ready => event is Clock,
            Stage::Timing { .. } => match event {
                EventModel::Clock(_) => self.done == self.operations(),
                EventModel::Answer(outcome) => self.done < self.operations() && self.answer_fits(
                    outcome,
                ),
            },
            Stage::Finished(_) | Stage::Failed(_) => false,
        }
    }

    /// The run stopped by a failure.
    pub open spec fn failed(self, cause: Failure) -> RunnerModel {
        RunnerModel {
            stage: Stage::Failed(
                WorkloadError {
                    operation: self.kind,
                    index: self.records_done() as u32,
                    cause,
                },
            ),
            ..self
        }
    }

    /// The state after `event`. An event that the run is not waiting for
    /// leaves the state as it is.
    pub open spec fn step(self, event: EventModel) -> RunnerModel {
        if !self.accepts(event) {
            self
        } else {
            match (self.stage, event) {
                (Stage::Ready, EventModel::Clock(now)) => RunnerModel {
                    stage: Stage::Timing { started_at: now },
                    ..self
                },
                (Stage::Timing { started_at }, EventModel::Clock(now)) => RunnerModel {
                    stage: Stage::Finished(
                        WorkloadResult {
                            kind: self.kind,
                            count: self.count() as u32,
                            elapsed_nanos: span_between(started_at, now),
                        },
                    ),
                    ..self
                },
                (_, EventModel::Answer(OutcomeModel::Failed(cause))) => self.failed(cause),
                (_, EventModel::Answer(OutcomeModel::Missing)) => self.failed(Failure::NotFound),
                (_, EventModel::Answer(OutcomeModel::Found)) => RunnerModel {
                    done: self.done + 1,
                    ..self
                },
                (_, EventModel::Answer(OutcomeModel::Inserted(id))) => RunnerModel {
                    done: self.done + 1,
                    collected: self.collected.push(id),
                    ..self
                },
                (_, EventModel::Answer(OutcomeModel::InsertedMany(ids))) => if ids.len()
                    == self.count() {
                    RunnerModel { done: 1, collected: ids, ..self }
                } else {
                    self.failed(Failure::Storage)
                },
                _ => self,
            }
        }
    }
}

/// Every step of a run leads to a state that a run can be in.
pub proof fn lemma_step_keeps_wf(m: RunnerModel, event: EventModel)
    requires
        m.wf(),
    ensures
        m.step(event).wf(),
{
}

/// One timed phase of operations on a collection.
#[derive(Debug)]
pub struct WorkloadRunner {
    kind: OpKind,
    lookup: Lookup,
    order: Vec<i64>,
    first: i64,
    known_ids: Vec<DocumentId>,
    stage: Stage,
    done: u32,
    collected: Vec<DocumentId>,
}

impl View for WorkloadRunner {
    type V = RunnerModel;

    closed spec fn view(&self) -> RunnerModel {
        RunnerModel {
            kind: self.kind,
            lookup: self.lookup,
            order: self.order@,
            first: self.first,
            known_ids: self.known_ids@,
            stage: self.stage,
            done: self.done as nat,
            collected: self.collected@,
        }
    }
}

impl WorkloadRunner {
    /// A runner is always in a state that a run can be in.
    #[verifier::type_invariant]
    pub open spec fn valid(self) -> bool {
        self@.wf()
    }

    /// A run of `kind` over the records `0..count` in index order, ready to
    /// start, that looks records up by `user_id`.
    fn in_index_order(kind: OpKind, count: u32) -> (runner: WorkloadRunner)
        requires
            kind != OpKind::RandomRead,
        ensures
            runner@ == (RunnerModel {
                kind,
                lookup: Lookup::ByUserId,
                order: identity_order(count as nat),
                first: 0,
                known_ids: Seq::empty(),
                stage: Stage::Ready,
                done: 0,
                collected: Seq::empty(),
            }),
            runner@.wf(),
    {
        let order = sequential_order(count);
        proof {
            lemma_identity_visits_each_once(count as nat);
        }
        WorkloadRunner {
            kind,
            lookup: Lookup::ByUserId,
            order,
            first: 0,
            known_ids: Vec::new(),
            stage: Stage::Ready,
            done: 0,
            collected: Vec::new(),
        }
    }

    /// A phase that inserts the records `0..count` one by one.
    pub fn sequential_insert(count: u32) -> (runner: WorkloadRunner)
        ensures
            runner@ == (RunnerModel {
                kind: OpKind::SequentialInsert,
                lookup: Lookup::ByUserId,
                order: identity_order(count as nat),
                first: 0,
                known_ids: Seq::empty(),
                stage: Stage::Ready,
                done: 0,
                collected: Seq::empty(),
            }),
            runner@.wf(),
    {
        Self::in_index_order(OpKind::SequentialInsert, count)
    }

    /// A phase that inserts the records `0..count` as one batch.
    pub fn batch_insert(count: u32) -> (runner: WorkloadRunner)
        ensures
            runner@ == (RunnerModel {
                kind: OpKind::BatchInsert,
                lookup: Lookup::ByUserId,
                order: identity_order(count as nat),
                first: 0,
                known_ids: Seq::empty(),
                stage: Stage::Ready,
                done: 0,
                collected: Seq::empty(),
            }),
            runner@.wf(),
    {
        Self::in_index_order(OpKind::BatchInsert, count)
    }

    /// A phase that looks the records `0..count` up in index order.
    pub fn sequential_read(count: u32) -> (runner: WorkloadRunner)
        ensures
            runner@ == (RunnerModel {
                kind: OpKind::SequentialRead,
                lookup: Lookup::ByUserId,
                order: identity_order(count as nat),
                first: 0,
                known_ids: Seq::empty(),
                stage: Stage::Ready,
                done: 0,
                collected: Seq::empty(),
            }),
            runner@.wf(),
    {
        Self::in_index_order(OpKind::SequentialRead, count)
    }

    /// A phase that looks the records `0..count` up in an order drawn from
    /// `source`: each record exactly once. The run takes the source for
    /// itself, so no other run draws from it.
    pub fn random_read(count: u32, source: RandomSource) -> (runner: WorkloadRunner)
        ensures
            runner@.kind == OpKind::RandomRead,
            runner@.lookup == Lookup::ByUserId,
            visits_each_once(runner@.order, count as nat),
            runner@.first == 0,
            runner@.known_ids == Seq::<DocumentId>::empty(),
            runner@.stage == Stage::Ready,
            runner@.done == 0,
            runner@.collected == Seq::<DocumentId>::empty(),
            runner@.wf(),
    {
        let mut source = source;
        let order = shuffled_order(count, &mut source);
        WorkloadRunner {
            kind: OpKind::RandomRead,
            lookup: Lookup::ByUserId,
            order,
            first: 0,
            known_ids: Vec::new(),
            stage: Stage::Ready,
            done: 0,
            collected: Vec::new(),
        }
    }

    /// A phase of the kind over the records `0..count`; `source` is drawn
    /// from only for a random read.
    pub fn of_kind(kind: OpKind, count: u32, source: RandomSource) -> (runner: WorkloadRunner)
        ensures
            runner@.kind == kind,
            runner@.lookup == Lookup::ByUserId,
            visits_each_once(runner@.order, count as nat),
            kind != OpKind::RandomRead ==> runner@.order == identity_order(count as nat),
            runner@.first == 0,
            runner@.known_ids == Seq::<DocumentId>::empty(),
            runner@.stage == Stage::Ready,
            runner@.done == 0,
            runner@.collected == Seq::<DocumentId>::empty(),
            runner@.wf(),
    {
        proof {
            lemma_identity_visits_each_once(count as nat);
        }
        match kind {
            OpKind::RandomRead => Self::random_read(count, source),
            _ => Self::in_index_order(kind, count),
        }
    }

    /// A phase that looks records up in the given order, such as the order
    /// of an earlier run. There is none where `order` is no visit order:
    /// where it holds a number twice, or one that is no index into it, or
    /// more numbers than a phase can count.
    pub fn random_read_in(order: Vec<i64>) -> (runner: Option<WorkloadRunner>)
        ensures
            runner is Some <==> is_visit_order(order@) && order@.len() <= u32::MAX,
            runner matches Some(r) ==> r@ == (RunnerModel {
                kind: OpKind::RandomRead,
                lookup: Lookup::ByUserId,
                order: order@,
                first: 0,
                known_ids: Seq::empty(),
                stage: Stage::Ready,
                done: 0,
                collected: Seq::empty(),
            }) && r@.wf(),
    {
        if order.len() > u32::MAX as usize || !check_visit_order(&order) {
            return None;
        }
        Some(
            WorkloadRunner {
                kind: OpKind::RandomRead,
                lookup: Lookup::ByUserId,
                order,
                first: 0,
                known_ids: Vec::new(),
                stage: Stage::Ready,
                done: 0,
                collected: Vec::new(),
            },
        )
    }

    /// Turns a read phase that has not started into one that looks each
    /// record up by the identifier that the store gave it: `ids[i]` for the
    /// record `i`. The runner comes back unchanged, as an error, where it
    /// writes, has started, or `ids` holds another number of identifiers
    /// than the phase has records.
    pub fn by_id(self, ids: Vec<DocumentId>) -> (changed: Result<WorkloadRunner, WorkloadRunner>)
        ensures
            changed is Ok <==> !self@.kind.spec_is_insert() && self@.stage is Ready && ids@.len()
                == self@.count(),
            match changed {
                Ok(runner) => runner@ == (RunnerModel {
                    lookup: Lookup::ById,
                    known_ids: ids@,
                    ..self@
                }) && runner@.wf(),
                Err(runner) => runner@ == self@ && runner@.wf(),
            },
    {
        proof {
            use_type_invariant(&self);
        }
        let ready = match self.stage {
            Stage::Ready => true,
            _ => false,
        };
        if !self.kind.is_insert() && ready && ids.len() == self.order.len() {
            let WorkloadRunner {
                kind,
                lookup: _,
                order,
                first,
                known_ids: _,
                stage,
                done,
                collected,
            } = self;
            Ok(
                WorkloadRunner {
                    kind,
                    lookup: Lookup::ById,
                    order,
                    first,
                    known_ids: ids,
                    stage,
                    done,
                    collected,
                },
            )
        } else {
            Err(self)
        }
    }

    /// Numbers the records from `first` on: the record with the index `i`
    /// gets the `user_id` `first + i`. The runner comes back unchanged, as
    /// an error, where it has started, or where the last `user_id` would be
    /// too large for its type.
    pub fn starting_at(self, first: i64) -> (changed: Result<WorkloadRunner, WorkloadRunner>)
        ensures
            changed is Ok <==> self@.stage is Ready && first + self@.count() <= i64::MAX,
            match changed {
                Ok(runner) => runner@ == (RunnerModel { first, ..self@ }) && runner@.wf(),
                Err(runner) => runner@ == self@ && runner@.wf(),
            },
    {
        proof {
            use_type_invariant(&self);
        }
        let ready = match self.stage {
            Stage::Ready => true,
            _ => false,
        };
        if ready && first <= i64::MAX - (self.order.len() as i64) {
            let WorkloadRunner { kind, lookup, order, first: _, known_ids, stage, done, collected } =
                self;
            Ok(WorkloadRunner { kind, lookup, order, first, known_ids, stage, done, collected })
        } else {
            Err(self)
        }
    }

    /// The `user_id` of the record that the phase walks as its `i`-th.
    fn user_id(&self, i: usize) -> (user_id: i64)
        requires
            i < self@.order.len(),
        ensures
            user_id == self@.user_id_at(i as int),
    {
        proof {
            use_type_invariant(self);
        }
        self.first + self.order[i]
    }

    /// What the phase does.
    pub fn kind(&self) -> (kind: OpKind)
        ensures
            kind == self@.kind,
    {
        self.kind
    }

    /// The number of records of the phase.
    pub fn count(&self) -> (count: u32)
        ensures
            count == self@.count(),
    {
        proof {
            use_type_invariant(self);
        }
        self.order.len() as u32
    }

    /// The record indices in the order in which the phase walks them.
    pub fn order(&self) -> (order: &Vec<i64>)
        ensures
            order@ == self@.order,
            is_visit_order(order@),
            visits_each_once(order@, self@.count()),
    {
        proof {
            use_type_invariant(self);
            lemma_visit_order_visits_each_once(self.order@);
        }
        &self.order
    }

    /// Where the run stands.
    pub fn stage(&self) -> (stage: Stage)
        ensures
            stage == self@.stage,
    {
        self.stage
    }

    /// The run is over: it holds a result or an error.
    pub fn is_over(&self) -> (over: bool)
        ensures
            over == self@.is_over(),
    {
        match self.stage {
            Stage::Finished(_) | Stage::Failed(_) => true,
            _ => false,
        }
    }

    /// The number of records that the operations answered so far covered.
    pub fn records_done(&self) -> (n: u32)
        ensures
            n == self@.records_done(),
    {
        proof {
            use_type_invariant(self);
        }
        match self.kind {
            OpKind::BatchInsert => if self.done >= 1 {
                self.order.len() as u32
            } else {
                0
            },
            _ => self.done,
        }
    }

    /// The result of the run, once every operation has succeeded and the
    /// clock was read again. It counts every record of the phase.
    pub fn result(&self) -> (result: Option<WorkloadResult>)
        ensures
            result == match self@.stage {
                Stage::Finished(r) => Some(r),
                _ => None,
            },
            result matches Some(r) ==> r.kind == self@.kind && r.count == self@.count()
                && self@.records_done() == self@.count(),
    {
        proof {
            use_type_invariant(self);
        }
        match self.stage {
            Stage::Finished(r) => Some(r),
            _ => None,
        }
    }

    /// The error of the run, once an operation has failed. It names the
    /// kind of phase and the number of records processed before.
    pub fn error(&self) -> (error: Option<WorkloadError>)
        ensures
            error == match self@.stage {
                Stage::Failed(e) => Some(e),
                _ => None,
            },
            error matches Some(e) ==> e.operation == self@.kind && e.index
                == self@.records_done() && self@.records_done() < self@.count() + 1,
    {
        proof {
            use_type_invariant(self);
        }
        match self.stage {
            Stage::Failed(e) => Some(e),
            _ => None,
        }
    }

    /// The identifiers that the store gave the records written so far: one
    /// for each record covered, in the order in which they were written.
    pub fn inserted_ids(&self) -> (ids: &Vec<DocumentId>)
        ensures
            ids@ == self@.collected,
            self@.kind.spec_is_insert() ==> ids@.len() == self@.records_done(),
            !self@.kind.spec_is_insert() ==> ids@.len() == 0,
    {
        proof {
            use_type_invariant(self);
        }
        &self.collected
    }

    /// The records of the whole phase, in visit order.
    fn build_batch(&self) -> (documents: Vec<Document>)
        ensures
            document_models(documents@) == self@.batch(),
    {
        let mut documents: Vec<Document> = Vec::new();
        let mut i: usize = 0;
        while i < self.order.len()
            invariant
                i <= self.order.len(),
                documents.len() == i,
                forall|j: int|
                    0 <= j < i ==> (#[trigger] documents@[j])@ == synthetic_model(
                        self@.user_id_at(j),
                    ),
            decreases self.order.len() - i,
        {
            documents.push(synthetic_document(self.user_id(i)));
            i = i + 1;
        }
        assert(document_models(documents@) =~= self@.batch());
        documents
    }

    /// What the driver is to do next.
    pub fn next_action(&self) -> (action: Action)
        ensures
            action@ == self@.next_action(),
    {
        proof {
            use_type_invariant(self);
        }
        match self.stage {
            Stage::Ready => Action::ReadClock,
            Stage::Finished(_) | Stage::Failed(_) => Action::Stop,
            Stage::Timing { .. } => {
                match self.kind {
                    OpKind::BatchInsert => {
                        if self.done < 1 {
                            Action::Perform(Operation::InsertMany(self.build_batch()))
                        } else {
                            Action::ReadClock
                        }
                    },
                    OpKind::SequentialInsert => {
                        if (self.done as usize) < self.order.len() {
                            let user_id = self.user_id(self.done as usize);
                            Action::Perform(Operation::InsertOne(synthetic_document(user_id)))
                        } else {
                            Action::ReadClock
                        }
                    },
                    OpKind::SequentialRead | OpKind::RandomRead => {
                        if (self.done as usize) < self.order.len() {
                            match self.lookup {
                                Lookup::ByUserId => Action::Perform(
                                    Operation::FindByUserId(self.user_id(self.done as usize)),
                                ),
                                Lookup::ById => {
                                    let index = self.order[self.done as usize];
                                    assert(0 <= self.order@[self.done as int] < self.order@.len());
                                    Action::Perform(
                                        Operation::FindById(self.known_ids[index as usize]),
                                    )
                                },
                            }
                        } else {
                            Action::ReadClock
                        }
                    },
                }
            },
        }
    }

    /// Moves the state out and leaves a run over no records in its place.
    fn take(&mut self) -> (state: WorkloadRunner)
        ensures
            state == *old(self),
    {
        let order: Vec<i64> = Vec::new();
        assert(order@ =~= identity_order(0));
        let mut state = WorkloadRunner {
            kind: OpKind::SequentialRead,
            lookup: Lookup::ByUserId,
            order,
            first: 0,
            known_ids: Vec::new(),
            stage: Stage::Ready,
            done: 0,
            collected: Vec::new(),
        };
        core::mem::swap(self, &mut state);
        state
    }

    /// Takes in what the driver reports, and tells whether the run was
    /// waiting for it. An event that the run was not waiting for changes
    /// nothing.
    pub fn advance(&mut self, event: Event) -> (accepted: bool)
        ensures
            accepted == old(self)@.accepts(event@),
            final(self)@ == old(self)@.step(event@),
            final(self)@.wf(),
    {
        proof {
            use_type_invariant(&*self);
            lemma_step_keeps_wf(self@, event@);
        }
        let WorkloadRunner { kind, lookup, order, first, known_ids, stage, done, collected } =
            self.take();
        let ghost before = RunnerModel {
            kind,
            lookup,
            order: order@,
            first,
            known_ids: known_ids@,
            stage,
            done: done as nat,
            collected: collected@,
        };
        let operations: usize = match kind {
            OpKind::BatchInsert => 1,
            _ => order.len(),
        };
        let records_done: u32 = match kind {
            OpKind::BatchInsert => if done >= 1 {
                order.len() as u32
            } else {
                0
            },
            _ => done,
        };
        let mut accepted = false;
        let mut next_stage = stage;
        let mut next_done = done;
        let mut next_collected = collected;
        match stage {
            Stage::Ready => {
                if let Event::Clock(now) = event {
                    accepted = true;
                    next_stage = Stage::Timing { started_at: now };
                }
            },
            Stage::Timing { started_at } => {
                match event {
                    Event::Clock(now) => {
                        if done as usize == operations {
                            accepted = true;
                            let elapsed = if now >= started_at {
                                now - started_at
                            } else {
                                0
                            };
                            next_stage = Stage::Finished(
                                WorkloadResult {
                                    kind,
                                    count: order.len() as u32,
                                    elapsed_nanos: elapsed,
                                },
                            );
                        }
                    },
                    Event::Answer(outcome) => {
                        if (done as usize) < operations {
                            match outcome {
                                Outcome::Failed(cause) => {
                                    accepted = true;
                                    next_stage = Stage::Failed(
                                        WorkloadError { operation: kind, index: records_done, cause },
                                    );
                                },
                                Outcome::Missing => {
                                    if !kind.is_insert() {
                                        accepted = true;
                                        next_stage = Stage::Failed(
                                            WorkloadError {
                                                operation: kind,
                                                index: records_done,
                                                cause: Failure::NotFound,
                                            },
                                        );
                                    }
                                },
                                Outcome::Found => {
                                    if !kind.is_insert() {
                                        accepted = true;
                                        next_done = done + 1;
                                    }
                                },
                                Outcome::Inserted(id) => {
                                    if kind == OpKind::SequentialInsert {
                                        accepted = true;
                                        next_done = done + 1;
                                        next_collected.push(id);
                                    }
                                },
                                Outcome::InsertedMany(ids) => {
                                    if kind == OpKind::BatchInsert {
                                        accepted = true;
                                        if ids.len() == order.len() {
                                            next_done = 1;
                                            next_collected = ids;
                                        } else {
                                            next_stage = Stage::Failed(
                                                WorkloadError {
                                                    operation: kind,
                                                    index: records_done,
                                                    cause: Failure::Storage,
                                                },
                                            );
                                        }
                                    }
                                },
                            }
                        }
                    },
                }
            },
            Stage::Finished(_) | Stage::Failed(_) => {},
        }
        proof {
            let after = RunnerModel {
                kind,
                lookup,
                order: order@,
                first,
                known_ids: known_ids@,
                stage: next_stage,
                done: next_done as nat,
                collected: next_collected@,
            };
            assert(accepted == before.accepts(event@));
            assert(after == before.step(event@));
        }
        *self = WorkloadRunner {
            kind,
            lookup,
            order,
            first,
            known_ids,
            stage: next_stage,
            done: next_done,
            collected: next_collected,
        };
        accepted
    }
}

} // verus!
