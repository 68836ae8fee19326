//! The store: named collections behind one handle.
//!
//! A collection is reached through a proxy that names it. Asking for a
//! proxy, and reading through one, leaves the store as it is; a collection
//! that does not exist yet is made by the first insert or index request
//! that goes through its proxy. Every collection gives out identifiers of a
//! series of its own, and no series is used twice, so no two documents of a
//! store share an identifier.

use vstd::prelude::*;
use vstd::string::*;

use crate::collection::{
    count_matches, find_by_field, find_by_id, index_fits, Collection, CollectionModel, IndexKind,
    Mutation,
};
use crate::document::{Document, Value};
use crate::ops::{
    document_models, DocumentId, Failure, Operation, OperationModel, Outcome, OutcomeModel,
};

verus! {

/// The place of the first collection called `name`; the number of
/// collections where there is none.
pub open spec fn slot_of(collections: Seq<CollectionModel>, name: Seq<char>) -> int
    decreases collections.len(),
{
    if collections.len() == 0 {
        0
    } else if collections.first().name == name {
        0
    } else {
        1 + slot_of(collections.drop_first(), name)
    }
}

/// The place that `slot_of` gives is the first with a collection of that
/// name.
pub proof fn lemma_slot_of(collections: Seq<CollectionModel>, name: Seq<char>)
    ensures
        0 <= slot_of(collections, name) <= collections.len(),
        slot_of(collections, name) < collections.len() ==> collections[slot_of(
            collections,
            name,
        )].name == name,
        forall|i: int| 0 <= i < slot_of(collections, name) ==> (#[trigger] collections[i]).name != name,
    decreases collections.len(),
{
    if collections.len() > 0 && collections.first().name != name {
        let rest = collections.drop_first();
        lemma_slot_of(rest, name);
        assert forall|i: int| 0 <= i < slot_of(collections, name) implies (
        #[trigger] collections[i]).name != name by {
            if i > 0 {
                assert(collections[i] == rest[i - 1]);
            }
        }
    }
}

/// A place is the one that `slot_of` gives where it holds a collection of
/// that name and no place before it does.
pub proof fn lemma_slot_of_is(collections: Seq<CollectionModel>, name: Seq<char>, slot: int)
    requires
        0 <= slot <= collections.len(),
        slot < collections.len() ==> collections[slot].name == name,
        forall|i: int| 0 <= i < slot ==> (#[trigger] collections[i]).name != name,
    ensures
        slot_of(collections, name) == slot,
{
    lemma_slot_of(collections, name);
    let found = slot_of(collections, name);
    if found < slot {
        assert(collections[found].name != name);
    } else if slot < found {
        assert(collections[slot].name != name);
    }
}

/// The mathematical content of a store.
pub struct StoreModel {
    /// The handle has not been closed.
    pub open: bool,
    /// The collections, in the order in which they were made.
    pub collections: Seq<CollectionModel>,
    /// The number of collections made so far, those that were dropped too.
    pub made: nat,
}

impl StoreModel {
    /// Every collection has a name and a series of its own, and the series
    /// are among those given out.
    pub open spec fn wf(self) -> bool {
        &&& self.made <= u32::MAX
        &&& forall|i: int|
            0 <= i < self.collections.len() ==> (#[trigger] self.collections[i]).wf()
                && self.collections[i].series < self.made
        &&& forall|i: int, j: int|
            0 <= i < j < self.collections.len() ==> (#[trigger] self.collections[i]).series < (
            #[trigger] self.collections[j]).series
        &&& forall|i: int, j: int|
            0 <= i < j < self.collections.len() ==> (#[trigger] self.collections[i]).name != (
            #[trigger] self.collections[j]).name
    }

    /// The store has a collection called `name`.
    pub open spec fn has(self, name: Seq<char>) -> bool {
        slot_of(self.collections, name) < self.collections.len()
    }

    /// The store has a collection called `name`, or a series left to make
    /// one.
    pub open spec fn can_make(self, name: Seq<char>) -> bool {
        self.has(name) || self.made < u32::MAX
    }

    /// The collection called `name`; where the store has none, the empty
    /// collection that the first write to that name starts from.
    pub open spec fn at(self, name: Seq<char>) -> CollectionModel {
        if self.has(name) {
            self.collections[slot_of(self.collections, name)]
        } else {
            CollectionModel::empty(name, self.made as u32)
        }
    }

    /// The store after the collection took the place of the one of its
    /// name, or joined the others where there was none of its name.
    pub open spec fn with(self, collection: CollectionModel) -> StoreModel {
        if self.has(collection.name) {
            StoreModel {
                collections: self.collections.update(
                    slot_of(self.collections, collection.name),
                    collection,
                ),
                ..self
            }
        } else {
            StoreModel {
                collections: self.collections.push(collection),
                made: self.made + 1,
                ..self
            }
        }
    }

    /// What the store answers to an operation of a workload on the
    /// collection called `name`.
    pub open spec fn answer(self, name: Seq<char>, operation: OperationModel) -> OutcomeModel {
        if !self.open {
            OutcomeModel::Failed(Failure::Engine)
        } else if operation.is_insert() && !self.can_make(name) {
            OutcomeModel::Failed(Failure::Storage)
        } else {
            self.at(name).answer(operation)
        }
    }

    /// The store after an operation of a workload on the collection called
    /// `name`: an insert that is done changes that collection, or makes it;
    /// nothing else changes anything.
    pub open spec fn after(self, name: Seq<char>, operation: OperationModel) -> StoreModel {
        if operation.is_insert() && !(self.answer(name, operation) is Failed) {
            self.with(self.at(name).after(operation))
        } else {
            self
        }
    }

    /// The store without the collection called `name`.
    pub open spec fn without(self, name: Seq<char>) -> StoreModel {
        if self.has(name) {
            StoreModel {
                collections: self.collections.remove(slot_of(self.collections, name)),
                ..self
            }
        } else {
            self
        }
    }
}

/// A store in which a collection is put in the place of its name is a
/// store still; it has that collection under its name, and every other
/// collection as it was.
pub proof fn lemma_with(s: StoreModel, c: CollectionModel)
    requires
        s.wf(),
        c.wf(),
        s.can_make(c.name),
        c.series == s.at(c.name).series,
    ensures
        s.with(c).wf(),
        s.with(c).has(c.name),
        s.with(c).at(c.name) == c,
        s.with(c).open == s.open,
        forall|other: Seq<char>|
            other != c.name ==> (#[trigger] s.with(c).has(other) == s.has(other)) && (s.has(other)
                ==> s.with(c).at(other) == s.at(other)),
{
    let after = s.with(c);
    let slot = slot_of(s.collections, c.name);
    lemma_slot_of(s.collections, c.name);
    assert forall|i: int, j: int| 0 <= i < j < after.collections.len() implies (
    #[trigger] after.collections[i]).series < (#[trigger] after.collections[j]).series
        && after.collections[i].name != after.collections[j].name by {
        if s.has(c.name) {
            assert(after.collections[i].series == s.collections[i].series);
            assert(after.collections[j].series == s.collections[j].series);
            assert(after.collections[i].name == s.collections[i].name);
            assert(after.collections[j].name == s.collections[j].name);
        } else {
            if j < s.collections.len() {
                assert(after.collections[i] == s.collections[i]);
                assert(after.collections[j] == s.collections[j]);
            } else {
                assert(after.collections[i] == s.collections[i]);
                assert(s.collections[i].name != c.name);
            }
        }
    }
    assert forall|i: int| 0 <= i < after.collections.len() implies (
    #[trigger] after.collections[i]).wf() && after.collections[i].series < after.made by {
        if i != slot {
            assert(after.collections[i] == s.collections[i]);
        }
    }
    assert forall|i: int| 0 <= i < slot implies (#[trigger] after.collections[i]).name
        != c.name by {
        assert(after.collections[i] == s.collections[i]);
    }
    lemma_slot_of_is(after.collections, c.name, slot);
    assert forall|other: Seq<char>| other != c.name implies (#[trigger] after.has(other)
        == s.has(other)) && (s.has(other) ==> after.at(other) == s.at(other)) by {
        lemma_slot_of(s.collections, other);
        let place = slot_of(s.collections, other);
        assert forall|i: int| 0 <= i < place && i < after.collections.len() implies (
        #[trigger] after.collections[i]).name != other by {
            if i != slot {
                assert(after.collections[i] == s.collections[i]);
            }
        }
        if place < s.collections.len() {
            assert(place != slot);
            assert(after.collections[place] == s.collections[place]);
            lemma_slot_of_is(after.collections, other, place);
        } else {
            lemma_slot_of_is(after.collections, other, after.collections.len() as int);
        }
    }
}

/// A store from which a collection is dropped is a store still; it has no
/// collection of that name, and every other collection as it was.
pub proof fn lemma_without(s: StoreModel, name: Seq<char>)
    requires
        s.wf(),
    ensures
        s.without(name).wf(),
        !s.without(name).has(name),
        s.without(name).made == s.made,
        forall|other: Seq<char>|
            other != name ==> (#[trigger] s.without(name).has(other) == s.has(other)) && (s.has(
                other,
            ) ==> s.without(name).at(other) == s.at(other)),
{
    let after = s.without(name);
    let slot = slot_of(s.collections, name);
    lemma_slot_of(s.collections, name);
    if s.has(name) {
        assert forall|i: int| 0 <= i < after.collections.len() implies (
        #[trigger] after.collections[i]) == s.collections[if i < slot {
            i
        } else {
            i + 1
        }] by {}
        assert forall|i: int, j: int| 0 <= i < j < after.collections.len() implies (
        #[trigger] after.collections[i]).series < (#[trigger] after.collections[j]).series
            && after.collections[i].name != after.collections[j].name by {
            let i0 = if i < slot { i } else { i + 1 };
            let j0 = if j < slot { j } else { j + 1 };
            assert(s.collections[i0].series < s.collections[j0].series);
        }
        assert forall|i: int| 0 <= i < after.collections.len() implies (
        #[trigger] after.collections[i]).name != name by {
            let i0 = if i < slot { i } else { i + 1 };
            if i0 < slot {
                assert(s.collections[i0].name != s.collections[slot].name);
            } else {
                assert(s.collections[slot].name != s.collections[i0].name);
            }
        }
        lemma_slot_of_is(after.collections, name, after.collections.len() as int);
        assert forall|other: Seq<char>| other != name implies (#[trigger] after.has(other)
            == s.has(other)) && (s.has(other) ==> after.at(other) == s.at(other)) by {
            lemma_slot_of(s.collections, other);
            let place = slot_of(s.collections, other);
            if place < s.collections.len() {
                let moved = if place < slot { place } else { place - 1 };
                assert forall|i: int| 0 <= i < moved implies (#[trigger] after.collections[i]).name
                    != other by {
                    let i0 = if i < slot { i } else { i + 1 };
                    assert(s.collections[i0].name != other);
                }
                lemma_slot_of_is(after.collections, other, moved);
            } else {
                assert forall|i: int| 0 <= i < after.collections.len() implies (
                #[trigger] after.collections[i]).name != other by {
                    let i0 = if i < slot { i } else { i + 1 };
                    assert(s.collections[i0].name != other);
                }
                lemma_slot_of_is(after.collections, other, after.collections.len() as int);
            }
        }
    }
}

/// No two documents of a store share an identifier: two entries of one
/// collection differ in the number within the series, two entries of
/// different collections in the series.
pub proof fn lemma_identifiers_are_unique(s: StoreModel, i: int, a: int, j: int, b: int)
    requires
        s.wf(),
        0 <= i < s.collections.len(),
        0 <= j < s.collections.len(),
        0 <= a < s.collections[i].entries.len(),
        0 <= b < s.collections[j].entries.len(),
        i != j || a != b,
    ensures
        s.collections[i].entries[a].id != s.collections[j].entries[b].id,
{
    let first = s.collections[i];
    let second = s.collections[j];
    assert(first.wf() && second.wf());
    assert(first.entries[a].id.high == first.series);
    assert(second.entries[b].id.high == second.series);
    if i == j {
        if a < b {
            assert(first.entries[a].id.low < first.entries[b].id.low);
        } else {
            assert(first.entries[b].id.low < first.entries[a].id.low);
        }
    } else if i < j {
        assert(first.series < second.series);
    } else {
        assert(second.series < first.series);
    }
}

/// The contents of a sequence of collections, place by place.
pub open spec fn collection_models(collections: Seq<Collection>) -> Seq<CollectionModel> {
    Seq::new(collections.len(), |i: int| collections[i]@)
}

/// The place of the first collection called `name`; the number of
/// collections where there is none.
fn find_slot(collections: &Vec<Collection>, name: &str) -> (slot: usize)
    ensures
        slot == slot_of(collection_models(collections@), name@),
        slot <= collections.len(),
{
    let key = String::from_str(name);
    let ghost models = collection_models(collections@);
    let mut i: usize = 0;
    while i < collections.len()
        invariant
            i <= collections.len(),
            key@ == name@,
            models == collection_models(collections@),
            forall|j: int| 0 <= j < i ==> (#[trigger] models[j]).name != name@,
        decreases collections.len() - i,
    {
        if *collections[i].name() == key {
            proof {
                lemma_slot_of_is(models, name@, i as int);
            }
            return i;
        }
        i = i + 1;
    }
    proof {
        lemma_slot_of_is(models, name@, i as int);
    }
    i
}

/// Finds the place to write to the collection called `name`, and puts an
/// empty collection of the series `made` there where there is none of that
/// name. Tells also whether it did.
fn place_for_write(collections: &mut Vec<Collection>, made: u32, name: &str) -> (place: (
    usize,
    bool,
))
    ensures
        place.0 == slot_of(collection_models(old(collections)@), name@),
        place.1 == (place.0 == old(collections).len()),
        place.0 < final(collections).len(),
        collection_models(final(collections)@) == if place.1 {
            collection_models(old(collections)@).push(CollectionModel::empty(name@, made))
        } else {
            collection_models(old(collections)@)
        },
{
    let slot = find_slot(collections, name);
    let fresh = slot == collections.len();
    if fresh {
        let ghost before = collection_models(collections@);
        collections.push(Collection::in_series(name, made));
        assert(collection_models(collections@) =~= before.push(
            CollectionModel::empty(name@, made),
        ));
    }
    (slot, fresh)
}

/// Settles a write: a collection that was put in for the write stays if
/// the write was done, and counts as made; it goes again if not.
fn settle(collections: &mut Vec<Collection>, made: u32, fresh: bool, done: bool) -> (made_after:
    u32)
    requires
        fresh ==> old(collections).len() > 0 && made < u32::MAX,
    ensures
        made_after == if fresh && done {
            made + 1
        } else {
            made as int
        },
        collection_models(final(collections)@) == if fresh && !done {
            collection_models(old(collections)@).drop_last()
        } else {
            collection_models(old(collections)@)
        },
{
    if fresh && !done {
        let ghost before = collection_models(collections@);
        collections.pop();
        assert(collection_models(collections@) =~= before.drop_last());
        made
    } else if fresh {
        made + 1
    } else {
        made
    }
}

/// What a settled write leaves: the store with the changed collection
/// where the write was done, and the store as it was where not.
proof fn lemma_settled(
    before: StoreModel,
    changed: CollectionModel,
    done: bool,
    lent: Seq<CollectionModel>,
    after: Seq<CollectionModel>,
)
    requires
        before.wf(),
        changed.wf(),
        before.can_make(changed.name),
        changed.series == before.at(changed.name).series,
        !done ==> changed == before.at(changed.name),
        lent == (if before.has(changed.name) {
            before.collections
        } else {
            before.collections.push(before.at(changed.name))
        }).update(slot_of(before.collections, changed.name), changed),
        after == if !before.has(changed.name) && !done {
            lent.drop_last()
        } else {
            lent
        },
    ensures
        before.with(changed).wf(),
        done ==> before.with(changed).collections == after,
        !done ==> before.collections == after,
{
    lemma_with(before, changed);
    lemma_slot_of(before.collections, changed.name);
    if done {
        assert(before.with(changed).collections =~= after);
    } else {
        assert(before.collections =~= after);
    }
}

/// A handle on one collection of a store: the name by which the store
/// knows it.
#[derive(Debug, PartialEq, Eq)]
pub struct CollectionProxy {
    name: String,
}

impl Clone for CollectionProxy {
    fn clone(&self) -> (copy: CollectionProxy)
        ensures
            copy@ == self@,
    {
        CollectionProxy { name: self.name.clone() }
    }
}

impl View for CollectionProxy {
    type V = Seq<char>;

    closed spec fn view(&self) -> Seq<char> {
        self.name@
    }
}

impl CollectionProxy {
    /// The name of the collection.
    pub fn name(&self) -> (name: &String)
        ensures
            name@ == self@,
    {
        &self.name
    }
}

/// A store of collections held in memory.
#[derive(Debug)]
pub struct Store {
    open: bool,
    collections: Vec<Collection>,
    made: u32,
}

impl View for Store {
    type V = StoreModel;

    closed spec fn view(&self) -> StoreModel {
        StoreModel {
            open: self.open,
            collections: collection_models(self.collections@),
            made: self.made as nat,
        }
    }
}

impl Store {
    /// A store is always in a state that a store can be in.
    #[verifier::type_invariant]
    pub open spec fn valid(self) -> bool {
        self@.wf()
    }

    /// An open store without collections.
    pub fn new() -> (store: Store)
        ensures
            store@ == (StoreModel { open: true, collections: Seq::empty(), made: 0 }),
            store@.wf(),
    {
        let store = Store { open: true, collections: Vec::new(), made: 0 };
        assert(store@.collections =~= Seq::empty());
        store
    }

    /// Moves the state out and leaves a closed, empty store in its place.
    fn take(&mut self) -> (state: Store)
        ensures
            state == *old(self),
    {
        let mut state = Store { open: false, collections: Vec::new(), made: 0 };
        core::mem::swap(self, &mut state);
        state
    }

    /// Tells whether the handle is still open.
    pub fn is_open(&self) -> (open: bool)
        ensures
            open == self@.open,
    {
        self.open
    }

    /// The number of collections.
    pub fn collection_count(&self) -> (n: usize)
        ensures
            n == self@.collections.len(),
    {
        self.collections.len()
    }

    /// Tells whether the store has a collection called `name`.
    pub fn has_collection(&self, name: &str) -> (found: bool)
        ensures
            found == self@.has(name@),
    {
        find_slot(&self.collections, name) < self.collections.len()
    }

    /// Closes the handle and lets go of every collection. A handle can be
    /// closed once: on one that is closed already the call fails and
    /// changes nothing.
    pub fn close(&mut self) -> (closed: Result<(), Failure>)
        ensures
            final(self)@.wf(),
            closed is Ok <==> old(self)@.open,
            match closed {
                Ok(_) => final(self)@ == (StoreModel {
                    open: false,
                    collections: Seq::empty(),
                    ..old(self)@
                }),
                Err(failure) => failure == Failure::Engine && final(self)@ == old(self)@,
            },
    {
        proof {
            use_type_invariant(&*self);
        }
        if !self.open {
            return Err(Failure::Engine);
        }
        let Store { open: _, collections: _, made } = self.take();
        let closed = Store { open: false, collections: Vec::new(), made };
        assert(closed@.collections =~= Seq::empty());
        *self = closed;
        Ok(())
    }

    /// A proxy for the collection called `name`. The store stays as it is:
    /// where it has no collection of that name, none is made before
    /// something is written through the proxy. A closed handle gives no
    /// proxy.
    pub fn collection(&self, name: &str) -> (proxy: Result<CollectionProxy, Failure>)
        ensures
            match proxy {
                Ok(p) => self@.open && p@ == name@,
                Err(failure) => !self@.open && failure == Failure::Engine,
            },
    {
        if !self.open {
            return Err(Failure::Engine);
        }
        Ok(CollectionProxy { name: String::from_str(name) })
    }

    /// The collection behind the proxy, where the handle is open and the
    /// collection has been made.
    pub fn get(&self, proxy: &CollectionProxy) -> (collection: Option<&Collection>)
        ensures
            self@.wf(),
            collection is Some <==> self@.open && self@.has(proxy@),
            collection matches Some(c) ==> c@ == self@.at(proxy@) && c@.wf(),
    {
        proof {
            use_type_invariant(self);
        }
        if !self.open {
            return None;
        }
        let slot = find_slot(&self.collections, proxy.name.as_str());
        if slot < self.collections.len() {
            assert(self@.collections[slot as int] == self.collections@[slot as int]@);
            Some(&self.collections[slot])
        } else {
            None
        }
    }

    /// Removes the collection called `name` with all it holds. Where the
    /// store has none of that name, nothing changes, and the call fails
    /// only if `must_exist` is set. On a closed handle it fails and changes
    /// nothing.
    pub fn drop_collection(&mut self, name: &str, must_exist: bool) -> (dropped: Result<
        (),
        Failure,
    >)
        ensures
            final(self)@.wf(),
            dropped is Ok <==> old(self)@.open && (old(self)@.has(name@) || !must_exist),
            match dropped {
                Ok(_) => final(self)@ == old(self)@.without(name@) && !final(self)@.has(name@),
                Err(failure) => final(self)@ == old(self)@ && failure == if !old(self)@.open {
                    Failure::Engine
                } else {
                    Failure::NotFound
                },
            },
    {
        proof {
            use_type_invariant(&*self);
            lemma_without(self@, name@);
        }
        if !self.open {
            return Err(Failure::Engine);
        }
        let slot = find_slot(&self.collections, name);
        if slot == self.collections.len() {
            if must_exist {
                return Err(Failure::NotFound);
            }
            return Ok(());
        }
        let Store { open, mut collections, made } = self.take();
        let ghost before = collection_models(collections@);
        collections.remove(slot);
        assert(collection_models(collections@) =~= before.remove(slot as int));
        *self = Store { open, collections, made };
        Ok(())
    }
}

impl Store {
    /// Stores a copy of the document in the collection behind the proxy,
    /// under a new identifier, and returns the identifier. Where the store
    /// has no such collection yet, this makes it. Nothing is stored, and
    /// nothing changes, on a closed handle, and where no series or no
    /// identifier is left to give.
    pub fn insert_one(&mut self, proxy: &CollectionProxy, document: &Document) -> (stored: Result<
        DocumentId,
        Failure,
    >)
        ensures
            final(self)@.wf(),
            stored is Ok <==> old(self)@.open && old(self)@.can_make(proxy@) && old(self)@.at(
                proxy@,
            ).has_room(1),
            match stored {
                Ok(id) => id == old(self)@.at(proxy@).next_id() && final(self)@ == old(self)@.with(
                    old(self)@.at(proxy@).inserted(seq![document@]),
                ),
                Err(failure) => final(self)@ == old(self)@ && failure == if !old(self)@.open {
                    Failure::Engine
                } else {
                    Failure::Storage
                },
            },
    {
        proof {
            use_type_invariant(&*self);
        }
        let name = proxy.name.as_str();
        if !self.open {
            return Err(Failure::Engine);
        }
        if self.made == u32::MAX && !self.has_collection(name) {
            return Err(Failure::Storage);
        }
        let ghost before = self@;
        let Store { open, mut collections, made } = self.take();
        let (slot, fresh) = place_for_write(&mut collections, made, name);
        let ghost lent = collection_models(collections@);
        proof {
            lemma_slot_of(before.collections, name@);
            assert(name@ == proxy@);
            assert(lent[slot as int] == before.at(name@));
            assert(collections@[slot as int]@ == lent[slot as int]);
        }
        let stored = collections[slot].insert_one(document);
        let ghost changed = collections@[slot as int]@;
        proof {
            assert(collection_models(collections@) =~= lent.update(slot as int, changed));
        }
        let made = settle(&mut collections, made, fresh, stored.is_ok());
        proof {
            lemma_settled(
                before,
                changed,
                stored is Ok,
                lent.update(slot as int, changed),
                collection_models(collections@),
            );
        }
        *self = Store { open, collections, made };
        stored
    }

    /// Stores copies of all the documents in the collection behind the
    /// proxy, each under a new identifier, and returns the identifiers in
    /// the order of the documents. Where the store has no such collection
    /// yet, this makes it. Either all are stored or none: nothing changes
    /// on a closed handle, and where no series or too few identifiers are
    /// left to give.
    pub fn insert_many(&mut self, proxy: &CollectionProxy, documents: &Vec<Document>) -> (stored:
        Result<Vec<DocumentId>, Failure>)
        ensures
            final(self)@.wf(),
            stored is Ok <==> old(self)@.open && old(self)@.can_make(proxy@) && old(self)@.at(
                proxy@,
            ).has_room(documents@.len()),
            match stored {
                Ok(ids) => ids@ == old(self)@.at(proxy@).next_ids(documents@.len()) && final(self)@
                    == old(self)@.with(
                    old(self)@.at(proxy@).inserted(document_models(documents@)),
                ),
                Err(failure) => final(self)@ == old(self)@ && failure == if !old(self)@.open {
                    Failure::Engine
                } else {
                    Failure::Storage
                },
            },
    {
        proof {
            use_type_invariant(&*self);
        }
        let name = proxy.name.as_str();
        if !self.open {
            return Err(Failure::Engine);
        }
        if self.made == u32::MAX && !self.has_collection(name) {
            return Err(Failure::Storage);
        }
        let ghost before = self@;
        let Store { open, mut collections, made } = self.take();
        let (slot, fresh) = place_for_write(&mut collections, made, name);
        let ghost lent = collection_models(collections@);
        proof {
            lemma_slot_of(before.collections, name@);
            assert(name@ == proxy@);
            assert(lent[slot as int] == before.at(name@));
            assert(collections@[slot as int]@ == lent[slot as int]);
        }
        let stored = collections[slot].insert_many(documents);
        let ghost changed = collections@[slot as int]@;
        proof {
            assert(collection_models(collections@) =~= lent.update(slot as int, changed));
        }
        let made = settle(&mut collections, made, fresh, stored.is_ok());
        proof {
            lemma_settled(
                before,
                changed,
                stored is Ok,
                lent.update(slot as int, changed),
                collection_models(collections@),
            );
        }
        *self = Store { open, collections, made };
        stored
    }

    /// Declares an index on the field, of the kind, in the collection
    /// behind the proxy. Where the store has no such collection yet, this
    /// makes it. The documents stay as they are. Nothing changes on a
    /// closed handle, where no series is left to give, and where a stored
    /// document holds a value of another kind in the field.
    pub fn create_index(&mut self, proxy: &CollectionProxy, field: &str, kind: IndexKind) -> (created:
        Result<(), Failure>)
        ensures
            final(self)@.wf(),
            created is Ok <==> old(self)@.open && old(self)@.can_make(proxy@) && index_fits(
                old(self)@.at(proxy@).entries,
                field@,
                kind,
            ),
            match created {
                Ok(_) => final(self)@ == old(self)@.with(
                    old(self)@.at(proxy@).indexed(field@, kind),
                ),
                Err(failure) => final(self)@ == old(self)@ && failure == if !old(self)@.open {
                    Failure::Engine
                } else if !old(self)@.can_make(proxy@) {
                    Failure::Storage
                } else {
                    Failure::Index
                },
            },
    {
        proof {
            use_type_invariant(&*self);
        }
        let name = proxy.name.as_str();
        if !self.open {
            return Err(Failure::Engine);
        }
        if self.made == u32::MAX && !self.has_collection(name) {
            return Err(Failure::Storage);
        }
        let ghost before = self@;
        let Store { open, mut collections, made } = self.take();
        let (slot, fresh) = place_for_write(&mut collections, made, name);
        let ghost lent = collection_models(collections@);
        proof {
            lemma_slot_of(before.collections, name@);
            assert(name@ == proxy@);
            assert(lent[slot as int] == before.at(name@));
            assert(collections@[slot as int]@ == lent[slot as int]);
        }
        let created = collections[slot].create_index(field, kind);
        let ghost changed = collections@[slot as int]@;
        proof {
            assert(collection_models(collections@) =~= lent.update(slot as int, changed));
        }
        let made = settle(&mut collections, made, fresh, created.is_ok());
        proof {
            lemma_settled(
                before,
                changed,
                created is Ok,
                lent.update(slot as int, changed),
                collection_models(collections@),
            );
        }
        *self = Store { open, collections, made };
        created
    }

    /// Makes the change to every document of the collection behind the
    /// proxy that has the field with that value, and returns how many
    /// there were. Where there is none, or no such collection, nothing
    /// changes and the number is 0. A closed handle changes nothing.
    pub fn update_where(
        &mut self,
        proxy: &CollectionProxy,
        field: &str,
        value: &Value,
        mutation: &Mutation,
    ) -> (modified: Result<usize, Failure>)
        ensures
            final(self)@.wf(),
            modified is Ok <==> old(self)@.open,
            match modified {
                Ok(n) => n == count_matches(old(self)@.at(proxy@).entries, field@, value@)
                    && final(self)@ == if old(self)@.has(proxy@) {
                    old(self)@.with(old(self)@.at(proxy@).changed_where(field@, value@, mutation@))
                } else {
                    old(self)@
                },
                Err(failure) => final(self)@ == old(self)@ && failure == Failure::Engine,
            },
    {
        proof {
            use_type_invariant(&*self);
        }
        let name = proxy.name.as_str();
        if !self.open {
            return Err(Failure::Engine);
        }
        if !self.has_collection(name) {
            return Ok(0);
        }
        let ghost before = self@;
        let Store { open, mut collections, made } = self.take();
        let (slot, _) = place_for_write(&mut collections, made, name);
        let ghost lent = collection_models(collections@);
        proof {
            lemma_slot_of(before.collections, name@);
            assert(name@ == proxy@);
            assert(lent[slot as int] == before.at(name@));
            assert(collections@[slot as int]@ == lent[slot as int]);
        }
        let modified = collections[slot].update_where(field, value, mutation);
        let ghost changed = collections@[slot as int]@;
        proof {
            assert(collection_models(collections@) =~= lent.update(slot as int, changed));
            lemma_settled(
                before,
                changed,
                true,
                lent.update(slot as int, changed),
                collection_models(collections@),
            );
        }
        *self = Store { open, collections, made };
        Ok(modified)
    }

    /// Takes the field out of the document stored under the identifier in
    /// the collection behind the proxy. A document without the field stays
    /// as it is. Nothing changes on a closed handle, and where no document
    /// is stored under the identifier.
    pub fn delete_field(&mut self, proxy: &CollectionProxy, id: DocumentId, field: &str) -> (deleted:
        Result<(), Failure>)
        ensures
            final(self)@.wf(),
            deleted is Ok <==> old(self)@.open && find_by_id(old(self)@.at(proxy@).entries, id)
                is Some,
            match deleted {
                Ok(_) => final(self)@ == old(self)@.with(old(self)@.at(proxy@).without(id, field@)),
                Err(failure) => final(self)@ == old(self)@ && failure == if !old(self)@.open {
                    Failure::Engine
                } else {
                    Failure::NotFound
                },
            },
    {
        proof {
            use_type_invariant(&*self);
        }
        let name = proxy.name.as_str();
        if !self.open {
            return Err(Failure::Engine);
        }
        if !self.has_collection(name) {
            return Err(Failure::NotFound);
        }
        let ghost before = self@;
        let Store { open, mut collections, made } = self.take();
        let (slot, _) = place_for_write(&mut collections, made, name);
        let ghost lent = collection_models(collections@);
        proof {
            lemma_slot_of(before.collections, name@);
            assert(name@ == proxy@);
            assert(lent[slot as int] == before.at(name@));
            assert(collections@[slot as int]@ == lent[slot as int]);
        }
        let deleted = collections[slot].delete_field(id, field);
        let ghost changed = collections@[slot as int]@;
        proof {
            assert(collection_models(collections@) =~= lent.update(slot as int, changed));
            lemma_settled(
                before,
                changed,
                deleted is Ok,
                lent.update(slot as int, changed),
                collection_models(collections@),
            );
        }
        *self = Store { open, collections, made };
        deleted
    }

    /// The first document of the collection behind the proxy that has the
    /// field with that value, if any. A collection that has not been made
    /// holds none, and is not made by the lookup.
    pub fn find_one_by_field(&self, proxy: &CollectionProxy, field: &str, value: &Value) -> (found:
        Result<Option<Document>, Failure>)
        ensures
            found is Ok <==> self@.open,
            match found {
                Ok(Some(document)) => find_by_field(self@.at(proxy@).entries, field@, value@)
                    == Some(document@),
                Ok(None) => find_by_field(self@.at(proxy@).entries, field@, value@) is None,
                Err(failure) => failure == Failure::Engine,
            },
    {
        if !self.open {
            return Err(Failure::Engine);
        }
        match self.get(proxy) {
            Some(collection) => Ok(collection.find_one_by_field(field, value)),
            None => Ok(None),
        }
    }

    /// The document stored under the identifier in the collection behind
    /// the proxy, if any. A collection that has not been made holds none,
    /// and is not made by the lookup.
    pub fn find_one_by_id(&self, proxy: &CollectionProxy, id: DocumentId) -> (found: Result<
        Option<Document>,
        Failure,
    >)
        ensures
            found is Ok <==> self@.open,
            match found {
                Ok(Some(document)) => find_by_id(self@.at(proxy@).entries, id) == Some(document@),
                Ok(None) => find_by_id(self@.at(proxy@).entries, id) is None,
                Err(failure) => failure == Failure::Engine,
            },
    {
        if !self.open {
            return Err(Failure::Engine);
        }
        match self.get(proxy) {
            Some(collection) => Ok(collection.find_one_by_id(id)),
            None => Ok(None),
        }
    }

    /// The number of documents in the collection behind the proxy; none in
    /// a collection that has not been made.
    pub fn count(&self, proxy: &CollectionProxy) -> (counted: Result<usize, Failure>)
        ensures
            match counted {
                Ok(n) => self@.open && n == self@.at(proxy@).entries.len(),
                Err(failure) => !self@.open && failure == Failure::Engine,
            },
    {
        if !self.open {
            return Err(Failure::Engine);
        }
        match self.get(proxy) {
            Some(collection) => Ok(collection.count()),
            None => Ok(0),
        }
    }

    /// Runs one operation of a workload on the collection behind the
    /// proxy. An insert makes the collection where the store has none of
    /// that name; a lookup does not, and finds nothing there. On a closed
    /// handle every operation fails and nothing changes.
    pub fn perform(&mut self, proxy: &CollectionProxy, operation: &Operation) -> (outcome: Outcome)
        ensures
            final(self)@.wf(),
            outcome@ == old(self)@.answer(proxy@, operation@),
            final(self)@ == old(self)@.after(proxy@, operation@),
    {
        proof {
            use_type_invariant(&*self);
        }
        match operation {
            Operation::InsertOne(document) => match self.insert_one(proxy, document) {
                Ok(id) => Outcome::Inserted(id),
                Err(failure) => Outcome::Failed(failure),
            },
            Operation::InsertMany(documents) => match self.insert_many(proxy, documents) {
                Ok(ids) => Outcome::InsertedMany(ids),
                Err(failure) => Outcome::Failed(failure),
            },
            Operation::FindByUserId(user_id) => {
                let wanted = Value::Int(*user_id);
                match self.find_one_by_field(proxy, "user_id", &wanted) {
                    Ok(Some(_)) => Outcome::Found,
                    Ok(None) => Outcome::Missing,
                    Err(failure) => Outcome::Failed(failure),
                }
            },
            Operation::FindById(id) => match self.find_one_by_id(proxy, *id) {
                Ok(Some(_)) => Outcome::Found,
                Ok(None) => Outcome::Missing,
                Err(failure) => Outcome::Failed(failure),
            },
        }
    }
}

} // verus!
