//! A collection of documents held in memory, and what each operation on a
//! collection means.

use vstd::prelude::*;
use vstd::string::*;

use crate::document::{Document, DocumentModel, Value, ValueModel};
use crate::ops::{
    document_models, DocumentId, Failure, Operation, OperationModel, Outcome, OutcomeModel,
};

verus! {

/// The kind of value that an index covers.
#[derive(Clone, Copy, Debug, PartialEq, Eq, Structural)]
pub enum IndexKind {
    Numeric,
    Text,
    List,
}

/// An index: the field it covers and the kind of value it expects there.
#[derive(Debug, PartialEq, Eq)]
pub struct IndexSpec {
    pub field: String,
    pub kind: IndexKind,
}

/// The mathematical content of an `IndexSpec`.
pub struct IndexModel {
    pub field: Seq<char>,
    pub kind: IndexKind,
}

impl View for IndexSpec {
    type V = IndexModel;

    open spec fn view(&self) -> IndexModel {
        IndexModel { field: self.field@, kind: self.kind }
    }
}

/// A change to one document.
#[derive(Debug, PartialEq, Eq)]
pub enum Mutation {
    /// Give the field the value.
    Assign { field: String, value: Value },
    /// Take the field out.
    Remove { field: String },
}

/// The mathematical content of a `Mutation`.
pub enum MutationModel {
    Assign { field: Seq<char>, value: ValueModel },
    Remove { field: Seq<char> },
}

impl View for Mutation {
    type V = MutationModel;

    open spec fn view(&self) -> MutationModel {
        match self {
            Mutation::Assign { field, value } => MutationModel::Assign { field: field@, value: value@ },
            Mutation::Remove { field } => MutationModel::Remove { field: field@ },
        }
    }
}

impl MutationModel {
    /// The document after the change.
    pub open spec fn apply(self, document: DocumentModel) -> DocumentModel {
        match self {
            MutationModel::Assign { field, value } => document.insert(field, value),
            MutationModel::Remove { field } => document.remove(field),
        }
    }
}

/// A stored document with the identifier it was stored under.
pub struct EntryModel {
    pub id: DocumentId,
    pub document: DocumentModel,
}

/// The kind of index that covers the value.
pub open spec fn kind_of(value: ValueModel) -> IndexKind {
    match value {
        ValueModel::Int(_) => IndexKind::Numeric,
        ValueModel::Text(_) => IndexKind::Text,
        ValueModel::List(_) => IndexKind::List,
    }
}

/// The document has the field, with that value.
pub open spec fn has_value(document: DocumentModel, field: Seq<char>, value: ValueModel) -> bool {
    document.contains_key(field) && document[field] == value
}

/// The place of the first entry whose document has the field with that
/// value; the number of entries where there is none.
pub open spec fn first_match(entries: Seq<EntryModel>, field: Seq<char>, value: ValueModel) -> int
    decreases entries.len(),
{
    if entries.len() == 0 {
        0
    } else if has_value(entries.first().document, field, value) {
        0
    } else {
        1 + first_match(entries.drop_first(), field, value)
    }
}

/// The place of the entry with the identifier; the number of entries where
/// there is none.
pub open spec fn place_of(entries: Seq<EntryModel>, id: DocumentId) -> int
    decreases entries.len(),
{
    if entries.len() == 0 {
        0
    } else if entries.first().id == id {
        0
    } else {
        1 + place_of(entries.drop_first(), id)
    }
}

/// The first document that has the field with that value.
pub open spec fn find_by_field(
    entries: Seq<EntryModel>,
    field: Seq<char>,
    value: ValueModel,
) -> Option<DocumentModel> {
    let place = first_match(entries, field, value);
    if place < entries.len() {
        Some(entries[place].document)
    } else {
        None
    }
}

/// The document stored under the identifier.
pub open spec fn find_by_id(entries: Seq<EntryModel>, id: DocumentId) -> Option<DocumentModel> {
    let place = place_of(entries, id);
    if place < entries.len() {
        Some(entries[place].document)
    } else {
        None
    }
}

/// The number of documents that have the field with that value.
pub open spec fn count_matches(
    entries: Seq<EntryModel>,
    field: Seq<char>,
    value: ValueModel,
) -> nat
    decreases entries.len(),
{
    if entries.len() == 0 {
        0
    } else {
        count_matches(entries.drop_last(), field, value) + (if has_value(
            entries.last().document,
            field,
            value,
        ) {
            1nat
        } else {
            0nat
        })
    }
}

/// The entries after the change was made to every document that has the
/// field with that value.
pub open spec fn updated(
    entries: Seq<EntryModel>,
    field: Seq<char>,
    value: ValueModel,
    mutation: MutationModel,
) -> Seq<EntryModel> {
    Seq::new(
        entries.len(),
        |i: int|
            if has_value(entries[i].document, field, value) {
                EntryModel { id: entries[i].id, document: mutation.apply(entries[i].document) }
            } else {
                entries[i]
            },
    )
}

/// Every value that the entries hold in the field is of the kind.
pub open spec fn index_fits(entries: Seq<EntryModel>, field: Seq<char>, kind: IndexKind) -> bool {
    forall|i: int|
        0 <= i < entries.len() && (#[trigger] entries[i]).document.contains_key(field) ==> kind_of(
            entries[i].document[field],
        ) == kind
}

/// The sequence holds an index on the field, of the kind.
pub open spec fn has_index(indexes: Seq<IndexModel>, field: Seq<char>, kind: IndexKind) -> bool {
    exists|i: int| 0 <= i < indexes.len() && #[trigger] indexes[i] == (IndexModel { field, kind })
}

/// The place that `first_match` gives is the first with a match.
pub proof fn lemma_first_match(entries: Seq<EntryModel>, field: Seq<char>, value: ValueModel)
    ensures
        0 <= first_match(entries, field, value) <= entries.len(),
        first_match(entries, field, value) < entries.len() ==> has_value(
            entries[first_match(entries, field, value)].document,
            field,
            value,
        ),
        forall|i: int|
            0 <= i < first_match(entries, field, value) ==> !has_value(
                (#[trigger] entries[i]).document,
                field,
                value,
            ),
    decreases entries.len(),
{
    if entries.len() > 0 && !has_value(entries.first().document, field, value) {
        let rest = entries.drop_first();
        lemma_first_match(rest, field, value);
        assert forall|i: int| 0 <= i < first_match(entries, field, value) implies !has_value(
            (#[trigger] entries[i]).document,
            field,
            value,
        ) by {
            if i > 0 {
                assert(entries[i] == rest[i - 1]);
            }
        }
    }
}

/// The place that `place_of` gives is the first with the identifier.
pub proof fn lemma_place_of(entries: Seq<EntryModel>, id: DocumentId)
    ensures
        0 <= place_of(entries, id) <= entries.len(),
        place_of(entries, id) < entries.len() ==> entries[place_of(entries, id)].id == id,
        forall|i: int| 0 <= i < place_of(entries, id) ==> (#[trigger] entries[i]).id != id,
    decreases entries.len(),
{
    if entries.len() > 0 && entries.first().id != id {
        let rest = entries.drop_first();
        lemma_place_of(rest, id);
        assert forall|i: int| 0 <= i < place_of(entries, id) implies (#[trigger] entries[i]).id
            != id by {
            if i > 0 {
                assert(entries[i] == rest[i - 1]);
            }
        }
    }
}

/// A place is the one that `first_match` gives where it holds a match and
/// no place before it does.
pub proof fn lemma_first_match_is(
    entries: Seq<EntryModel>,
    field: Seq<char>,
    value: ValueModel,
    place: int,
)
    requires
        0 <= place <= entries.len(),
        place < entries.len() ==> has_value(entries[place].document, field, value),
        forall|i: int| 0 <= i < place ==> !has_value((#[trigger] entries[i]).document, field, value),
    ensures
        first_match(entries, field, value) == place,
{
    lemma_first_match(entries, field, value);
    let found = first_match(entries, field, value);
    if found < place {
        assert(!has_value(entries[found].document, field, value));
    } else if place < found {
        assert(!has_value(entries[place].document, field, value));
    }
}

/// A place is the one that `place_of` gives where it holds the identifier
/// and no place before it does.
pub proof fn lemma_place_of_is(entries: Seq<EntryModel>, id: DocumentId, place: int)
    requires
        0 <= place <= entries.len(),
        place < entries.len() ==> entries[place].id == id,
        forall|i: int| 0 <= i < place ==> (#[trigger] entries[i]).id != id,
    ensures
        place_of(entries, id) == place,
{
    lemma_place_of(entries, id);
    let found = place_of(entries, id);
    if found < place {
        assert(entries[found].id != id);
    } else if place < found {
        assert(entries[place].id != id);
    }
}

/// The entries after the documents were stored under the identifiers, in
/// their order, behind the entries that were there.
pub open spec fn appended(
    entries: Seq<EntryModel>,
    ids: Seq<DocumentId>,
    documents: Seq<DocumentModel>,
) -> Seq<EntryModel> {
    entries + Seq::new(documents.len(), |i: int| EntryModel { id: ids[i], document: documents[i] })
}

/// The entries after the field was taken out of the document at the place.
pub open spec fn without_field(entries: Seq<EntryModel>, place: int, field: Seq<char>) -> Seq<
    EntryModel,
> {
    entries.update(
        place,
        EntryModel { id: entries[place].id, document: entries[place].document.remove(field) },
    )
}

/// No entry has the identifier.
pub open spec fn is_fresh(entries: Seq<EntryModel>, id: DocumentId) -> bool {
    forall|i: int| 0 <= i < entries.len() ==> (#[trigger] entries[i]).id != id
}

/// The mathematical content of a collection.
pub struct CollectionModel {
    /// The name of the collection.
    pub name: Seq<char>,
    /// The number that sets the identifiers of this collection apart from
    /// those of any other collection of the same store.
    pub series: u32,
    /// The stored documents, in the order in which they were stored.
    pub entries: Seq<EntryModel>,
    /// The indexes, in the order in which they were created.
    pub indexes: Seq<IndexModel>,
    /// The number of identifiers given out so far.
    pub issued: nat,
}

impl CollectionModel {
    /// The empty collection of the name and series.
    pub open spec fn empty(name: Seq<char>, series: u32) -> CollectionModel {
        CollectionModel { name, series, entries: Seq::empty(), indexes: Seq::empty(), issued: 0 }
    }

    /// The identifier given out as the `n`-th of the series.
    pub open spec fn id_number(series: u32, n: nat) -> DocumentId {
        DocumentId { high: series, low: n as u64 }
    }

    /// The identifiers of the entries are of the collection's series and
    /// among those given out, and rise from entry to entry; so no two
    /// entries share one.
    pub open spec fn wf(self) -> bool {
        &&& self.issued <= u64::MAX
        &&& forall|i: int|
            0 <= i < self.entries.len() ==> (#[trigger] self.entries[i]).id.high == self.series
                && self.entries[i].id.low < self.issued
        &&& forall|i: int, j: int|
            0 <= i < j < self.entries.len() ==> (#[trigger] self.entries[i]).id.low < (
            #[trigger] self.entries[j]).id.low
    }

    /// The identifier that the next document gets.
    pub open spec fn next_id(self) -> DocumentId {
        Self::id_number(self.series, self.issued)
    }

    /// The identifiers that the next `n` documents get.
    pub open spec fn next_ids(self, n: nat) -> Seq<DocumentId> {
        Seq::new(n, |i: int| Self::id_number(self.series, (self.issued + i) as nat))
    }

    /// The collection has identifiers left for `n` more documents.
    pub open spec fn has_room(self, n: nat) -> bool {
        self.issued + n <= u64::MAX
    }

    /// The collection after the documents were stored.
    pub open spec fn inserted(self, documents: Seq<DocumentModel>) -> CollectionModel {
        CollectionModel {
            entries: appended(self.entries, self.next_ids(documents.len()), documents),
            issued: self.issued + documents.len(),
            ..self
        }
    }

    /// The collection after an index on the field, of the kind, was asked
    /// for.
    pub open spec fn indexed(self, field: Seq<char>, kind: IndexKind) -> CollectionModel {
        if has_index(self.indexes, field, kind) {
            self
        } else {
            CollectionModel { indexes: self.indexes.push(IndexModel { field, kind }), ..self }
        }
    }

    /// The collection after the change was made to every document that has
    /// the field with that value.
    pub open spec fn changed_where(
        self,
        field: Seq<char>,
        value: ValueModel,
        mutation: MutationModel,
    ) -> CollectionModel {
        CollectionModel { entries: updated(self.entries, field, value, mutation), ..self }
    }

    /// The collection after the field was taken out of the document stored
    /// under the identifier, where there is such a document.
    pub open spec fn without(self, id: DocumentId, field: Seq<char>) -> CollectionModel {
        if find_by_id(self.entries, id) is Some {
            CollectionModel {
                entries: without_field(self.entries, place_of(self.entries, id), field),
                ..self
            }
        } else {
            self
        }
    }

    /// What the collection answers to an operation of a workload.
    pub open spec fn answer(self, operation: OperationModel) -> OutcomeModel {
        match operation {
            OperationModel::InsertOne(_) => if self.has_room(1) {
                OutcomeModel::Inserted(self.next_id())
            } else {
                OutcomeModel::Failed(Failure::Storage)
            },
            OperationModel::InsertMany(documents) => if self.has_room(documents.len()) {
                OutcomeModel::InsertedMany(self.next_ids(documents.len()))
            } else {
                OutcomeModel::Failed(Failure::Storage)
            },
            OperationModel::FindByUserId(user_id) => if find_by_field(
                self.entries,
                "user_id"@,
                ValueModel::Int(user_id as int),
            ) is Some {
                OutcomeModel::Found
            } else {
                OutcomeModel::Missing
            },
            OperationModel::FindById(id) => if find_by_id(self.entries, id) is Some {
                OutcomeModel::Found
            } else {
                OutcomeModel::Missing
            },
        }
    }

    /// The collection after an operation of a workload: a lookup changes
    /// nothing, and neither does an insert for which no identifier is left.
    pub open spec fn after(self, operation: OperationModel) -> CollectionModel {
        match operation {
            OperationModel::InsertOne(document) => if self.has_room(1) {
                self.inserted(seq![document])
            } else {
                self
            },
            OperationModel::InsertMany(documents) => if self.has_room(documents.len()) {
                self.inserted(documents)
            } else {
                self
            },
            _ => self,
        }
    }
}

/// A stored document with the identifier it was stored under.
#[derive(Debug, PartialEq, Eq)]
pub struct Entry {
    pub id: DocumentId,
    pub document: Document,
}

impl View for Entry {
    type V = EntryModel;

    open spec fn view(&self) -> EntryModel {
        EntryModel { id: self.id, document: self.document@ }
    }
}

/// The contents of a sequence of entries, place by place.
pub open spec fn entry_models(entries: Seq<Entry>) -> Seq<EntryModel> {
    Seq::new(entries.len(), |i: int| entries[i]@)
}

/// The contents of a sequence of indexes, place by place.
pub open spec fn index_models(indexes: Seq<IndexSpec>) -> Seq<IndexModel> {
    Seq::new(indexes.len(), |i: int| indexes[i]@)
}

/// A collection of documents held in memory.
#[derive(Debug)]
pub struct Collection {
    name: String,
    series: u32,
    entries: Vec<Entry>,
    indexes: Vec<IndexSpec>,
    issued: u64,
}

impl View for Collection {
    type V = CollectionModel;

    closed spec fn view(&self) -> CollectionModel {
        CollectionModel {
            name: self.name@,
            series: self.series,
            entries: entry_models(self.entries@),
            indexes: index_models(self.indexes@),
            issued: self.issued as nat,
        }
    }
}

/// Tells whether the document has the field, with that value.
fn document_matches(document: &Document, field: &str, value: &Value) -> (found: bool)
    ensures
        found == has_value(document@, field@, value@),
{
    match document.get(field) {
        Some(held) => held.same(value),
        None => false,
    }
}

/// Makes the change to the document.
fn apply_mutation(document: &mut Document, mutation: &Mutation)
    ensures
        final(document)@ == mutation@.apply(old(document)@),
{
    match mutation {
        Mutation::Assign { field, value } => {
            document.set(field.as_str(), value.clone());
        },
        Mutation::Remove { field } => {
            document.remove(field.as_str());
        },
    }
}

/// Tells whether the value is of the kind.
fn value_is_of(value: &Value, kind: IndexKind) -> (fits: bool)
    ensures
        fits == (kind_of(value@) == kind),
{
    match value {
        Value::Int(_) => kind == IndexKind::Numeric,
        Value::Text(_) => kind == IndexKind::Text,
        Value::List(_) => kind == IndexKind::List,
    }
}

impl Collection {
    /// A collection is always in a state that a collection can be in.
    #[verifier::type_invariant]
    pub open spec fn valid(self) -> bool {
        self@.wf()
    }

    /// The empty collection called `name`, of the series 0.
    pub fn new(name: &str) -> (collection: Collection)
        ensures
            collection@ == CollectionModel::empty(name@, 0),
            collection@.wf(),
    {
        Self::in_series(name, 0)
    }

    /// The empty collection called `name` whose identifiers are of the
    /// series.
    pub fn in_series(name: &str, series: u32) -> (collection: Collection)
        ensures
            collection@ == CollectionModel::empty(name@, series),
            collection@.wf(),
    {
        let collection = Collection {
            name: String::from_str(name),
            series,
            entries: Vec::new(),
            indexes: Vec::new(),
            issued: 0,
        };
        assert(collection@.entries =~= Seq::empty());
        assert(collection@.indexes =~= Seq::empty());
        collection
    }

    /// The series of the identifiers of the collection.
    pub fn series(&self) -> (series: u32)
        ensures
            series == self@.series,
    {
        self.series
    }

    /// The name of the collection.
    pub fn name(&self) -> (name: &String)
        ensures
            name@ == self@.name,
    {
        &self.name
    }

    /// The number of documents, found by walking all of them.
    pub fn count(&self) -> (n: usize)
        ensures
            n == self@.entries.len(),
    {
        let mut n: usize = 0;
        let mut i: usize = 0;
        while i < self.entries.len()
            invariant
                i <= self.entries.len(),
                n == i,
            decreases self.entries.len() - i,
        {
            n = n + 1;
            i = i + 1;
        }
        n
    }

    /// The stored documents with their identifiers, in the order in which
    /// they were stored.
    pub fn entries(&self) -> (entries: &Vec<Entry>)
        ensures
            entry_models(entries@) == self@.entries,
            self@.wf(),
    {
        proof {
            use_type_invariant(self);
        }
        &self.entries
    }

    /// The indexes, in the order in which they were created.
    pub fn indexes(&self) -> (indexes: &Vec<IndexSpec>)
        ensures
            index_models(indexes@) == self@.indexes,
    {
        &self.indexes
    }

    /// Tells whether the collection has an index on the field, of the kind.
    pub fn has_index(&self, field: &str, kind: IndexKind) -> (found: bool)
        ensures
            found == has_index(self@.indexes, field@, kind),
    {
        let key = String::from_str(field);
        let mut i: usize = 0;
        while i < self.indexes.len()
            invariant
                i <= self.indexes.len(),
                key@ == field@,
                forall|j: int|
                    0 <= j < i ==> (#[trigger] self@.indexes[j]) != (IndexModel {
                        field: field@,
                        kind,
                    }),
            decreases self.indexes.len() - i,
        {
            if self.indexes[i].field == key && self.indexes[i].kind == kind {
                assert(self@.indexes[i as int] == (IndexModel { field: field@, kind }));
                return true;
            }
            assert(self@.indexes[i as int] == self.indexes@[i as int]@);
            i = i + 1;
        }
        false
    }

    /// The first document that has the field with that value, if any.
    pub fn find_one_by_field(&self, field: &str, value: &Value) -> (found: Option<Document>)
        ensures
            match found {
                Some(document) => find_by_field(self@.entries, field@, value@) == Some(document@),
                None => find_by_field(self@.entries, field@, value@) is None,
            },
    {
        let mut i: usize = 0;
        while i < self.entries.len()
            invariant
                i <= self.entries.len(),
                forall|j: int|
                    0 <= j < i ==> !has_value((#[trigger] self@.entries[j]).document, field@, value@),
            decreases self.entries.len() - i,
        {
            if document_matches(&self.entries[i].document, field, value) {
                proof {
                    lemma_first_match_is(self@.entries, field@, value@, i as int);
                }
                return Some(self.entries[i].document.clone());
            }
            i = i + 1;
        }
        proof {
            lemma_first_match_is(self@.entries, field@, value@, i as int);
        }
        None
    }

    /// The place of the entry with the identifier; the number of entries
    /// where there is none.
    fn place(&self, id: DocumentId) -> (place: usize)
        ensures
            place == place_of(self@.entries, id),
            place <= self.entries.len(),
    {
        let mut i: usize = 0;
        while i < self.entries.len()
            invariant
                i <= self.entries.len(),
                forall|j: int| 0 <= j < i ==> (#[trigger] self@.entries[j]).id != id,
            decreases self.entries.len() - i,
        {
            if self.entries[i].id == id {
                proof {
                    lemma_place_of_is(self@.entries, id, i as int);
                }
                return i;
            }
            i = i + 1;
        }
        proof {
            lemma_place_of_is(self@.entries, id, i as int);
        }
        i
    }

    /// The document stored under the identifier, if any.
    pub fn find_one_by_id(&self, id: DocumentId) -> (found: Option<Document>)
        ensures
            match found {
                Some(document) => find_by_id(self@.entries, id) == Some(document@),
                None => find_by_id(self@.entries, id) is None,
            },
    {
        let place = self.place(id);
        if place < self.entries.len() {
            Some(self.entries[place].document.clone())
        } else {
            None
        }
    }

    /// Moves the state out and leaves an empty collection in its place.
    fn take(&mut self) -> (state: Collection)
        ensures
            state == *old(self),
    {
        let mut state = Collection {
            name: String::new(),
            series: 0,
            entries: Vec::new(),
            indexes: Vec::new(),
            issued: 0,
        };
        core::mem::swap(self, &mut state);
        state
    }

    /// Stores a copy of the document under a new identifier and returns the
    /// identifier. The write fails, and changes nothing, only when the
    /// collection has no identifier left to give.
    pub fn insert_one(&mut self, document: &Document) -> (stored: Result<DocumentId, Failure>)
        ensures
            final(self)@.wf(),
            stored is Ok <==> old(self)@.has_room(1),
            match stored {
                Ok(id) => {
                    &&& id == old(self)@.next_id()
                    &&& is_fresh(old(self)@.entries, id)
                    &&& final(self)@ == old(self)@.inserted(seq![document@])
                    &&& final(self)@.entries == old(self)@.entries.push(
                        EntryModel { id, document: document@ },
                    )
                },
                Err(failure) => failure == Failure::Storage && final(self)@ == old(self)@,
            },
    {
        proof {
            use_type_invariant(&*self);
        }
        if self.issued == u64::MAX {
            return Err(Failure::Storage);
        }
        let Collection { name, series, mut entries, indexes, issued } = self.take();
        let ghost before = entry_models(entries@);
        assert(before == old(self)@.entries);
        let id = DocumentId { high: series, low: issued };
        entries.push(Entry { id, document: document.clone() });
        proof {
            let after = entry_models(entries@);
            assert(after =~= before.push(EntryModel { id, document: document@ }));
            assert(after =~= old(self)@.inserted(seq![document@]).entries);
            assert forall|a: int, b: int| 0 <= a < b < after.len() implies (#[trigger] after[a]).id.low
                < (#[trigger] after[b]).id.low by {
                assert(after[a] == before[a]);
                if b < before.len() {
                    assert(after[b] == before[b]);
                }
            }
            assert forall|a: int| 0 <= a < after.len() implies (#[trigger] after[a]).id.high == series
                && after[a].id.low < issued + 1 by {
                if a < before.len() {
                    assert(after[a] == before[a]);
                }
            }
        }
        *self = Collection { name, series, entries, indexes, issued: issued + 1 };
        Ok(id)
    }

    /// Stores copies of all the documents, in their order, each under a new
    /// identifier, and returns the identifiers in that order. Either all
    /// are stored or none: the write fails, and changes nothing, only when
    /// the collection has too few identifiers left to give.
    pub fn insert_many(&mut self, documents: &Vec<Document>) -> (stored: Result<
        Vec<DocumentId>,
        Failure,
    >)
        ensures
            final(self)@.wf(),
            stored is Ok <==> old(self)@.has_room(documents@.len()),
            match stored {
                Ok(ids) => {
                    &&& ids@ == old(self)@.next_ids(documents@.len())
                    &&& forall|i: int| 0 <= i < ids@.len() ==> is_fresh(old(self)@.entries, ids@[i])
                    &&& forall|i: int, j: int| 0 <= i < j < ids@.len() ==> ids@[i] != ids@[j]
                    &&& final(self)@ == old(self)@.inserted(document_models(documents@))
                },
                Err(failure) => failure == Failure::Storage && final(self)@ == old(self)@,
            },
    {
        proof {
            use_type_invariant(&*self);
        }
        if documents.len() as u64 > u64::MAX - self.issued {
            return Err(Failure::Storage);
        }
        let Collection { name, series, mut entries, indexes, issued } = self.take();
        let ghost before = entry_models(entries@);
        assert(before == old(self)@.entries);
        let ghost models = document_models(documents@);
        let mut ids: Vec<DocumentId> = Vec::new();
        let mut i: usize = 0;
        while i < documents.len()
            invariant
                i <= documents.len(),
                issued + documents.len() <= u64::MAX,
                ids.len() == i,
                entries.len() == before.len() + i,
                forall|j: int|
                    0 <= j < before.len() ==> (#[trigger] before[j]).id.high == series && before[j].id.low
                        < issued,
                forall|a: int, b: int|
                    0 <= a < b < before.len() ==> (#[trigger] before[a]).id.low < (
                    #[trigger] before[b]).id.low,
                forall|j: int| 0 <= j < i ==> (#[trigger] ids@[j]) == CollectionModel::id_number(
                    series,
                    (issued + j) as nat,
                ),
                forall|j: int| 0 <= j < before.len() ==> (#[trigger] entries@[j])@ == before[j],
                forall|j: int|
                    0 <= j < i ==> (#[trigger] entries@[before.len() + j])@ == (EntryModel {
                        id: ids@[j],
                        document: documents@[j]@,
                    }),
            decreases documents.len() - i,
        {
            let id = DocumentId { high: series, low: issued + i as u64 };
            entries.push(Entry { id, document: documents[i].clone() });
            ids.push(id);
            i = i + 1;
        }
        proof {
            let target = appended(before, ids@, models);
            assert(entry_models(entries@).len() == target.len());
            assert forall|k: int| 0 <= k < target.len() implies entry_models(entries@)[k]
                == target[k] by {
                if k >= before.len() {
                    let j = k - before.len();
                    assert(entries@[before.len() + j]@ == (EntryModel {
                        id: ids@[j],
                        document: documents@[j]@,
                    }));
                }
            }
            assert(entry_models(entries@) =~= target);
            assert(ids@ =~= old(self)@.next_ids(documents@.len()));
            assert forall|k: int| 0 <= k < ids@.len() implies is_fresh(before, ids@[k]) by {
                assert(ids@[k] == CollectionModel::id_number(series, (issued + k) as nat));
                assert forall|j: int| 0 <= j < before.len() implies (#[trigger] before[j]).id
                    != ids@[k] by {
                    assert(before[j].id.low < issued);
                }
            }
            assert forall|a: int, b: int| 0 <= a < b < ids@.len() implies ids@[a] != ids@[b] by {
                assert(ids@[a] == CollectionModel::id_number(series, (issued + a) as nat));
                assert(ids@[b] == CollectionModel::id_number(series, (issued + b) as nat));
            }
            let after = entry_models(entries@);
            assert forall|a: int, b: int| 0 <= a < b < after.len() implies (#[trigger] after[a]).id.low
                < (#[trigger] after[b]).id.low by {
                if a >= before.len() {
                    assert(ids@[a - before.len()] == CollectionModel::id_number(
                    series,
                        (issued + a - before.len()) as nat,
                    ));
                } else {
                    assert(after[a] == before[a]);
                }
                if b >= before.len() {
                    assert(ids@[b - before.len()] == CollectionModel::id_number(
                    series,
                        (issued + b - before.len()) as nat,
                    ));
                } else {
                    assert(after[b] == before[b]);
                }
            }
            assert forall|a: int| 0 <= a < after.len() implies (#[trigger] after[a]).id.high == series
                && after[a].id.low < issued + documents.len() by {
                if a >= before.len() {
                    assert(ids@[a - before.len()] == CollectionModel::id_number(
                    series,
                        (issued + a - before.len()) as nat,
                    ));
                } else {
                    assert(after[a] == before[a]);
                }
            }
        }
        *self = Collection {
            name,
            series,
            entries,
            indexes,
            issued: issued + documents.len() as u64,
        };
        Ok(ids)
    }

    /// Declares an index on the field, of the kind. The entries stay as
    /// they are, so every lookup answers as before. The index is refused,
    /// and nothing changes, where a stored document holds a value of
    /// another kind in the field. Where the collection has such an index
    /// already, nothing changes either.
    pub fn create_index(&mut self, field: &str, kind: IndexKind) -> (created: Result<(), Failure>)
        ensures
            final(self)@.wf(),
            final(self)@.entries == old(self)@.entries,
            final(self)@.name == old(self)@.name,
            final(self)@.issued == old(self)@.issued,
            forall|f: Seq<char>, v: ValueModel| #[trigger]
                find_by_field(final(self)@.entries, f, v) == find_by_field(
                    old(self)@.entries,
                    f,
                    v,
                ),
            created is Ok <==> index_fits(old(self)@.entries, field@, kind),
            match created {
                Ok(_) => has_index(final(self)@.indexes, field@, kind) && final(self)@ == old(
                    self,
                )@.indexed(field@, kind),
                Err(failure) => failure == Failure::Index && final(self)@ == old(self)@,
            },
    {
        proof {
            use_type_invariant(&*self);
        }
        let mut i: usize = 0;
        while i < self.entries.len()
            invariant
                i <= self.entries.len(),
                self@.wf(),
                forall|j: int|
                    0 <= j < i && (#[trigger] self@.entries[j]).document.contains_key(field@)
                        ==> kind_of(self@.entries[j].document[field@]) == kind,
            decreases self.entries.len() - i,
        {
            match self.entries[i].document.get(field) {
                Some(value) => {
                    if !value_is_of(value, kind) {
                        assert(self@.entries[i as int].document.contains_key(field@));
                        return Err(Failure::Index);
                    }
                },
                None => {},
            }
            i = i + 1;
        }
        if self.has_index(field, kind) {
            return Ok(());
        }
        let Collection { name, series, entries, mut indexes, issued } = self.take();
        let ghost before = index_models(indexes@);
        indexes.push(IndexSpec { field: String::from_str(field), kind });
        proof {
            let after = index_models(indexes@);
            assert(after =~= before.push(IndexModel { field: field@, kind }));
            assert(after[after.len() - 1] == (IndexModel { field: field@, kind }));
        }
        *self = Collection { name, series, entries, indexes, issued };
        Ok(())
    }

    /// Makes the change to every document that has the field with that
    /// value, and returns how many there were. Where there is none, nothing
    /// changes and the number is 0.
    pub fn update_where(&mut self, field: &str, value: &Value, mutation: &Mutation) -> (modified:
        usize)
        ensures
            final(self)@.wf(),
            modified == count_matches(old(self)@.entries, field@, value@),
            final(self)@ == old(self)@.changed_where(field@, value@, mutation@),
            modified == 0 ==> final(self)@ == old(self)@,
    {
        proof {
            use_type_invariant(&*self);
        }
        let Collection { name, series, mut entries, indexes, issued } = self.take();
        let ghost before = entry_models(entries@);
        assert(before == old(self)@.entries);
        let ghost target = updated(before, field@, value@, mutation@);
        let mut modified: usize = 0;
        let mut i: usize = 0;
        while i < entries.len()
            invariant
                i <= entries.len(),
                entries.len() == before.len(),
                modified <= i,
                modified == count_matches(before.take(i as int), field@, value@),
                target == updated(before, field@, value@, mutation@),
                forall|j: int| 0 <= j < i ==> (#[trigger] entries@[j])@ == target[j],
                forall|j: int| i <= j < before.len() ==> (#[trigger] entries@[j])@ == before[j],
                forall|j: int| 0 <= j < before.len() ==> (#[trigger] entries@[j]).id == before[j].id,
            decreases entries.len() - i,
        {
            proof {
                assert(before.take(i + 1).drop_last() =~= before.take(i as int));
                assert(before.take(i + 1).last() == before[i as int]);
            }
            if document_matches(&entries[i].document, field, value) {
                let id = entries[i].id;
                let mut document = entries[i].document.clone();
                apply_mutation(&mut document, mutation);
                entries.set(i, Entry { id, document });
                modified = modified + 1;
            }
            i = i + 1;
        }
        proof {
            assert(before.take(before.len() as int) =~= before);
            let after = entry_models(entries@);
            assert(after =~= target);
            assert forall|a: int, b: int| 0 <= a < b < after.len() implies (#[trigger] after[a]).id.low
                < (#[trigger] after[b]).id.low by {
                assert(entries@[a].id == before[a].id);
                assert(entries@[b].id == before[b].id);
            }
            assert forall|a: int| 0 <= a < after.len() implies (#[trigger] after[a]).id.high == series
                && after[a].id.low < issued by {
                assert(entries@[a].id == before[a].id);
            }
            if modified == 0 {
                lemma_no_match_no_change(before, field@, value@, mutation@);
            }
        }
        *self = Collection { name, series, entries, indexes, issued };
        modified
    }

    /// Takes the field out of the document stored under the identifier.
    /// A document without the field stays as it is. There is nothing to do,
    /// and nothing changes, where no document is stored under the
    /// identifier.
    pub fn delete_field(&mut self, id: DocumentId, field: &str) -> (deleted: Result<(), Failure>)
        ensures
            final(self)@.wf(),
            deleted is Ok <==> find_by_id(old(self)@.entries, id) is Some,
            final(self)@ == old(self)@.without(id, field@),
            match deleted {
                Ok(_) => find_by_id(final(self)@.entries, id) == Some(
                    find_by_id(old(self)@.entries, id)->0.remove(field@),
                ),
                Err(failure) => failure == Failure::NotFound && final(self)@ == old(self)@,
            },
    {
        proof {
            use_type_invariant(&*self);
        }
        let place = self.place(id);
        if place >= self.entries.len() {
            return Err(Failure::NotFound);
        }
        let Collection { name, series, mut entries, indexes, issued } = self.take();
        let ghost before = entry_models(entries@);
        assert(before == old(self)@.entries);
        let mut document = entries[place].document.clone();
        document.remove(field);
        entries.set(place, Entry { id, document });
        proof {
            lemma_place_of(before, id);
            let after = entry_models(entries@);
            assert(after =~= without_field(before, place as int, field@));
            assert forall|a: int, b: int| 0 <= a < b < after.len() implies (#[trigger] after[a]).id.low
                < (#[trigger] after[b]).id.low by {
                assert(after[a].id == before[a].id);
                assert(after[b].id == before[b].id);
            }
            assert forall|a: int| 0 <= a < after.len() implies (#[trigger] after[a]).id.high == series
                && after[a].id.low < issued by {
                assert(after[a].id == before[a].id);
            }
            lemma_delete_field_then_find(before, id, field@);
        }
        *self = Collection { name, series, entries, indexes, issued };
        Ok(())
    }

    /// Runs one operation of a workload on the collection: stores what an
    /// insert brings, and for a lookup tells whether it found a document.
    pub fn perform(&mut self, operation: &Operation) -> (outcome: Outcome)
        ensures
            final(self)@.wf(),
            outcome@ == old(self)@.answer(operation@),
            final(self)@ == old(self)@.after(operation@),
    {
        proof {
            use_type_invariant(&*self);
        }
        match operation {
            Operation::InsertOne(document) => match self.insert_one(document) {
                Ok(id) => Outcome::Inserted(id),
                Err(failure) => Outcome::Failed(failure),
            },
            Operation::InsertMany(documents) => {
                match self.insert_many(documents) {
                    Ok(ids) => Outcome::InsertedMany(ids),
                    Err(failure) => Outcome::Failed(failure),
                }
            },
            Operation::FindByUserId(user_id) => {
                let wanted = Value::Int(*user_id);
                match self.find_one_by_field("user_id", &wanted) {
                    Some(_) => Outcome::Found,
                    None => Outcome::Missing,
                }
            },
            Operation::FindById(id) => match self.find_one_by_id(*id) {
                Some(_) => Outcome::Found,
                None => Outcome::Missing,
            },
        }
    }
}

/// Where no document has the field with that value, a change to those that
/// have it changes nothing.
pub proof fn lemma_no_match_no_change(
    entries: Seq<EntryModel>,
    field: Seq<char>,
    value: ValueModel,
    mutation: MutationModel,
)
    requires
        count_matches(entries, field, value) == 0,
    ensures
        updated(entries, field, value, mutation) == entries,
        forall|i: int| 0 <= i < entries.len() ==> !has_value(
            (#[trigger] entries[i]).document,
            field,
            value,
        ),
    decreases entries.len(),
{
    if entries.len() > 0 {
        let rest = entries.drop_last();
        lemma_no_match_no_change(rest, field, value, mutation);
        assert forall|i: int| 0 <= i < entries.len() implies !has_value(
            (#[trigger] entries[i]).document,
            field,
            value,
        ) by {
            if i < rest.len() {
                assert(entries[i] == rest[i]);
            }
        }
    }
    assert(updated(entries, field, value, mutation) =~= entries);
}

/// After a field was taken out of the document stored under an identifier,
/// a lookup by that identifier gives the document without the field; and
/// where the document had no such field, the entries are as before.
pub proof fn lemma_delete_field_then_find(entries: Seq<EntryModel>, id: DocumentId, field: Seq<char>)
    requires
        find_by_id(entries, id) is Some,
    ensures
        find_by_id(without_field(entries, place_of(entries, id), field), id) == Some(
            find_by_id(entries, id)->0.remove(field),
        ),
        !find_by_id(without_field(entries, place_of(entries, id), field), id)->0.contains_key(
            field,
        ),
        !find_by_id(entries, id)->0.contains_key(field) ==> without_field(
            entries,
            place_of(entries, id),
            field,
        ) == entries,
        without_field(
            without_field(entries, place_of(entries, id), field),
            place_of(entries, id),
            field,
        ) == without_field(entries, place_of(entries, id), field),
{
    lemma_place_of(entries, id);
    let place = place_of(entries, id);
    let after = without_field(entries, place, field);
    assert forall|i: int| 0 <= i < place implies (#[trigger] after[i]).id != id by {
        assert(entries[i].id != id);
    }
    lemma_place_of_is(after, id, place);
    if !entries[place].document.contains_key(field) {
        assert(entries[place].document.remove(field) =~= entries[place].document);
        assert(after =~= entries);
    }
    assert(after[place].document.remove(field) =~= after[place].document);
    assert(without_field(after, place, field) =~= after);
}

/// After a batch of documents was stored in a collection, a walk over
/// all documents counts those that were there and those of the batch; in a
/// collection that was empty, exactly those of the batch.
pub proof fn lemma_batch_then_count(
    entries: Seq<EntryModel>,
    ids: Seq<DocumentId>,
    documents: Seq<DocumentModel>,
)
    ensures
        appended(entries, ids, documents).len() == entries.len() + documents.len(),
        entries.len() == 0 ==> appended(entries, ids, documents).len() == documents.len(),
        forall|i: int|
            0 <= i < documents.len() ==> (#[trigger] appended(entries, ids, documents)[entries.len()
                + i]).document == documents[i],
{
}

/// A lookup by field does not read the indexes: two collections with the
/// same entries answer alike, whatever indexes either has.
pub proof fn lemma_indexes_keep_answers(
    before: CollectionModel,
    after: CollectionModel,
    field: Seq<char>,
    value: ValueModel,
)
    requires
        after.entries == before.entries,
    ensures
        find_by_field(after.entries, field, value) == find_by_field(before.entries, field, value),
{
}

/// Where exactly one document has the field with that value, a lookup by
/// field gives that document.
pub proof fn lemma_unique_match_is_found(
    entries: Seq<EntryModel>,
    field: Seq<char>,
    value: ValueModel,
    place: int,
)
    requires
        0 <= place < entries.len(),
        has_value(entries[place].document, field, value),
        forall|i: int|
            0 <= i < entries.len() && i != place ==> !has_value(
                (#[trigger] entries[i]).document,
                field,
                value,
            ),
    ensures
        find_by_field(entries, field, value) == Some(entries[place].document),
{
    lemma_first_match_is(entries, field, value, place);
}

/// Where some document has the field with that value, a lookup by field
/// finds one that has.
pub proof fn lemma_match_is_found(
    entries: Seq<EntryModel>,
    field: Seq<char>,
    value: ValueModel,
    place: int,
)
    requires
        0 <= place < entries.len(),
        has_value(entries[place].document, field, value),
    ensures
        find_by_field(entries, field, value) is Some,
        has_value(find_by_field(entries, field, value)->0, field, value),
{
    lemma_first_match(entries, field, value);
    if first_match(entries, field, value) > place {
        assert(!has_value(entries[place].document, field, value));
    }
}

/// Where some entry has the identifier, a lookup by identifier finds one.
pub proof fn lemma_id_is_found(entries: Seq<EntryModel>, id: DocumentId, place: int)
    requires
        0 <= place < entries.len(),
        entries[place].id == id,
    ensures
        find_by_id(entries, id) is Some,
{
    lemma_place_of(entries, id);
    if place_of(entries, id) > place {
        assert(entries[place].id != id);
    }
}

} // verus!
