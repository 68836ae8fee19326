//! Documents: named fields with integer, text or list values.

use vstd::prelude::*;
use vstd::string::*;

verus! {

/// The value of a field.
#[derive(Debug, PartialEq, Eq)]
pub enum Value {
    Int(i64),
    Text(String),
    List(Vec<Value>),
}

/// The mathematical content of a `Value`.
pub enum ValueModel {
    Int(int),
    Text(Seq<char>),
    List(Seq<ValueModel>),
}

impl View for Value {
    type V = ValueModel;

    open spec fn view(&self) -> ValueModel
        decreases self,
    {
        match self {
            Value::Int(i) => ValueModel::Int(*i as int),
            Value::Text(s) => ValueModel::Text(s@),
            Value::List(items) => ValueModel::List(
                Seq::new(
                    items.len() as nat,
                    |i: int|
                        if 0 <= i < items.len() {
                            items[i].view()
                        } else {
                            ValueModel::Int(0)
                        },
                ),
            ),
        }
    }
}

impl Value {
    /// Tells whether two values have the same content.
    pub fn same(&self, other: &Value) -> (eq: bool)
        ensures
            eq == (self@ == other@),
        decreases self,
    {
        match (self, other) {
            (Value::Int(a), Value::Int(b)) => *a == *b,
            (Value::Text(a), Value::Text(b)) => *a == *b,
            (Value::List(a), Value::List(b)) => {
                if a.len() != b.len() {
                    assert(self@->List_0.len() != other@->List_0.len());
                    return false;
                }
                let mut i: usize = 0;
                while i < a.len()
                    invariant
                        i <= a.len(),
                        a.len() == b.len(),
                        self == Value::List(*a),
                        other == Value::List(*b),
                        forall|j: int| 0 <= j < i ==> a@[j]@ == b@[j]@,
                    decreases a.len() - i,
                {
                    if !a[i].same(&b[i]) {
                        assert(self@->List_0[i as int] != other@->List_0[i as int]);
                        return false;
                    }
                    i = i + 1;
                }
                assert(self@->List_0 =~= other@->List_0);
                true
            },
            _ => false,
        }
    }
}

impl Clone for Value {
    fn clone(&self) -> (copy: Value)
        ensures
            copy@ == self@,
    {
        self.duplicate()
    }
}

impl Value {
    /// A value with the same content.
    pub fn duplicate(&self) -> (copy: Value)
        ensures
            copy@ == self@,
        decreases self,
    {
        match self {
            Value::Int(i) => Value::Int(*i),
            Value::Text(s) => Value::Text(s.clone()),
            Value::List(items) => {
                let mut copies: Vec<Value> = Vec::new();
                let mut i: usize = 0;
                while i < items.len()
                    invariant
                        i <= items.len(),
                        self == Value::List(*items),
                        copies.len() == i,
                        forall|j: int| 0 <= j < i ==> copies@[j]@ == items@[j]@,
                    decreases items.len() - i,
                {
                    assert(self->List_0 == *items);
                    let item = items[i].duplicate();
                    copies.push(item);
                    i = i + 1;
                }
                let copy = Value::List(copies);
                assert(copy@->List_0 =~= self@->List_0);
                copy
            },
        }
    }
}

/// One named value of a document.
#[derive(Debug, PartialEq, Eq)]
pub struct Field {
    pub name: String,
    pub value: Value,
}

impl Clone for Field {
    fn clone(&self) -> (copy: Field)
        ensures
            copy.name@ == self.name@,
            copy.value@ == self.value@,
    {
        Field { name: self.name.clone(), value: self.value.clone() }
    }
}

/// The mathematical content of a document: its values by field name.
pub type DocumentModel = Map<Seq<char>, ValueModel>;

/// The mapping that a sequence of fields stands for. Where a name occurs
/// twice, the later field counts.
pub open spec fn fields_model(fields: Seq<Field>) -> DocumentModel
    decreases fields.len(),
{
    if fields.len() == 0 {
        Map::empty()
    } else {
        fields_model(fields.drop_last()).insert(fields.last().name@, fields.last().value@)
    }
}

/// No two fields of the sequence share a name.
pub open spec fn distinct_names(fields: Seq<Field>) -> bool {
    forall|i: int, j: int|
        0 <= i < j < fields.len() ==> (#[trigger] fields[i]).name@ != (#[trigger] fields[j]).name@
}

/// The mapping of a sequence of fields holds exactly the names of the
/// fields, and for each field with a name of its own, that field's value.
pub proof fn lemma_fields_model(fields: Seq<Field>)
    ensures
        fields_model(fields).dom().finite(),
        forall|name: Seq<char>|
            fields_model(fields).contains_key(name) <==> exists|i: int|
                0 <= i < fields.len() && (#[trigger] fields[i]).name@ == name,
        distinct_names(fields) ==> forall|i: int|
            0 <= i < fields.len() ==> fields_model(fields)[(#[trigger] fields[i]).name@]
                == fields[i].value@,
        distinct_names(fields) ==> fields_model(fields).dom().len() == fields.len(),
    decreases fields.len(),
{
    if fields.len() > 0 {
        let rest = fields.drop_last();
        let last = fields.last();
        lemma_fields_model(rest);
        assert forall|name: Seq<char>|
            fields_model(fields).contains_key(name) <==> exists|i: int|
                0 <= i < fields.len() && (#[trigger] fields[i]).name@ == name by {
            if fields_model(fields).contains_key(name) {
                if name == last.name@ {
                    assert(fields[fields.len() - 1].name@ == name);
                } else {
                    let i = choose|i: int| 0 <= i < rest.len() && (#[trigger] rest[i]).name@ == name;
                    assert(fields[i].name@ == name);
                }
            }
            if exists|i: int| 0 <= i < fields.len() && (#[trigger] fields[i]).name@ == name {
                let i = choose|i: int| 0 <= i < fields.len() && (#[trigger] fields[i]).name@ == name;
                if i < rest.len() {
                    assert(rest[i].name@ == name);
                }
            }
        }
        if distinct_names(fields) {
            assert(distinct_names(rest)) by {
                assert forall|i: int, j: int| 0 <= i < j < rest.len() implies (#[trigger] rest[i]).name@
                    != (#[trigger] rest[j]).name@ by {
                    assert(fields[i].name@ != fields[j].name@);
                }
            }
            assert forall|i: int| 0 <= i < fields.len() implies fields_model(fields)[(
            #[trigger] fields[i]).name@] == fields[i].value@ by {
                if i < rest.len() {
                    assert(fields[i].name@ != fields[fields.len() - 1].name@);
                    assert(rest[i].name@ == fields[i].name@);
                }
            }
            assert(!fields_model(rest).contains_key(last.name@)) by {
                if fields_model(rest).contains_key(last.name@) {
                    let i = choose|i: int|
                        0 <= i < rest.len() && (#[trigger] rest[i]).name@ == last.name@;
                    assert(fields[i].name@ != fields[fields.len() - 1].name@);
                }
            }
        }
    }
}

/// A mapping that holds exactly the names of fields with distinct names,
/// each with its field's value, is the mapping of those fields.
pub proof fn lemma_model_by_names(fields: Seq<Field>, m: DocumentModel)
    requires
        distinct_names(fields),
        forall|name: Seq<char>|
            m.contains_key(name) <==> exists|i: int|
                0 <= i < fields.len() && (#[trigger] fields[i]).name@ == name,
        forall|i: int| 0 <= i < fields.len() ==> m[(#[trigger] fields[i]).name@] == fields[i].value@,
    ensures
        fields_model(fields) == m,
{
    lemma_fields_model(fields);
    let fm = fields_model(fields);
    assert forall|name: Seq<char>| fm.contains_key(name) implies fm[name] == m[name] by {
        let i = choose|i: int| 0 <= i < fields.len() && (#[trigger] fields[i]).name@ == name;
        assert(fm[fields[i].name@] == fields[i].value@);
    }
    assert(fm =~= m);
}

/// A record of named values. No two of its fields share a name.
#[derive(Debug, PartialEq, Eq)]
pub struct Document {
    fields: Vec<Field>,
}

impl View for Document {
    type V = DocumentModel;

    closed spec fn view(&self) -> DocumentModel {
        fields_model(self.fields@)
    }
}

impl Document {
    #[verifier::type_invariant]
    spec fn names_are_distinct(self) -> bool {
        distinct_names(self.fields@)
    }

    /// The document without fields.
    pub fn new() -> (doc: Document)
        ensures
            doc@ == Map::<Seq<char>, ValueModel>::empty(),
    {
        Document { fields: Vec::new() }
    }

    /// The fields in the order in which their names were first set.
    pub fn fields(&self) -> (fields: &Vec<Field>)
        ensures
            fields_model(fields@) == self@,
            distinct_names(fields@),
    {
        proof {
            use_type_invariant(self);
        }
        &self.fields
    }

    /// The number of fields.
    pub fn len(&self) -> (n: usize)
        ensures
            self@.dom().finite(),
            n == self@.dom().len(),
    {
        proof {
            use_type_invariant(self);
            lemma_fields_model(self.fields@);
        }
        self.fields.len()
    }

    /// The place of the field called `name`, if there is one.
    fn position(&self, name: &String) -> (place: Option<usize>)
        ensures
            match place {
                Some(i) => i < self.fields.len() && self.fields[i as int].name@ == name@,
                None => forall|i: int|
                    0 <= i < self.fields.len() ==> (#[trigger] self.fields[i]).name@ != name@,
            },
    {
        let mut i: usize = 0;
        while i < self.fields.len()
            invariant
                i <= self.fields.len(),
                forall|j: int| 0 <= j < i ==> (#[trigger] self.fields[j]).name@ != name@,
            decreases self.fields.len() - i,
        {
            if self.fields[i].name == *name {
                return Some(i);
            }
            i = i + 1;
        }
        None
    }

    /// The value of the field called `name`, if the document has one.
    pub fn get(&self, name: &str) -> (found: Option<&Value>)
        ensures
            match found {
                Some(value) => self@.contains_key(name@) && self@[name@] == value@,
                None => !self@.contains_key(name@),
            },
    {
        proof {
            use_type_invariant(self);
            lemma_fields_model(self.fields@);
        }
        let key = String::from_str(name);
        match self.position(&key) {
            Some(i) => Some(&self.fields[i].value),
            None => None,
        }
    }

    /// Tells whether the document has a field called `name`.
    pub fn contains(&self, name: &str) -> (found: bool)
        ensures
            found == self@.contains_key(name@),
    {
        self.get(name).is_some()
    }

    /// Gives the field called `name` the value `value`, adding the field
    /// where the document has none of that name.
    pub fn set(&mut self, name: &str, value: Value)
        ensures
            final(self)@ == old(self)@.insert(name@, value@),
    {
        proof {
            use_type_invariant(&*self);
            lemma_fields_model(self.fields@);
        }
        let key = String::from_str(name);
        let ghost before = self.fields@;
        let ghost target = old(self)@.insert(name@, value@);
        let place = self.position(&key);
        let mut fields = self.take_fields();
        match place {
            Some(i) => {
                fields.set(i, Field { name: key, value });
                proof {
                    let after = fields@;
                    assert forall|a: int, b: int| 0 <= a < b < after.len() implies (
                    #[trigger] after[a]).name@ != (#[trigger] after[b]).name@ by {
                        assert(before[a].name@ != before[b].name@);
                    }
                    assert forall|n: Seq<char>|
                        target.contains_key(n) <==> exists|j: int|
                            0 <= j < after.len() && (#[trigger] after[j]).name@ == n by {
                        if target.contains_key(n) {
                            if n == name@ {
                                assert(after[i as int].name@ == n);
                            } else {
                                let j = choose|j: int|
                                    0 <= j < before.len() && (#[trigger] before[j]).name@ == n;
                                assert(after[j].name@ == n);
                            }
                        }
                        if exists|j: int| 0 <= j < after.len() && (#[trigger] after[j]).name@ == n {
                            let j = choose|j: int|
                                0 <= j < after.len() && (#[trigger] after[j]).name@ == n;
                            assert(before[j].name@ == n);
                        }
                    }
                    assert forall|j: int| 0 <= j < after.len() implies target[(
                    #[trigger] after[j]).name@] == after[j].value@ by {
                        if j != i as int {
                            assert(before[j].name@ != before[i as int].name@);
                            assert(after[j] == before[j]);
                        }
                    }
                    lemma_model_by_names(after, target);
                }
            },
            None => {
                fields.push(Field { name: key, value });
                proof {
                    let after = fields@;
                    assert(after.drop_last() =~= before);
                    assert forall|a: int, b: int| 0 <= a < b < after.len() implies (
                    #[trigger] after[a]).name@ != (#[trigger] after[b]).name@ by {
                        if b < before.len() {
                            assert(before[a].name@ != before[b].name@);
                        } else {
                            assert(before[a].name@ != name@);
                        }
                    }
                }
            },
        }
        *self = Document { fields };
    }

    /// Moves the fields out and leaves the document empty.
    fn take_fields(&mut self) -> (fields: Vec<Field>)
        ensures
            fields == old(self).fields,
            final(self).fields@ == Seq::<Field>::empty(),
    {
        let mut taken = Document { fields: Vec::new() };
        core::mem::swap(self, &mut taken);
        taken.fields
    }

    /// Takes the field called `name` out of the document, and tells whether
    /// there was one. A document without such a field stays as it is.
    pub fn remove(&mut self, name: &str) -> (removed: bool)
        ensures
            final(self)@ == old(self)@.remove(name@),
            removed == old(self)@.contains_key(name@),
            !removed ==> final(self)@ == old(self)@,
    {
        proof {
            use_type_invariant(&*self);
            lemma_fields_model(self.fields@);
        }
        let key = String::from_str(name);
        let ghost before = self.fields@;
        let ghost target = old(self)@.remove(name@);
        match self.position(&key) {
            Some(i) => {
                let mut fields = self.take_fields();
                fields.remove(i);
                proof {
                    let after = fields@;
                    assert forall|a: int, b: int| 0 <= a < b < after.len() implies (
                    #[trigger] after[a]).name@ != (#[trigger] after[b]).name@ by {
                        let a0 = if a < i { a } else { a + 1 };
                        let b0 = if b < i { b } else { b + 1 };
                        assert(before[a0].name@ != before[b0].name@);
                    }
                    assert forall|n: Seq<char>|
                        target.contains_key(n) <==> exists|j: int|
                            0 <= j < after.len() && (#[trigger] after[j]).name@ == n by {
                        if target.contains_key(n) {
                            let j = choose|j: int|
                                0 <= j < before.len() && (#[trigger] before[j]).name@ == n;
                            let j1 = if j < i { j } else { j - 1 };
                            assert(after[j1].name@ == n);
                        }
                        if exists|j: int| 0 <= j < after.len() && (#[trigger] after[j]).name@ == n {
                            let j = choose|j: int|
                                0 <= j < after.len() && (#[trigger] after[j]).name@ == n;
                            let j0 = if j < i { j } else { j + 1 };
                            assert(before[j0].name@ == n);
                            if j0 < i {
                                assert(before[j0].name@ != before[i as int].name@);
                            } else {
                                assert(before[i as int].name@ != before[j0].name@);
                            }
                        }
                    }
                    assert forall|j: int| 0 <= j < after.len() implies target[(
                    #[trigger] after[j]).name@] == after[j].value@ by {
                        let j0 = if j < i { j } else { j + 1 };
                        assert(after[j] == before[j0]);
                        if j0 < i {
                            assert(before[j0].name@ != before[i as int].name@);
                        } else {
                            assert(before[i as int].name@ != before[j0].name@);
                        }
                    }
                    lemma_model_by_names(after, target);
                }
                *self = Document { fields };
                true
            },
            None => {
                assert(target =~= old(self)@);
                false
            },
        }
    }
}

impl Clone for Document {
    fn clone(&self) -> (copy: Document)
        ensures
            copy@ == self@,
    {
        proof {
            use_type_invariant(self);
        }
        let mut fields: Vec<Field> = Vec::new();
        let mut i: usize = 0;
        while i < self.fields.len()
            invariant
                i <= self.fields.len(),
                fields.len() == i,
                forall|j: int|
                    0 <= j < i ==> (#[trigger] fields@[j]).name@ == self.fields@[j].name@
                        && fields@[j].value@ == self.fields@[j].value@,
            decreases self.fields.len() - i,
        {
            fields.push(self.fields[i].clone());
            i = i + 1;
        }
        proof {
            lemma_same_content_same_model(self.fields@, fields@);
            assert forall|a: int, b: int| 0 <= a < b < fields@.len() implies (
            #[trigger] fields@[a]).name@ != (#[trigger] fields@[b]).name@ by {
                assert(self.fields@[a].name@ != self.fields@[b].name@);
            }
        }
        Document { fields }
    }
}

/// Two sequences of fields that agree place by place in names and values
/// stand for the same mapping.
pub proof fn lemma_same_content_same_model(a: Seq<Field>, b: Seq<Field>)
    requires
        a.len() == b.len(),
        forall|j: int|
            0 <= j < a.len() ==> (#[trigger] b[j]).name@ == a[j].name@ && b[j].value@
                == a[j].value@,
    ensures
        fields_model(a) == fields_model(b),
    decreases a.len(),
{
    if a.len() > 0 {
        assert(b[b.len() - 1].name@ == a[a.len() - 1].name@);
        lemma_same_content_same_model(a.drop_last(), b.drop_last());
    }
}

/// The name of the field that numbers the records of a workload.
pub const USER_ID: &'static str = "user_id";

/// The filler value of the field `count`.
pub const FILLER_COUNT: i64 = 10;

/// The filler value of the field `age`.
pub const FILLER_AGE: i64 = 40000;

/// The content of the record that a workload writes for `user_id`: that
/// number and two filler fields.
pub open spec fn synthetic_model(user_id: i64) -> DocumentModel {
    Map::<Seq<char>, ValueModel>::empty().insert("user_id"@, ValueModel::Int(user_id as int)).insert(
        "count"@,
        ValueModel::Int(FILLER_COUNT as int),
    ).insert("age"@, ValueModel::Int(FILLER_AGE as int))
}

/// Builds the record that a workload writes for `user_id`.
pub fn synthetic_document(user_id: i64) -> (doc: Document)
    ensures
        doc@ == synthetic_model(user_id),
{
    let mut doc = Document::new();
    doc.set(USER_ID, Value::Int(user_id));
    doc.set("count", Value::Int(FILLER_COUNT));
    doc.set("age", Value::Int(FILLER_AGE));
    doc
}

/// The record of a workload has three fields, and `user_id` holds the
/// number it was built for.
pub proof fn lemma_synthetic_model(user_id: i64)
    ensures
        synthetic_model(user_id).dom() =~= set!["user_id"@, "count"@, "age"@],
        synthetic_model(user_id)["user_id"@] == ValueModel::Int(user_id as int),
        synthetic_model(user_id)["count"@] == ValueModel::Int(10),
        synthetic_model(user_id)["age"@] == ValueModel::Int(40000),
{
    reveal_strlit("user_id");
    reveal_strlit("count");
    reveal_strlit("age");
    assert("user_id"@.len() == 7);
    assert("count"@.len() == 5);
    assert("age"@.len() == 3);
}

} // verus!
