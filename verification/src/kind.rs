//! The kinds of workload phase.

use vstd::prelude::*;
use vstd::string::*;

verus! {

/// What one workload phase does to the collection.
#[derive(Clone, Copy, Debug, PartialEq, Eq, Structural)]
pub enum OpKind {
    /// One insert per record, one after the other.
    SequentialInsert,
    /// All records in a single batched insert.
    BatchInsert,
    /// One lookup per record, in index order.
    SequentialRead,
    /// One lookup per record, in a shuffled order.
    RandomRead,
}

impl OpKind {
    /// The phase writes records.
    pub open spec fn spec_is_insert(self) -> bool {
        self == OpKind::SequentialInsert || self == OpKind::BatchInsert
    }

    /// The phase writes records.
    #[verifier::when_used_as_spec(spec_is_insert)]
    pub fn is_insert(self) -> (b: bool)
        ensures
            b == self.spec_is_insert(),
    {
        match self {
            OpKind::SequentialInsert | OpKind::BatchInsert => true,
            OpKind::SequentialRead | OpKind::RandomRead => false,
        }
    }

    /// The word a timing line uses for what the phase does to a record.
    pub open spec fn verb_text(self) -> Seq<char> {
        if self.spec_is_insert() {
            "add"@
        } else {
            "search"@
        }
    }

    /// The title printed above the timing lines of the phase.
    pub open spec fn title_text(self) -> Seq<char> {
        match self {
            OpKind::SequentialInsert => "Sequential Writes"@,
            OpKind::BatchInsert => "Batch Writes"@,
            OpKind::SequentialRead => "Sequential Reads"@,
            OpKind::RandomRead => "Random Reads"@,
        }
    }

    /// The name by which a phase of the kind is asked for.
    pub open spec fn name_text(self) -> Seq<char> {
        match self {
            OpKind::SequentialInsert => "seq-insert"@,
            OpKind::BatchInsert => "batch-insert"@,
            OpKind::SequentialRead => "seq-read"@,
            OpKind::RandomRead => "random-read"@,
        }
    }

    /// The name by which a phase of the kind is asked for.
    pub fn name(self) -> (s: &'static str)
        ensures
            s@ == self.name_text(),
    {
        match self {
            OpKind::SequentialInsert => "seq-insert",
            OpKind::BatchInsert => "batch-insert",
            OpKind::SequentialRead => "seq-read",
            OpKind::RandomRead => "random-read",
        }
    }

    /// The kind that goes by the name, if any does.
    pub fn from_name(name: &str) -> (kind: Option<OpKind>)
        ensures
            match kind {
                Some(k) => k.name_text() == name@,
                None => forall|k: OpKind| k.name_text() != name@,
            },
    {
        let wanted = String::from_str(name);
        if wanted == String::from_str("seq-insert") {
            Some(OpKind::SequentialInsert)
        } else if wanted == String::from_str("batch-insert") {
            Some(OpKind::BatchInsert)
        } else if wanted == String::from_str("seq-read") {
            Some(OpKind::SequentialRead)
        } else if wanted == String::from_str("random-read") {
            Some(OpKind::RandomRead)
        } else {
            None
        }
    }

    /// The word a timing line uses for what the phase does to a record.
    pub fn verb(self) -> (s: &'static str)
        ensures
            s@ == self.verb_text(),
    {
        if self.is_insert() {
            "add"
        } else {
            "search"
        }
    }

    /// The title printed above the timing lines of the phase.
    pub fn title(self) -> (s: &'static str)
        ensures
            s@ == self.title_text(),
    {
        match self {
            OpKind::SequentialInsert => "Sequential Writes",
            OpKind::BatchInsert => "Batch Writes",
            OpKind::SequentialRead => "Sequential Reads",
            OpKind::RandomRead => "Random Reads",
        }
    }
}

/// No two kinds go by the same name, so a name stands for one kind at
/// most.
pub proof fn lemma_names_are_distinct(a: OpKind, b: OpKind)
    requires
        a.name_text() == b.name_text(),
    ensures
        a == b,
{
    reveal_strlit("seq-insert");
    reveal_strlit("batch-insert");
    reveal_strlit("seq-read");
    reveal_strlit("random-read");
    assert("seq-insert"@.len() == 10);
    assert("batch-insert"@.len() == 12);
    assert("seq-read"@.len() == 8);
    assert("random-read"@.len() == 11);
}

} // verus!
