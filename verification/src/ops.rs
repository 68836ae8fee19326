//! What a workload asks of a collection, and what comes back.

use vstd::prelude::*;
use vstd::string::*;

use crate::document::{Document, DocumentModel};
use crate::kind::OpKind;
use crate::text::{append_decimal, decimal_text};

verus! {

/// The identifier that the store gives a document: twelve bytes, held as
/// the first four and the last eight, each read as a big-endian number.
#[derive(Clone, Copy, Debug, PartialEq, Eq, Hash, Structural)]
pub struct DocumentId {
    pub high: u32,
    pub low: u64,
}

impl DocumentId {
    /// The identifier that the twelve bytes stand for.
    pub open spec fn of_bytes(bytes: Seq<u8>) -> DocumentId {
        DocumentId {
            high: (bytes[0] * 0x100_0000 + bytes[1] * 0x1_0000 + bytes[2] * 0x100
                + bytes[3]) as u32,
            low: (bytes[4] * 0x100_0000_0000_0000 + bytes[5] * 0x1_0000_0000_0000 + bytes[6]
                * 0x100_0000_0000 + bytes[7] * 0x1_0000_0000 + bytes[8] * 0x100_0000 + bytes[9]
                * 0x1_0000 + bytes[10] * 0x100 + bytes[11]) as u64,
        }
    }

    /// The twelve bytes of the identifier.
    pub open spec fn bytes_of(self) -> Seq<u8> {
        seq![
            (self.high / 0x100_0000) as u8,
            (self.high / 0x1_0000 % 0x100) as u8,
            (self.high / 0x100 % 0x100) as u8,
            (self.high % 0x100) as u8,
            (self.low / 0x100_0000_0000_0000) as u8,
            (self.low / 0x1_0000_0000_0000 % 0x100) as u8,
            (self.low / 0x100_0000_0000 % 0x100) as u8,
            (self.low / 0x1_0000_0000 % 0x100) as u8,
            (self.low / 0x100_0000 % 0x100) as u8,
            (self.low / 0x1_0000 % 0x100) as u8,
            (self.low / 0x100 % 0x100) as u8,
            (self.low % 0x100) as u8,
        ]
    }

    /// Reads an identifier from its twelve bytes.
    pub fn from_bytes(bytes: &[u8; 12]) -> (id: DocumentId)
        ensures
            id == Self::of_bytes(bytes@),
            id.bytes_of() == bytes@,
    {
        let high: u32 = (bytes[0] as u32) * 0x100_0000 + (bytes[1] as u32) * 0x1_0000 + (
        bytes[2] as u32) * 0x100 + (bytes[3] as u32);
        let low: u64 = (bytes[4] as u64) * 0x100_0000_0000_0000 + (bytes[5] as u64)
            * 0x1_0000_0000_0000 + (bytes[6] as u64) * 0x100_0000_0000 + (bytes[7] as u64)
            * 0x1_0000_0000 + (bytes[8] as u64) * 0x100_0000 + (bytes[9] as u64) * 0x1_0000 + (
        bytes[10] as u64) * 0x100 + (bytes[11] as u64);
        let id = DocumentId { high, low };
        proof {
            lemma_bytes_round_trip(bytes@);
        }
        id
    }

    /// Writes the identifier as its twelve bytes.
    pub fn to_bytes(&self) -> (bytes: [u8; 12])
        ensures
            bytes@ == self.bytes_of(),
            Self::of_bytes(bytes@) == *self,
    {
        let bytes: [u8; 12] = [
            (self.high / 0x100_0000) as u8,
            (self.high / 0x1_0000 % 0x100) as u8,
            (self.high / 0x100 % 0x100) as u8,
            (self.high % 0x100) as u8,
            (self.low / 0x100_0000_0000_0000) as u8,
            (self.low / 0x1_0000_0000_0000 % 0x100) as u8,
            (self.low / 0x100_0000_0000 % 0x100) as u8,
            (self.low / 0x1_0000_0000 % 0x100) as u8,
            (self.low / 0x100_0000 % 0x100) as u8,
            (self.low / 0x1_0000 % 0x100) as u8,
            (self.low / 0x100 % 0x100) as u8,
            (self.low % 0x100) as u8,
        ];
        proof {
            assert(bytes@ =~= self.bytes_of());
            lemma_id_round_trip(*self);
        }
        bytes
    }
}

/// Four bytes joined to a number and split again are the same bytes.
proof fn lemma_join_four(a: u8, b: u8, c: u8, d: u8)
    by (bit_vector)
    ensures
        a * 0x100_0000 + b * 0x1_0000 + c * 0x100 + d <= 0xffff_ffff,
        (a * 0x100_0000 + b * 0x1_0000 + c * 0x100 + d) / 0x100_0000 == a,
        (a * 0x100_0000 + b * 0x1_0000 + c * 0x100 + d) / 0x1_0000 % 0x100 == b,
        (a * 0x100_0000 + b * 0x1_0000 + c * 0x100 + d) / 0x100 % 0x100 == c,
        (a * 0x100_0000 + b * 0x1_0000 + c * 0x100 + d) % 0x100 == d,
{
}

/// A number split into four bytes and joined again is the same number.
proof fn lemma_split_four(x: u32)
    by (bit_vector)
    ensures
        x / 0x100_0000 < 0x100,
        (x / 0x100_0000) * 0x100_0000 + (x / 0x1_0000 % 0x100) * 0x1_0000 + (x / 0x100 % 0x100)
            * 0x100 + x % 0x100 == x,
{
}

/// Eight bytes joined to a number and split again are the same bytes.
proof fn lemma_join_eight(a: u8, b: u8, c: u8, d: u8, e: u8, f: u8, g: u8, h: u8)
    by (bit_vector)
    ensures
        a * 0x100_0000_0000_0000 + b * 0x1_0000_0000_0000 + c * 0x100_0000_0000 + d
            * 0x1_0000_0000 + e * 0x100_0000 + f * 0x1_0000 + g * 0x100 + h
            <= 0xffff_ffff_ffff_ffff,
        (a * 0x100_0000_0000_0000 + b * 0x1_0000_0000_0000 + c * 0x100_0000_0000 + d
            * 0x1_0000_0000 + e * 0x100_0000 + f * 0x1_0000 + g * 0x100 + h)
            / 0x100_0000_0000_0000 == a,
        (a * 0x100_0000_0000_0000 + b * 0x1_0000_0000_0000 + c * 0x100_0000_0000 + d
            * 0x1_0000_0000 + e * 0x100_0000 + f * 0x1_0000 + g * 0x100 + h)
            / 0x1_0000_0000_0000 % 0x100 == b,
        (a * 0x100_0000_0000_0000 + b * 0x1_0000_0000_0000 + c * 0x100_0000_0000 + d
            * 0x1_0000_0000 + e * 0x100_0000 + f * 0x1_0000 + g * 0x100 + h) / 0x100_0000_0000
            % 0x100 == c,
        (a * 0x100_0000_0000_0000 + b * 0x1_0000_0000_0000 + c * 0x100_0000_0000 + d
            * 0x1_0000_0000 + e * 0x100_0000 + f * 0x1_0000 + g * 0x100 + h) / 0x1_0000_0000
            % 0x100 == d,
        (a * 0x100_0000_0000_0000 + b * 0x1_0000_0000_0000 + c * 0x100_0000_0000 + d
            * 0x1_0000_0000 + e * 0x100_0000 + f * 0x1_0000 + g * 0x100 + h) / 0x100_0000 % 0x100
            == e,
        (a * 0x100_0000_0000_0000 + b * 0x1_0000_0000_0000 + c * 0x100_0000_0000 + d
            * 0x1_0000_0000 + e * 0x100_0000 + f * 0x1_0000 + g * 0x100 + h) / 0x1_0000 % 0x100
            == f,
        (a * 0x100_0000_0000_0000 + b * 0x1_0000_0000_0000 + c * 0x100_0000_0000 + d
            * 0x1_0000_0000 + e * 0x100_0000 + f * 0x1_0000 + g * 0x100 + h) / 0x100 % 0x100 == g,
        (a * 0x100_0000_0000_0000 + b * 0x1_0000_0000_0000 + c * 0x100_0000_0000 + d
            * 0x1_0000_0000 + e * 0x100_0000 + f * 0x1_0000 + g * 0x100 + h) % 0x100 == h,
{
}

/// A number split into eight bytes and joined again is the same number.
proof fn lemma_split_eight(x: u64)
    by (bit_vector)
    ensures
        x / 0x100_0000_0000_0000 < 0x100,
        (x / 0x100_0000_0000_0000) * 0x100_0000_0000_0000 + (x / 0x1_0000_0000_0000 % 0x100)
            * 0x1_0000_0000_0000 + (x / 0x100_0000_0000 % 0x100) * 0x100_0000_0000 + (x
            / 0x1_0000_0000 % 0x100) * 0x1_0000_0000 + (x / 0x100_0000 % 0x100) * 0x100_0000 + (x
            / 0x1_0000 % 0x100) * 0x1_0000 + (x / 0x100 % 0x100) * 0x100 + x % 0x100 == x,
{
}

/// An identifier written as bytes and read again is the same identifier.
pub proof fn lemma_id_round_trip(id: DocumentId)
    ensures
        id.bytes_of().len() == 12,
        DocumentId::of_bytes(id.bytes_of()) == id,
{
    lemma_split_four(id.high);
    lemma_split_eight(id.low);
}

/// Twelve bytes read as an identifier and written again are the same
/// bytes.
pub proof fn lemma_bytes_round_trip(bytes: Seq<u8>)
    requires
        bytes.len() == 12,
    ensures
        DocumentId::of_bytes(bytes).bytes_of() == bytes,
{
    lemma_join_four(bytes[0], bytes[1], bytes[2], bytes[3]);
    lemma_join_eight(
        bytes[4],
        bytes[5],
        bytes[6],
        bytes[7],
        bytes[8],
        bytes[9],
        bytes[10],
        bytes[11],
    );
    assert(DocumentId::of_bytes(bytes).bytes_of() =~= bytes);
}

/// Why an operation on the store did not succeed.
#[derive(Clone, Copy, Debug, PartialEq, Eq, Structural)]
pub enum Failure {
    /// The database could not be opened or reached.
    Engine,
    /// A field does not fit the kind of index asked for.
    Index,
    /// A write did not reach the store.
    Storage,
    /// The document or collection does not exist.
    NotFound,
}

impl Failure {
    /// The words for the failure.
    pub open spec fn text(self) -> Seq<char> {
        match self {
            Failure::Engine => "engine error"@,
            Failure::Index => "index error"@,
            Failure::Storage => "storage error"@,
            Failure::NotFound => "not found"@,
        }
    }

    /// The words for the failure.
    pub fn describe(self) -> (s: &'static str)
        ensures
            s@ == self.text(),
    {
        match self {
            Failure::Engine => "engine error",
            Failure::Index => "index error",
            Failure::Storage => "storage error",
            Failure::NotFound => "not found",
        }
    }
}

/// The failure of a workload phase: the kind of phase, the number of
/// records it had processed when it stopped, and why it stopped.
#[derive(Clone, Copy, Debug, PartialEq, Eq, Structural)]
pub struct WorkloadError {
    pub operation: OpKind,
    pub index: u32,
    pub cause: Failure,
}

impl WorkloadError {
    /// The line that reports the failure: the phase, the place and the
    /// cause.
    pub open spec fn message_text(self) -> Seq<char> {
        self.operation.title_text() + " failed at record "@ + decimal_text(self.index as nat)
            + ": "@ + self.cause.text()
    }

    /// The line that reports the failure: the phase, the place and the
    /// cause.
    pub fn message(&self) -> (line: String)
        ensures
            line@ == self.message_text(),
    {
        let mut line = String::from_str(self.operation.title());
        line.append(" failed at record ");
        append_decimal(&mut line, self.index as u128);
        line.append(": ");
        line.append(self.cause.describe());
        line
    }
}

/// Which field a read workload looks its records up by.
#[derive(Clone, Copy, Debug, PartialEq, Eq, Structural)]
pub enum Lookup {
    /// By the value of `user_id`.
    ByUserId,
    /// By the identifier that the store gave the record.
    ById,
}

/// One operation on the collection under test.
#[derive(Debug, PartialEq, Eq)]
pub enum Operation {
    /// Store one document.
    InsertOne(Document),
    /// Store all the documents as one batch.
    InsertMany(Vec<Document>),
    /// Find the first document whose `user_id` is the number.
    FindByUserId(i64),
    /// Find the document with the identifier.
    FindById(DocumentId),
}

/// The mathematical content of an `Operation`.
pub enum OperationModel {
    InsertOne(DocumentModel),
    InsertMany(Seq<DocumentModel>),
    FindByUserId(i64),
    FindById(DocumentId),
}

impl OperationModel {
    /// The operation stores documents.
    pub open spec fn is_insert(self) -> bool {
        self is InsertOne || self is InsertMany
    }
}

/// The contents of a sequence of documents, place by place.
pub open spec fn document_models(documents: Seq<Document>) -> Seq<DocumentModel> {
    Seq::new(documents.len(), |i: int| documents[i]@)
}

impl View for Operation {
    type V = OperationModel;

    open spec fn view(&self) -> OperationModel {
        match self {
            Operation::InsertOne(document) => OperationModel::InsertOne(document@),
            Operation::InsertMany(documents) => OperationModel::InsertMany(
                document_models(documents@),
            ),
            Operation::FindByUserId(user_id) => OperationModel::FindByUserId(*user_id),
            Operation::FindById(id) => OperationModel::FindById(*id),
        }
    }
}

/// What the collection answered to one operation.
#[derive(Debug, PartialEq, Eq)]
pub enum Outcome {
    /// The document was stored under the identifier.
    Inserted(DocumentId),
    /// The batch was stored; one identifier for each document that was.
    InsertedMany(Vec<DocumentId>),
    /// The lookup found a document.
    Found,
    /// The lookup found nothing.
    Missing,
    /// The operation failed.
    Failed(Failure),
}

/// The mathematical content of an `Outcome`.
pub enum OutcomeModel {
    Inserted(DocumentId),
    InsertedMany(Seq<DocumentId>),
    Found,
    Missing,
    Failed(Failure),
}

impl View for Outcome {
    type V = OutcomeModel;

    open spec fn view(&self) -> OutcomeModel {
        match self {
            Outcome::Inserted(id) => OutcomeModel::Inserted(*id),
            Outcome::InsertedMany(ids) => OutcomeModel::InsertedMany(ids@),
            Outcome::Found => OutcomeModel::Found,
            Outcome::Missing => OutcomeModel::Missing,
            Outcome::Failed(failure) => OutcomeModel::Failed(*failure),
        }
    }
}

} // verus!
