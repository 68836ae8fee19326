use docstore_bench::collection::{Collection, IndexKind, IndexSpec, Mutation};
use docstore_bench::document::{synthetic_document, Document, Value};
use docstore_bench::ops::{DocumentId, Failure, Operation, Outcome};

fn batch(n: i64) -> Vec<Document> {
    (0..n).map(synthetic_document).collect()
}

fn named(name: &str, user_id: i64) -> Document {
    let mut doc = synthetic_document(user_id);
    doc.set("name", Value::Text(String::from(name)));
    doc
}

#[test]
fn insert_many_then_full_scan_counts_the_batch() {
    for n in [0i64, 1, 2, 50] {
        let mut users = Collection::new("user_idx");
        let ids = users.insert_many(&batch(n)).unwrap();
        assert_eq!(ids.len(), n as usize);
        assert_eq!(users.count(), n as usize);
    }
}

#[test]
fn insert_many_adds_to_what_is_there() {
    let mut users = Collection::new("user_idx");
    let first = users.insert_many(&batch(3)).unwrap();
    let second = users.insert_many(&batch(4)).unwrap();
    assert_eq!(users.count(), 7);
    let mut all: Vec<DocumentId> = first.iter().chain(second.iter()).copied().collect();
    all.sort_by_key(|id| (id.high, id.low));
    all.dedup();
    assert_eq!(all.len(), 7);
    let stored: Vec<DocumentId> = users.entries().iter().map(|e| e.id).collect();
    assert_eq!(stored, first.iter().chain(second.iter()).copied().collect::<Vec<_>>());
}

#[test]
fn insert_one_returns_distinct_identifiers() {
    let mut users = Collection::new("user_idx");
    let a = users.insert_one(&synthetic_document(1)).unwrap();
    let b = users.insert_one(&synthetic_document(1)).unwrap();
    assert_ne!(a, b);
    assert_eq!(users.count(), 2);
    assert_eq!(users.find_one_by_id(a), Some(synthetic_document(1)));
    assert_eq!(users.find_one_by_id(b), Some(synthetic_document(1)));
    assert_eq!(users.find_one_by_id(DocumentId { high: 9, low: 9 }), None);
    assert_eq!(users.name(), "user_idx");
}

#[test]
fn find_one_by_field_returns_the_first_match() {
    let mut users = Collection::new("user_idx");
    users.insert_one(&named("ann", 1)).unwrap();
    users.insert_one(&named("bob", 2)).unwrap();
    users.insert_one(&named("bob", 3)).unwrap();
    assert_eq!(
        users.find_one_by_field("name", &Value::Text(String::from("bob"))),
        Some(named("bob", 2))
    );
    assert_eq!(users.find_one_by_field("user_id", &Value::Int(3)), Some(named("bob", 3)));
    assert_eq!(users.find_one_by_field("user_id", &Value::Int(4)), None);
    assert_eq!(users.find_one_by_field("user_id", &Value::Text(String::from("3"))), None);
    assert_eq!(users.find_one_by_field("missing", &Value::Int(3)), None);
    assert_eq!(Collection::new("empty").find_one_by_field("user_id", &Value::Int(0)), None);
}

#[test]
fn index_creation_keeps_lookup_answers() {
    let mut users = Collection::new("user_idx");
    users.insert_many(&batch(20)).unwrap();
    let before: Vec<Option<Document>> =
        (-1..22).map(|v| users.find_one_by_field("user_id", &Value::Int(v))).collect();
    assert!(!users.has_index("user_id", IndexKind::Numeric));
    assert_eq!(users.create_index("user_id", IndexKind::Numeric), Ok(()));
    assert!(users.has_index("user_id", IndexKind::Numeric));
    let after: Vec<Option<Document>> =
        (-1..22).map(|v| users.find_one_by_field("user_id", &Value::Int(v))).collect();
    assert_eq!(before, after);
    for v in 0..20 {
        assert_eq!(after[(v + 1) as usize], Some(synthetic_document(v)));
    }
    assert_eq!(after[0], None);
    assert_eq!(after[21], None);
    assert_eq!(users.count(), 20);
}

#[test]
fn index_creation_twice_changes_nothing() {
    let mut users = Collection::new("user_idx");
    assert_eq!(users.create_index("user_id", IndexKind::Numeric), Ok(()));
    assert_eq!(users.create_index("user_id", IndexKind::Numeric), Ok(()));
    assert!(users.has_index("user_id", IndexKind::Numeric));
    assert!(!users.has_index("user_id", IndexKind::Text));
    assert!(!users.has_index("count", IndexKind::Numeric));
    assert_eq!(
        users.indexes(),
        &vec![IndexSpec { field: String::from("user_id"), kind: IndexKind::Numeric }]
    );
    users.insert_many(&batch(3)).unwrap();
    assert_eq!(users.find_one_by_field("user_id", &Value::Int(2)), Some(synthetic_document(2)));
}

#[test]
fn index_of_the_wrong_kind_is_refused() {
    let mut users = Collection::new("user_idx");
    users.insert_one(&named("ann", 1)).unwrap();
    users.insert_one(&synthetic_document(2)).unwrap();
    assert_eq!(users.create_index("name", IndexKind::Numeric), Err(Failure::Index));
    assert!(!users.has_index("name", IndexKind::Numeric));
    assert_eq!(users.create_index("user_id", IndexKind::Text), Err(Failure::Index));
    assert_eq!(users.create_index("user_id", IndexKind::List), Err(Failure::Index));
    assert_eq!(users.create_index("name", IndexKind::Text), Ok(()));
    assert_eq!(users.create_index("absent", IndexKind::List), Ok(()));
    assert_eq!(users.count(), 2);
}

#[test]
fn update_where_without_match_modifies_nothing() {
    let mut users = Collection::new("user_idx");
    users.insert_many(&batch(5)).unwrap();
    let change = Mutation::Assign { field: String::from("age"), value: Value::Int(1) };
    assert_eq!(users.update_where("user_id", &Value::Int(99), &change), 0);
    assert_eq!(users.update_where("nowhere", &Value::Int(1), &change), 0);
    for v in 0..5 {
        assert_eq!(users.find_one_by_field("user_id", &Value::Int(v)), Some(synthetic_document(v)));
    }
    assert_eq!(Collection::new("empty").update_where("user_id", &Value::Int(0), &change), 0);
}

#[test]
fn update_where_changes_every_match() {
    let mut users = Collection::new("user_idx");
    users.insert_one(&named("ann", 1)).unwrap();
    users.insert_one(&named("bob", 2)).unwrap();
    users.insert_one(&named("bob", 3)).unwrap();
    let change = Mutation::Assign { field: String::from("age"), value: Value::Int(7) };
    assert_eq!(users.update_where("name", &Value::Text(String::from("bob")), &change), 2);
    let ages: Vec<Option<Value>> =
        users.entries().iter().map(|e| e.document.get("age").cloned()).collect();
    assert_eq!(ages, vec![Some(Value::Int(40000)), Some(Value::Int(7)), Some(Value::Int(7))]);
    let drop = Mutation::Remove { field: String::from("count") };
    assert_eq!(users.update_where("user_id", &Value::Int(1), &drop), 1);
    let counts: Vec<bool> = users.entries().iter().map(|e| e.document.contains("count")).collect();
    assert_eq!(counts, vec![false, true, true]);
    assert_eq!(users.count(), 3);
}

#[test]
fn delete_field_then_reload_lacks_the_field() {
    let mut users = Collection::new("user_idx");
    let ids = users.insert_many(&batch(3)).unwrap();
    assert_eq!(users.delete_field(ids[1], "age"), Ok(()));
    let reloaded = users.find_one_by_id(ids[1]).unwrap();
    assert!(!reloaded.contains("age"));
    assert_eq!(reloaded.get("user_id"), Some(&Value::Int(1)));
    assert_eq!(reloaded.get("count"), Some(&Value::Int(10)));
    assert_eq!(users.find_one_by_id(ids[0]), Some(synthetic_document(0)));
    assert_eq!(users.find_one_by_id(ids[2]), Some(synthetic_document(2)));
}

#[test]
fn delete_field_of_absent_field_changes_nothing() {
    let mut users = Collection::new("user_idx");
    let ids = users.insert_many(&batch(2)).unwrap();
    assert_eq!(users.delete_field(ids[0], "nickname"), Ok(()));
    assert_eq!(users.find_one_by_id(ids[0]), Some(synthetic_document(0)));
    assert_eq!(users.delete_field(ids[0], "age"), Ok(()));
    let once = users.find_one_by_id(ids[0]);
    assert_eq!(users.delete_field(ids[0], "age"), Ok(()));
    assert_eq!(users.find_one_by_id(ids[0]), once);
}

#[test]
fn delete_field_of_unknown_document_is_not_found() {
    let mut users = Collection::new("user_idx");
    users.insert_many(&batch(2)).unwrap();
    assert_eq!(
        users.delete_field(DocumentId { high: 1, low: 0 }, "age"),
        Err(Failure::NotFound)
    );
    assert_eq!(users.count(), 2);
    assert_eq!(users.find_one_by_field("user_id", &Value::Int(0)), Some(synthetic_document(0)));
    assert_eq!(
        Collection::new("empty").delete_field(DocumentId { high: 0, low: 0 }, "age"),
        Err(Failure::NotFound)
    );
}

#[test]
fn perform_runs_the_operations_of_a_workload() {
    let mut users = Collection::new("user_idx");
    let id = match users.perform(&Operation::InsertOne(synthetic_document(4))) {
        Outcome::Inserted(id) => id,
        other => panic!("unexpected outcome {:?}", other),
    };
    match users.perform(&Operation::InsertMany(batch(3))) {
        Outcome::InsertedMany(ids) => assert_eq!(ids.len(), 3),
        other => panic!("unexpected outcome {:?}", other),
    }
    assert_eq!(users.count(), 4);
    assert_eq!(users.perform(&Operation::FindByUserId(4)), Outcome::Found);
    assert_eq!(users.perform(&Operation::FindByUserId(2)), Outcome::Found);
    assert_eq!(users.perform(&Operation::FindByUserId(5)), Outcome::Missing);
    assert_eq!(users.perform(&Operation::FindById(id)), Outcome::Found);
    assert_eq!(
        users.perform(&Operation::FindById(DocumentId { high: 3, low: 3 })),
        Outcome::Missing
    );
    assert_eq!(users.count(), 4);
}

#[test]
fn identifiers_carry_the_series_of_the_collection() {
    let mut plain = Collection::new("plain");
    assert_eq!(plain.series(), 0);
    assert_eq!(plain.insert_one(&synthetic_document(1)), Ok(DocumentId { high: 0, low: 0 }));
    assert_eq!(plain.insert_one(&synthetic_document(2)), Ok(DocumentId { high: 0, low: 1 }));
    let mut seventh = Collection::in_series("seventh", 7);
    assert_eq!(seventh.series(), 7);
    assert_eq!(seventh.name(), "seventh");
    assert_eq!(seventh.count(), 0);
    assert_eq!(
        seventh.insert_many(&batch(3)),
        Ok(vec![
            DocumentId { high: 7, low: 0 },
            DocumentId { high: 7, low: 1 },
            DocumentId { high: 7, low: 2 }
        ])
    );
    assert_eq!(seventh.insert_one(&synthetic_document(9)), Ok(DocumentId { high: 7, low: 3 }));
}
