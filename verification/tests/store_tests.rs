use docstore_bench::collection::{IndexKind, Mutation};
use docstore_bench::document::{synthetic_document, Value};
use docstore_bench::ops::{DocumentId, Failure, Operation, Outcome};
use docstore_bench::store::Store;

#[test]
fn asking_and_reading_make_no_collection() {
    let mut store = Store::new();
    assert!(store.is_open());
    let users = store.collection("user_idx").unwrap();
    assert_eq!(users.name(), "user_idx");
    assert!(!store.has_collection("user_idx"));
    assert_eq!(store.collection_count(), 0);
    assert_eq!(store.find_one_by_field(&users, "user_id", &Value::Int(1)), Ok(None));
    assert_eq!(store.find_one_by_id(&users, DocumentId { high: 0, low: 0 }), Ok(None));
    assert_eq!(store.count(&users), Ok(0));
    assert!(store.get(&users).is_none());
    assert_eq!(store.perform(&users, &Operation::FindByUserId(1)), Outcome::Missing);
    assert_eq!(
        store.perform(&users, &Operation::FindById(DocumentId { high: 0, low: 0 })),
        Outcome::Missing
    );
    let change = Mutation::Assign { field: String::from("age"), value: Value::Int(1) };
    assert_eq!(store.update_where(&users, "user_id", &Value::Int(1), &change), Ok(0));
    assert_eq!(
        store.delete_field(&users, DocumentId { high: 0, low: 0 }, "age"),
        Err(Failure::NotFound)
    );
    assert!(!store.has_collection("user_idx"));
    assert_eq!(store.collection_count(), 0);
}

#[test]
fn first_write_makes_the_collection() {
    let mut store = Store::new();
    let users = store.collection("user_idx").unwrap();
    store.insert_one(&users, &synthetic_document(1)).unwrap();
    assert!(store.has_collection("user_idx"));
    assert_eq!(store.collection_count(), 1);
    assert_eq!(store.count(&users), Ok(1));
    assert_eq!(store.get(&users).map(|c| c.count()), Some(1));

    let batch = store.collection("batch").unwrap();
    assert_eq!(store.insert_many(&batch, &vec![]).map(|ids| ids.len()), Ok(0));
    assert!(store.has_collection("batch"));
    assert_eq!(store.count(&batch), Ok(0));

    let indexed = store.collection("indexed").unwrap();
    assert_eq!(store.create_index(&indexed, "user_id", IndexKind::Numeric), Ok(()));
    assert!(store.has_collection("indexed"));
    assert!(store.get(&indexed).unwrap().has_index("user_id", IndexKind::Numeric));

    let performed = store.collection("performed").unwrap();
    assert!(matches!(
        store.perform(&performed, &Operation::InsertOne(synthetic_document(4))),
        Outcome::Inserted(_)
    ));
    assert!(store.has_collection("performed"));
    assert_eq!(store.collection_count(), 4);
}

#[test]
fn collections_keep_their_own_documents() {
    let mut store = Store::new();
    let a = store.collection("a").unwrap();
    let b = store.collection("b").unwrap();
    store.insert_one(&a, &synthetic_document(1)).unwrap();
    store.insert_one(&b, &synthetic_document(2)).unwrap();
    store.create_index(&a, "user_id", IndexKind::Numeric).unwrap();
    assert_eq!(
        store.find_one_by_field(&a, "user_id", &Value::Int(1)),
        Ok(Some(synthetic_document(1)))
    );
    assert_eq!(store.find_one_by_field(&a, "user_id", &Value::Int(2)), Ok(None));
    assert_eq!(
        store.find_one_by_field(&b, "user_id", &Value::Int(2)),
        Ok(Some(synthetic_document(2)))
    );
    assert!(store.get(&a).unwrap().has_index("user_id", IndexKind::Numeric));
    assert!(!store.get(&b).unwrap().has_index("user_id", IndexKind::Numeric));
    let change = Mutation::Assign { field: String::from("age"), value: Value::Int(7) };
    assert_eq!(store.update_where(&a, "user_id", &Value::Int(1), &change), Ok(1));
    assert_eq!(
        store.find_one_by_field(&a, "age", &Value::Int(7)).map(|d| d.is_some()),
        Ok(true)
    );
    assert_eq!(store.find_one_by_field(&b, "age", &Value::Int(7)), Ok(None));
}

#[test]
fn identifiers_are_unique_in_the_store() {
    let mut store = Store::new();
    let a = store.collection("a").unwrap();
    let b = store.collection("b").unwrap();
    let first_a = store.insert_one(&a, &synthetic_document(1)).unwrap();
    let first_b = store.insert_one(&b, &synthetic_document(1)).unwrap();
    assert_ne!(first_a, first_b);
    let more_a = store.insert_many(&a, &vec![synthetic_document(2), synthetic_document(3)]).unwrap();
    let more_b = store.insert_many(&b, &vec![synthetic_document(2), synthetic_document(3)]).unwrap();
    let mut all = vec![first_a, first_b];
    all.extend(more_a);
    all.extend(more_b);
    let mut distinct = all.clone();
    distinct.sort_by_key(|id| (id.high, id.low));
    distinct.dedup();
    assert_eq!(distinct.len(), all.len());
    assert_eq!(store.find_one_by_id(&a, first_a), Ok(Some(synthetic_document(1))));
    assert_eq!(store.find_one_by_id(&b, first_a), Ok(None));
    assert_eq!(store.find_one_by_id(&a, first_b), Ok(None));
}

#[test]
fn collection_made_again_gives_new_identifiers() {
    let mut store = Store::new();
    let a = store.collection("a").unwrap();
    let old = store.insert_one(&a, &synthetic_document(1)).unwrap();
    assert_eq!(store.drop_collection("a", true), Ok(()));
    assert!(!store.has_collection("a"));
    assert_eq!(store.find_one_by_id(&a, old), Ok(None));
    let new = store.insert_one(&a, &synthetic_document(1)).unwrap();
    assert_ne!(old, new);
    assert_eq!(store.find_one_by_id(&a, old), Ok(None));
    assert_eq!(store.find_one_by_id(&a, new), Ok(Some(synthetic_document(1))));
}

#[test]
fn delete_field_through_the_store() {
    let mut store = Store::new();
    let a = store.collection("a").unwrap();
    let id = store.insert_one(&a, &synthetic_document(5)).unwrap();
    assert_eq!(store.delete_field(&a, id, "age"), Ok(()));
    let reloaded = store.find_one_by_id(&a, id).unwrap().unwrap();
    assert!(!reloaded.contains("age"));
    assert_eq!(reloaded.get("user_id"), Some(&Value::Int(5)));
    assert_eq!(store.delete_field(&a, id, "age"), Ok(()));
    assert_eq!(store.find_one_by_id(&a, id), Ok(Some(reloaded)));
    assert_eq!(
        store.delete_field(&a, DocumentId { high: 9, low: 9 }, "age"),
        Err(Failure::NotFound)
    );
}

#[test]
fn close_can_be_called_once() {
    let mut store = Store::new();
    let users = store.collection("user_idx").unwrap();
    store.insert_one(&users, &synthetic_document(1)).unwrap();
    assert_eq!(store.close(), Ok(()));
    assert!(!store.is_open());
    assert_eq!(store.collection_count(), 0);
    assert_eq!(store.close(), Err(Failure::Engine));
    assert!(!store.is_open());
}

#[test]
fn closed_store_serves_no_proxy() {
    let mut store = Store::new();
    let users = store.collection("user_idx").unwrap();
    store.insert_one(&users, &synthetic_document(1)).unwrap();
    store.close().unwrap();
    assert_eq!(store.collection("user_idx"), Err(Failure::Engine));
    assert_eq!(store.insert_one(&users, &synthetic_document(2)), Err(Failure::Engine));
    assert_eq!(store.insert_many(&users, &vec![synthetic_document(2)]), Err(Failure::Engine));
    assert_eq!(store.create_index(&users, "user_id", IndexKind::Numeric), Err(Failure::Engine));
    assert_eq!(store.find_one_by_field(&users, "user_id", &Value::Int(1)), Err(Failure::Engine));
    assert_eq!(store.find_one_by_id(&users, DocumentId { high: 0, low: 0 }), Err(Failure::Engine));
    assert_eq!(store.count(&users), Err(Failure::Engine));
    let change = Mutation::Remove { field: String::from("age") };
    assert_eq!(
        store.update_where(&users, "user_id", &Value::Int(1), &change),
        Err(Failure::Engine)
    );
    assert_eq!(
        store.delete_field(&users, DocumentId { high: 0, low: 0 }, "age"),
        Err(Failure::Engine)
    );
    assert_eq!(
        store.perform(&users, &Operation::FindByUserId(1)),
        Outcome::Failed(Failure::Engine)
    );
    assert_eq!(
        store.perform(&users, &Operation::InsertOne(synthetic_document(3))),
        Outcome::Failed(Failure::Engine)
    );
    assert!(store.get(&users).is_none());
    assert_eq!(store.drop_collection("user_idx", false), Err(Failure::Engine));
    assert_eq!(store.drop_collection("user_idx", true), Err(Failure::Engine));
    assert!(!store.has_collection("user_idx"));
}

#[test]
fn drop_collection_removes_it_with_its_documents() {
    let mut store = Store::new();
    let a = store.collection("a").unwrap();
    let b = store.collection("b").unwrap();
    store.insert_one(&a, &synthetic_document(1)).unwrap();
    store.insert_one(&b, &synthetic_document(2)).unwrap();
    assert_eq!(store.drop_collection("a", true), Ok(()));
    assert!(!store.has_collection("a"));
    assert!(store.has_collection("b"));
    assert_eq!(store.collection_count(), 1);
    assert_eq!(store.count(&a), Ok(0));
    assert_eq!(store.count(&b), Ok(1));
}

#[test]
fn drop_of_absent_collection_fails_only_if_it_must_exist() {
    let mut store = Store::new();
    let b = store.collection("b").unwrap();
    store.insert_one(&b, &synthetic_document(1)).unwrap();
    assert_eq!(store.drop_collection("a", false), Ok(()));
    assert_eq!(store.drop_collection("a", true), Err(Failure::NotFound));
    assert_eq!(store.collection_count(), 1);
    assert!(store.has_collection("b"));
}
