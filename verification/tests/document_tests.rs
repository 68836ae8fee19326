use docstore_bench::document::{synthetic_document, Document, Field, Value};

#[test]
fn synthetic_document_has_user_id_and_fillers() {
    let doc = synthetic_document(17);
    assert_eq!(doc.len(), 3);
    assert_eq!(doc.get("user_id"), Some(&Value::Int(17)));
    assert_eq!(doc.get("count"), Some(&Value::Int(10)));
    assert_eq!(doc.get("age"), Some(&Value::Int(40000)));
    assert_eq!(doc.get("name"), None);
    let names: Vec<&str> = doc.fields().iter().map(|f| f.name.as_str()).collect();
    assert_eq!(names, vec!["user_id", "count", "age"]);
}

#[test]
fn synthetic_documents_differ_by_user_id() {
    assert_ne!(synthetic_document(1), synthetic_document(2));
    assert_eq!(synthetic_document(-5), synthetic_document(-5));
    assert_eq!(synthetic_document(i64::MIN).get("user_id"), Some(&Value::Int(i64::MIN)));
}

#[test]
fn set_adds_and_replaces() {
    let mut doc = Document::new();
    assert_eq!(doc.len(), 0);
    assert!(!doc.contains("a"));
    doc.set("a", Value::Int(1));
    doc.set("b", Value::Text(String::from("two")));
    doc.set("a", Value::List(vec![Value::Int(3), Value::List(vec![Value::Text(String::from("x"))])]));
    assert_eq!(doc.len(), 2);
    assert!(doc.contains("a"));
    assert_eq!(
        doc.get("a"),
        Some(&Value::List(vec![Value::Int(3), Value::List(vec![Value::Text(String::from("x"))])]))
    );
    assert_eq!(doc.get("b"), Some(&Value::Text(String::from("two"))));
    assert_eq!(
        doc.fields(),
        &vec![
            Field {
                name: String::from("a"),
                value: Value::List(vec![
                    Value::Int(3),
                    Value::List(vec![Value::Text(String::from("x"))])
                ])
            },
            Field { name: String::from("b"), value: Value::Text(String::from("two")) },
        ]
    );
}

#[test]
fn remove_takes_the_field_out_once() {
    let mut doc = synthetic_document(1);
    assert!(doc.remove("count"));
    assert_eq!(doc.len(), 2);
    assert_eq!(doc.get("count"), None);
    assert_eq!(doc.get("user_id"), Some(&Value::Int(1)));
    assert_eq!(doc.get("age"), Some(&Value::Int(40000)));
    let after_first = doc.clone();
    assert!(!doc.remove("count"));
    assert_eq!(doc, after_first);
    assert!(!doc.remove("never there"));
    assert_eq!(doc, after_first);
}

#[test]
fn values_compare_by_content() {
    let nested = Value::List(vec![Value::Int(1), Value::List(vec![Value::Text(String::from("a"))])]);
    assert!(nested.same(&nested.clone()));
    assert!(nested.same(&nested.duplicate()));
    assert!(!nested.same(&Value::List(vec![Value::Int(1)])));
    assert!(!nested
        .same(&Value::List(vec![Value::Int(1), Value::List(vec![Value::Text(String::from("b"))])])));
    assert!(Value::Int(3).same(&Value::Int(3)));
    assert!(!Value::Int(3).same(&Value::Int(4)));
    assert!(!Value::Int(3).same(&Value::Text(String::from("3"))));
    assert!(Value::Text(String::new()).same(&Value::Text(String::new())));
    assert!(Value::List(vec![]).same(&Value::List(vec![])));
    assert!(!Value::List(vec![]).same(&Value::Int(0)));
}

#[test]
fn clone_keeps_every_field() {
    let mut doc = synthetic_document(9);
    doc.set("tags", Value::List(vec![Value::Text(String::from("x")), Value::Int(2)]));
    let copy = doc.clone();
    assert_eq!(copy, doc);
    assert_eq!(copy.len(), 4);
    doc.set("count", Value::Int(11));
    assert_eq!(copy.get("count"), Some(&Value::Int(10)));
}
