use firebase_emu::document::{field_value, merge_document, Document};
use firebase_emu::double::{QUIET_NAN, sum};
use firebase_emu::firestore::{
    BatchGetResult, CommitRequest, ConsistencySelector, CreateDocumentRequest, Store,
};
use firebase_emu::listen::{emit_target, ListenResponse, Target, TargetType};
use firebase_emu::names::matches_collection;
use firebase_emu::ordered::{Duplicate, OrderedMap};
use firebase_emu::query::{
    query_docs, CollectionSelector, Cursor, Filter, Order, StructuredQuery,
};
use firebase_emu::status::Code;
use firebase_emu::value::{transform_value_equal, FieldValue, Timestamp};
use firebase_emu::writes::{
    apply_write, numeric_increment, FieldTransform, Operation, Precondition, Transform, Write,
    REQUEST_TIME,
};

const ROOT: &str = "projects/test/databases/(default)/documents";
const DATABASE: &str = "projects/test/databases/(default)";
const NOW: Timestamp = Timestamp { seconds: 1_750_000_000, nanos: 123_000_000 };

fn whole(v: i64) -> FieldValue {
    FieldValue::Integer(v)
}

fn double(v: f64) -> FieldValue {
    FieldValue::Double(v.to_bits())
}

fn string(v: &str) -> FieldValue {
    FieldValue::Text(v.to_string())
}

fn array(values: Vec<FieldValue>) -> FieldValue {
    FieldValue::Array(values)
}

fn fields(pairs: Vec<(&str, FieldValue)>) -> Vec<(String, FieldValue)> {
    let mut out: Vec<(String, FieldValue)> =
        pairs.into_iter().map(|(k, v)| (k.to_string(), v)).collect();
    out.sort_by(|a, b| a.0.cmp(&b.0));
    out
}

fn mapped(pairs: Vec<(&str, FieldValue)>) -> FieldValue {
    FieldValue::Fields(fields(pairs))
}

fn doc(id: &str, pairs: Vec<(&str, FieldValue)>) -> Document {
    Document {
        name: format!("{ROOT}/items/{id}"),
        fields: fields(pairs),
        create_time: None,
        update_time: None,
    }
}

fn document(name: &str, value: i64) -> Document {
    Document {
        name: name.to_owned(),
        fields: fields(vec![("value", whole(value))]),
        create_time: None,
        update_time: None,
    }
}

fn update(document: Document) -> Write {
    Write {
        operation: Operation::Update(document),
        update_mask: None,
        current_document: Precondition::Any,
        update_transforms: Vec::new(),
    }
}

fn create(store: &mut Store, root: &str, id: &str) -> Document {
    store
        .create_document(
            CreateDocumentRequest {
                parent: root.to_owned(),
                collection_id: "cities".to_owned(),
                document_id: id.to_owned(),
                document: Some(document("", 1)),
            },
            &NOW,
        )
        .unwrap()
}

fn commit(database: &str, writes: Vec<Write>, transaction: Vec<u8>) -> CommitRequest {
    CommitRequest { database: database.to_owned(), writes, transaction }
}

fn query(collection: &str) -> StructuredQuery {
    StructuredQuery {
        select: None,
        from: vec![CollectionSelector {
            collection_id: collection.to_owned(),
            all_descendants: false,
        }],
        filter: None,
        order_by: Vec::new(),
        start_at: None,
        end_at: None,
        offset: 0,
        limit: None,
    }
}

fn filter(path: &str, op: i32, value: FieldValue) -> Filter {
    Filter::Field { field: Some(path.to_string()), op, value: Some(value) }
}

fn order(path: &str, direction: i32) -> Order {
    Order { field: Some(path.to_string()), direction }
}

fn stored(docs: Vec<Document>) -> OrderedMap<Document> {
    let mut out = OrderedMap::new();
    for d in docs {
        let name = d.name.clone();
        out.insert(&name, d);
    }
    out
}

#[test]
fn create_get_update_delete_round_trip() {
    let mut store = Store::new();
    let created = create(&mut store, ROOT, "bangkok");
    assert_eq!(created.name, format!("{ROOT}/cities/bangkok"));
    assert!(created.create_time.is_some());

    let fetched = store.get_document(&created.name).unwrap();
    assert_eq!(fetched.fields, created.fields);

    let later = Timestamp { seconds: NOW.seconds + 1, nanos: 0 };
    let (updated, change) = store
        .update_document(Some(document(&created.name, 2)), None, Precondition::Any, &later)
        .unwrap();
    assert_eq!(updated.create_time, created.create_time);
    assert_eq!(updated.update_time, Some(later));
    assert!(change.is_some());

    store.delete_document(&created.name, Precondition::Any).unwrap();
    assert_eq!(store.get_document(&created.name).unwrap_err().code, Code::NotFound);
}

#[test]
fn commit_is_atomic_and_query_honors_limit() {
    let mut store = Store::new();
    let good_name = format!("{ROOT}/cities/a");
    let failed = store.commit(
        commit(
            DATABASE,
            vec![
                update(document(&good_name, 1)),
                Write {
                    operation: Operation::Delete("not/a/resource".to_owned()),
                    update_mask: None,
                    current_document: Precondition::Any,
                    update_transforms: Vec::new(),
                },
            ],
            Vec::new(),
        ),
        &NOW,
    );
    assert!(failed.is_err());
    assert_eq!(store.documents.len(), 0);

    for id in ["a", "b", "c"] {
        create(&mut store, ROOT, id);
    }
    let mut limited = query("cities");
    limited.limit = Some(2);
    let responses =
        store.run_query(ROOT, &Some(limited), &ConsistencySelector::Unset, &NOW).unwrap();
    assert_eq!(responses.len(), 2);

    store.clear_database(DATABASE).unwrap();
    assert_eq!(store.documents.len(), 0);
}

#[test]
fn transaction_token_is_nonempty_and_commit_consumes_it() {
    let mut store = Store::new();
    let token = store.begin_transaction(DATABASE).unwrap();
    assert!(!token.is_empty());

    let name = format!("{ROOT}/cities/transactional");
    store
        .commit(commit(DATABASE, vec![update(document(&name, 10))], token.clone()), &NOW)
        .unwrap();
    assert_eq!(
        field_value(store.documents.get(&name).unwrap(), "value"),
        Some(whole(10))
    );

    let reused = store.commit(commit(DATABASE, Vec::new(), token), &NOW).unwrap_err();
    assert_eq!(reused.code, Code::InvalidArgument);
}

#[test]
fn batch_get_can_start_a_transaction_for_lazy_sdk_transactions() {
    let mut store = Store::new();
    let name = format!("{ROOT}/cities/lazy-transaction");
    create(&mut store, ROOT, "lazy-transaction");

    let mut responses = store
        .batch_get_documents(
            DATABASE,
            &vec![name.clone()],
            &ConsistencySelector::NewTransaction,
            &NOW,
        )
        .unwrap();
    let response = responses.remove(0);
    assert!(!response.transaction.is_empty());
    assert!(matches!(response.result, BatchGetResult::Found(_)));

    store
        .commit(
            commit(DATABASE, vec![update(document(&name, 10))], response.transaction),
            &NOW,
        )
        .unwrap();
    assert_eq!(
        field_value(store.documents.get(&name).unwrap(), "value"),
        Some(whole(10))
    );
}

#[test]
fn rollback_validates_database_and_consumes_transaction_token() {
    let mut store = Store::new();
    let token = store.begin_transaction(DATABASE).unwrap();
    let wrong_database = store.rollback("projects/test/databases/other", &token).unwrap_err();
    assert_eq!(wrong_database.code, Code::InvalidArgument);
    store.rollback(DATABASE, &token).unwrap();
    let reused = store.rollback(DATABASE, &token).unwrap_err();
    assert_eq!(reused.code, Code::InvalidArgument);
}

#[test]
fn clear_data_is_scoped_to_one_database() {
    let mut store = Store::new();
    let other_root = "projects/test/databases/other/documents";
    for (root, id) in [(ROOT, "default-doc"), (other_root, "other-doc")] {
        create(&mut store, root, id);
    }
    store.clear_database(DATABASE).unwrap();
    assert!(!store.documents.contains(&format!("{ROOT}/cities/default-doc")));
    assert!(store.documents.contains(&format!("{other_root}/cities/other-doc")));
}

#[test]
fn descendant_query_matches_only_immediate_parent_collection() {
    assert!(matches_collection(
        &format!("{ROOT}/countries/thailand/cities/bangkok"),
        ROOT,
        "cities",
        true,
    ));
    assert!(!matches_collection(
        &format!("{ROOT}/cities/bangkok/districts/pathum-wan"),
        ROOT,
        "cities",
        true,
    ));
}

#[test]
fn batch_get_reports_found_and_missing_and_transforms_are_rejected() {
    let mut store = Store::new();
    let found_name = format!("{ROOT}/cities/found");
    create(&mut store, ROOT, "found");
    let missing_name = format!("{ROOT}/cities/missing");
    let responses = store
        .batch_get_documents(
            DATABASE,
            &vec![found_name.clone(), missing_name.clone()],
            &ConsistencySelector::Unset,
            &NOW,
        )
        .unwrap();
    assert!(matches!(responses[0].result, BatchGetResult::Found(_)));
    assert!(matches!(&responses[1].result, BatchGetResult::Missing(name) if *name == missing_name));

    let mut write = update(document(&found_name, 2));
    write.update_transforms =
        vec![FieldTransform { field_path: String::new(), transform: Transform::Unset }];
    let rejected = store.commit(commit(DATABASE, vec![write], Vec::new()), &NOW).unwrap_err();
    assert_eq!(rejected.code, Code::Unimplemented);
}

#[test]
fn commit_update_transforms_preserve_masked_and_nested_fields() {
    let name = format!("{ROOT}/items/transforms");
    let mut documents = stored(vec![doc(
        "transforms",
        vec![
            ("rank", whole(1)),
            ("tags", array(vec![string("seed")])),
            ("obsolete", string("remove")),
            ("preserved", string("yes")),
            ("nested", mapped(vec![("left", whole(1)), ("right", whole(2))])),
        ],
    )]);
    let transform = |field_path: &str, transform: Transform| FieldTransform {
        field_path: field_path.to_string(),
        transform,
    };
    let result = apply_write(
        &mut documents,
        Write {
            operation: Operation::Update(doc(
                "transforms",
                vec![("nested", mapped(vec![("left", whole(9))]))],
            )),
            update_mask: Some(vec!["nested.left".into(), "obsolete".into()]),
            current_document: Precondition::Any,
            update_transforms: vec![
                transform("rank", Transform::Increment(whole(4))),
                transform(
                    "tags",
                    Transform::AppendMissingElements(vec![string("updated"), string("updated")]),
                ),
                transform("updatedAt", Transform::SetToServerValue(REQUEST_TIME)),
            ],
        },
        &NOW,
    )
    .unwrap();

    let written = documents.get(&name).unwrap();
    assert_eq!(field_value(written, "rank"), Some(whole(5)));
    assert_eq!(
        field_value(written, "tags"),
        Some(array(vec![string("seed"), string("updated")]))
    );
    assert!(field_value(written, "obsolete").is_none());
    assert_eq!(field_value(written, "preserved"), Some(string("yes")));
    assert_eq!(field_value(written, "nested.left"), Some(whole(9)));
    assert_eq!(field_value(written, "nested.right"), Some(whole(2)));
    assert_eq!(field_value(written, "updatedAt"), Some(FieldValue::Timestamp(NOW)));
    assert_eq!(result.transform_results.len(), 3);
}

#[test]
fn transform_numeric_types_and_array_equality_are_meaningful() {
    let mixed = numeric_increment(Some(&whole(2)), &double(0.5)).unwrap();
    assert_eq!(mixed, double(2.5));
    assert_eq!(numeric_increment(Some(&whole(i64::MAX)), &whole(1)).unwrap(), whole(i64::MAX));
    assert!(transform_value_equal(&whole(1), &double(1.0)));
    assert!(transform_value_equal(&double(f64::NAN), &FieldValue::Double(QUIET_NAN)));
}

#[test]
fn masks_merge_nested_delete_and_replace_maps() {
    let old = doc(
        "a",
        vec![
            ("keep", whole(1)),
            ("nested", mapped(vec![("a", whole(2)), ("b", whole(3))])),
            ("literal.dot", whole(4)),
        ],
    );
    let patch = || doc("a", vec![("nested", mapped(vec![("a", whole(9))]))]);
    let result = merge_document(
        Some(&old),
        patch(),
        Some(&vec!["nested.a".into(), "`literal.dot`".into()]),
    )
    .unwrap();
    assert_eq!(field_value(&result, "nested.a"), Some(whole(9)));
    assert_eq!(field_value(&result, "nested.b"), Some(whole(3)));
    assert_eq!(field_value(&result, "keep"), Some(whole(1)));
    assert!(field_value(&result, "`literal.dot`").is_none());
    let replaced = merge_document(Some(&old), patch(), Some(&vec!["nested".into()])).unwrap();
    assert!(field_value(&replaced, "nested.b").is_none());
    assert!(merge_document(
        Some(&old),
        patch(),
        Some(&vec!["nested".into(), "nested.a".into()])
    )
    .is_err());
}

#[test]
fn composite_query_orders_before_offset_and_limit() {
    let documents = stored(
        [("a", 7, 1), ("b", 2, 1), ("c", 9, 0), ("d", 5, 1)]
            .into_iter()
            .map(|(id, rank, active)| doc(id, vec![("rank", whole(rank)), ("active", whole(active))]))
            .collect(),
    );
    let mut q = query("items");
    q.filter = Some(Filter::Composite {
        op: 1,
        filters: vec![filter("rank", 3, whole(1)), filter("active", 5, whole(1))],
    });
    q.order_by = vec![order("rank", 2)];
    q.offset = 1;
    q.limit = Some(1);
    assert_eq!(query_docs(&documents, ROOT, &q).unwrap()[0].name, format!("{ROOT}/items/d"));
    q.offset = 0;
    q.limit = None;
    q.filter = Some(Filter::Composite {
        op: 2,
        filters: vec![filter("rank", 5, whole(2)), filter("rank", 5, whole(9))],
    });
    assert_eq!(
        query_docs(&documents, ROOT, &q)
            .unwrap()
            .iter()
            .map(|d| field_value(d, "rank").unwrap())
            .collect::<Vec<_>>(),
        vec![whole(9), whole(2)]
    );
}

#[test]
fn query_excludes_missing_order_fields_and_applies_cursor() {
    let documents = stored(vec![
        doc("a", vec![("rank", whole(1))]),
        doc("b", vec![("rank", whole(2))]),
        doc("c", vec![]),
    ]);
    let mut q = query("items");
    q.order_by = vec![order("rank", 1)];
    q.start_at = Some(Cursor { values: vec![whole(1)], before: false });
    assert_eq!(
        query_docs(&documents, ROOT, &q)
            .unwrap()
            .iter()
            .map(|d| d.name.clone())
            .collect::<Vec<_>>(),
        vec![format!("{ROOT}/items/b")]
    );
}

#[test]
fn listener_emits_query_membership_removal_after_limit_change() {
    let documents = stored(vec![doc("a", vec![("rank", whole(1))])]);
    let mut q = query("items");
    q.limit = Some(1);
    let target = Target {
        target_id: 2,
        target_type: TargetType::Query { parent: ROOT.into(), query: Some(q) },
    };
    let mut previous = OrderedMap::new();
    let first = emit_target(&documents, &target, &mut previous, true, &NOW).unwrap();
    assert!(matches!(first[0], ListenResponse::DocumentChange { .. }));
    assert_eq!(first.len(), 3);
    let empty = OrderedMap::new();
    let second = emit_target(&empty, &target, &mut previous, false, &NOW).unwrap();
    assert!(matches!(second[0], ListenResponse::DocumentRemove { .. }));
}

#[test]
fn empty_query_has_a_read_time_response() {
    let mut store = Store::new();
    let responses = store
        .run_query(ROOT, &Some(query("items")), &ConsistencySelector::Unset, &NOW)
        .unwrap();
    assert_eq!(responses.len(), 1);
    assert!(responses[0].document.is_none());
    assert_eq!(responses[0].read_time, NOW);
}

#[test]
fn rewriting_the_same_fields_makes_no_event() {
    let mut store = Store::new();
    let write = || update(doc("a", vec![("rank", whole(1))]));
    let (_, first) = store.commit(commit(DATABASE, vec![write()], Vec::new()), &NOW).unwrap();
    assert_eq!(first.len(), 1);
    let (_, second) = store.commit(commit(DATABASE, vec![write()], Vec::new()), &NOW).unwrap();
    assert!(second.is_empty());
}

#[test]
fn automatic_ids_count_upward() {
    let mut store = Store::new();
    let first = create(&mut store, ROOT, "");
    let second = create(&mut store, ROOT, "");
    assert_eq!(first.name, format!("{ROOT}/cities/auto-00000000000000000001"));
    assert_eq!(second.name, format!("{ROOT}/cities/auto-00000000000000000002"));
    let twice = store.create_document(
        CreateDocumentRequest {
            parent: ROOT.to_owned(),
            collection_id: "cities".to_owned(),
            document_id: "auto-00000000000000000001".to_owned(),
            document: Some(document("", 1)),
        },
        &NOW,
    );
    assert_eq!(twice.unwrap_err().code, Code::AlreadyExists);
}

#[test]
fn preconditions_are_checked() {
    let mut store = Store::new();
    let name = format!("{ROOT}/items/a");
    let missing = store.update_document(
        Some(document(&name, 1)),
        None,
        Precondition::Exists(true),
        &NOW,
    );
    assert_eq!(missing.unwrap_err().code, Code::FailedPrecondition);
    store.update_document(Some(document(&name, 1)), None, Precondition::Any, &NOW).unwrap();
    let stale = Timestamp { seconds: 1, nanos: 0 };
    assert_eq!(
        store.delete_document(&name, Precondition::UpdateTime(stale)).unwrap_err().code,
        Code::FailedPrecondition
    );
    assert!(store.delete_document(&name, Precondition::UpdateTime(NOW)).is_ok());
}

#[test]
fn batch_writes_are_independent() {
    let mut store = Store::new();
    let bad = Write {
        operation: Operation::Delete("not/a/resource".to_owned()),
        update_mask: None,
        current_document: Precondition::Any,
        update_transforms: Vec::new(),
    };
    let (results, statuses, changes) =
        store.batch_write(vec![bad, update(doc("a", vec![("rank", whole(1))]))], &NOW);
    assert_eq!(results.len(), 2);
    assert_eq!(statuses[0].code, 3);
    assert_eq!(statuses[1].code, 0);
    assert_eq!(changes.len(), 1);
    assert!(store.documents.contains(&format!("{ROOT}/items/a")));
}

#[test]
fn doubles_are_added_as_the_machine_adds_them() {
    for (a, b) in [
        (0.1, 0.2),
        (1e308, 1e308),
        (f64::MIN_POSITIVE, -f64::MIN_POSITIVE / 2.0),
        (-0.0, 0.0),
        (1.0, f64::EPSILON / 2.0),
        (f64::INFINITY, 1.0),
        (3.5, -3.5),
    ] {
        assert_eq!(sum(a.to_bits(), b.to_bits()), (a + b).to_bits());
    }
    assert!(f64::from_bits(sum(f64::INFINITY.to_bits(), f64::NEG_INFINITY.to_bits())).is_nan());
}

#[test]
fn duplicates_are_equal() {
    let original = doc("a", vec![("rank", whole(1)), ("tags", array(vec![string("x")]))]);
    assert_eq!(original.duplicate(), original);
}
