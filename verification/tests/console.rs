use firebase_emu::broker::Broker;
use firebase_emu::console::{
    check_clone, clone_document, clone_error, clone_json, config_json, default_database,
    documents_json, path_parts, resources_json, update_field, update_field_error, valid_segment,
    valid_document_segment, CloneRequest, UpdateFieldRequest,
};
use firebase_emu::document::{field_value, Document};
use firebase_emu::field_path::quoted_field_path;
use firebase_emu::firestore::Store;
use firebase_emu::json::Json;
use firebase_emu::pubsub::{Subscription, SubscriptionOptions, Topic, TopicOptions};
use firebase_emu::value::{FieldValue, Timestamp};

const NOW: Timestamp = Timestamp { seconds: 1, nanos: 0 };
const DATABASE: &str = "projects/demo-ui/databases/(default)";

fn document(name: &str) -> Document {
    Document {
        name: name.into(),
        fields: vec![
            ("bytes".into(), FieldValue::Bytes(vec![0, 255, 7])),
            ("large".into(), FieldValue::Integer(i64::MAX)),
        ],
        create_time: None,
        update_time: None,
    }
}

fn clone_request(id: &str, deep: bool) -> CloneRequest {
    CloneRequest {
        project: "demo-ui".into(),
        database: default_database(),
        source_path: "items/source".into(),
        destination_collection_path: "copies".into(),
        destination_id: id.into(),
        include_subcollections: deep,
    }
}

fn run_clone(store: &mut Store, request: &CloneRequest) -> u16 {
    if let Err(e) = check_clone(request) {
        return e.status;
    }
    let docs = store.database_documents(DATABASE).unwrap();
    match clone_document(request, &docs) {
        Err(e) => e.status,
        Ok(commit) => match store.commit(commit, &NOW) {
            Ok(_) => 200,
            Err(e) => clone_error(e).status,
        },
    }
}

#[test]
fn clone_preserves_types_separates_descendants_and_refuses_overwrite() {
    let mut store = Store::new();
    let root = format!("{DATABASE}/documents/items/source");
    for value in [document(&root), document(&format!("{root}/children/child"))] {
        let name = value.name.clone();
        store.documents.insert(&name, value);
    }
    assert_eq!(run_clone(&mut store, &clone_request("one", false)), 200);
    let copied = store.database_documents(DATABASE).unwrap();
    let clone = copied.iter().find(|d| d.name.ends_with("/copies/one")).unwrap();
    assert_eq!(clone.fields, document(&root).fields);
    assert!(!copied.iter().any(|d| d.name.contains("/copies/one/children/")));
    assert_eq!(run_clone(&mut store, &clone_request("one", false)), 409);
    assert_eq!(run_clone(&mut store, &clone_request("two", true)), 200);
    let copied = store.database_documents(DATABASE).unwrap();
    assert!(copied.iter().any(|d| d.name.ends_with("/copies/two/children/child")));
    let mut missing = clone_request("three", false);
    missing.source_path = "items/none".into();
    assert_eq!(run_clone(&mut store, &missing), 404);
    missing.source_path = "items".into();
    assert_eq!(run_clone(&mut store, &missing), 400);
    assert_eq!(
        clone_json(&clone_request("two", true), 2).to_text(),
        "{\"destinationPath\":\"copies/two\",\"documentsCloned\":2,\"subcollectionsIncluded\":true}"
    );
}

fn field_request(field: &str, value: &str) -> UpdateFieldRequest {
    UpdateFieldRequest {
        project: "demo-ui".into(),
        database: default_database(),
        document_path: "items/source".into(),
        field_name: field.into(),
        value: Json::parse(value).unwrap(),
    }
}

#[test]
fn inline_field_update_preserves_type_and_literal_field_name() {
    let mut store = Store::new();
    let root = format!("{DATABASE}/documents/items/source");
    store.documents.insert(&root, document(&root));
    let commit = update_field(field_request(
        "literal.dot`field",
        r#"{"integerValue":"9223372036854775806"}"#,
    ))
    .unwrap();
    store.commit(commit, &NOW).unwrap();
    let stored = store.documents.get(&root).unwrap();
    assert_eq!(
        field_value(stored, &quoted_field_path("literal.dot`field")),
        Some(FieldValue::Integer(9_223_372_036_854_775_806))
    );
    assert_eq!(field_value(stored, "bytes"), Some(FieldValue::Bytes(vec![0, 255, 7])));
    let refused = update_field(field_request("bytes", r#"{"bytesValue":"not base64"}"#));
    assert_eq!(refused.unwrap_err().status, 400);
    let gone = store.delete_document(&root, firebase_emu::writes::Precondition::Any);
    assert!(gone.is_ok());
    let commit = update_field(field_request("bytes", r#"{"nullValue":null}"#)).unwrap();
    let error = store.commit(commit, &NOW).unwrap_err();
    assert_eq!(update_field_error(error).status, 404);
}

#[test]
fn pubsub_view_lists_configuration_without_pulling_messages() {
    let mut broker = Broker::new();
    broker
        .create_topic(Topic {
            name: "projects/demo-ui/topics/events".into(),
            labels: vec![("env".into(), "local".into())],
            state: 0,
            options: TopicOptions::none(),
        })
        .unwrap();
    broker
        .create_subscription(Subscription {
            name: "projects/demo-ui/subscriptions/worker".into(),
            topic: "projects/demo-ui/topics/events".into(),
            ack_deadline_seconds: 30,
            labels: Vec::new(),
            state: 0,
            options: SubscriptionOptions::none(),
        })
        .unwrap();
    let topics = broker.list_topics("projects/demo-ui").unwrap();
    let subscriptions = broker.list_subscriptions("projects/demo-ui").unwrap();
    let body = resources_json(&topics, &subscriptions);
    let topic = &body.items("topics").unwrap()[0];
    assert_eq!(
        topic.items("subscriptions").unwrap()[0].integer_at("ackDeadlineSeconds"),
        Some(30)
    );
    assert_eq!(topic.get("labels").unwrap().text("env"), "local");
    assert!(body.items("detachedSubscriptions").unwrap().is_empty());
    broker.delete_topic("projects/demo-ui/topics/events").unwrap();
    let subscriptions = broker.list_subscriptions("projects/demo-ui").unwrap();
    let body = resources_json(&Vec::new(), &subscriptions);
    assert_eq!(body.items("detachedSubscriptions").unwrap().len(), 1);
}

#[test]
fn paths_and_ids_are_checked() {
    assert!(valid_segment("demo-ui"));
    assert!(valid_segment("(default)"));
    assert!(!valid_segment(""));
    assert!(!valid_segment("a/b"));
    assert!(!valid_segment(&"a".repeat(257)));
    assert!(valid_document_segment("ä b"));
    assert!(!valid_document_segment(".."));
    assert!(!valid_document_segment("a\0"));
    assert_eq!(path_parts("a/b").unwrap(), vec!["a", "b"]);
    assert!(path_parts("/a").is_none());
    assert!(path_parts("a/").is_none());
    assert!(path_parts("").is_none());
    assert_eq!(config_json("p").text("defaultProject"), "p");
    assert_eq!(documents_json(&Vec::new()).to_text(), "{\"documents\":[]}");
}
