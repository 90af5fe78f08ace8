use firebase_emu::document::Document;
use firebase_emu::json::Json;
use firebase_emu::outbox::{
    acknowledge_outbox, backoff, claim_outbox, direct_wait, drain_status, durable_source, expendable,
    fail_outbox, firestore_payload, join_errors, next_step, recover_outbox, storage_kind,
    storage_outbox_record, DurableSource, EventState, Hub, OutboxRow, QueueStep,
};
use firebase_emu::timestamps::chrono_timestamp;
use firebase_emu::triggers::{
    event_kind, event_payload, find_scheduled, firestore_delivery, injected_message,
    is_request_hop_header, is_response_hop_header, node_compatible_path, normalize_node_path,
    note_names, pubsub_delivery, route, runtime_major, schedule_delivery, storage_delivery,
    validate_node_version, wildcard_params, Function, Worker,
};
use firebase_emu::value::{FieldValue, Timestamp};

fn json(text: &str) -> Json {
    Json::parse(text).unwrap()
}

#[test]
fn wildcard_path_is_exact() {
    assert_eq!(
        wildcard_params("companies/{company}/contacts/{id}", "companies/acme/contacts/one"),
        Some(json(r#"{"company":"acme","id":"one"}"#))
    );
    assert!(wildcard_params("companies/{id}", "companies/a/nested/b").is_none());
    assert!(wildcard_params("companies/{id}", "users/a").is_none());
    assert!(wildcard_params("companies/{}", "companies/a").is_none());
}

#[test]
fn transitions() {
    assert_eq!(event_kind(false, true), "create");
    assert_eq!(event_kind(true, true), "update");
    assert_eq!(event_kind(true, false), "delete");
}

#[test]
fn timestamps_are_rfc3339_utc() {
    let value = chrono_timestamp();
    assert_eq!(value.len(), 24);
    assert_eq!(&value[4..5], "-");
    assert_eq!(&value[10..11], "T");
    assert!(value.ends_with(".000Z"));
}

#[test]
fn node_paths_normalize_only_windows_disk_and_unc_verbatim_prefixes() {
    assert_eq!(
        normalize_node_path(r"\\?\C:\release space\functions"),
        r"C:\release space\functions"
    );
    assert_eq!(
        normalize_node_path(r"\\?\UNC\server\share\functions"),
        r"\\server\share\functions"
    );
    assert_eq!(
        normalize_node_path(r"\\?\Volume{01234567-89ab-cdef-0123-456789abcdef}\functions"),
        r"\\?\Volume{01234567-89ab-cdef-0123-456789abcdef}\functions"
    );
    assert_eq!(normalize_node_path("/tmp/functions"), "/tmp/functions");
    assert_eq!(node_compatible_path(Some("/tmp")).as_deref(), Some("/tmp"));
    assert_eq!(node_compatible_path(None), None);
}

fn document(name: &str) -> Document {
    Document {
        name: name.into(),
        fields: vec![("rank".into(), FieldValue::Integer(1))],
        create_time: None,
        update_time: Some(Timestamp { seconds: 1_704_067_200, nanos: 0 }),
    }
}

#[test]
fn document_changes_reach_the_functions_that_ask_for_them() {
    let name = "projects/demo/databases/(default)/documents/users/a";
    let doc = document(name);
    let trigger = |kind: &str, path: &str| {
        json(&format!(
            r#"{{"eventTrigger":{{"eventType":"providers/cloud.firestore/eventTypes/document.{kind}","resource":"projects/demo/databases/(default)/documents/{path}"}}}}"#
        ))
    };
    let (data, context) =
        firestore_delivery("demo", &trigger("create", "users/{id}"), 7, None, Some(&doc)).unwrap();
    assert_eq!(data.get("oldValue"), Some(&json("{}")));
    assert_eq!(data.get("value").unwrap().text("name"), name);
    assert_eq!(context.text("eventId"), "rust-7");
    assert_eq!(context.text("timestamp"), "2024-01-01T00:00:00Z");
    assert_eq!(context.get("params").unwrap().text("id"), "a");
    assert!(firestore_delivery("demo", &trigger("write", "users/{id}"), 7, Some(&doc), None)
        .is_some());
    assert!(firestore_delivery("demo", &trigger("create", "users/{id}"), 7, Some(&doc), None)
        .is_none());
    assert!(firestore_delivery("demo", &trigger("write", "teams/{id}"), 7, None, Some(&doc))
        .is_none());
    assert!(firestore_delivery("other", &trigger("write", "users/{id}"), 7, None, Some(&doc))
        .is_none());
    let payload = event_payload("f", data, context);
    assert_eq!(payload.text("name"), "f");
}

#[test]
fn object_changes_reach_the_functions_of_their_bucket() {
    let object = json(r#"{"bucket":"b","name":"n","updated":"then"}"#);
    let trigger = |resource: &str| {
        json(&format!(
            r#"{{"eventTrigger":{{"eventType":"google.storage.object.finalize","resource":"{resource}"}}}}"#
        ))
    };
    let (data, context) =
        storage_delivery(&trigger("projects/_/buckets/b"), 1, "finalize", &object).unwrap();
    assert_eq!(data, object);
    assert_eq!(context.text("timestamp"), "then");
    assert_eq!(
        context.get("resource").unwrap().text("name"),
        "projects/_/buckets/b/objects/n"
    );
    assert!(storage_delivery(&trigger("projects/_/buckets/{bucket}"), 1, "finalize", &object)
        .is_some());
    assert!(storage_delivery(&trigger("projects/_/buckets/c"), 1, "finalize", &object).is_none());
    assert!(storage_delivery(&trigger("projects/_/buckets/b"), 1, "delete", &object).is_none());
}

#[test]
fn messages_reach_the_functions_of_their_topic() {
    let message = json(r#"{"publishTime":"then"}"#);
    let trigger = json(
        r#"{"eventTrigger":{"eventType":"google.pubsub.topic.publish","resource":"projects/p/topics/t"}}"#,
    );
    let (data, context) = pubsub_delivery("demo", &trigger, 2, "t", &message).unwrap();
    assert_eq!(data, message);
    assert_eq!(context.get("resource").unwrap().text("name"), "projects/demo/topics/t");
    assert!(pubsub_delivery("demo", &trigger, 2, "u", &message).is_none());
    let scheduled = json(
        r#"{"schedule":{},"eventTrigger":{"eventType":"google.pubsub.topic.publish","resource":"projects/p/topics/t"}}"#,
    );
    assert!(pubsub_delivery("demo", &scheduled, 2, "t", &message).is_none());
    let (data, context) = schedule_delivery("demo", &scheduled, 3, "now");
    assert_eq!(data.text("messageId"), "rust-3");
    assert_eq!(data.text("data"), "e30=");
    assert_eq!(context.get("resource").unwrap().text("name"), "projects/demo/topics");
}

fn workers() -> Vec<Worker> {
    vec![Worker {
        codebase: "default".into(),
        base: "http://127.0.0.1:1".into(),
        functions: vec![
            Function {
                name: "hello".into(),
                regions: vec!["us-central1".into()],
                trigger: json(r#"{"httpsTrigger":{}}"#),
            },
            Function {
                name: "tick".into(),
                regions: vec!["us-central1".into()],
                trigger: json(r#"{"schedule":{}}"#),
            },
        ],
    }]
}

#[test]
fn requests_are_routed_to_functions() {
    let all = workers();
    assert_eq!(
        route("demo", &all, "/demo/us-central1/hello/a/b", Some("x=1")),
        Some((0, "http://127.0.0.1:1/invoke/hello/a/b?x=1".to_string()))
    );
    assert_eq!(
        route("demo", &all, "/demo/us-central1/hello", None),
        Some((0, "http://127.0.0.1:1/invoke/hello".to_string()))
    );
    assert_eq!(route("demo", &all, "/demo/europe/hello", None), None);
    assert_eq!(route("demo", &all, "/other/us-central1/hello", None), None);
    assert_eq!(route("demo", &all, "/demo/us-central1/tick", None), None);
    assert_eq!(find_scheduled(&all, "tick"), Some((0, 1)));
    assert_eq!(find_scheduled(&all, "hello"), None);
    assert!(is_request_hop_header("host"));
    assert!(!is_response_hop_header("host"));
    let mut names = Vec::new();
    assert_eq!(note_names(&mut names, &all[0].functions), None);
    assert_eq!(note_names(&mut names, &all[0].functions).as_deref(), Some("hello"));
}

#[test]
fn injected_messages_are_checked() {
    let message =
        injected_message("t", &json(r#"{"data":{"a":1}}"#), 4, "now").unwrap();
    assert_eq!(message.text("data"), "eyJhIjoxfQ==");
    assert_eq!(message.text("messageId"), "rust-4");
    assert_eq!(injected_message("t/u", &json("{}"), 4, "now").unwrap_err(), "Invalid topic");
    assert_eq!(injected_message("t", &json("{}"), 4, "now").unwrap_err(), "Expected data");
}

#[test]
fn node_versions_are_checked() {
    assert!(validate_node_version("v20.11.1\n", "nodejs20"));
    assert!(!validate_node_version("v20.11.1\n", "nodejs22"));
    assert!(!validate_node_version("v16.0.0", "nodejs16"));
    assert_eq!(runtime_major("nodejs22"), "22");
}

fn row(id: i64, state: EventState) -> OutboxRow {
    OutboxRow { id, state, attempts: 0, available_at: 0, lease_until: None }
}

#[test]
fn events_are_retried_five_times() {
    let mut event = row(7, EventState::Pending);
    let mut now = 100;
    for delay in [1, 2, 4, 8] {
        event = claim_outbox(&vec![event], now).unwrap();
        assert_eq!(event.lease_until, Some(now + 5));
        assert!(claim_outbox(&vec![event], now + 4).is_none());
        event = fail_outbox(event, now);
        assert_eq!(event.state, EventState::Pending);
        assert_eq!(event.available_at, now + delay);
        assert!(claim_outbox(&vec![event], now).is_none());
        now += delay;
    }
    event = claim_outbox(&vec![event], now).unwrap();
    assert_eq!(event.attempts, 5);
    event = fail_outbox(event, now);
    assert_eq!(event.state, EventState::Failed);
    assert_eq!(event.id, 7);
    assert_eq!(backoff(9), 16);
}

#[test]
fn expired_leases_are_claimed_again() {
    let claimed = claim_outbox(&vec![row(1, EventState::Pending)], 100).unwrap();
    let again = claim_outbox(&vec![claimed], 105).unwrap();
    assert_eq!(again.id, 1);
    assert_eq!(again.attempts, 2);
    assert_eq!(recover_outbox(claimed).state, EventState::Pending);
    let done = acknowledge_outbox(claimed);
    assert_eq!(done.state, EventState::Delivered);
    assert!(claim_outbox(&vec![done], 1000).is_none());
    let first = claim_outbox(
        &vec![row(2, EventState::Failed), row(3, EventState::Pending), row(4, EventState::Pending)],
        0,
    );
    assert_eq!(first.unwrap().id, 3);
    assert_eq!(expendable(&(0..1002).collect()), vec![0, 1]);
    assert!(expendable(&vec![1, 2]).is_empty());
}

#[test]
fn bursts_end_after_thirty_two_deliveries() {
    let mut burst = 0;
    for n in 1..=64u32 {
        let (next, step) = next_step(burst, true);
        burst = next;
        assert_eq!(step == QueueStep::Direct { pause: true }, n % 32 == 0);
    }
    assert_eq!(next_step(5, false), (0, QueueStep::Direct { pause: false }));
    assert_eq!((direct_wait(true), direct_wait(false)), (10, 250));
}

#[test]
fn the_hub_counts_events() {
    let mut hub = Hub::new();
    let first = hub.enqueue();
    let second = hub.enqueue();
    assert_eq!((first, second), (1, 2));
    assert_eq!(hub.refuse(second, "no available capacity"), "trigger queue rejected event: no available capacity");
    assert!(!hub.begin());
    hub.finish(first, Some("boom".into()));
    let status = hub.status(0, 0, Vec::new());
    assert_eq!(status.integer_at("pending"), Some(0));
    assert_eq!(status.integer_at("completed"), Some(1));
    assert_eq!(status.items("failures").unwrap().len(), 2);
    hub.enqueue();
    hub.enqueue();
    for n in 1..=5000 {
        assert_eq!(hub.begin(), n % 32 == 0);
    }
    assert_eq!(hub.pending, 2);
    assert_eq!(hub.failures.len(), 2);
    assert_eq!(drain_status(true, 0), 408);
    assert_eq!(drain_status(false, 0), 200);
    assert_eq!(drain_status(false, 1), 500);
}

#[test]
fn durable_events_are_read_and_written() {
    assert_eq!(durable_source("firestore"), Ok(DurableSource::Firestore));
    assert_eq!(durable_source("storage"), Ok(DurableSource::Storage));
    assert_eq!(
        durable_source("x").unwrap_err(),
        "unsupported durable event source: x"
    );
    assert!(storage_kind("delete").is_ok());
    assert_eq!(
        storage_kind("x").unwrap_err(),
        "unsupported durable Storage event kind: x"
    );
    assert_eq!(
        firestore_payload(None, Some(vec![0, 1, 255])),
        "{\"after\":\"AAH/\",\"before\":null}"
    );
    assert_eq!(
        storage_outbox_record("delete", json("{}")),
        "{\"kind\":\"delete\",\"object\":{}}"
    );
    assert_eq!(join_errors(&Vec::new()), None);
    assert_eq!(join_errors(&vec!["a".into(), "b".into()]).as_deref(), Some("a; b"));
}
