use firebase_emu::accounts::environment_namespace;
use firebase_emu::codebases::{dotenv_names, FunctionCodebase};
use firebase_emu::document::Document;
use firebase_emu::durable::{durable_writes, row_changes, touched_names};
use firebase_emu::firestore::{CommitRequest, Store};
use firebase_emu::json::Json;
use firebase_emu::leases::pull_done;
use firebase_emu::listing::{
    media_plan, multipart_plan, resumable_plan, upload_kind, UploadKind, UploadPlan,
};
use firebase_emu::loopback::{IpAddress, LOCALHOST};
use firebase_emu::multipart::parse_multipart;
use firebase_emu::ordered::OrderedMap;
use firebase_emu::outbox::{firestore_payload, stored_states};
use firebase_emu::project::{
    configured_root, names_config_file, service_addresses, FunctionsConfig, RootChoice,
};
use firebase_emu::settings::{plain_host, ConfigOverrides, EmulatorAddresses, Endpoint};
use firebase_emu::status::Code;
use firebase_emu::storage::{stored_object, StoredMetadata, UploadMetadata};
use firebase_emu::handlers::{dispatch_message, trigger_handlers};
use firebase_emu::triggers::{trigger_topic, Function, Worker};
use firebase_emu::value::{FieldValue, Timestamp};
use firebase_emu::web_channel::Session;
use firebase_emu::web_form::form_messages;
use firebase_emu::web_service::{has_room, post, response_headers};
use firebase_emu::workers::{
    dispatch, dispatch_schedule, inherited_variables, ready_line, worker_arguments, worker_base, worker_environment,
    EventSource,
};
use firebase_emu::writes::{Operation, Precondition, Write};

const NOW: Timestamp = Timestamp { seconds: 1_750_000_000, nanos: 0 };

fn json(text: &str) -> Json {
    Json::parse(text).unwrap()
}

fn environment(pairs: &[(&str, &str)]) -> OrderedMap<String> {
    let mut out = OrderedMap::new();
    for (key, value) in pairs {
        out.insert(key, value.to_string());
    }
    out
}

fn function(name: &str, trigger: &str) -> Function {
    Function { name: name.into(), regions: vec!["us-central1".into()], trigger: json(trigger) }
}

fn workers() -> Vec<Worker> {
    let write = r#"{"eventTrigger":{"eventType":"providers/cloud.firestore/eventTypes/document.write","resource":"projects/demo/databases/(default)/documents/items/{id}"}}"#;
    let delete = r#"{"eventTrigger":{"eventType":"providers/cloud.firestore/eventTypes/document.delete","resource":"projects/demo/databases/(default)/documents/items/{id}"}}"#;
    let topic = r#"{"eventTrigger":{"eventType":"google.pubsub.topic.publish","resource":"projects/demo/topics/jobs"}}"#;
    let schedule = r#"{"schedule":{},"eventTrigger":{"eventType":"google.pubsub.topic.publish","resource":"projects/demo/topics/jobs"}}"#;
    let object = r#"{"eventTrigger":{"eventType":"google.storage.object.finalize","resource":"projects/_/buckets/bucket"}}"#;
    vec![
        Worker {
            codebase: "one".into(),
            base: worker_base(4001),
            functions: vec![function("onDelete", delete), function("onWrite", write)],
        },
        Worker {
            codebase: "two".into(),
            base: worker_base(4002),
            functions: vec![
                function("onJob", topic),
                function("nightly", schedule),
                function("onObject", object),
                function("also", write),
            ],
        },
    ]
}

fn item(id: &str) -> Document {
    Document {
        name: format!("projects/demo/databases/(default)/documents/items/{id}"),
        fields: vec![("n".into(), FieldValue::Integer(1))],
        create_time: Some(NOW),
        update_time: Some(NOW),
    }
}

#[test]
fn events_reach_every_function_that_asks_for_them() {
    let source = EventSource::Firestore { before: None, after: Some(item("a")) };
    let sent = dispatch("demo", &workers(), 7, &source);
    let reached: Vec<(usize, usize)> = sent.iter().map(|d| (d.worker, d.function)).collect();
    assert_eq!(reached, vec![(0, 1), (1, 3)]);
    assert_eq!(sent[0].context.text("eventId"), "rust-7");
    assert_eq!(sent[0].context.get("params"), Some(&json(r#"{"id":"a"}"#)));
    assert!(dispatch("other", &workers(), 7, &source).is_empty());

    let gone = EventSource::Firestore { before: Some(item("a")), after: None };
    assert_eq!(dispatch("demo", &workers(), 8, &gone).len(), 3);
    let none = EventSource::Firestore { before: None, after: None };
    assert!(dispatch("demo", &workers(), 8, &none).is_empty());

    let object = EventSource::Storage {
        kind: "finalize".into(),
        object: json(r#"{"bucket":"bucket","name":"a.txt","updated":"2026-01-01T00:00:00Z"}"#),
    };
    let sent = dispatch("demo", &workers(), 9, &object);
    assert_eq!(sent.len(), 1);
    assert_eq!((sent[0].worker, sent[0].function), (1, 2));

    let message = EventSource::PubSub {
        topic: "jobs".into(),
        message: json(r#"{"data":"e30=","publishTime":"2026-01-01T00:00:00Z"}"#),
    };
    let sent = dispatch("demo", &workers(), 10, &message);
    assert_eq!(sent.len(), 1);
    assert_eq!((sent[0].worker, sent[0].function), (1, 0));
    assert_eq!(sent[0].data.text("data"), "e30=");
}

#[test]
fn schedules_run_one_function() {
    let told = dispatch_schedule("demo", &workers(), 3, "nightly", "2026-01-01T00:00:00.000Z");
    let told = told.ok().unwrap();
    assert_eq!((told.worker, told.function), (1, 1));
    assert_eq!(told.data.text("messageId"), "rust-3");
    assert_eq!(told.data.text("publishTime"), "2026-01-01T00:00:00.000Z");
    assert_eq!(
        dispatch_schedule("demo", &workers(), 3, "onJob", "now").err().unwrap(),
        "Unknown scheduled function: onJob"
    );
}

#[test]
fn processes_are_told_what_they_need() {
    assert_eq!(ready_line("FIREBASE_EMU_READY {\"port\":1}").unwrap(), "{\"port\":1}");
    assert!(ready_line("listening").is_none());
    assert_eq!(worker_base(5001), "http://127.0.0.1:5001");
    assert_eq!(worker_arguments("demo", None, None), vec!["--project", "demo"]);
    assert_eq!(
        worker_arguments("demo", Some("fn".into()), Some("m.json".into())),
        vec!["--project", "demo", "--target", "fn", "--manifest", "m.json"]
    );
    let at = |port: u16| Endpoint { ip: IpAddress::V4(LOCALHOST), port };
    let config = FunctionsConfig {
        project_id: "demo".into(),
        codebases: Vec::new(),
        addresses: EmulatorAddresses {
            functions: at(5001),
            firestore: at(8080),
            auth: at(9099),
            storage: at(9199),
            database: at(9000),
            pubsub: at(8085),
        },
        firebase_config: json("{}"),
        runtime_config: json("{}"),
        local_environment: environment(&[("VALUE", "local")]),
    };
    let codebase = FunctionCodebase {
        source: "/root/functions".into(),
        codebase: "default".into(),
        runtime: "nodejs20".into(),
    };
    let set = worker_environment(&config, &codebase);
    let value = |key: &str| set.get(key).map(String::as_str);
    assert_eq!(value("STORAGE_EMULATOR_HOST"), Some("http://127.0.0.1:9199"));
    assert_eq!(value("FUNCTIONS_CODEBASE"), Some("default"));
    assert_eq!(value("GCLOUD_PROJECT"), Some("demo"));
    assert_eq!(value("VALUE"), Some("local"));
    assert_eq!(value("PATH"), None);
}

#[test]
fn uploads_of_each_kind_are_planned() {
    let headers: Vec<(String, String)> = vec![
        ("content-type".into(), "text/plain".into()),
        ("x-upload-content-type".into(), "image/png".into()),
        ("x-goog-meta-color".into(), "red".into()),
    ];
    match media_plan(Some("a.txt".into()), &headers, vec![1, 2]) {
        Ok(UploadPlan::Save(name, bytes, metadata, fallback)) => {
            assert_eq!(name, "a.txt");
            assert_eq!(bytes, vec![1, 2]);
            assert_eq!(metadata.content_type.as_deref(), Some("text/plain"));
            assert_eq!(metadata.metadata.get("color").map(String::as_str), Some("red"));
            assert_eq!(fallback, None);
        }
        _ => panic!("content is saved"),
    }
    let unnamed = media_plan(None, &headers, Vec::new()).err().unwrap();
    assert_eq!((unnamed.status, unnamed.message.as_str()), (400, "missing object name"));

    let body = b"--b\r\nContent-Type: application/json\r\n\r\n{\"name\":\"m.bin\"}\r\n--b\r\nContent-Type: image/gif\r\n\r\n\x00\xff\r\n--b--";
    let upload = parse_multipart("multipart/related; boundary=b", body).unwrap();
    assert_eq!(upload.metadata, b"{\"name\":\"m.bin\"}");
    let mut metadata = UploadMetadata::none();
    metadata.name = Some("m.bin".into());
    match multipart_plan(None, upload, metadata) {
        Ok(UploadPlan::Save(name, bytes, metadata, fallback)) => {
            assert_eq!(name, "m.bin");
            assert_eq!(bytes, vec![0, 255]);
            assert_eq!(metadata.content_type, None);
            assert_eq!(fallback.as_deref(), Some("image/gif"));
        }
        _ => panic!("content is saved"),
    }
    match resumable_plan(Some("r.bin".into()), &headers, UploadMetadata::none()) {
        Ok(UploadPlan::Open(name, metadata)) => {
            assert_eq!(name, "r.bin");
            assert_eq!(metadata.content_type.as_deref(), Some("image/png"));
        }
        _ => panic!("an upload is opened"),
    }
    assert!(resumable_plan(None, &headers, UploadMetadata::none()).is_err());
    assert!(matches!(upload_kind(false, None, None), Ok(UploadKind::Media)));
    assert!(matches!(
        upload_kind(false, None, Some("resumable".into())),
        Ok(UploadKind::Resumable)
    ));
    assert!(matches!(upload_kind(true, Some("media".into()), None), Ok(UploadKind::Resume)));
    let other = upload_kind(false, Some("strange".into()), None).err().unwrap();
    assert_eq!(other.message, "unsupported uploadType: strange");
}

#[test]
fn stored_objects_are_read_back() {
    let metadata = || StoredMetadata {
        content_type: "text/plain".into(),
        metadata: environment(&[("color", "red")]),
        cache_control: None,
        content_disposition: None,
        content_encoding: None,
        download_token: "token".into(),
        size: 3,
        crc32c: "AAAAAA==".into(),
    };
    let row = |generation: i64| {
        stored_object(
            "bucket".into(),
            "a.txt".into(),
            "blob".into(),
            metadata(),
            generation,
            "created".into(),
            "updated".into(),
        )
    };
    let object = row(4).ok().unwrap();
    assert_eq!(object.generation, 4);
    assert_eq!(object.blob_name.as_deref(), Some("blob"));
    assert_eq!(object.bytes, None);
    assert_eq!(object.size, 3);
    assert_eq!(object.download_token, "token");
    assert_eq!(object.metadata.get("color").map(String::as_str), Some("red"));
    assert_eq!(row(0).err().unwrap(), "negative Storage generation for bucket/a.txt");
}

#[test]
fn the_environment_names_a_namespace() {
    assert_eq!(environment_namespace(Some("a".into()), Some("b".into())), "project/a");
    assert_eq!(environment_namespace(None, Some("b".into())), "project/b");
    assert_eq!(environment_namespace(None, None), "project/demo-firebase");
}

#[test]
fn browsers_get_the_headers_they_asked_for() {
    let headers = response_headers("text/plain", Some("http://localhost:3000".into()), None);
    let value = |name: &str| {
        headers.iter().find(|(key, _)| key == name).map(|(_, value)| value.as_str())
    };
    assert_eq!(headers.len(), 8);
    assert_eq!(value("content-type"), Some("text/plain"));
    assert_eq!(value("access-control-allow-origin"), Some("http://localhost:3000"));
    assert_eq!(
        value("access-control-allow-headers"),
        Some("content-type, authorization, x-goog-api-client")
    );
    let plain = response_headers("text/plain", None, Some("x-other".into()));
    assert!(plain.contains(&("access-control-allow-origin".into(), "*".into())));
    assert!(plain.contains(&("access-control-allow-headers".into(), "x-other".into())));
}

#[test]
fn a_message_that_comes_twice_counts_once() {
    let mut store = Store::new();
    let mut session = Session::new("projects/demo/databases/(default)");
    let hello = form_messages(b"count=1&ofs=0&req0___data__=%7B%7D").unwrap();
    let (none, taken) = post(&mut store, &mut session, "Write", "sid", &hello, &NOW);
    assert!(none.is_empty());
    assert_eq!(taken, 1);
    assert_eq!(session.seq, 1);

    let write = r#"{"writes":[{"update":{"name":"projects/demo/databases/(default)/documents/items/a","fields":{"n":{"integerValue":"1"}}},"currentDocument":{"exists":false}}]}"#;
    let encoded: String = write
        .bytes()
        .map(|b| if b.is_ascii_alphanumeric() { (b as char).to_string() } else { format!("%{b:02X}") })
        .collect();
    let body = format!("count=1&ofs=1&req0___data__={encoded}");
    let messages = form_messages(body.as_bytes()).unwrap();
    assert_eq!(messages[0].id, 1);
    let (changes, _) = post(&mut store, &mut session, "Write", "sid", &messages, &NOW);
    assert_eq!(changes.len(), 1);
    assert_eq!(session.seq, 2);
    assert_eq!(store.documents.len(), 1);

    assert!(post(&mut store, &mut session, "Write", "sid", &messages, &NOW).0.is_empty());
    assert_eq!(session.seq, 2);

    let again = format!("count=1&ofs=2&req0___data__={encoded}");
    let again = form_messages(again.as_bytes()).unwrap();
    assert!(post(&mut store, &mut session, "Write", "sid", &again, &NOW).0.is_empty());
    assert_eq!(session.seq, 3);
    assert!(session.messages[2].1.to_text().contains("\"error\""));
}

#[test]
fn a_session_whose_numbers_run_out_takes_no_more() {
    let mut store = Store::new();
    let mut session = Session::new("projects/demo/databases/(default)");
    session.seq = u64::MAX - 3;
    let hello = form_messages(b"count=1&ofs=0&req0___data__=%7B%7D").unwrap();
    assert!(!has_room(&session, 0, &hello[0].message));
    assert_eq!(post(&mut store, &mut session, "Write", "sid", &hello, &NOW).1, 0);
    assert!(session.messages.is_empty());
    assert!(session.poll_within(&store.documents, "Listen", 0, &NOW).is_some());
    session.seq = u64::MAX;
    assert!(session.poll_within(&store.documents, "Listen", 0, &NOW).is_none());
    session.seq = u64::MAX - 4;
    assert_eq!(post(&mut store, &mut session, "Write", "sid", &hello, &NOW).1, 1);
    assert_eq!(session.messages[0].0, u64::MAX - 3);
}

#[test]
fn stored_events_are_read_back() {
    let text = firestore_payload(None, Some(vec![1, 2, 255]));
    let payload = json(&text);
    let state = |key: &str| payload.get(key).and_then(Json::as_text).map(str::to_owned);
    assert_eq!(state("after").as_deref(), Some("AQL/"));
    assert_eq!(
        stored_states(&state("before"), &state("after")),
        Ok((None, Some(vec![1, 2, 255])))
    );
    assert_eq!(
        stored_states(&Some("!".into()), &None),
        Err("Invalid symbol 33, offset 0.".to_owned())
    );
}

#[test]
fn triggers_name_their_topics() {
    let all = workers();
    assert_eq!(trigger_topic(&all[1].functions[0].trigger).as_deref(), Some("jobs"));
    assert_eq!(trigger_topic(&all[1].functions[1].trigger), None);
    assert_eq!(trigger_topic(&all[0].functions[0].trigger), None);
}

#[test]
fn only_local_files_and_variables_are_read() {
    assert_eq!(dotenv_names("demo-x"), vec![".env.demo-x", ".env.local"]);
    assert_eq!(inherited_variables().len(), 7);
    assert!(inherited_variables().contains(&"PATH".to_owned()));
    assert_eq!(plain_host(&environment(&[])), "127.0.0.1");
    assert_eq!(plain_host(&environment(&[("FIREBASE_EMU_HOST", "::1")])), "::1");
}

#[test]
fn the_project_is_looked_for_where_it_is_named() {
    let none = environment(&[]);
    assert!(matches!(
        configured_root(&Some("dir".into()), &none, &None, false),
        RootChoice::Named(path) if path == "dir"
    ));
    let named = environment(&[("FIREBASE_EMU_CONFIG_DIR", "env")]);
    assert!(matches!(
        configured_root(&None, &named, &None, true),
        RootChoice::Named(path) if path == "env"
    ));
    assert!(matches!(configured_root(&None, &none, &Some("f".into()), false), RootChoice::Current));
    assert!(matches!(configured_root(&None, &none, &None, true), RootChoice::Current));
    assert!(matches!(configured_root(&None, &none, &None, false), RootChoice::Absent));
    assert!(names_config_file(Some("firebase.json")));
    assert!(!names_config_file(Some("firebase")));
    assert!(!names_config_file(None));
}

#[test]
fn services_listen_where_they_are_told() {
    let cli = ConfigOverrides::none();
    let host = || Ok(IpAddress::V4(LOCALHOST));
    let none = environment(&[]);
    let found = service_addresses(None, &cli, &none, &json("{}"), host(), None).ok().unwrap();
    assert_eq!(found.firestore.port, 8080);
    assert_eq!(found.auth.port, 9099);
    assert_eq!(found.storage.port, 9199);
    assert_eq!(found.pubsub.port, 8085);

    let moved = environment(&[("FIRESTORE_EMU_PORT", "8181")]);
    let found = service_addresses(None, &cli, &moved, &json("{}"), host(), None).ok().unwrap();
    assert_eq!(found.firestore.port, 8181);

    let outside = Ok(IpAddress::V4(0x0808_0808));
    assert_eq!(
        service_addresses(None, &cli, &none, &json("{}"), outside, None).err().unwrap(),
        "FIREBASE_EMU_HOST must be a loopback IP address"
    );
}

const DATABASE: &str = "projects/demo/databases/(default)";

fn set(id: &str, n: i64, condition: Precondition) -> Write {
    let mut document = item(id);
    document.fields = vec![("n".into(), FieldValue::Integer(n))];
    document.create_time = None;
    document.update_time = None;
    Write {
        operation: Operation::Update(document),
        update_mask: None,
        current_document: condition,
        update_transforms: Vec::new(),
    }
}

fn removal(id: &str) -> Write {
    Write {
        operation: Operation::Delete(item(id).name),
        update_mask: None,
        current_document: Precondition::Any,
        update_transforms: Vec::new(),
    }
}

fn stored(ids: &[&str]) -> OrderedMap<Document> {
    let mut out = OrderedMap::new();
    for id in ids {
        out.insert(&item(id).name, item(id));
    }
    out
}

#[test]
fn durable_writes_do_what_writes_in_memory_do() {
    let writes = || vec![set("c", 5, Precondition::Exists(false)), removal("a"), removal("a")];
    let names = touched_names(&writes());
    assert_eq!(names.len(), 2);
    assert_eq!(names.key_at(0), item("a").name);

    let mut store = Store::new();
    store.documents = stored(&["a", "b"]);
    let request =
        CommitRequest { database: DATABASE.into(), writes: writes(), transaction: Vec::new() };
    let (results, changes) = store.commit(request, &NOW).ok().unwrap();

    let durable = durable_writes(&stored(&["a"]), DATABASE, writes(), false, &NOW).ok().unwrap();
    assert_eq!(durable.results, results);
    assert_eq!(durable.records, changes);
    assert_eq!(durable.statuses.len(), 3);
    let rows = row_changes(&names, &durable.documents);
    assert_eq!(rows.len(), 2);
    for (name, row) in &rows {
        assert_eq!(row.as_ref(), store.documents.get(name));
    }
    assert_eq!(store.documents.get(&item("b").name), Some(&item("b")));
}

#[test]
fn refused_durable_writes_leave_no_rows() {
    let writes = || vec![set("b", 2, Precondition::Any), set("a", 1, Precondition::Exists(false))];
    let refused = durable_writes(&stored(&["a"]), DATABASE, writes(), false, &NOW);
    assert_eq!(refused.err().unwrap().code, Code::FailedPrecondition);

    let partial = durable_writes(&stored(&["a"]), DATABASE, writes(), true, &NOW).ok().unwrap();
    assert_eq!(partial.statuses[0].code, 0);
    assert_eq!(partial.statuses[1].code, 9);
    assert_eq!(partial.records.len(), 1);

    let other = "projects/demo/databases/other";
    let outside = durable_writes(&stored(&["a"]), other, writes(), true, &NOW);
    assert_eq!(outside.err().unwrap().code, Code::InvalidArgument);
}

#[test]
fn a_pull_is_answered_at_last() {
    assert!(!pull_done(0, false, 1999));
    assert!(pull_done(0, false, 2000));
    assert!(pull_done(1, false, 0));
    assert!(pull_done(0, true, 0));
}

#[test]
fn every_handler_has_a_subscription() {
    let mut all = workers();
    let topic = r#"{"eventTrigger":{"eventType":"google.pubsub.topic.publish","resource":"projects/demo/topics/jobs"}}"#;
    all[0].functions.push(function("logJob", topic));
    let handlers = trigger_handlers(&all);
    let found: Vec<(usize, usize, &str, &str)> = handlers
        .iter()
        .map(|h| (h.worker, h.function, h.topic.as_str(), h.subscription.as_str()))
        .collect();
    assert_eq!(
        found,
        vec![
            (0, 2, "jobs", "firebase-emu-functions-logJob"),
            (1, 0, "jobs", "firebase-emu-functions-onJob"),
        ]
    );
    let message = json(r#"{"data":"e30=","publishTime":"now"}"#);
    let told = dispatch_message("demo", &all, &handlers[1], 9, &message).unwrap();
    assert_eq!((told.worker, told.function), (1, 0));
    assert_eq!(told.data, message);
    assert_eq!(told.context.text("eventId"), "rust-9");
    assert_eq!(told.context.text("timestamp"), "now");
    assert!(dispatch_message("demo", &vec![], &handlers[1], 9, &message).is_none());
}
