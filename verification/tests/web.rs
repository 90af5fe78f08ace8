use firebase_emu::document::Document;
use firebase_emu::firestore::{CommitRequest, Store};
use firebase_emu::json::{json_equal, Json};
use firebase_emu::query::StructuredQuery;
use firebase_emu::status::{Code, Status};
use firebase_emu::value::{FieldValue, Timestamp};
use firebase_emu::web_channel::{error_json, Session};
use firebase_emu::web_form::{decode_form_component, form_messages, frame, utf16_len};
use firebase_emu::web_requests::{query_proto, write_proto, writes_proto};
use firebase_emu::web_service::{
    batch_get_json, channel_is_idle, channel_request, handshake, process, query_json, received,
    rest_request, rest_status, ChannelParams, ChannelRequest, RestRequest, WebMethod,
};
use firebase_emu::web_values::{document_json, document_proto, value_json, value_proto};
use firebase_emu::writes::{Operation, Precondition, Transform};

const NOW: Timestamp = Timestamp { seconds: 1_750_000_000, nanos: 123_000_000 };

fn json(text: &str) -> Json {
    Json::parse(text).unwrap()
}

#[test]
fn frame_counts_utf16_and_form_orders_requests() {
    let value = json(r#"[[1,[{"text":"a😀é"}]]]"#);
    let encoded = frame(&value);
    let (length, body) = encoded.split_once('\n').unwrap();
    assert_eq!(length.parse::<usize>().unwrap(), body.encode_utf16().count());
    assert_eq!(json(body), value);
    let messages = form_messages(
        b"count=2&ofs=3&req1___data__=%7B%22n%22%3A2%7D&req0___data__=%7B%22n%22%3A1%7D",
    )
    .unwrap();
    assert_eq!(messages.len(), 2);
    assert_eq!(messages[0].id, 3);
    assert_eq!(messages[0].message, json(r#"{"n":1}"#));
    assert_eq!(messages[1].id, 4);
    assert_eq!(messages[1].message, json(r#"{"n":2}"#));
}

#[test]
fn json_values_round_trip() {
    for text in [
        r#"{"integerValue":"9223372036854775807"}"#,
        r#"{"timestampValue":"2026-09-06T01:02:03.123456789Z"}"#,
        r#"{"bytesValue":"AAH/"}"#,
        r#"{"mapValue":{"fields":{"arr":{"arrayValue":{"values":[{"stringValue":"😀"},{"nullValue":null}]}}}}}"#,
        r#"{"doubleValue":"NaN"}"#,
    ] {
        let v = json(text);
        assert_eq!(value_json(&value_proto(&v).unwrap()), v);
    }
}

#[test]
fn shared_commit_listen_diff_and_ack_replay() {
    let mut store = Store::new();
    let database = "projects/test/databases/(default)";
    let name = format!("{database}/documents/items/a");
    let mut session = Session::new(database);
    let add = json(&format!(
        r#"{{"addTarget":{{"targetId":2,"documents":{{"documents":["{name}"]}}}}}}"#
    ));
    process(&mut store, &mut session, "Listen", "test", &add, &NOW).1.unwrap();
    assert_eq!(session.seq, 3);
    let first = session.queued(0).unwrap();
    assert_eq!(session.queued(0).unwrap(), first);
    assert!(session.queued(3).is_none());
    let commit = |store: &mut Store, text: String| {
        let writes = writes_proto(&json(&text)).unwrap();
        store
            .commit(
                CommitRequest { database: database.into(), writes, transaction: Vec::new() },
                &NOW,
            )
            .unwrap();
    };
    commit(
        &mut store,
        format!(
            r#"{{"writes":[{{"update":{{"name":"{name}","fields":{{"label":{{"stringValue":"😀"}},"nan":{{"doubleValue":"NaN"}}}}}}}}]}}"#
        ),
    );
    session.refresh(&store.documents, &NOW).unwrap();
    assert_eq!(session.seq, 5);
    let told = |session: &Session, seq: u64, key: &str| {
        let (_, message) = session.messages.iter().find(|(n, _)| *n == seq).unwrap();
        match message {
            Json::Array(parts) => match &parts[1] {
                Json::Array(inner) => inner[0].get(key).is_some(),
                _ => false,
            },
            _ => false,
        }
    };
    assert!(told(&session, 4, "documentChange"));
    assert_eq!(store.documents.len(), 1);
    session.refresh(&store.documents, &NOW).unwrap();
    assert_eq!(session.seq, 5, "NaN must not cause repeat changes");
    commit(&mut store, format!(r#"{{"writes":[{{"delete":"{name}"}}]}}"#));
    session.refresh(&store.documents, &NOW).unwrap();
    assert!(told(&session, 6, "documentRemove"));
    assert!(session.queued(7).is_none());
}

#[test]
fn form_components_are_decoded() {
    assert_eq!(decode_form_component("a+b%20c").unwrap(), "a b c");
    assert_eq!(decode_form_component("%F0%9F%98%80").unwrap(), "😀");
    assert_eq!(decode_form_component("%+a").unwrap(), "\n");
    assert_eq!(decode_form_component("%4").unwrap_err().message, "invalid form escape");
    assert_eq!(decode_form_component("%zz").unwrap_err().message, "invalid form escape");
    assert_eq!(decode_form_component("%ff").unwrap_err().message, "invalid UTF-8 form");
    assert_eq!(utf16_len("a😀é"), 4);
}

#[test]
fn form_messages_are_checked() {
    assert_eq!(form_messages(&[0xff]).unwrap_err().message, "invalid form");
    assert_eq!(
        form_messages(b"reqx___data__={}").unwrap_err().message,
        "invalid request index"
    );
    assert_eq!(
        form_messages(b"req0___data__={").unwrap_err().message,
        "invalid request JSON"
    );
    assert!(form_messages(b"count=1").unwrap().is_empty());
}

#[test]
fn values_are_read_and_refused() {
    for (text, message) in [
        (r#"{"integerValue":"x"}"#, "invalid integer"),
        (r#"{"doubleValue":"x"}"#, "invalid double"),
        (r#"{"timestampValue":"x"}"#, "invalid timestamp"),
        (r#"{"bytesValue":"*"}"#, "invalid base64"),
        (r#"{}"#, "unknown Firestore value"),
    ] {
        assert_eq!(value_proto(&json(text)).unwrap_err().message, message);
    }
    assert_eq!(
        value_proto(&json(r#"{"timestampValue":{"seconds":"7","nanos":3}}"#)).unwrap(),
        FieldValue::Timestamp(Timestamp { seconds: 7, nanos: 3 })
    );
    assert_eq!(
        value_proto(&json(r#"{"geoPointValue":{"latitude":1.5}}"#)).unwrap(),
        FieldValue::GeoPoint(1.5f64.to_bits(), 0)
    );
    assert_eq!(
        value_proto(&json(r#"{"doubleValue":3}"#)).unwrap(),
        FieldValue::Double(3.0f64.to_bits())
    );
}

#[test]
fn documents_are_written_and_read() {
    let doc = Document {
        name: "projects/p/databases/d/documents/c/a".into(),
        fields: vec![("rank".into(), FieldValue::Integer(1))],
        create_time: Some(NOW),
        update_time: None,
    };
    let written = document_json(&doc);
    assert_eq!(written.text("createTime"), "2025-06-15T15:06:40.123Z");
    assert_eq!(written.get("updateTime"), Some(&Json::Null));
    let read = document_proto(&written).unwrap();
    assert_eq!(read.name, doc.name);
    assert_eq!(read.fields, doc.fields);
    assert!(read.create_time.is_none());
}

#[test]
fn writes_are_read() {
    let write = write_proto(&json(
        r#"{"update":{"name":"n","fields":{}},"currentDocument":{"exists":true},"updateMask":{"fieldPaths":["a",1,"b"]},"updateTransforms":[{"fieldPath":"t","setToServerValue":"REQUEST_TIME"},{"fieldPath":"u","increment":{"integerValue":"2"}}]}"#,
    ))
    .unwrap();
    assert!(matches!(write.operation, Operation::Update(_)));
    assert_eq!(write.current_document, Precondition::Exists(true));
    assert_eq!(write.update_mask, Some(vec!["a".to_string(), "b".to_string()]));
    assert_eq!(write.update_transforms[0].transform, Transform::SetToServerValue(1));
    assert_eq!(
        write.update_transforms[1].transform,
        Transform::Increment(FieldValue::Integer(2))
    );
    assert_eq!(write_proto(&json("{}")).unwrap_err().message, "write operation required");
    assert_eq!(
        write_proto(&json(r#"{"delete":"n","updateTransforms":[{}]}"#)).unwrap_err().message,
        "unknown transform"
    );
}

#[test]
fn queries_are_read() {
    let query: StructuredQuery = query_proto(&json(
        r#"{"from":[{"collectionId":"items","allDescendants":true}],"where":{"compositeFilter":{"op":"AND","filters":[{"fieldFilter":{"field":{"fieldPath":"rank"},"op":"GREATER_THAN","value":{"integerValue":"1"}}},{"unaryFilter":{"op":"IS_NULL","field":{"fieldPath":"x"}}}]}},"orderBy":[{"field":{"fieldPath":"rank"},"direction":"DESCENDING"}],"limit":{"value":3},"offset":2,"startAt":{"values":[{"integerValue":"5"}],"before":true},"select":{"fields":[{"fieldPath":"rank"}]}}"#,
    ))
    .unwrap();
    assert_eq!(query.limit, Some(3));
    assert_eq!(query.offset, 2);
    assert_eq!(query.order_by[0].direction, 2);
    assert!(query.from[0].all_descendants);
    assert!(query.start_at.as_ref().unwrap().before);
    assert_eq!(query.select, Some(vec!["rank".to_string()]));
    for (text, message) in [
        (r#"{"where":{}}"#, "unknown filter"),
        (r#"{"where":{"fieldFilter":{"op":"X"}}}"#, "invalid field operator"),
        (r#"{"where":{"compositeFilter":{"op":"X"}}}"#, "invalid composite operator"),
        (r#"{"where":{"unaryFilter":{"op":"X"}}}"#, "invalid unary operator"),
        (r#"{"orderBy":[{"direction":"UP"}]}"#, "invalid order direction"),
    ] {
        assert_eq!(query_proto(&json(text)).unwrap_err().message, message);
    }
}

#[test]
fn errors_are_written() {
    let error = Status { code: Code::NotFound, message: "gone".into() };
    assert_eq!(
        error_json(&error),
        json(r#"{"error":{"code":5,"status":"NOT_FOUND","message":"gone"}}"#)
    );
    assert_eq!(rest_status(Code::NotFound), 404);
    assert_eq!(rest_status(Code::AlreadyExists), 409);
    assert_eq!(rest_status(Code::Unimplemented), 501);
    assert_eq!(rest_status(Code::Internal), 400);
}

fn params(kind: Option<&str>, sid: Option<&str>, rid: Option<&str>, aid: Option<&str>) -> ChannelParams {
    ChannelParams {
        kind: kind.map(str::to_owned),
        sid: sid.map(str::to_owned),
        rid: rid.map(str::to_owned),
        aid: aid.map(str::to_owned),
    }
}

#[test]
fn channel_requests_are_told_apart() {
    let ask = |method, rpc: &str, p| channel_request(method, rpc, p);
    assert_eq!(
        ask(WebMethod::Options, "X", params(None, None, None, None)).unwrap(),
        ChannelRequest::Preflight
    );
    assert_eq!(
        ask(WebMethod::Post, "X", params(None, None, None, None)).unwrap_err().code,
        Code::Unimplemented
    );
    assert_eq!(
        ask(WebMethod::Get, "Listen", params(Some("terminate"), Some("s"), None, None)).unwrap(),
        ChannelRequest::Terminate(Some("s".into()))
    );
    assert_eq!(
        ask(WebMethod::Post, "Listen", params(None, None, None, None)).unwrap(),
        ChannelRequest::Open
    );
    assert_eq!(
        ask(WebMethod::Get, "Listen", params(None, None, None, None)).unwrap_err().message,
        "POST is required for channel handshake"
    );
    assert_eq!(
        ask(WebMethod::Get, "Write", params(None, Some("s"), Some("rpc"), Some("7"))).unwrap(),
        ChannelRequest::Poll("s".into(), 7)
    );
    assert_eq!(
        ask(WebMethod::Get, "Write", params(None, Some("s"), None, Some("x"))).unwrap(),
        ChannelRequest::Unknown("s".into())
    );
    assert!(channel_is_idle(0, 300_000));
    assert!(!channel_is_idle(1, 300_000));
}

#[test]
fn channel_answers_are_framed() {
    assert_eq!(handshake("abc"), "31\n[[0,[\"c\",\"abc\",\"\",8,12,30000]]]");
    assert_eq!(received(5), "7\n[1,5,0]");
    let mut session = Session::new("d");
    assert_eq!(session.expire(0).unwrap(), "14\n[[1,[\"noop\"]]]");
    assert!(session.receive(3));
    assert!(!session.receive(3));
}

#[test]
fn write_streams_commit() {
    let mut store = Store::new();
    let mut session = Session::new("");
    let opened = json(r#"{"database":"projects/test/databases/(default)"}"#);
    process(&mut store, &mut session, "Write", "sid", &opened, &NOW).1.unwrap();
    assert!(session.write_ready);
    let write = json(
        r#"{"writes":[{"update":{"name":"projects/test/databases/(default)/documents/c/a","fields":{}}}]}"#,
    );
    let (changes, outcome) = process(&mut store, &mut session, "Write", "sid", &write, &NOW);
    outcome.unwrap();
    assert_eq!(changes.len(), 1);
    let body = session.queued(0).unwrap();
    assert!(body.contains("\"streamToken\":\"MA==\""));
    assert!(body.contains("\"streamToken\":\"Mg==\""));
    let bad = json(r#"{"writes":[{}]}"#);
    let (_, outcome) = process(&mut store, &mut session, "Write", "sid", &bad, &NOW);
    assert_eq!(outcome.unwrap_err().message, "write operation required");
}

#[test]
fn targets_are_removed_and_checked() {
    let mut store = Store::new();
    let mut session = Session::new("");
    let missing = json(r#"{"addTarget":{}}"#);
    assert_eq!(
        process(&mut store, &mut session, "Listen", "s", &missing, &NOW).1.unwrap_err().message,
        "targetId required"
    );
    let add = json(r#"{"addTarget":{"targetId":2,"documents":{"documents":[]}}}"#);
    process(&mut store, &mut session, "Listen", "s", &add, &NOW).1.unwrap();
    assert_eq!(session.targets.len(), 1);
    process(&mut store, &mut session, "Listen", "s", &json(r#"{"removeTarget":2}"#), &NOW)
        .1
        .unwrap();
    assert!(session.targets.is_empty());
}

#[test]
fn rest_requests_are_told_apart() {
    let post = WebMethod::Post;
    let base = "projects/p/databases/d/documents";
    match rest_request(post, &format!("{base}:commit"), r#"{"writes":[]}"#).unwrap() {
        RestRequest::Commit(database, writes) => {
            assert_eq!(database, "projects/p/databases/d");
            assert!(writes.is_empty());
        }
        _ => panic!("not a commit"),
    }
    match rest_request(post, &format!("{base}:batchGet"), r#"{"documents":["a"]}"#).unwrap() {
        RestRequest::BatchGet(database, names) => {
            assert_eq!(database, "projects/p/databases/d");
            assert_eq!(names, vec!["a"]);
        }
        _ => panic!("not a batch"),
    }
    match rest_request(post, &format!("{base}:runQuery"), r#"{"structuredQuery":{}}"#).unwrap() {
        RestRequest::RunQuery(parent, _) => assert_eq!(parent, base),
        _ => panic!("not a query"),
    }
    assert_eq!(rest_request(post, base, "{").unwrap_err().message, "invalid JSON");
    assert_eq!(rest_request(post, base, "{}").unwrap_err().code, Code::Unimplemented);
    assert_eq!(
        rest_request(WebMethod::Get, base, "{}").unwrap_err().message,
        "REST method is not supported"
    );
}

#[test]
fn results_are_written() {
    let empty = query_json(&Vec::new(), &NOW);
    assert_eq!(empty, json(r#"[{"readTime":"2025-06-15T15:06:40.123Z"}]"#));
    assert_eq!(batch_get_json(&Vec::new()), json("[]"));
}

#[test]
fn json_numbers_compare_by_value() {
    assert!(json_equal(&json("0.0"), &json("-0.0")));
    assert!(!json_equal(&json("1"), &json("1.0")));
    assert!(json_equal(&json(r#"{"a":[1,{"b":null}]}"#), &json(r#"{"a":[1,{"b":null}]}"#)));
}
