use firebase_emu::broker::{
    Broker, MAX_DELIVERY_MESSAGE_BYTES, MAX_MESSAGE_BYTES,
};
use firebase_emu::console::message_json;
use firebase_emu::ordered::Duplicate;
use firebase_emu::pubsub::{
    encoded_len, paginate, valid_id, PubsubMessage, Subscription, SubscriptionOptions, Topic,
    TopicOptions,
};
use firebase_emu::status::Code;
use firebase_emu::streaming::{
    close_stream, open_stream, refill, serve_request, StreamingPullRequest,
};
use firebase_emu::timestamps::now_ms;
use firebase_emu::value::Timestamp;

fn topic(project: &str, id: &str) -> Topic {
    Topic {
        name: format!("projects/{project}/topics/{id}"),
        labels: Vec::new(),
        state: 0,
        options: TopicOptions::none(),
    }
}

fn subscription(project: &str, id: &str, topic_id: &str) -> Subscription {
    Subscription {
        name: format!("projects/{project}/subscriptions/{id}"),
        topic: format!("projects/{project}/topics/{topic_id}"),
        ack_deadline_seconds: 10,
        labels: Vec::new(),
        state: 0,
        options: SubscriptionOptions::none(),
    }
}

fn plain(data: Vec<u8>) -> PubsubMessage {
    PubsubMessage {
        data,
        attributes: Vec::new(),
        message_id: String::new(),
        publish_time: None,
        ordering_key: String::new(),
    }
}

fn message(value: &[u8]) -> PubsubMessage {
    let mut m = plain(value.to_vec());
    m.attributes = vec![("source".into(), "test".into())];
    m
}

#[test]
fn crud_pagination_and_projects_are_isolated() {
    let mut service = Broker::new();
    for id in ["topic-a", "topic-b", "topic-c"] {
        service.create_topic(topic("demo-one", id)).unwrap();
    }
    service.create_topic(topic("demo-two", "topic-a")).unwrap();
    service.create_subscription(subscription("demo-one", "sub-one", "topic-a")).unwrap();
    let (first, token) =
        paginate(service.list_topics("projects/demo-one").unwrap(), 2, "").unwrap();
    assert_eq!(first.len(), 2);
    assert!(!token.is_empty());
    let (second, token) =
        paginate(service.list_topics("projects/demo-one").unwrap(), 2, &token).unwrap();
    assert_eq!(second.len(), 1);
    assert_eq!(second[0].name, "projects/demo-one/topics/topic-c");
    assert!(token.is_empty());
    assert_eq!(service.list_topics("projects/demo-two").unwrap().len(), 1);
    assert_eq!(
        service.topic_subscription_names("projects/demo-one/topics/topic-a").unwrap(),
        vec!["projects/demo-one/subscriptions/sub-one"]
    );
    service.delete_topic("projects/demo-one/topics/topic-a").unwrap();
    assert_eq!(
        service
            .get_subscription("projects/demo-one/subscriptions/sub-one")
            .unwrap()
            .topic,
        "_deleted-topic_"
    );
    service.delete_subscription("projects/demo-one/subscriptions/sub-one").unwrap();
}

#[test]
fn fanout_ack_nack_and_expiry_preserve_message_identity() {
    let mut service = Broker::new();
    service.create_topic(topic("demo-fanout", "events")).unwrap();
    for id in ["sub-one", "sub-two"] {
        service.create_subscription(subscription("demo-fanout", id, "events")).unwrap();
    }
    let one = "projects/demo-fanout/subscriptions/sub-one";
    let two = "projects/demo-fanout/subscriptions/sub-two";
    let id = service
        .publish_values("projects/demo-fanout/topics/events", vec![message(b"bytes")])
        .unwrap()
        .remove(0);
    let first = service.pull_one(one).unwrap().unwrap();
    let independent = service.pull_one(two).unwrap().unwrap();
    assert_eq!(first.message.message_id, id);
    assert_eq!(independent.message.message_id, id);
    service.acknowledge_ids(one, &vec![first.ack_id]).unwrap();
    service.modify_ack_ids(two, &vec![independent.ack_id], 0).unwrap();
    let redelivery = service.pull_one(two).unwrap().unwrap();
    assert_eq!(redelivery.message.message_id, id);
    service.modify_ack_ids(two, &vec![redelivery.ack_id.clone()], 1).unwrap();
    let expired = service
        .pull_one_at(two, now_ms() + 2_000, "again".into())
        .unwrap()
        .unwrap();
    assert_eq!(expired.message.message_id, id);
    service.acknowledge_ids(two, &vec![expired.ack_id]).unwrap();
    assert_eq!(service.pending_count(&vec![one.into(), two.into()]), 0);

    let mut bounded = Broker::new();
    bounded.create_topic(topic("demo-bounded", "events")).unwrap();
    bounded.create_subscription(subscription("demo-bounded", "worker", "events")).unwrap();
    let worker = "projects/demo-bounded/subscriptions/worker";
    let large_id = bounded
        .publish_values("projects/demo-bounded/topics/events", vec![message(&vec![1; 1_000])])
        .unwrap()
        .remove(0);
    let small_id = bounded
        .publish_values("projects/demo-bounded/topics/events", vec![message(b"small")])
        .unwrap()
        .remove(0);
    let small = bounded.claim(worker, 1, 100, None).unwrap();
    assert_eq!(small[0].message.message_id, small_id);
    let large = bounded.claim(worker, 1, 2_000, None).unwrap();
    assert_eq!(large[0].message.message_id, large_id);
}

#[test]
fn invalid_and_unsupported_requests_fail_explicitly() {
    let mut service = Broker::new();
    assert_eq!(
        service.create_topic(topic("demo", "x")).unwrap_err().code,
        Code::InvalidArgument
    );
    service.create_topic(topic("demo-options", "events")).unwrap();
    let mut push = subscription("demo-options", "push-sub", "events");
    push.options.push = true;
    assert_eq!(service.create_subscription(push).unwrap_err().code, Code::Unimplemented);
    let mut exactly_once = subscription("demo-options", "exact-sub", "events");
    exactly_once.options.exactly_once_delivery = true;
    assert_eq!(
        service.create_subscription(exactly_once).unwrap_err().code,
        Code::Unimplemented
    );
    assert_eq!(
        service
            .publish_values("projects/demo-options/topics/events", vec![plain(Vec::new())])
            .unwrap_err()
            .code,
        Code::InvalidArgument
    );
}

#[test]
fn count_and_byte_capacity_reject_publish_atomically() {
    let mut service = Broker::new();
    service.create_topic(topic("demo-capacity", "events")).unwrap();
    for id in ["sub-one", "sub-two"] {
        service.create_subscription(subscription("demo-capacity", id, "events")).unwrap();
    }
    let messages = (0..5_001).map(|_| message(b"x")).collect();
    assert_eq!(
        service
            .publish_values("projects/demo-capacity/topics/events", messages)
            .unwrap_err()
            .code,
        Code::ResourceExhausted
    );
    assert_eq!(
        service.pending_count(&vec!["projects/demo-capacity/subscriptions/sub-one".into()]),
        0
    );

    let mut bytes = Broker::new();
    bytes.create_topic(topic("demo-bytes", "events")).unwrap();
    for id in ["sub-one", "sub-two"] {
        bytes.create_subscription(subscription("demo-bytes", id, "events")).unwrap();
    }
    let large = vec![7; 9 * 1024 * 1024];
    for _ in 0..3 {
        bytes
            .publish_values("projects/demo-bytes/topics/events", vec![message(&large)])
            .unwrap();
    }
    assert_eq!(
        bytes
            .publish_values("projects/demo-bytes/topics/events", vec![message(&large)])
            .unwrap_err()
            .code,
        Code::ResourceExhausted
    );
    assert_eq!(
        bytes.pending_count(&vec!["projects/demo-bytes/subscriptions/sub-one".into()]),
        3
    );
}

#[test]
fn exact_publish_limit_remains_deliverable_after_server_metadata() {
    let mut service = Broker::new();
    service.create_topic(topic("demo-boundary", "events")).unwrap();
    service.create_subscription(subscription("demo-boundary", "worker", "events")).unwrap();
    let worker = "projects/demo-boundary/subscriptions/worker";
    let boundary = plain(vec![0x62; MAX_MESSAGE_BYTES as usize - 5]);
    assert_eq!(encoded_len(&boundary), MAX_MESSAGE_BYTES as u64);
    let id = service
        .publish_values("projects/demo-boundary/topics/events", vec![boundary])
        .unwrap()
        .remove(0);
    let delivered = service.pull_one(worker).unwrap().unwrap();
    assert_eq!(delivered.message.message_id, id);
    assert!(encoded_len(&delivered.message) > MAX_MESSAGE_BYTES as u64);
    assert!(encoded_len(&delivered.message) <= MAX_DELIVERY_MESSAGE_BYTES as u64);
    service.acknowledge_ids(worker, &vec![delivered.ack_id]).unwrap();

    let oversized = plain(vec![0x6f; MAX_MESSAGE_BYTES as usize - 4]);
    assert_eq!(encoded_len(&oversized), MAX_MESSAGE_BYTES as u64 + 1);
    assert_eq!(
        service
            .publish_values("projects/demo-boundary/topics/events", vec![oversized])
            .unwrap_err()
            .code,
        Code::ResourceExhausted
    );
    assert_eq!(service.pending_count(&vec![worker.into()]), 0);
}

#[test]
fn ids_follow_the_naming_rules() {
    assert!(valid_id("abc"));
    assert!(valid_id("a-b_c.d~e+f%"));
    assert!(!valid_id("ab"));
    assert!(!valid_id("1abc"));
    assert!(!valid_id("google"));
    assert!(!valid_id("GOOGle"));
    assert!(!valid_id(&"a".repeat(256)));
}

#[test]
fn pages_reject_bad_sizes_and_tokens() {
    assert_eq!(
        paginate(vec![topic("demo-one", "topic-a")], -1, "").unwrap_err().code,
        Code::InvalidArgument
    );
    assert_eq!(
        paginate(vec![topic("demo-one", "topic-a")], 1, "***").unwrap_err().code,
        Code::InvalidArgument
    );
}

#[test]
fn messages_are_written_as_json() {
    let mut m = message(b"hi");
    m.message_id = "one".into();
    m.publish_time = Some(Timestamp { seconds: 1_704_067_200, nanos: 5_000_000 });
    let v = message_json(&m);
    assert_eq!(v.text("data"), "aGk=");
    assert_eq!(v.get("attributes").unwrap().text("source"), "test");
    assert_eq!(v.text("messageId"), "one");
    assert_eq!(v.text("publishTime"), "2024-01-01T00:00:00.005Z");
    m.publish_time = None;
    assert_eq!(message_json(&m).text("publishTime"), "1970-01-01T00:00:00.000Z");
}

fn pull_request(subscription: &str) -> StreamingPullRequest {
    StreamingPullRequest {
        subscription: subscription.to_string(),
        ack_ids: Vec::new(),
        modify_deadline_seconds: Vec::new(),
        modify_deadline_ack_ids: Vec::new(),
        stream_ack_deadline_seconds: 10,
        max_outstanding_messages: 1,
        max_outstanding_bytes: 0,
    }
}

#[test]
fn streams_hold_no_more_than_they_may() {
    let mut broker = Broker::new();
    broker.create_topic(topic("demo-stream", "events")).unwrap();
    broker.create_subscription(subscription("demo-stream", "worker", "events")).unwrap();
    let worker = "projects/demo-stream/subscriptions/worker";
    broker
        .publish_values("projects/demo-stream/topics/events", vec![message(b"a"), message(b"b")])
        .unwrap();
    let mut stream = open_stream(&broker, &pull_request(worker)).unwrap();
    let now = now_ms();
    let first = refill(&mut broker, &mut stream, now, &vec!["x".into()]).unwrap();
    assert_eq!(first.len(), 1);
    assert!(refill(&mut broker, &mut stream, now, &vec!["y".into()]).unwrap().is_empty());
    let mut ack = pull_request("");
    ack.stream_ack_deadline_seconds = 0;
    ack.max_outstanding_messages = 0;
    ack.ack_ids = vec![first[0].ack_id.clone()];
    assert!(serve_request(&mut broker, &mut stream, &ack, now).is_none());
    let second = refill(&mut broker, &mut stream, now, &vec!["z".into()]).unwrap();
    assert_eq!(second.len(), 1);
    assert_ne!(second[0].message.message_id, first[0].message.message_id);
    close_stream(&mut broker, stream, now);
    let again = broker.pull_one_at(worker, now, "again".into()).unwrap().unwrap();
    assert_eq!(again.message.message_id, second[0].message.message_id);
}

#[test]
fn topics_are_duplicated() {
    assert_eq!(topic("demo-one", "topic-a").duplicate(), topic("demo-one", "topic-a"));
}
