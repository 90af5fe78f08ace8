use firebase_emu::broker::{Broker, MAX_DELIVERY_MESSAGE_BYTES};
use firebase_emu::buckets::StorageData;
use firebase_emu::dotenv::parse_dotenv;
use firebase_emu::double::QUIET_NAN;
use firebase_emu::json::Json;
use firebase_emu::ordered::Duplicate;
use firebase_emu::pubsub::{
    paginate, PubsubMessage, Subscription, SubscriptionOptions, Topic, TopicOptions,
};
use firebase_emu::status::Code;
use firebase_emu::storage::{percent_encode, UploadMetadata};
use firebase_emu::timestamps::{now_ms, timestamp_from_unix};
use firebase_emu::value::{FieldValue, Timestamp};
use firebase_emu::web_form::decode_form_component;
use firebase_emu::web_values::{value_json, value_proto};

const TOPIC: &str = "projects/demo/topics/jobs";
const FIRST: &str = "projects/demo/subscriptions/first";
const SECOND: &str = "projects/demo/subscriptions/second";
const OTHER: &str = "projects/demo/subscriptions/other";

fn topic(name: &str) -> Topic {
    Topic { name: name.into(), labels: Vec::new(), state: 0, options: TopicOptions::none() }
}

fn subscription(name: &str, topic: &str) -> Subscription {
    Subscription {
        name: name.into(),
        topic: topic.into(),
        ack_deadline_seconds: 10,
        labels: Vec::new(),
        state: 0,
        options: SubscriptionOptions::none(),
    }
}

fn message(data: Vec<u8>) -> PubsubMessage {
    PubsubMessage {
        data,
        attributes: Vec::new(),
        message_id: String::new(),
        publish_time: None,
        ordering_key: String::new(),
    }
}

fn broker() -> Broker {
    filled(Broker::new())
}

fn filled(mut broker: Broker) -> Broker {
    let other = "projects/demo/topics/other";
    broker.create_topic(topic(TOPIC)).unwrap();
    broker.create_topic(topic(other)).unwrap();
    broker.create_subscription(subscription(FIRST, TOPIC)).unwrap();
    broker.create_subscription(subscription(SECOND, TOPIC)).unwrap();
    broker.create_subscription(subscription(OTHER, other)).unwrap();
    broker
}

fn pending(broker: &Broker, name: &str) -> u128 {
    broker.pending_count(&vec![name.to_owned()])
}

fn publish_at(broker: &mut Broker, id: &str, published_ms: i64) {
    let time = Timestamp { seconds: published_ms / 1000, nanos: 0 };
    let sent = vec![message(vec![1])];
    broker.publish_stamped(TOPIC, sent, &vec![id.to_owned()], &time, published_ms).unwrap();
}

fn claimed(broker: &mut Broker, count: usize, now: i64) -> Vec<String> {
    let acks: Vec<String> = (0..count).map(|i| format!("ack-{now}-{i}")).collect();
    let taken = broker.claim_at(FIRST, count, MAX_DELIVERY_MESSAGE_BYTES, None, now, &acks);
    taken.unwrap().into_iter().map(|m| m.message.message_id).collect()
}

#[test]
fn publishing_adds_to_each_subscription_of_the_topic() {
    let mut broker = broker();
    let ids = broker.publish_values(TOPIC, vec![message(vec![1]), message(vec![2])]).unwrap();
    assert_eq!(ids.len(), 2);
    assert_ne!(ids[0], ids[1]);
    assert_eq!(pending(&broker, FIRST), 2);
    assert_eq!(pending(&broker, SECOND), 2);
    assert_eq!(pending(&broker, OTHER), 0);
    broker.publish_values(TOPIC, vec![message(vec![3])]).unwrap();
    assert_eq!(pending(&broker, FIRST), 3);
    let lonely = "projects/demo/topics/lonely";
    broker.create_topic(topic(lonely)).unwrap();
    assert_eq!(broker.publish_values(lonely, vec![message(vec![4])]).unwrap().len(), 1);
    assert_eq!(broker.messages.len(), 3);
}

#[test]
fn claims_keep_their_terms() {
    let mut broker = broker();
    let sent = vec![message(vec![7; 100]), message(vec![8; 100]), message(vec![9; 100])];
    let ids = broker.publish_values(TOPIC, sent).unwrap();
    let size = broker.messages.value_at(0).size;

    let first = broker.claim(FIRST, 10, 2 * size + 1, None).unwrap();
    assert_eq!(first.len(), 2);
    assert_ne!(first[0].message.message_id, first[1].message.message_id);
    assert_ne!(first[0].ack_id, first[1].ack_id);
    let rest = broker.claim(FIRST, 10, MAX_DELIVERY_MESSAGE_BYTES, None).unwrap();
    assert_eq!(rest.len(), 1);
    assert!(first.iter().all(|m| m.message.message_id != rest[0].message.message_id));
    assert!(broker.claim(FIRST, 10, MAX_DELIVERY_MESSAGE_BYTES, None).unwrap().is_empty());

    let oversize = broker.claim(SECOND, 10, 1, None).unwrap();
    assert_eq!(oversize.len(), 1);
    assert!(ids.contains(&oversize[0].message.message_id));
    assert_eq!(broker.claim(SECOND, 1, MAX_DELIVERY_MESSAGE_BYTES, None).unwrap().len(), 1);
}

#[test]
fn settled_messages_stay_away_and_released_ones_come_again() {
    let mut broker = broker();
    broker.publish_values(TOPIC, vec![message(vec![1]), message(vec![2])]).unwrap();
    let taken = broker.claim(FIRST, 2, MAX_DELIVERY_MESSAGE_BYTES, None).unwrap();
    broker.acknowledge_ids(FIRST, &vec![taken[0].ack_id.clone()]).unwrap();
    broker.acknowledge_ids(FIRST, &vec!["unknown".to_owned()]).unwrap();
    assert_eq!(pending(&broker, FIRST), 1);
    assert_eq!(pending(&broker, SECOND), 2);

    broker.modify_ack_ids(FIRST, &vec![taken[1].ack_id.clone()], 0).unwrap();
    let again = broker.claim(FIRST, 10, MAX_DELIVERY_MESSAGE_BYTES, None).unwrap();
    assert_eq!(again.len(), 1);
    assert_eq!(again[0].message, taken[1].message);
    assert!(again[0].message.publish_time.is_some());
    assert_ne!(again[0].ack_id, taken[1].ack_id);
    let old = vec![taken[1].ack_id.clone()];
    assert!(broker.active_ack_ids_at(FIRST, &old, now_ms()).unwrap().is_empty());
    assert_eq!(broker.claim(SECOND, 10, MAX_DELIVERY_MESSAGE_BYTES, None).unwrap().len(), 2);
}

#[test]
fn the_token_is_empty_for_the_last_page() {
    let names = || vec!["b".to_owned(), "a".to_owned(), "c".to_owned()];
    let (first, token) = paginate(names(), 2, "").unwrap();
    assert_eq!(first, vec!["a", "b"]);
    assert_eq!(token, "Yg");
    let (second, token) = paginate(names(), 2, &token).unwrap();
    assert_eq!(second, vec!["c"]);
    assert_eq!(token, "");
    assert_eq!(paginate(names(), 3, "").unwrap().1, "");
}

#[test]
fn joined_files_of_variables_override() {
    let both = parse_dotenv("A=1\nB=2\nB=3\nexport C = x # y", ".env").unwrap();
    let first = parse_dotenv("A=1\nB=2", ".env").unwrap();
    let second = parse_dotenv("B=3\nexport C = x # y", ".env").unwrap();
    for key in ["A", "B", "C", "D"] {
        assert_eq!(both.get(key), second.get(key).or(first.get(key)));
    }
    assert_eq!(both.get("B").map(String::as_str), Some("3"));
    assert!(parse_dotenv("A=1\nbroken", ".env").is_err());
    assert!(parse_dotenv("1A=1", ".env").is_err());
}

#[test]
fn later_seconds_have_greater_texts() {
    let seconds = [
        -62_167_219_200,
        -62_167_219_199,
        -1,
        0,
        59,
        60,
        86_399,
        86_400,
        951_782_400,
        253_402_300_799,
    ];
    for pair in seconds.windows(2) {
        assert!(timestamp_from_unix(pair[0]) < timestamp_from_unix(pair[1]));
    }
    assert_eq!(timestamp_from_unix(-62_167_219_200), "0000-01-01T00:00:00.000Z");
    assert_eq!(timestamp_from_unix(253_402_300_799), "9999-12-31T23:59:59.000Z");
    assert!(timestamp_from_unix(i64::MIN).starts_with('-'));
}

#[test]
fn percent_encoding_is_undone() {
    for text in ["", "plain-_.~", "a b+c%25/=&", "é😀\u{0}"] {
        assert_eq!(decode_form_component(&percent_encode(text)).unwrap(), text);
    }
    assert_eq!(percent_encode("a b+é"), "a%20b%2B%C3%A9");
}

#[test]
fn not_a_number_is_the_same_whatever_its_bits() {
    for bits in [QUIET_NAN, QUIET_NAN + 1, 0xfff0_0000_0000_0001] {
        let value = FieldValue::Array(vec![FieldValue::Double(bits), FieldValue::Integer(1)]);
        let back = value_proto(&value_json(&value)).unwrap();
        let quiet = vec![FieldValue::Double(QUIET_NAN), FieldValue::Integer(1)];
        assert_eq!(back, FieldValue::Array(quiet));
    }
}

#[test]
fn brokers_on_disk_hand_out_the_oldest_first() {
    let mut memory = broker();
    let mut disk = filled(Broker::on_disk());
    for broker in [&mut memory, &mut disk] {
        publish_at(broker, "c", 1_000);
        publish_at(broker, "a", 3_000);
        publish_at(broker, "d", 2_000);
        publish_at(broker, "b", 2_000);
    }
    assert_eq!(claimed(&mut memory, 2, 4_000), vec!["a", "b"]);
    assert_eq!(claimed(&mut memory, 9, 4_001), vec!["c", "d"]);
    assert_eq!(claimed(&mut disk, 2, 4_000), vec!["c", "b"]);
    assert_eq!(claimed(&mut disk, 9, 4_001), vec!["d", "a"]);
}

#[test]
fn brokers_on_disk_look_at_so_many_messages_at_once() {
    for (count, large) in [(1, 16), (4, 16), (5, 20)] {
        let mut memory = broker();
        let mut disk = filled(Broker::on_disk());
        let mut small = 0;
        for broker in [&mut memory, &mut disk] {
            for i in 0..large {
                let time = Timestamp { seconds: 1, nanos: 0 };
                let sent = vec![message(vec![1; 500])];
                let ids = vec![format!("large-{i:02}")];
                broker.publish_stamped(TOPIC, sent, &ids, &time, 1_000 + i).unwrap();
            }
            publish_at(broker, "small", 2_000);
            small = broker.messages.get("small").unwrap().size;
        }
        let acks: Vec<String> = (0..count).map(|i| format!("ack-{i}")).collect();
        let mut first = |broker: &mut Broker, wanted: usize| {
            let taken = broker.claim_at(FIRST, wanted, small, None, 3_000, &acks).unwrap();
            assert_eq!(taken.len(), 1);
            taken[0].message.message_id.clone()
        };
        assert_eq!(first(&mut memory, count), "small");
        assert_eq!(first(&mut disk, count), "large-00");
        assert_eq!(first(&mut disk, count), "small");
    }
}

#[test]
fn a_refused_publish_undoes_its_cleaning_on_disk() {
    let mut memory = broker();
    let mut disk = filled(Broker::on_disk());
    let late = 10 * 86_400_000;
    for broker in [&mut memory, &mut disk] {
        publish_at(broker, "old", 0);
        let time = Timestamp { seconds: late / 1000, nanos: 0 };
        let missing = "projects/demo/topics/missing";
        let ids = vec!["new".to_owned()];
        let sent = vec![message(vec![1])];
        assert!(broker.publish_stamped(missing, sent, &ids, &time, late).is_err());
    }
    assert_eq!(memory.messages.len(), 0);
    assert_eq!(pending(&memory, FIRST), 0);
    assert_eq!(disk.messages.len(), 1);
    assert_eq!(pending(&disk, FIRST), 1);
    publish_at(&mut disk, "new", late);
    assert_eq!(disk.messages.len(), 1);
    assert!(disk.messages.get("new").is_some());
}

#[test]
fn names_that_come_twice_count_twice_on_disk() {
    let mut memory = broker();
    let mut disk = filled(Broker::on_disk());
    let names = vec![FIRST.to_owned(), FIRST.to_owned(), SECOND.to_owned()];
    for broker in [&mut memory, &mut disk] {
        publish_at(broker, "a", 1_000);
    }
    assert_eq!(memory.pending_count(&names), 2);
    assert_eq!(disk.pending_count(&names), 3);
}

#[test]
fn a_message_too_large_to_hand_out_leaves_the_disk_as_it_was() {
    let mut disk = filled(Broker::on_disk());
    publish_at(&mut disk, "a", 1_000);
    publish_at(&mut disk, "b", 2_000);
    let mut stored = disk.messages.get("b").unwrap().duplicate();
    stored.size = MAX_DELIVERY_MESSAGE_BYTES + 1;
    disk.messages.insert("b", stored);
    let acks = vec!["x".to_owned(), "y".to_owned()];
    let refused = disk
        .claim_at(FIRST, 2, i64::MAX, None, 3_000, &acks)
        .unwrap_err();
    assert_eq!(refused.code, Code::Internal);
    assert!(refused
        .message
        .starts_with("Pub/Sub persistence error: persistence database failed integrity_check: "));
    assert_eq!(claimed(&mut disk, 1, 3_000), vec!["a"]);
}

fn listed(data: &StorageData, limit: usize) -> (Vec<String>, Vec<String>, usize) {
    let (mut items, mut fronts, mut pages) = (Vec::new(), Vec::new(), 0);
    let mut token: Option<String> = None;
    loop {
        let page = data
            .list_objects("bucket", Some("logs/"), Some("/"), token.as_deref(), Some(limit))
            .unwrap();
        let (some, more) = (page.items("items").unwrap(), page.items("prefixes").unwrap());
        assert!(some.len() + more.len() <= limit.max(1));
        items.extend(some.iter().map(|item| item.text("name")));
        fronts.extend(more.iter().filter_map(Json::as_text).map(str::to_owned));
        pages += 1;
        match page.get("nextPageToken") {
            None => return (items, fronts, pages),
            Some(next) => token = next.as_text().map(str::to_owned),
        }
    }
}

#[test]
fn listings_hold_every_object_once() {
    let mut data = StorageData::new();
    let names = ["logs/b", "logs/a/1", "logs/a/2", "logs/c/x/y", "other/z", "logs/a", "logs/"];
    for name in names {
        let none = UploadMetadata::none();
        data.save_object("bucket".into(), name.into(), vec![1], none, None);
    }
    for limit in [0, 1, 2, 5, 1000] {
        let (items, fronts, pages) = listed(&data, limit);
        assert_eq!(items, vec!["logs/", "logs/a", "logs/b"]);
        assert_eq!(fronts, vec!["logs/a/", "logs/c/"]);
        assert_eq!(pages, 5_usize.div_ceil(limit.max(1)));
    }
}
