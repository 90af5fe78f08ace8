//! The Pub/Sub broker: topics, subscriptions and the deliveries of messages.
use crate::ordered::{
    all_are_kept, keep_entries, keys_sorted, lookup, lookup_after_put, lookup_found, put, without,
    Duplicate, OrderedMap,
};
use crate::pubsub::{
    encoded_len, message_len, normalize_subscription, normalize_subscription_spec, parse_project,
    parse_project_spec, parse_resource, parse_resource_spec, topic_supported, topic_supported_spec,
    views, MessageView, PubsubMessage, Subscription, SubscriptionOptions, SubscriptionView, Topic,
    TopicOptions, TopicView, DEFAULT_ACK_DEADLINE,
};
use crate::status::{invalid, result_view, status_view, unit_result, Code, Status, StatusView};
use crate::text::{cat, cat3, is_blank, same, starts_with, texts};
use crate::timestamps::{is_current, now_ms, timestamp_now};
use crate::value::Timestamp;
use crate::storage::uuid_of_text;
use vstd::prelude::*;

verus! {

/// The largest message that may be published.
pub const MAX_MESSAGE_BYTES: u64 = 10_485_760;

/// The largest request to publish.
pub const MAX_PUBLISH_BYTES: u64 = 10_485_760;

/// The largest message that is delivered: what may be published and what the
/// broker adds.
pub const MAX_DELIVERY_MESSAGE_BYTES: i64 = 10_486_784;

/// How many deliveries may be pending.
pub const MAX_PENDING_DELIVERIES: i64 = 10_000;

/// How many bytes may be pending.
pub const MAX_PENDING_BYTES: i64 = 67_108_864;

/// How long a message is kept, in milliseconds.
pub const RETENTION_MILLIS: i64 = 86_400_000;

/// The topic of a subscription whose topic is gone.
pub open spec fn deleted_topic() -> Seq<char> {
    "_deleted-topic_"@
}

/// A message with what the broker knows of it.
#[derive(PartialEq, Eq, Debug)]
pub struct StoredMessage {
    pub message: PubsubMessage,
    pub topic: String,
    pub size: i64,
    pub published: i64,
    pub expiry: i64,
}

/// What a [`StoredMessage`] stands for.
#[verifier::ext_equal]
pub struct StoredView {
    pub message: MessageView,
    pub topic: Seq<char>,
    pub size: i64,
    pub published: i64,
    pub expiry: i64,
}

impl View for StoredMessage {
    type V = StoredView;

    open spec fn view(&self) -> StoredView {
        StoredView {
            message: self.message@,
            topic: self.topic@,
            size: self.size,
            published: self.published,
            expiry: self.expiry,
        }
    }
}

/// The copy of a message that a subscription has yet to acknowledge.
#[derive(PartialEq, Eq, Debug)]
pub struct Delivery {
    pub subscription: String,
    pub message_id: String,
    pub in_flight: bool,
    pub ack_id: Option<String>,
    pub deadline_ms: Option<i64>,
    pub attempts: i32,
}

/// What a [`Delivery`] stands for.
#[verifier::ext_equal]
pub struct DeliveryView {
    pub subscription: Seq<char>,
    pub message_id: Seq<char>,
    pub in_flight: bool,
    pub ack_id: Option<Seq<char>>,
    pub deadline_ms: Option<i64>,
    pub attempts: i32,
}

impl View for Delivery {
    type V = DeliveryView;

    open spec fn view(&self) -> DeliveryView {
        DeliveryView {
            subscription: self.subscription@,
            message_id: self.message_id@,
            in_flight: self.in_flight,
            ack_id: crate::text::opt_text(self.ack_id),
            deadline_ms: self.deadline_ms,
            attempts: self.attempts,
        }
    }
}

/// The key of a delivery: the subscription, then the message.
pub open spec fn delivery_key(subscription: Seq<char>, message_id: Seq<char>) -> Seq<char> {
    subscription + seq!['\0'] + message_id
}

/// Makes the key of a delivery.
pub fn key_of(subscription: &str, message_id: &str) -> (r: String)
    ensures
        r@ == delivery_key(subscription@, message_id@),
{
    let mut key = subscription.to_owned();
    key.push('\0');
    key.append(message_id);
    assert(key@ =~= delivery_key(subscription@, message_id@));
    key
}

/// The state of the broker. One that keeps its messages on disk does so in
/// transactions: what it refuses leaves no trace.
pub struct Broker {
    pub durable: bool,
    pub topics: OrderedMap<Topic>,
    pub subscriptions: OrderedMap<Subscription>,
    pub messages: OrderedMap<StoredMessage>,
    pub deliveries: OrderedMap<Delivery>,
}

/// Deliveries by their keys.
pub type DeliveriesView = Seq<(Seq<char>, DeliveryView)>;

/// What a [`Broker`] stands for.
#[verifier::ext_equal]
pub struct BrokerView {
    pub durable: bool,
    pub topics: Seq<(Seq<char>, TopicView)>,
    pub subscriptions: Seq<(Seq<char>, SubscriptionView)>,
    pub messages: Seq<(Seq<char>, StoredView)>,
    pub deliveries: DeliveriesView,
}

impl View for Broker {
    type V = BrokerView;

    open spec fn view(&self) -> BrokerView {
        BrokerView {
            durable: self.durable,
            topics: self.topics@,
            subscriptions: self.subscriptions@,
            messages: self.messages@,
            deliveries: self.deliveries@,
        }
    }
}

pub open spec fn topic_missing() -> StatusView {
    status_view(Code::NotFound, "topic not found"@)
}

pub open spec fn subscription_missing() -> StatusView {
    status_view(Code::NotFound, "subscription not found"@)
}

/// The values whose keys begin with a prefix.
pub open spec fn values_with_prefix<T>(entries: Seq<(Seq<char>, T)>, prefix: Seq<char>) -> Seq<T>
    decreases entries.len(),
{
    if entries.len() == 0 {
        Seq::empty()
    } else if prefix.is_prefix_of(entries.last().0) {
        values_with_prefix(entries.drop_last(), prefix).push(entries.last().1)
    } else {
        values_with_prefix(entries.drop_last(), prefix)
    }
}

/// Collects the values whose keys begin with a prefix.
pub fn collect_prefix<V: Duplicate>(entries: &OrderedMap<V>, prefix: &str) -> (r: Vec<V>)
    ensures
        views(r@) == values_with_prefix(entries@, prefix@),
{
    let ghost all = entries@;
    let mut out: Vec<V> = Vec::new();
    let mut i: usize = 0;
    assert(all.take(0) =~= Seq::empty());
    assert(views(out@) =~= Seq::empty());
    while i < entries.len()
        invariant
            i <= all.len(),
            all == entries@,
            views(out@) == values_with_prefix(all.take(i as int), prefix@),
        decreases all.len() - i,
    {
        assert(all.take(i + 1).drop_last() =~= all.take(i as int));
        assert(all.take(i + 1).last() == all[i as int]);
        if starts_with(entries.key_at(i), prefix) {
            let ghost before = views(out@);
            let value = entries.value_at(i).duplicate();
            out.push(value);
            assert(views(out@) =~= before.push(value@));
        }
        i += 1;
    }
    assert(all.take(i as int) =~= all);
    out
}

/// The names of the subscriptions to a topic.
pub open spec fn subscribers(
    subscriptions: Seq<(Seq<char>, SubscriptionView)>,
    topic: Seq<char>,
) -> Seq<Seq<char>>
    decreases subscriptions.len(),
{
    if subscriptions.len() == 0 {
        Seq::empty()
    } else if subscriptions.last().1.topic == topic {
        subscribers(subscriptions.drop_last(), topic).push(subscriptions.last().1.name)
    } else {
        subscribers(subscriptions.drop_last(), topic)
    }
}

/// The subscriptions after their topic is gone.
pub open spec fn detached(
    subscriptions: Seq<(Seq<char>, SubscriptionView)>,
    topic: Seq<char>,
) -> Seq<(Seq<char>, SubscriptionView)> {
    subscriptions.map_values(
        |e: (Seq<char>, SubscriptionView)|
            if e.1.topic == topic {
                (e.0, SubscriptionView { topic: deleted_topic(), ..e.1 })
            } else {
                e
            },
    )
}

/// The messages that some delivery still needs.
pub open spec fn live_messages(
    messages: Seq<(Seq<char>, StoredView)>,
    deliveries: DeliveriesView,
) -> Seq<(Seq<char>, StoredView)> {
    keep_entries(messages, |e: (Seq<char>, StoredView)| is_needed(deliveries, e.0))
}

/// Whether some delivery is of a message.
pub open spec fn is_needed(deliveries: DeliveriesView, id: Seq<char>) -> bool {
    exists|i: int| 0 <= i < deliveries.len() && (#[trigger] deliveries[i]).1.message_id == id
}

/// The state after removing the messages that have expired, and their
/// deliveries.
pub open spec fn cleaned(state: BrokerView, now: i64) -> BrokerView {
    BrokerView {
        messages: keep_entries(state.messages, |e: (Seq<char>, StoredView)| e.1.expiry > now),
        deliveries: keep_entries(
            state.deliveries,
            |e: (Seq<char>, DeliveryView)| !is_expired(state.messages, e.1.message_id, now),
        ),
        ..state
    }
}

/// Whether a message has expired.
pub open spec fn is_expired(
    messages: Seq<(Seq<char>, StoredView)>,
    id: Seq<char>,
    now: i64,
) -> bool {
    lookup(messages, id) matches Some(m) && m.expiry <= now
}

/// The bytes of the deliveries.
pub open spec fn pending_bytes(
    messages: Seq<(Seq<char>, StoredView)>,
    deliveries: DeliveriesView,
) -> int
    decreases deliveries.len(),
{
    if deliveries.len() == 0 {
        0
    } else {
        pending_bytes(messages, deliveries.drop_last()) + size_of(
            messages,
            deliveries.last().1.message_id,
        )
    }
}

/// The size of a message, zero where it is missing.
pub open spec fn size_of(messages: Seq<(Seq<char>, StoredView)>, id: Seq<char>) -> int {
    match lookup(messages, id) {
        Some(m) => m.size as int,
        None => 0,
    }
}

/// A broker without topics.
pub open spec fn empty_broker(durable: bool) -> BrokerView {
    BrokerView {
        durable,
        topics: Seq::empty(),
        subscriptions: Seq::empty(),
        messages: Seq::empty(),
        deliveries: Seq::empty(),
    }
}

impl Broker {
    /// A broker in memory, without topics.
    pub fn new() -> (r: Broker)
        ensures
            r@ == empty_broker(false),
    {
        Broker::empty(false)
    }

    /// A broker that keeps its messages on disk, without topics.
    pub fn on_disk() -> (r: Broker)
        ensures
            r@ == empty_broker(true),
    {
        Broker::empty(true)
    }

    fn empty(durable: bool) -> (r: Broker)
        ensures
            r@ == empty_broker(durable),
    {
        Broker {
            durable,
            topics: OrderedMap::new(),
            subscriptions: OrderedMap::new(),
            messages: OrderedMap::new(),
            deliveries: OrderedMap::new(),
        }
    }

    /// Creates a topic.
    pub fn create_topic(&mut self, topic: Topic) -> (r: Result<Topic, Status>)
        ensures
            match parse_resource_spec(topic@.name, "topics"@) {
                Err(e) => r is Err && r->Err_0@ == e && final(self)@ == old(self)@,
                Ok(_) => if topic_supported_spec(topic@) is Err {
                    r is Err && r->Err_0@ == topic_supported_spec(topic@)->Err_0 && final(self)@
                        == old(self)@
                } else if lookup(old(self)@.topics, topic@.name) is Some {
                    r is Err && r->Err_0@ == status_view(
                        Code::AlreadyExists,
                        "topic already exists"@,
                    ) && final(self)@ == old(self)@
                } else {
                    r is Ok && r->Ok_0@ == topic@ && final(self)@ == (BrokerView {
                        topics: put(old(self)@.topics, topic@.name, topic@),
                        ..old(self)@
                    })
                },
            },
    {
        match parse_resource(topic.name.as_str(), "topics") {
            Ok(_) => {},
            Err(e) => {
                return Err(e);
            },
        }
        match topic_supported(&topic) {
            Ok(()) => {},
            Err(e) => {
                return Err(e);
            },
        }
        if self.topics.contains(topic.name.as_str()) {
            return Err(Status::new(Code::AlreadyExists, "topic already exists"));
        }
        self.topics.insert(topic.name.as_str(), topic.duplicate());
        Ok(topic)
    }

    /// Reads a topic.
    pub fn get_topic(&self, name: &str) -> (r: Result<Topic, Status>)
        ensures
            result_view(r) == match parse_resource_spec(name@, "topics"@) {
                Err(e) => Err(e),
                Ok(_) => match lookup(self@.topics, name@) {
                    Some(topic) => Ok(topic),
                    None => Err(topic_missing()),
                },
            },
    {
        match parse_resource(name, "topics") {
            Ok(_) => {},
            Err(e) => {
                return Err(e);
            },
        }
        match self.topics.get(name) {
            Some(topic) => Ok(topic.duplicate()),
            None => Err(Status::new(Code::NotFound, "topic not found")),
        }
    }

    /// The topics of a project, in the order of their names.
    pub fn list_topics(&self, project: &str) -> (r: Result<Vec<Topic>, Status>)
        ensures
            match parse_project_spec(project@) {
                Err(e) => r is Err && r->Err_0@ == e,
                Ok(_) => r is Ok && views(r->Ok_0@) == values_with_prefix(
                    self@.topics,
                    project@ + "/topics/"@,
                ),
            },
    {
        match parse_project(project) {
            Ok(_) => {},
            Err(e) => {
                return Err(e);
            },
        }
        Ok(collect_prefix(&self.topics, cat(project, "/topics/").as_str()))
    }

    /// Deletes a topic; its subscriptions stay, without a topic.
    pub fn delete_topic(&mut self, name: &str) -> (r: Result<(), Status>)
        ensures
            match parse_resource_spec(name@, "topics"@) {
                Err(e) => r is Err && r->Err_0@ == e && final(self)@ == old(self)@,
                Ok(_) => if lookup(old(self)@.topics, name@) is None {
                    r is Err && r->Err_0@ == topic_missing() && final(self)@ == old(self)@
                } else {
                    r is Ok && final(self)@ == (BrokerView {
                        topics: without(old(self)@.topics, name@),
                        subscriptions: detached(old(self)@.subscriptions, name@),
                        ..old(self)@
                    })
                },
            },
    {
        match parse_resource(name, "topics") {
            Ok(_) => {},
            Err(e) => {
                return Err(e);
            },
        }
        if !self.topics.contains(name) {
            return Err(Status::new(Code::NotFound, "topic not found"));
        }
        let _removed = self.topics.remove(name);
        let ghost before = self.subscriptions@;
        let ghost after = detached(before, name@);
        let mut i: usize = 0;
        while i < self.subscriptions.len()
            invariant
                i <= self.subscriptions@.len(),
                self.subscriptions@.len() == before.len(),
                after == detached(before, name@),
                forall|k: int| 0 <= k < i ==> #[trigger] self.subscriptions@[k] == after[k],
                forall|k: int|
                    i <= k < before.len() ==> #[trigger] self.subscriptions@[k] == before[k],
                self.durable == old(self).durable,
                self.topics@ == without(old(self)@.topics, name@),
                self.messages@ == old(self)@.messages,
                self.deliveries@ == old(self)@.deliveries,
            decreases before.len() - i,
        {
            let subscription = self.subscriptions.value_at(i);
            if same(subscription.topic.as_str(), name) {
                let mut moved = subscription.duplicate();
                moved.topic = "_deleted-topic_".to_owned();
                self.subscriptions.set_value_at(i, moved);
            }
            i += 1;
        }
        assert(self.subscriptions@ =~= after);
        Ok(())
    }

    /// Creates a subscription.
    pub fn create_subscription(&mut self, subscription: Subscription) -> (r: Result<
        Subscription,
        Status,
    >)
        ensures
            match create_subscription_spec(old(self)@, subscription@) {
                Err(e) => r is Err && r->Err_0@ == e && final(self)@ == old(self)@,
                Ok(created) => r is Ok && r->Ok_0@ == created && final(self)@ == (BrokerView {
                    subscriptions: put(old(self)@.subscriptions, created.name, created),
                    ..old(self)@
                }),
            },
    {
        let subscription = match normalize_subscription(subscription) {
            Ok(s) => s,
            Err(e) => {
                return Err(e);
            },
        };
        let owner = match parse_resource(subscription.name.as_str(), "subscriptions") {
            Ok(pair) => pair.0,
            Err(e) => {
                return Err(e);
            },
        };
        let topic_owner = match parse_resource(subscription.topic.as_str(), "topics") {
            Ok(pair) => pair.0,
            Err(e) => {
                return Err(e);
            },
        };
        if !same(owner.as_str(), topic_owner.as_str()) {
            return Err(
                Status::invalid_argument(
                    "cross-project subscriptions are outside local emulator scope",
                ),
            );
        }
        if !self.topics.contains(subscription.topic.as_str()) {
            return Err(Status::new(Code::NotFound, "topic not found"));
        }
        if self.subscriptions.contains(subscription.name.as_str()) {
            return Err(Status::new(Code::AlreadyExists, "subscription already exists"));
        }
        self.subscriptions.insert(subscription.name.as_str(), subscription.duplicate());
        Ok(subscription)
    }

    /// Reads a subscription.
    pub fn get_subscription(&self, name: &str) -> (r: Result<Subscription, Status>)
        ensures
            result_view(r) == get_subscription_spec(self@, name@),
    {
        match parse_resource(name, "subscriptions") {
            Ok(_) => {},
            Err(e) => {
                return Err(e);
            },
        }
        match self.subscriptions.get(name) {
            Some(subscription) => Ok(subscription.duplicate()),
            None => Err(Status::new(Code::NotFound, "subscription not found")),
        }
    }

    /// The subscriptions of a project, in the order of their names.
    pub fn list_subscriptions(&self, project: &str) -> (r: Result<Vec<Subscription>, Status>)
        ensures
            match parse_project_spec(project@) {
                Err(e) => r is Err && r->Err_0@ == e,
                Ok(_) => r is Ok && views(r->Ok_0@) == values_with_prefix(
                    self@.subscriptions,
                    project@ + "/subscriptions/"@,
                ),
            },
    {
        match parse_project(project) {
            Ok(_) => {},
            Err(e) => {
                return Err(e);
            },
        }
        Ok(collect_prefix(&self.subscriptions, cat(project, "/subscriptions/").as_str()))
    }

    fn subscriber_names(&self, topic: &str) -> (r: Vec<String>)
        ensures
            texts(r@) == subscribers(self@.subscriptions, topic@),
    {
        let ghost all = self.subscriptions@;
        let mut out: Vec<String> = Vec::new();
        let mut i: usize = 0;
        assert(all.take(0) =~= Seq::empty());
        assert(texts(out@) =~= Seq::empty());
        while i < self.subscriptions.len()
            invariant
                i <= all.len(),
                all == self.subscriptions@,
                texts(out@) == subscribers(all.take(i as int), topic@),
            decreases all.len() - i,
        {
            assert(all.take(i + 1).drop_last() =~= all.take(i as int));
            assert(all.take(i + 1).last() == all[i as int]);
            let subscription = self.subscriptions.value_at(i);
            if same(subscription.topic.as_str(), topic) {
                let ghost before = texts(out@);
                let name = subscription.name.clone();
                out.push(name);
                assert(texts(out@) =~= before.push(name@));
            }
            i += 1;
        }
        assert(all.take(i as int) =~= all);
        out
    }

    /// The names of the subscriptions to a topic.
    pub fn topic_subscription_names(&self, topic: &str) -> (r: Result<Vec<String>, Status>)
        ensures
            match parse_resource_spec(topic@, "topics"@) {
                Err(e) => r is Err && r->Err_0@ == e,
                Ok(_) => if lookup(self@.topics, topic@) is None {
                    r is Err && r->Err_0@ == topic_missing()
                } else {
                    r is Ok && texts(r->Ok_0@) == subscribers(self@.subscriptions, topic@)
                },
            },
    {
        match self.get_topic(topic) {
            Ok(_) => Ok(self.subscriber_names(topic)),
            Err(e) => Err(e),
        }
    }
}

/// The subscription that a request creates, or why it is refused.
pub open spec fn create_subscription_spec(state: BrokerView, subscription: SubscriptionView) -> Result<
    SubscriptionView,
    StatusView,
> {
    match normalize_subscription_spec(subscription) {
        Err(e) => Err(e),
        Ok(normal) => match parse_resource_spec(normal.name, "subscriptions"@) {
            Err(e) => Err(e),
            Ok(own) => match parse_resource_spec(normal.topic, "topics"@) {
                Err(e) => Err(e),
                Ok(topic) => if own.0 != topic.0 {
                    Err(
                        invalid("cross-project subscriptions are outside local emulator scope"@),
                    )
                } else if lookup(state.topics, normal.topic) is None {
                    Err(topic_missing())
                } else if lookup(state.subscriptions, normal.name) is Some {
                    Err(status_view(Code::AlreadyExists, "subscription already exists"@))
                } else {
                    Ok(normal)
                },
            },
        },
    }
}

pub open spec fn get_subscription_spec(state: BrokerView, name: Seq<char>) -> Result<
    SubscriptionView,
    StatusView,
> {
    match parse_resource_spec(name, "subscriptions"@) {
        Err(e) => Err(e),
        Ok(_) => match lookup(state.subscriptions, name) {
            Some(subscription) => Ok(subscription),
            None => Err(subscription_missing()),
        },
    }
}

/// The first thing wrong with a message to publish.
pub open spec fn publishable(message: MessageView) -> Result<(), StatusView> {
    if message.data.len() == 0 && message.attributes.len() == 0 {
        Err(invalid("each message needs data or attributes"@))
    } else if message.message_id.len() > 0 || message.publish_time is Some {
        Err(invalid("message_id and publish_time are server assigned"@))
    } else if message.ordering_key.len() > 0 {
        Err(status_view(Code::Unimplemented, "ordering keys are unsupported"@))
    } else if message_len(message) > MAX_MESSAGE_BYTES {
        Err(status_view(Code::ResourceExhausted, "message exceeds 10 MiB"@))
    } else {
        Ok(())
    }
}

/// The bytes of the messages of a request, or the first thing wrong with one.
pub open spec fn request_bytes(messages: Seq<MessageView>) -> Result<nat, StatusView>
    decreases messages.len(),
{
    if messages.len() == 0 {
        Ok(0)
    } else {
        match request_bytes(messages.drop_last()) {
            Err(e) => Err(e),
            Ok(total) => match publishable(messages.last()) {
                Err(e) => Err(e),
                Ok(_) => Ok(total + message_len(messages.last())),
            },
        }
    }
}

/// Whether a request to publish is acceptable before anything is stored.
pub open spec fn check_publish_spec(topic: Seq<char>, messages: Seq<MessageView>) -> Result<
    (),
    StatusView,
> {
    match parse_resource_spec(topic, "topics"@) {
        Err(e) => Err(e),
        Ok(_) => if messages.len() == 0 {
            Err(invalid("messages must not be empty"@))
        } else {
            match request_bytes(messages) {
                Err(e) => Err(e),
                Ok(total) => if total > MAX_PUBLISH_BYTES {
                    Err(status_view(Code::ResourceExhausted, "publish request exceeds 10 MiB"@))
                } else {
                    Ok(())
                },
            }
        },
    }
}

proof fn request_bytes_stuck(messages: Seq<MessageView>, i: int)
    requires
        0 <= i <= messages.len(),
        request_bytes(messages.take(i)) is Err,
    ensures
        request_bytes(messages) == request_bytes(messages.take(i)),
    decreases messages.len() - i,
{
    if i < messages.len() {
        assert(messages.take(i + 1).drop_last() =~= messages.take(i));
        request_bytes_stuck(messages, i + 1);
    } else {
        assert(messages.take(i) =~= messages);
    }
}

/// Refuses a request to publish that is malformed or too large.
pub fn check_publish(topic: &str, messages: &Vec<PubsubMessage>) -> (r: Result<(), Status>)
    ensures
        unit_result(r) == check_publish_spec(topic@, views(messages@)),
{
    match parse_resource(topic, "topics") {
        Ok(_) => {},
        Err(e) => {
            return Err(e);
        },
    }
    let ghost all = views(messages@);
    if messages.len() == 0 {
        return Err(Status::invalid_argument("messages must not be empty"));
    }
    let mut total: u128 = 0;
    let mut i: usize = 0;
    assert(all.take(0) =~= Seq::empty());
    while i < messages.len()
        invariant
            i <= messages.len(),
            all == views(messages@),
            all.len() > 0,
            parse_resource_spec(topic@, "topics"@) is Ok,
            request_bytes(all.take(i as int)) == Ok::<nat, StatusView>(total as nat),
            total <= i * MAX_MESSAGE_BYTES,
        decreases messages.len() - i,
    {
        proof {
            assert(all.take(i + 1).drop_last() =~= all.take(i as int));
            assert(all.take(i + 1).last() == messages@[i as int]@);
            if publishable(messages@[i as int]@) is Err {
                request_bytes_stuck(all, i + 1);
            }
        }
        let message = &messages[i];
        if message.data.len() == 0 && message.attributes.len() == 0 {
            return Err(Status::invalid_argument("each message needs data or attributes"));
        }
        if !is_blank(message.message_id.as_str()) || message.publish_time.is_some() {
            return Err(
                Status::invalid_argument("message_id and publish_time are server assigned"),
            );
        }
        if !is_blank(message.ordering_key.as_str()) {
            return Err(Status::new(Code::Unimplemented, "ordering keys are unsupported"));
        }
        let size = encoded_len(message);
        if size > MAX_MESSAGE_BYTES {
            return Err(Status::new(Code::ResourceExhausted, "message exceeds 10 MiB"));
        }
        assert((i + 1) * MAX_MESSAGE_BYTES == i * MAX_MESSAGE_BYTES + MAX_MESSAGE_BYTES)
            by (nonlinear_arith);
        assert(i * MAX_MESSAGE_BYTES <= usize::MAX * MAX_MESSAGE_BYTES) by (nonlinear_arith)
            requires
                i <= usize::MAX,
        ;
        total = total + size as u128;
        i += 1;
    }
    assert(all.take(i as int) =~= all);
    if total > MAX_PUBLISH_BYTES as u128 {
        return Err(Status::new(Code::ResourceExhausted, "publish request exceeds 10 MiB"));
    }
    Ok(())
}

/// A message with its id and its time.
pub open spec fn stamped(
    message: MessageView,
    id: Seq<char>,
    time: Timestamp,
) -> MessageView {
    MessageView { message_id: id, publish_time: Some(time), ..message }
}

/// The messages with their ids and their time.
pub open spec fn all_stamped(
    messages: Seq<MessageView>,
    ids: Seq<Seq<char>>,
    time: Timestamp,
) -> Seq<MessageView> {
    Seq::new(messages.len(), |i: int| stamped(messages[i], ids[i], time))
}

/// Whether all messages are small enough to be delivered.
pub open spec fn all_deliverable(messages: Seq<MessageView>) -> bool {
    forall|i: int|
        0 <= i < messages.len() ==> message_len(#[trigger] messages[i])
            <= MAX_DELIVERY_MESSAGE_BYTES
}

/// The bytes of messages.
pub open spec fn total_bytes(messages: Seq<MessageView>) -> nat
    decreases messages.len(),
{
    if messages.len() == 0 {
        0
    } else {
        total_bytes(messages.drop_last()) + message_len(messages.last())
    }
}

/// A copy of a message that waits for its subscription.
pub open spec fn fresh_delivery(subscription: Seq<char>, id: Seq<char>) -> DeliveryView {
    DeliveryView {
        subscription,
        message_id: id,
        in_flight: false,
        ack_id: None,
        deadline_ms: None,
        attempts: 0,
    }
}

/// The deliveries with a copy of a message for each of the subscriptions.
pub open spec fn fan_out(
    deliveries: DeliveriesView,
    names: Seq<Seq<char>>,
    id: Seq<char>,
) -> DeliveriesView
    decreases names.len(),
{
    if names.len() == 0 {
        deliveries
    } else {
        put(
            fan_out(deliveries, names.drop_last(), id),
            delivery_key(names.last(), id),
            fresh_delivery(names.last(), id),
        )
    }
}

/// A message with what the broker knows of it.
pub open spec fn stored_message(message: MessageView, topic: Seq<char>, published: i64)
    -> StoredView {
    StoredView {
        message,
        topic,
        size: message_len(message) as i64,
        published,
        expiry: expiry_spec(published),
    }
}

/// The state with the messages stored and fanned out to the subscriptions.
pub open spec fn stored(
    state: BrokerView,
    topic: Seq<char>,
    messages: Seq<MessageView>,
    names: Seq<Seq<char>>,
    published: i64,
) -> BrokerView
    decreases messages.len(),
{
    if messages.len() == 0 {
        state
    } else {
        let before = stored(state, topic, messages.drop_last(), names, published);
        let message = messages.last();
        BrokerView {
            messages: put(
                before.messages,
                message.message_id,
                stored_message(message, topic, published),
            ),
            deliveries: fan_out(before.deliveries, names, message.message_id),
            ..before
        }
    }
}

/// When a message that was published now expires.
pub open spec fn expiry_spec(published_ms: i64) -> i64 {
    if published_ms + RETENTION_MILLIS > i64::MAX {
        i64::MAX
    } else {
        (published_ms + RETENTION_MILLIS) as i64
    }
}

/// Whether the broker has room for more deliveries.
pub open spec fn has_room(state: BrokerView, added_count: int, added_bytes: int) -> bool {
    state.deliveries.len() + added_count <= MAX_PENDING_DELIVERIES && pending_bytes(
        state.messages,
        state.deliveries,
    ) + added_bytes <= MAX_PENDING_BYTES
}

/// The state that a refusal leaves: on disk the one before, in memory the one
/// in which it was refused.
pub open spec fn after_refusal(before: BrokerView, current: BrokerView) -> BrokerView {
    if before.durable {
        before
    } else {
        current
    }
}

/// The state after publishing stamped messages to a topic, and why it was
/// refused where it was. Expired messages go first.
pub open spec fn publish_spec(
    state: BrokerView,
    topic: Seq<char>,
    messages: Seq<MessageView>,
    published_ms: i64,
) -> (BrokerView, Result<(), StatusView>) {
    let current = cleaned(state, published_ms);
    if lookup(current.topics, topic) is None {
        (after_refusal(state, current), Err(topic_missing()))
    } else {
        let names = subscribers(current.subscriptions, topic);
        if names.len() == 0 {
            (current, Ok(()))
        } else if !has_room(
            current,
            (names.len() * messages.len()) as int,
            (total_bytes(messages) * names.len()) as int,
        ) {
            (
                after_refusal(state, current),
                Err(
                    status_view(Code::ResourceExhausted, "Pub/Sub backlog capacity exceeded"@),
                ),
            )
        } else {
            (stored(current, topic, messages, names, published_ms), Ok(()))
        }
    }
}

impl Duplicate for StoredMessage {
    fn duplicate(&self) -> (r: Self) {
        StoredMessage {
            message: self.message.duplicate(),
            topic: self.topic.clone(),
            size: self.size,
            published: self.published,
            expiry: self.expiry,
        }
    }
}

impl Duplicate for Delivery {
    fn duplicate(&self) -> (r: Self) {
        let r = Delivery {
            subscription: self.subscription.clone(),
            message_id: self.message_id.clone(),
            in_flight: self.in_flight,
            ack_id: match &self.ack_id {
                Some(id) => Some(id.clone()),
                None => None,
            },
            deadline_ms: self.deadline_ms,
            attempts: self.attempts,
        };
        assert(r@ =~= self@);
        r
    }
}

/// The messages and the deliveries of a broker as they were.
pub struct Saved {
    pub messages: OrderedMap<StoredMessage>,
    pub deliveries: OrderedMap<Delivery>,
}

impl Saved {
    /// Whether these are the messages and the deliveries of a broker.
    pub open spec fn is_of(&self, state: BrokerView) -> bool {
        self.messages@ == state.messages && self.deliveries@ == state.deliveries
    }
}

proof fn nothing_expired(state: BrokerView, now: i64)
    requires
        forall|i: int|
            0 <= i < state.messages.len() ==> (#[trigger] state.messages[i]).1.expiry > now,
    ensures
        cleaned(state, now) == state,
{
    all_are_kept(state.messages, |e: (Seq<char>, StoredView)| e.1.expiry > now);
    let keep = |e: (Seq<char>, DeliveryView)| !is_expired(state.messages, e.1.message_id, now);
    assert forall|i: int| 0 <= i < state.deliveries.len() implies keep(
        #[trigger] state.deliveries[i],
    ) by {
        lookup_found(state.messages, state.deliveries[i].1.message_id);
    }
    all_are_kept(state.deliveries, keep);
    assert(cleaned(state, now) =~= state);
}

impl Broker {
    /// Keeps the messages and the deliveries as they are.
    pub(crate) fn save(&self) -> (r: Saved)
        ensures
            r.is_of(self@),
    {
        Saved { messages: self.messages.duplicate(), deliveries: self.deliveries.duplicate() }
    }

    /// Takes messages and deliveries back as they were.
    pub(crate) fn restore(&mut self, saved: Saved)
        ensures
            final(self)@.durable == old(self)@.durable,
            final(self)@.topics == old(self)@.topics,
            final(self)@.subscriptions == old(self)@.subscriptions,
            saved.is_of(final(self)@),
    {
        self.messages = saved.messages;
        self.deliveries = saved.deliveries;
    }

    fn has_expired(&self, now: i64) -> (r: bool)
        ensures
            !r ==> forall|i: int|
                0 <= i < self@.messages.len() ==> (#[trigger] self@.messages[i]).1.expiry > now,
    {
        let mut i: usize = 0;
        while i < self.messages.len()
            invariant
                i <= self.messages@.len(),
                forall|j: int| 0 <= j < i ==> (#[trigger] self.messages@[j]).1.expiry > now,
            decreases self.messages@.len() - i,
        {
            if self.messages.value_at(i).expiry <= now {
                return true;
            }
            i += 1;
        }
        false
    }

    /// Removes the messages that have expired, and their deliveries.
    pub fn cleanup(&mut self, now: i64)
        ensures
            final(self)@ == cleaned(old(self)@, now),
    {
        let ghost state = self@;
        let ghost live = |e: (Seq<char>, DeliveryView)|
            !is_expired(state.messages, e.1.message_id, now);
        let mut flags: Vec<bool> = Vec::new();
        let mut i: usize = 0;
        while i < self.deliveries.len()
            invariant
                i <= self.deliveries@.len(),
                self@ == state,
                flags@.len() == i,
                live == (|e: (Seq<char>, DeliveryView)|
                    !is_expired(state.messages, e.1.message_id, now)),
                forall|j: int| 0 <= j < i ==> flags@[j] == live(#[trigger] self.deliveries@[j]),
            decreases self.deliveries@.len() - i,
        {
            let expired = match self.messages.get(
                self.deliveries.value_at(i).message_id.as_str(),
            ) {
                Some(stored) => stored.expiry <= now,
                None => false,
            };
            flags.push(!expired);
            i += 1;
        }
        self.deliveries.retain_flagged(&flags, Ghost(live));
        let ghost fresh = |e: (Seq<char>, StoredView)| e.1.expiry > now;
        let mut fresh_flags: Vec<bool> = Vec::new();
        let mut j: usize = 0;
        while j < self.messages.len()
            invariant
                j <= self.messages@.len(),
                self.messages@ == state.messages,
                fresh_flags@.len() == j,
                fresh == (|e: (Seq<char>, StoredView)| e.1.expiry > now),
                forall|k: int| 0 <= k < j ==> fresh_flags@[k] == fresh(#[trigger] self.messages@[k]),
            decreases self.messages@.len() - j,
        {
            fresh_flags.push(self.messages.value_at(j).expiry > now);
            j += 1;
        }
        self.messages.retain_flagged(&fresh_flags, Ghost(fresh));
    }

    /// Removes the messages that no delivery needs.
    pub fn collect_garbage(&mut self)
        ensures
            final(self)@ == (BrokerView {
                messages: live_messages(old(self)@.messages, old(self)@.deliveries),
                ..old(self)@
            }),
    {
        let ghost state = self@;
        let ghost needed = |e: (Seq<char>, StoredView)| is_needed(state.deliveries, e.0);
        let mut live: OrderedMap<()> = OrderedMap::new();
        let mut i: usize = 0;
        while i < self.deliveries.len()
            invariant
                i <= self.deliveries@.len(),
                self@ == state,
                keys_sorted(live@),
                forall|id: Seq<char>|
                    (#[trigger] lookup(live@, id) is Some) == is_needed(
                        state.deliveries.take(i as int),
                        id,
                    ),
            decreases self.deliveries@.len() - i,
        {
            let id = self.deliveries.value_at(i).message_id.as_str();
            let ghost before = live@;
            live.insert(id, ());
            proof {
                let old_part = state.deliveries.take(i as int);
                let new_part = state.deliveries.take(i + 1);
                assert forall|other: Seq<char>|
                    (#[trigger] lookup(live@, other) is Some) == is_needed(new_part, other) by {
                    lookup_after_put(before, id@, (), other);
                    if is_needed(old_part, other) {
                        let k = choose|k: int|
                            0 <= k < old_part.len() && (#[trigger] old_part[k]).1.message_id
                                == other;
                        assert(new_part[k].1.message_id == other);
                    }
                    if other == id@ {
                        assert(new_part[i as int].1.message_id == other);
                    }
                    if is_needed(new_part, other) && other != id@ {
                        let k = choose|k: int|
                            0 <= k < new_part.len() && (#[trigger] new_part[k]).1.message_id
                                == other;
                        assert(old_part[k].1.message_id == other);
                    }
                }
            }
            i += 1;
        }
        assert(state.deliveries.take(i as int) =~= state.deliveries);
        let mut flags: Vec<bool> = Vec::new();
        let mut j: usize = 0;
        while j < self.messages.len()
            invariant
                j <= self.messages@.len(),
                self@ == state,
                flags@.len() == j,
                needed == (|e: (Seq<char>, StoredView)| is_needed(state.deliveries, e.0)),
                forall|id: Seq<char>|
                    (#[trigger] lookup(live@, id) is Some) == is_needed(state.deliveries, id),
                forall|k: int| 0 <= k < j ==> flags@[k] == needed(#[trigger] self.messages@[k]),
            decreases self.messages@.len() - j,
        {
            let known = live.contains(self.messages.key_at(j));
            assert(known == is_needed(state.deliveries, self.messages@[j as int].0));
            flags.push(known);
            j += 1;
        }
        self.messages.retain_flagged(&flags, Ghost(needed));
    }

    /// How many deliveries are pending, and their bytes.
    pub fn memory_usage(&self) -> (r: (usize, i128))
        ensures
            r.0 == self@.deliveries.len(),
            r.1 == pending_bytes(self@.messages, self@.deliveries),
            -(r.0 * 0x8000_0000_0000_0000) <= r.1 <= r.0 * 0x8000_0000_0000_0000,
    {
        let ghost all = self.deliveries@;
        let total: usize = self.deliveries.len();
        let mut bytes: i128 = 0;
        let mut i: usize = 0;
        assert(all.take(0) =~= Seq::empty());
        while i < total
            invariant
                i <= all.len(),
                all == self.deliveries@,
                all.len() == total,
                bytes == pending_bytes(self.messages@, all.take(i as int)),
                -(i * 0x8000_0000_0000_0000) <= bytes <= i * 0x8000_0000_0000_0000,
            decreases all.len() - i,
        {
            assert(all.take(i + 1).drop_last() =~= all.take(i as int));
            assert(all.take(i + 1).last() == all[i as int]);
            let size: i64 = match self.messages.get(
                self.deliveries.value_at(i).message_id.as_str(),
            ) {
                Some(stored) => stored.size,
                None => 0,
            };
            bytes = bytes + size as i128;
            i += 1;
        }
        assert(all.take(i as int) =~= all);
        (total, bytes)
    }
}

/// Draws the text of `uuid::Uuid::new_v4`: 36 characters, hexadecimal digits
/// and hyphens, chosen at random. `uuid::Uuid::parse_str` reads it as the UUID
/// that is written in this way.
#[verifier::external_body]
pub(crate) fn random_id() -> (r: String)
    ensures
        r@.len() == 36,
        uuid_of_text(r@) == Some(r@),
        forall|i: int| 0 <= i < 36 ==> #[trigger] is_uuid_char(r@[i]),
{
    uuid::Uuid::new_v4().to_string()
}

/// Whether a character is a small hexadecimal digit or a hyphen.
pub open spec fn is_uuid_char(c: char) -> bool {
    ('0' <= c && c <= '9') || ('a' <= c && c <= 'f') || c == '-'
}

/// Whether a text has the form of a drawn id.
pub open spec fn is_drawn_id(id: Seq<char>) -> bool {
    id.len() == 36 && forall|i: int| 0 <= i < 36 ==> #[trigger] is_uuid_char(id[i])
}

/// Whether all texts have the form of a drawn id.
pub open spec fn all_drawn(ids: Seq<Seq<char>>) -> bool {
    forall|i: int| 0 <= i < ids.len() ==> is_drawn_id(#[trigger] ids[i])
}

/// Draws `n` ids.
pub fn random_ids(n: usize) -> (r: Vec<String>)
    ensures
        r@.len() == n,
        all_drawn(texts(r@)),
{
    let mut out: Vec<String> = Vec::new();
    let mut i: usize = 0;
    while i < n
        invariant
            i <= n,
            out@.len() == i,
            forall|j: int| 0 <= j < i ==> is_drawn_id((#[trigger] out@[j])@),
        decreases n - i,
    {
        let id = random_id();
        assert(is_drawn_id(id@));
        out.push(id);
        i += 1;
    }
    out
}

fn stamp_all(messages: Vec<PubsubMessage>, ids: &Vec<String>, time: &Timestamp) -> (r: Vec<
    PubsubMessage,
>)
    requires
        ids@.len() == messages@.len(),
    ensures
        views(r@) == all_stamped(views(messages@), texts(ids@), *time),
{
    let ghost expected = all_stamped(views(messages@), texts(ids@), *time);
    let mut out: Vec<PubsubMessage> = Vec::new();
    let mut n: usize = 0;
    let total: usize = ids.len();
    for message in it: messages
        invariant
            it.seq() == messages@,
            n == it.index(),
            total == ids@.len(),
            ids@.len() == messages@.len(),
            expected == all_stamped(views(messages@), texts(ids@), *time),
            out@.len() == n,
            forall|j: int| 0 <= j < n ==> (#[trigger] out@[j])@ == expected[j],
    {
        let stamped_message = PubsubMessage {
            data: message.data,
            attributes: message.attributes,
            message_id: ids[n].clone(),
            publish_time: Some(*time),
            ordering_key: message.ordering_key,
        };
        assert(stamped_message@ =~= expected[n as int]);
        out.push(stamped_message);
        n = n + 1;
    }
    assert(views(out@) =~= expected);
    out
}

fn check_deliverable(messages: &Vec<PubsubMessage>) -> (r: bool)
    ensures
        r == all_deliverable(views(messages@)),
{
    let ghost all = views(messages@);
    let mut i: usize = 0;
    while i < messages.len()
        invariant
            i <= messages.len(),
            all == views(messages@),
            forall|j: int|
                0 <= j < i ==> message_len(#[trigger] all[j]) <= MAX_DELIVERY_MESSAGE_BYTES,
        decreases messages.len() - i,
    {
        if encoded_len(&messages[i]) > MAX_DELIVERY_MESSAGE_BYTES as u64 {
            assert(message_len(all[i as int]) > MAX_DELIVERY_MESSAGE_BYTES);
            return false;
        }
        assert(all[i as int] == messages@[i as int]@);
        i += 1;
    }
    true
}

fn sum_bytes(messages: &Vec<PubsubMessage>) -> (r: u128)
    requires
        all_deliverable(views(messages@)),
    ensures
        r == total_bytes(views(messages@)),
        r <= messages@.len() * MAX_DELIVERY_MESSAGE_BYTES,
{
    let ghost all = views(messages@);
    let mut total: u128 = 0;
    let mut i: usize = 0;
    assert(all.take(0) =~= Seq::empty());
    while i < messages.len()
        invariant
            i <= messages.len(),
            all == views(messages@),
            all_deliverable(all),
            total == total_bytes(all.take(i as int)),
            total <= i * MAX_DELIVERY_MESSAGE_BYTES,
        decreases messages.len() - i,
    {
        assert(all.take(i + 1).drop_last() =~= all.take(i as int));
        assert(all.take(i + 1).last() == messages@[i as int]@);
        assert(message_len(all[i as int]) <= MAX_DELIVERY_MESSAGE_BYTES);
        assert((i + 1) * MAX_DELIVERY_MESSAGE_BYTES == i * MAX_DELIVERY_MESSAGE_BYTES
            + MAX_DELIVERY_MESSAGE_BYTES) by (nonlinear_arith);
        assert(i * MAX_DELIVERY_MESSAGE_BYTES <= usize::MAX * MAX_DELIVERY_MESSAGE_BYTES)
            by (nonlinear_arith)
            requires
                i <= usize::MAX,
        ;
        total = total + encoded_len(&messages[i]) as u128;
        i += 1;
    }
    assert(all.take(i as int) =~= all);
    total
}

/// What became of a request to publish, given the ids and the time.
pub open spec fn publish_stamped_spec(
    state: BrokerView,
    topic: Seq<char>,
    messages: Seq<MessageView>,
    ids: Seq<Seq<char>>,
    published: Timestamp,
    published_ms: i64,
) -> (BrokerView, Result<(), StatusView>) {
    match check_publish_spec(topic, messages) {
        Err(e) => (state, Err(e)),
        Ok(_) => {
            let all = all_stamped(messages, ids, published);
            if !all_deliverable(all) {
                (
                    state,
                    Err(
                        status_view(
                            Code::ResourceExhausted,
                            "message exceeds delivery response budget"@,
                        ),
                    ),
                )
            } else {
                publish_spec(state, topic, all, published_ms)
            }
        },
    }
}

impl Broker {
    fn store_message(&mut self, topic: &str, message: PubsubMessage, names: &Vec<String>, published: i64)
        requires
            message_len(message@) <= MAX_DELIVERY_MESSAGE_BYTES,
        ensures
            final(self)@ == (BrokerView {
                messages: put(
                    old(self)@.messages,
                    message@.message_id,
                    stored_message(message@, topic@, published),
                ),
                deliveries: fan_out(old(self)@.deliveries, texts(names@), message@.message_id),
                ..old(self)@
            }),
    {
        let id = message.message_id.clone();
        let size = encoded_len(&message) as i64;
        let expiry: i64 = if published > i64::MAX - RETENTION_MILLIS {
            i64::MAX
        } else {
            published + RETENTION_MILLIS
        };
        let value = StoredMessage { message, topic: topic.to_owned(), size, published, expiry };
        assert(value@ =~= stored_message(message@, topic@, published));
        self.messages.insert(id.as_str(), value);
        let ghost start = self.deliveries@;
        let ghost all = texts(names@);
        let mut i: usize = 0;
        assert(all.take(0) =~= Seq::empty());
        while i < names.len()
            invariant
                i <= names.len(),
                all == texts(names@),
                self.deliveries@ == fan_out(start, all.take(i as int), id@),
                self.durable == old(self).durable,
                self.topics@ == old(self)@.topics,
                self.subscriptions@ == old(self)@.subscriptions,
                self.messages@ == put(
                    old(self)@.messages,
                    message@.message_id,
                    stored_message(message@, topic@, published),
                ),
            decreases names.len() - i,
        {
            assert(all.take(i + 1).drop_last() =~= all.take(i as int));
            assert(all.take(i + 1).last() == names@[i as int]@);
            let key = key_of(names[i].as_str(), id.as_str());
            let delivery = Delivery {
                subscription: names[i].clone(),
                message_id: id.clone(),
                in_flight: false,
                ack_id: None,
                deadline_ms: None,
                attempts: 0,
            };
            self.deliveries.insert(key.as_str(), delivery);
            i += 1;
        }
        assert(all.take(i as int) =~= all);
    }

    /// Takes back what was done where something was saved.
    pub(crate) fn undo(&mut self, saved: Option<Saved>, Ghost(before): Ghost<BrokerView>)
        requires
            before.durable == old(self)@.durable,
            before.topics == old(self)@.topics,
            before.subscriptions == old(self)@.subscriptions,
            saved matches Some(s) ==> before.durable && s.is_of(before),
            before.durable && saved is None ==> old(self)@ == before,
        ensures
            final(self)@ == after_refusal(before, old(self)@),
    {
        if let Some(s) = saved {
            self.restore(s);
            assert(self@ =~= before);
        }
    }

    /// Stores stamped messages and fans them out to the subscriptions of their
    /// topic, unless that would exceed what may be pending.
    fn store_all(&mut self, topic: &str, messages: Vec<PubsubMessage>, published_ms: i64) -> (r:
        Result<(), Status>)
        requires
            all_deliverable(views(messages@)),
        ensures
            publish_spec(old(self)@, topic@, views(messages@), published_ms) == (
                final(self)@,
                unit_result(r),
            ),
    {
        let ghost all = views(messages@);
        let ghost before = self@;
        let saved = if self.durable && self.has_expired(published_ms) {
            Some(self.save())
        } else {
            None
        };
        proof {
            if self.durable && saved is None {
                nothing_expired(self@, published_ms);
            }
        }
        self.cleanup(published_ms);
        if !self.topics.contains(topic) {
            self.undo(saved, Ghost(before));
            return Err(Status::new(Code::NotFound, "topic not found"));
        }
        let names = self.subscriber_names(topic);
        let ghost name_views = texts(names@);
        if names.len() == 0 {
            return Ok(());
        }
        let (count, bytes) = self.memory_usage();
        let batch = sum_bytes(&messages);
        let copies: usize = names.len();
        let sent: usize = messages.len();
        assert(copies * sent <= 0xffff_ffff_ffff_ffff * 0xffff_ffff_ffff_ffff)
            by (nonlinear_arith)
            requires
                copies <= 0xffff_ffff_ffff_ffff,
                sent <= 0xffff_ffff_ffff_ffff,
        ;
        let room_count = copies as u128 * sent as u128 + count as u128
            <= MAX_PENDING_DELIVERIES as u128;
        if !room_count {
            self.undo(saved, Ghost(before));
            return Err(Status::new(Code::ResourceExhausted, "Pub/Sub backlog capacity exceeded"));
        }
        proof {
            let n = names@.len() as int;
            let m = messages@.len() as int;
            assert(n * m <= 10_000);
            assert(m <= n * m && n <= n * m || m == 0) by (nonlinear_arith)
                requires
                    n >= 1,
                    m >= 0,
            ;
            assert(batch <= 10_000 * MAX_DELIVERY_MESSAGE_BYTES) by (nonlinear_arith)
                requires
                    batch <= m * MAX_DELIVERY_MESSAGE_BYTES,
                    0 <= m <= 10_000,
            ;
        }
        let limit: i128 = MAX_PENDING_BYTES as i128 - bytes;
        if limit < 0 || !fits(batch, names.len(), limit as u128) {
            self.undo(saved, Ghost(before));
            return Err(Status::new(Code::ResourceExhausted, "Pub/Sub backlog capacity exceeded"));
        }
        let ghost start = self@;
        assert(all.take(0) =~= Seq::empty());
        for message in it: messages
            invariant
                it.seq() == messages@,
                all == views(messages@),
                all_deliverable(all),
                name_views == texts(names@),
                self@ == stored(start, topic@, all.take(it.index() as int), name_views, published_ms),
        {
            let ghost i = it.index() as int;
            assert(all.take(i + 1).drop_last() =~= all.take(i));
            assert(all.take(i + 1).last() == message@);
            assert(message_len(all[i]) <= MAX_DELIVERY_MESSAGE_BYTES);
            self.store_message(topic, message, &names, published_ms);
        }
        assert(all.take(all.len() as int) =~= all);
        Ok(())
    }

    /// Publishes messages under the given ids at the given time.
    pub fn publish_stamped(
        &mut self,
        topic: &str,
        messages: Vec<PubsubMessage>,
        ids: &Vec<String>,
        published: &Timestamp,
        published_ms: i64,
    ) -> (r: Result<(), Status>)
        requires
            ids@.len() == messages@.len(),
        ensures
            publish_stamped_spec(
                old(self)@,
                topic@,
                views(messages@),
                texts(ids@),
                *published,
                published_ms,
            ) == (final(self)@, unit_result(r)),
    {
        match check_publish(topic, &messages) {
            Ok(()) => {},
            Err(e) => {
                return Err(e);
            },
        }
        let all = stamp_all(messages, ids, published);
        if !check_deliverable(&all) {
            return Err(
                Status::new(
                    Code::ResourceExhausted,
                    "message exceeds delivery response budget",
                ),
            );
        }
        self.store_all(topic, all, published_ms)
    }

    /// Publishes messages. Returns their ids.
    pub fn publish_values(&mut self, topic: &str, messages: Vec<PubsubMessage>) -> (r: Result<
        Vec<String>,
        Status,
    >)
        ensures
            exists|ids: Seq<Seq<char>>, published: Timestamp, published_ms: i64|
                #![trigger publish_stamped_spec(
                    old(self)@,
                    topic@,
                    views(messages@),
                    ids,
                    published,
                    published_ms,
                )]
                ids.len() == messages@.len() && all_drawn(ids) && is_current(published)
                    && published_ms >= 0 && publish_stamped_spec(
                    old(self)@,
                    topic@,
                    views(messages@),
                    ids,
                    published,
                    published_ms,
                ) == (
                    final(self)@,
                    match r {
                        Ok(_) => Ok(()),
                        Err(e) => Err(e@),
                    },
                ) && (r matches Ok(list) ==> texts(list@) == ids),
    {
        let published = timestamp_now();
        let published_ms = now_ms();
        let ids = random_ids(messages.len());
        let outcome = self.publish_stamped(topic, messages, &ids, &published, published_ms);
        assert(publish_stamped_spec(
            old(self)@,
            topic@,
            views(messages@),
            texts(ids@),
            published,
            published_ms,
        ) == (self@, unit_result(outcome)));
        match outcome {
            Ok(()) => Ok(ids),
            Err(e) => Err(e),
        }
    }
}

fn fits(batch: u128, copies: usize, limit: u128) -> (r: bool)
    requires
        batch <= 10_000 * MAX_DELIVERY_MESSAGE_BYTES,
    ensures
        r == (batch * copies <= limit),
{
    assert(batch * copies <= 104_867_840_000 * 0xffff_ffff_ffff_ffff) by (nonlinear_arith)
        requires
            batch <= 104_867_840_000,
            copies <= 0xffff_ffff_ffff_ffff,
    ;
    batch * copies as u128 <= limit
}

/// The name of a topic of a project.
pub open spec fn topic_name(project: Seq<char>, id: Seq<char>) -> Seq<char> {
    "projects/"@ + project + "/topics/"@ + id
}

/// The name of a subscription of a project.
pub open spec fn subscription_name(project: Seq<char>, id: Seq<char>) -> Seq<char> {
    "projects/"@ + project + "/subscriptions/"@ + id
}

/// A topic without settings.
pub open spec fn plain_topic(name: Seq<char>) -> TopicView {
    TopicView { name, labels: Seq::empty(), state: 0, options: TopicOptions::none_spec() }
}

/// A subscription without settings.
pub open spec fn plain_subscription(name: Seq<char>, topic: Seq<char>) -> SubscriptionView {
    SubscriptionView {
        name,
        topic,
        ack_deadline_seconds: DEFAULT_ACK_DEADLINE,
        labels: Seq::empty(),
        state: 0,
        options: SubscriptionOptions::none_spec(),
    }
}

/// The state with a topic, made where it is missing.
pub open spec fn with_topic(state: BrokerView, name: Seq<char>) -> Result<BrokerView, StatusView> {
    match parse_resource_spec(name, "topics"@) {
        Err(e) => Err(e),
        Ok(_) => if lookup(state.topics, name) is Some {
            Ok(state)
        } else {
            Ok(BrokerView { topics: put(state.topics, name, plain_topic(name)), ..state })
        },
    }
}

/// The state with a subscription to a topic, made where it is missing.
pub open spec fn with_subscription(
    state: BrokerView,
    name: Seq<char>,
    topic: Seq<char>,
) -> Result<BrokerView, StatusView> {
    match get_subscription_spec(state, name) {
        Ok(existing) => if existing.topic == topic {
            Ok(state)
        } else {
            Err(
                status_view(
                    Code::FailedPrecondition,
                    "trigger subscription exists for a different topic"@,
                ),
            )
        },
        Err(e) => if e.code != Code::NotFound {
            Err(e)
        } else {
            match create_subscription_spec(state, plain_subscription(name, topic)) {
                Err(e) => Err(e),
                Ok(created) => Ok(
                    BrokerView {
                        subscriptions: put(state.subscriptions, created.name, created),
                        ..state
                    },
                ),
            }
        },
    }
}

impl Broker {
    /// Makes sure that a topic and a subscription to it are there. Returns the
    /// name of the subscription.
    pub fn ensure_trigger_subscription(
        &mut self,
        project: &str,
        topic_id: &str,
        subscription_id: &str,
    ) -> (r: Result<String, Status>)
        ensures
            ({
                let topic = topic_name(project@, topic_id@);
                let name = subscription_name(project@, subscription_id@);
                match with_topic(old(self)@, topic) {
                    Err(e) => r is Err && r->Err_0@ == e && final(self)@ == old(self)@,
                    Ok(state) => match with_subscription(state, name, topic) {
                        Err(e) => r is Err && r->Err_0@ == e && final(self)@ == state,
                        Ok(after) => r is Ok && r->Ok_0@ == name && final(self)@ == after,
                    },
                }
            }),
    {
        let mut topic = cat3("projects/", project, "/topics/");
        topic.append(topic_id);
        match self.get_topic(topic.as_str()) {
            Ok(_) => {},
            Err(e) => {
                match e.code {
                    Code::NotFound => {
                        let labels: Vec<(String, String)> = Vec::new();
                        assert(crate::pubsub::pairs_view(labels@) =~= Seq::empty());
                        let made = Topic {
                            name: topic.clone(),
                            labels,
                            state: 0,
                            options: TopicOptions::none(),
                        };
                        assert(made@ =~= plain_topic(topic@));
                        match self.create_topic(made) {
                            Ok(_) => {},
                            Err(e) => {
                                return Err(e);
                            },
                        }
                    },
                    _ => {
                        return Err(e);
                    },
                }
            },
        }
        let mut name = cat3("projects/", project, "/subscriptions/");
        name.append(subscription_id);
        match self.get_subscription(name.as_str()) {
            Ok(existing) => {
                if !same(existing.topic.as_str(), topic.as_str()) {
                    return Err(
                        Status::new(
                            Code::FailedPrecondition,
                            "trigger subscription exists for a different topic",
                        ),
                    );
                }
            },
            Err(e) => {
                match e.code {
                    Code::NotFound => {
                        let labels: Vec<(String, String)> = Vec::new();
                        assert(crate::pubsub::pairs_view(labels@) =~= Seq::empty());
                        let made = Subscription {
                            name: name.clone(),
                            topic,
                            ack_deadline_seconds: DEFAULT_ACK_DEADLINE,
                            labels,
                            state: 0,
                            options: SubscriptionOptions::none(),
                        };
                        assert(made@ =~= plain_subscription(name@, topic@));
                        match self.create_subscription(made) {
                            Ok(_) => {},
                            Err(e) => {
                                return Err(e);
                            },
                        }
                    },
                    _ => {
                        return Err(e);
                    },
                }
            },
        }
        Ok(name)
    }
}

} // verus!
