//! What the console shows of topics, subscriptions and messages, and what it
//! writes.
use crate::account_laws::{added, began};
use crate::console::{
    clone_error_spec, clone_spec, clone_writes, database_name, detached, field_refused, is_cloned,
    labels_json, message_json_spec, resources_spec, shown_time, subscribed, subscription_json_spec,
    topic_json_spec, update_field_spec,
};
use crate::document::DocumentView;
use crate::encoding::base64_text;
use crate::json::{empty_object, integer_json_spec, member, object1, with_member, JsonView};
use crate::json_laws::is_object;
use crate::pubsub::{MessageView, SubscriptionView, TopicView};
use crate::status::{Code, StatusView};
use crate::value::Timestamp;
use crate::web_values::value_proto_spec;
use crate::writes::Precondition;
use vstd::prelude::*;

verus! {

/// Whether JSON tells labels: under every key the text of its last pair, and
/// nothing under any other key.
pub open spec fn tells_labels(v: JsonView, pairs: Seq<(Seq<char>, Seq<char>)>, n: nat) -> bool {
    forall|key: Seq<char>|
        match #[trigger] member(v, key) {
            Some(text) => exists|i: int|
                0 <= i < n && (#[trigger] pairs[i]).0 == key && text == JsonView::Text(pairs[i].1)
                    && forall|j: int| i < j < n ==> (#[trigger] pairs[j]).0 != key,
            None => forall|j: int| 0 <= j < n ==> (#[trigger] pairs[j]).0 != key,
        }
}

proof fn labels_told(pairs: Seq<(Seq<char>, Seq<char>)>, n: nat)
    requires
        n <= pairs.len(),
    ensures
        is_object(labels_json(pairs, n)),
        tells_labels(labels_json(pairs, n), pairs, n),
    decreases n,
{
    if n == 0 {
        assert forall|key: Seq<char>| (#[trigger] member(empty_object(), key)) is None by {
            crate::json_laws::nothing_is_in_an_empty_object(key);
        }
        crate::json_laws::nothing_is_in_an_empty_object(Seq::empty());
    } else {
        let m = (n - 1) as nat;
        labels_told(pairs, m);
        let before = labels_json(pairs, m);
        let last = pairs[m as int];
        added(before, last.0, JsonView::Text(last.1));
        let v = labels_json(pairs, n);
        assert forall|key: Seq<char>|
            match #[trigger] member(v, key) {
                Some(text) => exists|i: int|
                    0 <= i < n && (#[trigger] pairs[i]).0 == key && text == JsonView::Text(
                        pairs[i].1,
                    ) && forall|j: int| i < j < n ==> (#[trigger] pairs[j]).0 != key,
                None => forall|j: int| 0 <= j < n ==> (#[trigger] pairs[j]).0 != key,
            } by {
            let old = member(before, key);
            if key == last.0 {
                assert(pairs[m as int].0 == key);
            } else if old is Some {
                let i = choose|i: int|
                    0 <= i < m && (#[trigger] pairs[i]).0 == key && old->0 == JsonView::Text(
                        pairs[i].1,
                    ) && forall|j: int| i < j < m ==> (#[trigger] pairs[j]).0 != key;
                assert(pairs[i].0 == key);
            }
        }
    }
}

/// Whether JSON tells of a subscription: its name, its topic, its deadline, its
/// labels and its state.
pub open spec fn tells_subscription(v: JsonView, s: SubscriptionView) -> bool {
    &&& member(v, "name"@) == Some(JsonView::Text(s.name))
    &&& member(v, "topic"@) == Some(JsonView::Text(s.topic))
    &&& s.ack_deadline_seconds >= 0 ==> member(v, "ackDeadlineSeconds"@) == Some(
        JsonView::Unsigned(s.ack_deadline_seconds as u64),
    )
    &&& member(v, "retainAckedMessages"@) == Some(JsonView::Bool(s.options.retain_acked_messages))
    &&& member(v, "enableMessageOrdering"@) == Some(JsonView::Bool(s.options.message_ordering))
    &&& member(v, "enableExactlyOnceDelivery"@) == Some(
        JsonView::Bool(s.options.exactly_once_delivery),
    )
    &&& member(v, "filter"@) == Some(JsonView::Text(""@))
    &&& member(v, "messageRetentionDuration"@) == Some(JsonView::Null)
    &&& member(v, "labels"@) is Some && tells_labels(
        member(v, "labels"@)->0,
        s.labels,
        s.labels.len(),
    )
    &&& s.state >= 0 ==> member(v, "state"@) == Some(JsonView::Unsigned(s.state as u64))
}

proof fn keys_differ()
    ensures
        "name"@.len() == 4,
        "topic"@.len() == 5 && "topic"@[0] == 't',
        "ackDeadlineSeconds"@.len() == 18,
        "retainAckedMessages"@.len() == 19,
        "messageRetentionDuration"@.len() == 24,
        "labels"@.len() == 6 && "labels"@[0] == 'l',
        "filter"@.len() == 6 && "filter"@[0] == 'f',
        "enableMessageOrdering"@.len() == 21 && "enableMessageOrdering"@[0] == 'e',
        "enableExactlyOnceDelivery"@.len() == 25,
        "state"@.len() == 5 && "state"@[0] == 's',
        "subscriptions"@.len() == 13,
        "topics"@.len() == 6 && "topics"@[0] == 't',
        "detachedSubscriptions"@.len() == 21 && "detachedSubscriptions"@[0] == 'd',
        "attributes"@.len() == 10,
        "messageId"@.len() == 9,
        "publishTime"@.len() == 11 && "publishTime"@[0] == 'p',
        "orderingKey"@.len() == 11 && "orderingKey"@[0] == 'o',
        "data"@.len() == 4 && "data"@[0] == 'd',
{
    reveal_strlit("name");
    reveal_strlit("topic");
    reveal_strlit("ackDeadlineSeconds");
    reveal_strlit("retainAckedMessages");
    reveal_strlit("messageRetentionDuration");
    reveal_strlit("labels");
    reveal_strlit("filter");
    reveal_strlit("enableMessageOrdering");
    reveal_strlit("enableExactlyOnceDelivery");
    reveal_strlit("state");
    reveal_strlit("subscriptions");
    reveal_strlit("topics");
    reveal_strlit("detachedSubscriptions");
    reveal_strlit("attributes");
    reveal_strlit("messageId");
    reveal_strlit("publishTime");
    reveal_strlit("orderingKey");
    reveal_strlit("data");
}

/// A subscription is shown with what it was created with.
#[verifier::rlimit(40)]
pub proof fn subscriptions_are_shown(s: SubscriptionView)
    ensures
        tells_subscription(subscription_json_spec(s), s),
{
    keys_differ();
    labels_told(s.labels, s.labels.len());
    let deadline = integer_json_spec(s.ack_deadline_seconds as int);
    let labels = labels_json(s.labels, s.labels.len());
    let retain = JsonView::Bool(s.options.retain_acked_messages);
    let ordered = JsonView::Bool(s.options.message_ordering);
    let once = JsonView::Bool(s.options.exactly_once_delivery);
    let v0 = object1("name"@, JsonView::Text(s.name));
    began("name"@, JsonView::Text(s.name));
    added(v0, "topic"@, JsonView::Text(s.topic));
    let v1 = with_member(v0, "topic"@, JsonView::Text(s.topic));
    added(v1, "ackDeadlineSeconds"@, deadline);
    let v2 = with_member(v1, "ackDeadlineSeconds"@, deadline);
    added(v2, "retainAckedMessages"@, retain);
    let v3 = with_member(v2, "retainAckedMessages"@, retain);
    added(v3, "messageRetentionDuration"@, JsonView::Null);
    let v4 = with_member(v3, "messageRetentionDuration"@, JsonView::Null);
    added(v4, "labels"@, labels);
    let v5 = with_member(v4, "labels"@, labels);
    added(v5, "filter"@, JsonView::Text(""@));
    let v6 = with_member(v5, "filter"@, JsonView::Text(""@));
    added(v6, "enableMessageOrdering"@, ordered);
    let v7 = with_member(v6, "enableMessageOrdering"@, ordered);
    added(v7, "enableExactlyOnceDelivery"@, once);
    let v8 = with_member(v7, "enableExactlyOnceDelivery"@, once);
    added(v8, "state"@, integer_json_spec(s.state as int));
}

proof fn subscribed_told(subscriptions: Seq<SubscriptionView>, topic: Seq<char>, n: nat, i: int)
    requires
        n <= subscriptions.len(),
        0 <= i < n,
        subscriptions[i].topic == topic,
    ensures
        subscribed(subscriptions, topic, n).contains(subscription_json_spec(subscriptions[i])),
    decreases n,
{
    let m = (n - 1) as nat;
    let before = subscribed(subscriptions, topic, m);
    let all = subscribed(subscriptions, topic, n);
    let wanted = subscription_json_spec(subscriptions[i]);
    if i < m {
        subscribed_told(subscriptions, topic, m, i);
        let k = choose|k: int| 0 <= k < before.len() && before[k] == wanted;
        assert(all[k] == wanted);
    } else {
        assert(all[before.len() as int] == wanted);
    }
}

proof fn only_subscribed_told(
    subscriptions: Seq<SubscriptionView>,
    topic: Seq<char>,
    n: nat,
    k: int,
)
    requires
        n <= subscriptions.len(),
        0 <= k < subscribed(subscriptions, topic, n).len(),
    ensures
        exists|i: int|
            0 <= i < n && (#[trigger] subscriptions[i]).topic == topic && subscribed(
                subscriptions,
                topic,
                n,
            )[k] == subscription_json_spec(subscriptions[i]),
    decreases n,
{
    if n > 0 {
        let m = (n - 1) as nat;
        let before = subscribed(subscriptions, topic, m);
        if k < before.len() {
            only_subscribed_told(subscriptions, topic, m, k);
            let i = choose|i: int|
                0 <= i < m && (#[trigger] subscriptions[i]).topic == topic && before[k]
                    == subscription_json_spec(subscriptions[i]);
            assert(subscriptions[i].topic == topic);
        } else {
            assert(subscriptions[m as int].topic == topic);
        }
    }
}

/// A topic is shown with its name, its labels and its subscriptions: those that
/// name it, and no others.
pub proof fn topics_are_shown(topic: TopicView, subscriptions: Seq<SubscriptionView>, i: int)
    requires
        0 <= i < subscriptions.len(),
    ensures
        ({
            let v = topic_json_spec(topic, subscriptions);
            let list = member(v, "subscriptions"@);
            &&& member(v, "name"@) == Some(JsonView::Text(topic.name))
            &&& member(v, "labels"@) is Some && tells_labels(
                member(v, "labels"@)->0,
                topic.labels,
                topic.labels.len(),
            )
            &&& topic.state >= 0 ==> member(v, "state"@) == Some(
                JsonView::Unsigned(topic.state as u64),
            )
            &&& list is Some && list->0 is Array
            &&& subscriptions[i].topic == topic.name ==> list->0->Array_0.contains(
                subscription_json_spec(subscriptions[i]),
            )
            &&& forall|k: int|
                #![trigger list->0->Array_0[k]]
                0 <= k < list->0->Array_0.len() ==> exists|j: int|
                    0 <= j < subscriptions.len() && (#[trigger] subscriptions[j]).topic
                        == topic.name && list->0->Array_0[k] == subscription_json_spec(
                        subscriptions[j],
                    )
        }),
{
    keys_differ();
    labels_told(topic.labels, topic.labels.len());
    let labels = labels_json(topic.labels, topic.labels.len());
    let own = subscribed(subscriptions, topic.name, subscriptions.len());
    let v0 = object1("name"@, JsonView::Text(topic.name));
    began("name"@, JsonView::Text(topic.name));
    added(v0, "labels"@, labels);
    let v1 = with_member(v0, "labels"@, labels);
    added(v1, "messageRetentionDuration"@, JsonView::Null);
    let v2 = with_member(v1, "messageRetentionDuration"@, JsonView::Null);
    added(v2, "state"@, integer_json_spec(topic.state as int));
    let v3 = with_member(v2, "state"@, integer_json_spec(topic.state as int));
    added(v3, "subscriptions"@, JsonView::Array(own));
    if subscriptions[i].topic == topic.name {
        subscribed_told(subscriptions, topic.name, subscriptions.len(), i);
    }
    assert forall|k: int| #![trigger own[k]] 0 <= k < own.len() implies exists|j: int|
        0 <= j < subscriptions.len() && (#[trigger] subscriptions[j]).topic == topic.name && own[k]
            == subscription_json_spec(subscriptions[j]) by {
        only_subscribed_told(subscriptions, topic.name, subscriptions.len(), k);
    }
}

proof fn detached_told(
    topics: Seq<TopicView>,
    subscriptions: Seq<SubscriptionView>,
    n: nat,
    i: int,
)
    requires
        n <= subscriptions.len(),
        0 <= i < n,
        forall|k: int| 0 <= k < topics.len() ==> (#[trigger] topics[k]).name
            != subscriptions[i].topic,
    ensures
        detached(topics, subscriptions, n).contains(subscription_json_spec(subscriptions[i])),
    decreases n,
{
    let m = (n - 1) as nat;
    let before = detached(topics, subscriptions, m);
    let all = detached(topics, subscriptions, n);
    let wanted = subscription_json_spec(subscriptions[i]);
    if i < m {
        detached_told(topics, subscriptions, m, i);
        let k = choose|k: int| 0 <= k < before.len() && before[k] == wanted;
        assert(all[k] == wanted);
    } else {
        assert(all[before.len() as int] == wanted);
    }
}

/// What is shown of a project is every topic in turn, the name of every
/// subscription, and once more the subscriptions whose topic is gone.
pub proof fn resources_are_shown(
    topics: Seq<TopicView>,
    subscriptions: Seq<SubscriptionView>,
    t: int,
    i: int,
)
    requires
        0 <= t < topics.len(),
        0 <= i < subscriptions.len(),
    ensures
        ({
            let v = resources_spec(topics, subscriptions);
            let shown = member(v, "topics"@);
            let names = member(v, "subscriptions"@);
            let lost = member(v, "detachedSubscriptions"@);
            &&& shown is Some && shown->0 is Array && shown->0->Array_0.len() == topics.len()
            &&& shown->0->Array_0[t] == topic_json_spec(topics[t], subscriptions)
            &&& names is Some && names->0 is Array && names->0->Array_0.len() == subscriptions.len()
            &&& names->0->Array_0[i] == JsonView::Text(subscriptions[i].name)
            &&& lost is Some && lost->0 is Array
            &&& (forall|k: int|
                0 <= k < topics.len() ==> (#[trigger] topics[k]).name != subscriptions[i].topic)
                ==> lost->0->Array_0.contains(subscription_json_spec(subscriptions[i]))
        }),
{
    keys_differ();
    let shown = JsonView::Array(
        topics.map_values(|t: TopicView| topic_json_spec(t, subscriptions)),
    );
    let names = JsonView::Array(
        subscriptions.map_values(|s: SubscriptionView| JsonView::Text(s.name)),
    );
    let lost = JsonView::Array(detached(topics, subscriptions, subscriptions.len()));
    let v0 = object1("topics"@, shown);
    began("topics"@, shown);
    added(v0, "subscriptions"@, names);
    added(with_member(v0, "subscriptions"@, names), "detachedSubscriptions"@, lost);
    if forall|k: int|
        0 <= k < topics.len() ==> (#[trigger] topics[k]).name != subscriptions[i].topic {
        detached_told(topics, subscriptions, subscriptions.len(), i);
    }
}

/// A message is shown with its data, its attributes, its id, its time and its
/// ordering key.
pub proof fn messages_are_shown(m: MessageView, published: Seq<char>)
    ensures
        ({
            let v = message_json_spec(m, published);
            &&& member(v, "data"@) == Some(JsonView::Text(base64_text(m.data)))
            &&& member(v, "messageId"@) == Some(JsonView::Text(m.message_id))
            &&& member(v, "publishTime"@) == Some(JsonView::Text(published))
            &&& member(v, "orderingKey"@) == Some(JsonView::Text(m.ordering_key))
            &&& member(v, "attributes"@) is Some && tells_labels(
                member(v, "attributes"@)->0,
                m.attributes,
                m.attributes.len(),
            )
        }),
{
    keys_differ();
    labels_told(m.attributes, m.attributes.len());
    let data = JsonView::Text(base64_text(m.data));
    let attributes = labels_json(m.attributes, m.attributes.len());
    let v0 = object1("data"@, data);
    began("data"@, data);
    added(v0, "attributes"@, attributes);
    let v1 = with_member(v0, "attributes"@, attributes);
    added(v1, "messageId"@, JsonView::Text(m.message_id));
    let v2 = with_member(v1, "messageId"@, JsonView::Text(m.message_id));
    added(v2, "publishTime"@, JsonView::Text(published));
    let v3 = with_member(v2, "publishTime"@, JsonView::Text(published));
    added(v3, "orderingKey"@, JsonView::Text(m.ordering_key));
}

/// A time since 1970 is shown to the millisecond.
pub proof fn times_are_shown_to_the_millisecond(t: Timestamp)
    requires
        t.seconds >= 0,
        0 <= t.nanos < 1_000_000_000,
    ensures
        shown_time(t).0 == t.seconds,
        shown_time(t).1 * 1_000_000 <= t.nanos < (shown_time(t).1 + 1) * 1_000_000,
        0 <= shown_time(t).1 < 1000,
{
}

/// A field that is edited is written alone into a document that must exist:
/// the one write names the document, holds that field with the value that was
/// given and has only it in its mask. It goes to the database that was named,
/// outside any transaction.
pub proof fn edited_fields_are_written(
    project: Seq<char>,
    database: Seq<char>,
    path: Seq<char>,
    field: Seq<char>,
    value: JsonView,
)
    ensures
        update_field_spec(project, database, path, field, value) matches Ok(commit) ==> {
            &&& value_proto_spec(value) is Ok
            &&& commit.0 == "projects/"@ + project + "/databases/"@ + database
            &&& commit.2.len() == 0
            &&& commit.1.len() == 1
            &&& commit.1[0].operation is Update
            &&& commit.1[0].operation->Update_0.name == commit.0 + "/documents/"@ + path
            &&& commit.1[0].operation->Update_0.fields == seq![
                (field, value_proto_spec(value)->Ok_0),
            ]
            &&& commit.1[0].current_document == Precondition::Exists(true)
            &&& commit.1[0].update_mask is Some && commit.1[0].update_mask->0.len() == 1
            &&& commit.1[0].update_transforms.len() == 0
        },
        update_field_spec(project, database, path, field, value) matches Err(e) ==> e.0 == 400,
{
}

/// A field whose document is gone is answered with 404, and another refusal
/// with 400 and its message. A copy that meets a document is answered with 409.
pub proof fn refused_edits_are_answered(error: StatusView)
    ensures
        error.code == Code::FailedPrecondition ==> field_refused(error).0 == 404,
        error.code != Code::FailedPrecondition ==> field_refused(error) == (400u16, error.message),
        error.code == Code::FailedPrecondition || error.code == Code::AlreadyExists
            ==> clone_error_spec(error).0 == 409,
        error.code != Code::FailedPrecondition && error.code != Code::AlreadyExists
            ==> clone_error_spec(error) == (400u16, error.message),
{
}

proof fn copies_made(
    docs: Seq<DocumentView>,
    n: nat,
    source: Seq<char>,
    destination: Seq<char>,
    deep: bool,
    i: int,
)
    requires
        n <= docs.len(),
        0 <= i < n,
        is_cloned(docs[i].name, source, deep),
    ensures
        exists|k: int|
            0 <= k < clone_writes(docs, n, source, destination, deep).len() && (
            #[trigger] clone_writes(docs, n, source, destination, deep)[k]).operation is Update
                && clone_writes(docs, n, source, destination, deep)[k].operation->Update_0.fields
                == docs[i].fields && clone_writes(
                docs,
                n,
                source,
                destination,
                deep,
            )[k].operation->Update_0.name == destination + docs[i].name.skip(source.len() as int)
                && clone_writes(docs, n, source, destination, deep)[k].current_document
                == Precondition::Exists(false),
    decreases n,
{
    let m = (n - 1) as nat;
    let before = clone_writes(docs, m, source, destination, deep);
    let all = clone_writes(docs, n, source, destination, deep);
    if i < m {
        copies_made(docs, m, source, destination, deep, i);
        let k = choose|k: int|
            0 <= k < before.len() && (#[trigger] before[k]).operation is Update
                && before[k].operation->Update_0.fields == docs[i].fields
                && before[k].operation->Update_0.name == destination + docs[i].name.skip(
                source.len() as int,
            ) && before[k].current_document == Precondition::Exists(false);
        assert(all[k] == before[k]);
    } else {
        let w = all[before.len() as int];
        assert(w.operation is Update);
    }
}

/// A copy writes the fields of its source under the new name, which must be
/// free. A deep one writes every document below the source too, each under the
/// new name with the rest of its own behind it.
pub proof fn copies_hold_their_source(
    project: Seq<char>,
    database: Seq<char>,
    source_path: Seq<char>,
    collection: Seq<char>,
    id: Seq<char>,
    deep: bool,
    docs: Seq<DocumentView>,
    i: int,
    rest: Seq<char>,
)
    requires
        0 <= i < docs.len(),
        ({
            let source = database_name(project, database) + "/documents/"@ + source_path;
            docs[i].name == source + rest && (rest.len() == 0 || deep && rest[0] == '/')
        }),
    ensures
        ({
            let base = "projects/"@ + project + "/databases/"@ + database;
            let copied = clone_spec(project, database, source_path, collection, id, deep, docs);
            copied matches Ok(commit) ==> commit.0 == base && exists|k: int|
                0 <= k < commit.1.len() && (#[trigger] commit.1[k]).operation is Update
                    && commit.1[k].operation->Update_0.fields == docs[i].fields
                    && commit.1[k].operation->Update_0.name == base + "/documents/"@ + collection
                    + "/"@ + id + rest && commit.1[k].current_document == Precondition::Exists(
                    false,
                )
        }),
{
    reveal_strlit("/");
    let base = database_name(project, database);
    let source = base + "/documents/"@ + source_path;
    let destination = base + "/documents/"@ + collection + "/"@ + id;
    let name = docs[i].name;
    assert(name.skip(source.len() as int) =~= rest);
    assert(is_cloned(name, source, deep)) by {
        if rest.len() == 0 {
            assert(name =~= source);
        } else {
            assert(name.subrange(0, source.len() as int + 1) =~= source + "/"@);
        }
    }
    copies_made(docs, docs.len(), source, destination, deep, i);
    let writes = clone_writes(docs, docs.len(), source, destination, deep);
    let k = choose|k: int|
        0 <= k < writes.len() && (#[trigger] writes[k]).operation is Update
            && writes[k].operation->Update_0.fields == docs[i].fields
            && writes[k].operation->Update_0.name == destination + docs[i].name.skip(
            source.len() as int,
        ) && writes[k].current_document == Precondition::Exists(false);
    assert(writes[k].operation->Update_0.name == destination + rest);
    let copied = clone_spec(project, database, source_path, collection, id, deep, docs);
    assert(copied is Ok ==> (copied->Ok_0).1 == writes);
    assert(copied is Ok ==> (copied->Ok_0).1[k] == writes[k]);
}

} // verus!
