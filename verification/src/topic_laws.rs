//! What the names of topics and subscriptions must look like, which messages
//! are accepted for a topic, and what a stream hands out.
use crate::broker::{
    check_publish_spec, cleaned, detached, expiry_spec, get_subscription_spec, has_room, pending_bytes, publishable,
    request_bytes, subscribers, total_bytes, values_with_prefix, BrokerView, DeliveryView, StoredView,
};
use crate::leases::{acknowledged, leased_under, ReceivedView};
use crate::ordered::{
    keys_sorted, lookup, lookup_after_keep, lookup_after_put, lookup_after_without, lookup_at,
    put_sorted, without_sorted,
};
use crate::pubsub::{
    attribute_len, attributes_len, field_len, message_len, page_bounds_spec, parse_project_spec,
    parse_resource_spec, varint_len, MessageView, SubscriptionView,
};
use crate::status::Code;
use crate::streaming::{
    check_pull_spec, claim_budget, modify_all, open_stream_spec, outstanding_bytes, request_step,
    with_messages, without_all, PullView, StreamStep, StreamView,
};
use crate::text::{join_spec, join_undoes_split, split_of_joined, split_spec};
use vstd::prelude::*;
use vstd::utf8::encode_utf8;

verus! {

/// Whether no slash stands in a text.
pub open spec fn is_one_part(s: Seq<char>) -> bool {
    forall|i: int| 0 <= i < s.len() ==> #[trigger] s[i] != '/'
}

/// Whether a text is an id: between 3 and 255 letters, digits and signs of
/// `-_.~+%`, a letter first, that do not begin with `goog` in whatever case.
pub open spec fn is_id(id: Seq<char>) -> bool {
    &&& 3 <= id.len() <= 255
    &&& 'a' <= id[0] <= 'z' || 'A' <= id[0] <= 'Z'
    &&& forall|i: int| #![trigger id[i]]
        0 <= i < id.len() ==> {
            ||| 'a' <= id[i] <= 'z'
            ||| 'A' <= id[i] <= 'Z'
            ||| '0' <= id[i] <= '9'
            ||| id[i] == '-' || id[i] == '_' || id[i] == '.' || id[i] == '~' || id[i] == '+'
            ||| id[i] == '%'
        }
    &&& !(id.len() >= 4 && (id[0] == 'g' || id[0] == 'G') && (id[1] == 'o' || id[1] == 'O') && (
    id[2] == 'o' || id[2] == 'O') && (id[3] == 'g' || id[3] == 'G'))
}

proof fn one_part_is_kept(s: Seq<char>)
    requires
        is_one_part(s),
    ensures
        split_spec(s, '/') == seq![s],
    decreases s.len(),
{
    if s.len() > 0 {
        assert forall|i: int| 0 <= i < s.drop_last().len() implies #[trigger] s.drop_last()[i]
            != '/' by {
            assert(s[i] != '/');
        }
        one_part_is_kept(s.drop_last());
        assert(s[s.len() - 1] != '/');
        assert(split_spec(s, '/') =~= seq![s.drop_last().push(s.last())]);
        assert(s.drop_last().push(s.last()) =~= s);
    } else {
        assert(s =~= Seq::empty());
    }
}

proof fn parts_of_a_name(a: Seq<char>, b: Seq<char>, c: Seq<char>, d: Seq<char>)
    requires
        is_one_part(a),
        is_one_part(b),
        is_one_part(c),
        is_one_part(d),
    ensures
        split_spec(a + "/"@ + b + "/"@ + c + "/"@ + d, '/') == seq![a, b, c, d],
        split_spec(a + "/"@ + b, '/') == seq![a, b],
{
    reveal_strlit("/");
    one_part_is_kept(a);
    one_part_is_kept(b);
    one_part_is_kept(c);
    one_part_is_kept(d);
    let ab = a + "/"@ + b;
    assert(ab =~= a.push('/') + b);
    split_of_joined(a, b, '/');
    assert(split_spec(ab, '/') =~= seq![a, b]);
    let abc = ab + "/"@ + c;
    assert(abc =~= ab.push('/') + c);
    split_of_joined(ab, c, '/');
    assert(split_spec(abc, '/') =~= seq![a, b, c]);
    let abcd = abc + "/"@ + d;
    assert(abcd =~= abc.push('/') + d);
    split_of_joined(abc, d, '/');
    assert(split_spec(abcd, '/') =~= seq![a, b, c, d]);
}

/// A name of the form `projects/{project}/{kind}/{id}` is taken apart into the
/// project and the id where the project is not empty and the id is one;
/// otherwise it is refused. Every name that is accepted has that form.
pub proof fn names_are_taken_apart(
    value: Seq<char>,
    project: Seq<char>,
    kind: Seq<char>,
    id: Seq<char>,
)
    requires
        is_one_part(project),
        is_one_part(kind),
        is_one_part(id),
    ensures
        ({
            let name = "projects"@ + "/"@ + project + "/"@ + kind + "/"@ + id;
            &&& parse_resource_spec(name, kind) is Ok <==> project.len() > 0 && is_id(id)
            &&& parse_resource_spec(name, kind) is Ok ==> parse_resource_spec(name, kind)->Ok_0 == (
                project,
                id,
            )
            &&& parse_resource_spec(name, kind) is Err ==> parse_resource_spec(
                name,
                kind,
            )->Err_0.code == Code::InvalidArgument
            &&& parse_resource_spec(value, kind) matches Ok(pair) ==> value == "projects"@ + "/"@
                + pair.0 + "/"@ + kind + "/"@ + pair.1 && pair.0.len() > 0 && is_id(pair.1)
        }),
        ({
            let name = "projects"@ + "/"@ + project;
            &&& parse_project_spec(name) is Ok <==> project.len() > 0
            &&& parse_project_spec(name) is Ok ==> parse_project_spec(name)->Ok_0 == project
        }),
{
    reveal_strlit("projects");
    reveal_strlit("/");
    assert(is_one_part("projects"@));
    parts_of_a_name("projects"@, project, kind, id);
    if parse_resource_spec(value, kind) is Ok {
        let parts = split_spec(value, '/');
        join_undoes_split(value, '/');
        let sep = seq!['/'];
        assert(sep =~= "/"@);
        assert(parts.drop_last() =~= seq![parts[0], parts[1], parts[2]]);
        assert(parts.drop_last().drop_last() =~= seq![parts[0], parts[1]]);
        assert(parts.drop_last().drop_last().drop_last() =~= seq![parts[0]]);
        assert(join_spec(parts.drop_last().drop_last().drop_last(), sep) == parts[0]);
        assert(join_spec(parts.drop_last().drop_last(), sep) == parts[0] + sep + parts[1]);
        assert(join_spec(parts.drop_last(), sep) == parts[0] + sep + parts[1] + sep + parts[2]);
    }
}

/// Whether places are those of the entries whose keys begin with a prefix, in
/// turn.
pub open spec fn are_places_of<T>(
    places: Seq<int>,
    entries: Seq<(Seq<char>, T)>,
    prefix: Seq<char>,
) -> bool {
    &&& forall|k: int|
        0 <= k < places.len() ==> 0 <= #[trigger] places[k] < entries.len()
            && prefix.is_prefix_of(entries[places[k]].0)
    &&& forall|k: int, m: int| 0 <= k < m < places.len() ==> #[trigger] places[k]
        < #[trigger] places[m]
    &&& forall|i: int|
        0 <= i < entries.len() && prefix.is_prefix_of((#[trigger] entries[i]).0)
            ==> places.contains(i)
}

/// What is listed of a project is every value whose name begins with the name
/// of the project, each once and in the order of the names.
pub proof fn listings_hold_what_begins_so<T>(
    entries: Seq<(Seq<char>, T)>,
    prefix: Seq<char>,
) -> (places: Seq<int>)
    ensures
        are_places_of(places, entries, prefix),
        values_with_prefix(entries, prefix).len() == places.len(),
        forall|k: int|
            0 <= k < places.len() ==> #[trigger] values_with_prefix(entries, prefix)[k]
                == entries[places[k]].1,
    decreases entries.len(),
{
    if entries.len() == 0 {
        Seq::empty()
    } else {
        let init = entries.drop_last();
        let before = listings_hold_what_begins_so(init, prefix);
        let last = entries.len() - 1;
        let places = if prefix.is_prefix_of(entries.last().0) {
            before.push(last)
        } else {
            before
        };
        assert forall|i: int|
            0 <= i < entries.len() && prefix.is_prefix_of(
                (#[trigger] entries[i]).0,
            ) implies places.contains(i) by {
            if i < last {
                assert(init[i] == entries[i]);
                assert(before.contains(i));
                let k = choose|k: int| 0 <= k < before.len() && before[k] == i;
                assert(places[k] == i);
            } else {
                assert(places[before.len() as int] == i);
            }
        }
        places
    }
}

/// The subscriptions of a topic are exactly those that name it.
pub proof fn subscribers_name_the_topic(
    subscriptions: Seq<(Seq<char>, SubscriptionView)>,
    topic: Seq<char>,
    name: Seq<char>,
)
    ensures
        subscribers(subscriptions, topic).contains(name) <==> exists|i: int|
            0 <= i < subscriptions.len() && (#[trigger] subscriptions[i]).1.topic == topic
                && subscriptions[i].1.name == name,
    decreases subscriptions.len(),
{
    if subscriptions.len() > 0 {
        let init = subscriptions.drop_last();
        let last = subscriptions.len() - 1;
        subscribers_name_the_topic(init, topic, name);
        let before = subscribers(init, topic);
        let all = subscribers(subscriptions, topic);
        if before.contains(name) {
            let k = choose|k: int| 0 <= k < before.len() && before[k] == name;
            assert(all[k] == name);
            let i = choose|i: int|
                0 <= i < init.len() && (#[trigger] init[i]).1.topic == topic && init[i].1.name
                    == name;
            assert(subscriptions[i] == init[i]);
        }
        if subscriptions[last].1.topic == topic && subscriptions[last].1.name == name {
            assert(all[before.len() as int] == name);
        }
        if exists|i: int|
            0 <= i < subscriptions.len() && (#[trigger] subscriptions[i]).1.topic == topic
                && subscriptions[i].1.name == name {
            let i = choose|i: int|
                0 <= i < subscriptions.len() && (#[trigger] subscriptions[i]).1.topic == topic
                    && subscriptions[i].1.name == name;
            if i < last {
                assert(init[i] == subscriptions[i]);
            }
        }
        if all.contains(name) {
            let k = choose|k: int| 0 <= k < all.len() && all[k] == name;
            if k < before.len() {
                assert(before[k] == name);
            } else {
                assert(subscriptions[last].1.topic == topic);
            }
        }
    }
}

/// Where a topic is deleted, its subscriptions keep everything but their topic,
/// and every other subscription stays as it is.
pub proof fn subscriptions_lose_a_deleted_topic(
    subscriptions: Seq<(Seq<char>, SubscriptionView)>,
    topic: Seq<char>,
    i: int,
)
    requires
        0 <= i < subscriptions.len(),
    ensures
        ({
            let after = detached(subscriptions, topic);
            &&& after.len() == subscriptions.len()
            &&& after[i].0 == subscriptions[i].0
            &&& subscriptions[i].1.topic != topic ==> after[i].1 == subscriptions[i].1
            &&& subscriptions[i].1.topic == topic ==> after[i].1.topic == "_deleted-topic_"@
            &&& after[i].1.name == subscriptions[i].1.name
            &&& after[i].1.ack_deadline_seconds == subscriptions[i].1.ack_deadline_seconds
            &&& after[i].1.options == subscriptions[i].1.options
        }),
{
}

/// A message is accepted where it holds data or attributes, has no id, no time
/// and no ordering key, and takes at most ten mebibytes. What is wrong with it
/// decides the refusal.
pub proof fn acceptable_messages_are_accepted(message: MessageView)
    ensures
        publishable(message) is Ok <==> {
            &&& message.data.len() > 0 || message.attributes.len() > 0
            &&& message.message_id.len() == 0 && message.publish_time is None
            &&& message.ordering_key.len() == 0
            &&& message_len(message) <= 10 * 1024 * 1024
        },
        publishable(message) is Err && message.data.len() == 0 && message.attributes.len() == 0
            ==> publishable(message)->Err_0.code == Code::InvalidArgument,
        publishable(message) is Err && (message.message_id.len() > 0 || message.publish_time
            is Some) ==> publishable(message)->Err_0.code == Code::InvalidArgument,
        message.data.len() > 0 && message.message_id.len() == 0 && message.publish_time is None
            && message.ordering_key.len() > 0 ==> publishable(message) is Err && publishable(
            message,
        )->Err_0.code == Code::Unimplemented,
        message.data.len() > 0 && message.message_id.len() == 0 && message.publish_time is None
            && message.ordering_key.len() == 0 && message_len(message) > 10 * 1024 * 1024
            ==> publishable(message) is Err && publishable(message)->Err_0.code
            == Code::ResourceExhausted,
{
}

proof fn accepted_one_by_one(messages: Seq<MessageView>)
    ensures
        request_bytes(messages) is Ok <==> forall|i: int|
            0 <= i < messages.len() ==> publishable(#[trigger] messages[i]) is Ok,
        request_bytes(messages) is Ok ==> request_bytes(messages)->Ok_0 == total_bytes(messages),
    decreases messages.len(),
{
    if messages.len() > 0 {
        let init = messages.drop_last();
        accepted_one_by_one(init);
        if request_bytes(messages) is Ok {
            assert forall|i: int| 0 <= i < messages.len() implies publishable(
                #[trigger] messages[i],
            ) is Ok by {
                if i < init.len() {
                    assert(init[i] == messages[i]);
                }
            }
        } else if forall|i: int|
            0 <= i < messages.len() ==> publishable(#[trigger] messages[i]) is Ok {
            assert forall|i: int| 0 <= i < init.len() implies publishable(
                #[trigger] init[i],
            ) is Ok by {
                assert(messages[i] == init[i]);
            }
            assert(publishable(messages[messages.len() - 1]) is Ok);
        }
    }
}

/// Messages are accepted together where the name of the topic is one, there is
/// at least one of them, each is accepted alone, and they take at most ten
/// mebibytes together.
pub proof fn acceptable_requests_are_accepted(topic: Seq<char>, messages: Seq<MessageView>)
    ensures
        check_publish_spec(topic, messages) is Ok <==> {
            &&& parse_resource_spec(topic, "topics"@) is Ok
            &&& messages.len() > 0
            &&& forall|i: int|
                0 <= i < messages.len() ==> publishable(#[trigger] messages[i]) is Ok
            &&& total_bytes(messages) <= 10 * 1024 * 1024
        },
{
    accepted_one_by_one(messages);
}

/// A message that holds nothing but data takes two bytes more than its data
/// where that has fewer than 128 bytes, and three where it has fewer than
/// 16384. An attribute more takes its name, its value and up to six bytes where
/// both are short, and never fewer bytes than they.
pub proof fn messages_are_measured(message: MessageView, attribute: (Seq<char>, Seq<char>))
    requires
        message.message_id.len() == 0,
        message.publish_time is None,
        message.ordering_key.len() == 0,
    ensures
        message.attributes.len() == 0 && message.data.len() == 0 ==> message_len(message) == 0,
        message.attributes.len() == 0 && 0 < message.data.len() < 128 ==> message_len(message)
            == message.data.len() + 2,
        message.attributes.len() == 0 && 128 <= message.data.len() < 16384 ==> message_len(message)
            == message.data.len() + 3,
        ({
            let more = MessageView { attributes: message.attributes.push(attribute), ..message };
            let name = encode_utf8(attribute.0).len();
            let value = encode_utf8(attribute.1).len();
            &&& 0 < name && 0 < value && name + value < 124 ==> message_len(more) == message_len(
                message,
            ) + name + value + 6
            &&& message_len(more) > message_len(message) + name + value
        }),
{
    reveal_with_fuel(varint_len, 3);
    assert(encode_utf8(message.message_id).len() == 0) by {
        assert(message.message_id =~= Seq::empty());
        encode_of_nothing();
    }
    assert(encode_utf8(message.ordering_key).len() == 0) by {
        assert(message.ordering_key =~= Seq::empty());
        encode_of_nothing();
    }
    let more = message.attributes.push(attribute);
    assert(more.drop_last() =~= message.attributes);
    assert(attributes_len(more) == attributes_len(message.attributes) + attribute_len(attribute));
    let name = encode_utf8(attribute.0).len();
    let value = encode_utf8(attribute.1).len();
    assert(field_len(name) >= name && field_len(value) >= value);
}

proof fn encode_of_nothing()
    ensures
        encode_utf8(Seq::<char>::empty()).len() == 0,
{
    reveal_with_fuel(encode_utf8, 2);
}

/// A page holds a hundred values where no size is given, at most a thousand,
/// and otherwise as many as asked for. A negative size is refused.
pub proof fn pages_have_their_size(page_size: i32)
    ensures
        page_bounds_spec(0, Seq::empty(), None) matches Ok(b) && b.0 == 100 && b.1 is None,
        1 <= page_size <= 1000 ==> (page_bounds_spec(page_size, Seq::empty(), None) matches Ok(b)
            && b.0 == page_size && b.1 is None),
        page_size > 1000 ==> (page_bounds_spec(page_size, Seq::empty(), None) matches Ok(b) && b.0
            == 1000),
        page_size < 0 ==> page_bounds_spec(page_size, Seq::empty(), None) is Err,
{
}

/// A message is kept for a day after it was published and is gone after that.
pub proof fn messages_are_kept_for_a_day(
    state: BrokerView,
    published: i64,
    now: i64,
    id: Seq<char>,
    stored: StoredView,
)
    requires
        keys_sorted(state.messages),
        lookup(state.messages, id) == Some(stored),
        stored.expiry == expiry_spec(published),
        now < i64::MAX,
    ensures
        lookup(cleaned(state, now).messages, id) == if now < published + 24 * 60 * 60 * 1000 {
            Some(stored)
        } else {
            None
        },
        cleaned(state, now).topics == state.topics,
        cleaned(state, now).subscriptions == state.subscriptions,
{
    lookup_after_keep(state.messages, |e: (Seq<char>, StoredView)| e.1.expiry > now, id);
}

/// There is room for as many deliveries as make ten thousand with the waiting
/// ones, and for as many bytes as make sixty-four mebibytes with theirs.
pub proof fn room_is_limited(state: BrokerView, count: int, bytes: int)
    ensures
        has_room(state, count, bytes) <==> state.deliveries.len() + count <= 10000 && pending_bytes(
            state.messages,
            state.deliveries,
        ) + bytes <= 64 * 1024 * 1024,
{
}

/// A stream is opened on the terms of its first request: the deadline it asks
/// for, between ten and six hundred seconds; as many messages as it asks for,
/// at most ten thousand, and a thousand where it does not say; and as many
/// bytes, at most sixty-four mebibytes. It begins with nothing handed out.
pub proof fn streams_open_as_asked(state: BrokerView, first: PullView)
    ensures
        open_stream_spec(state, first) is Ok ==> {
            &&& first.subscription.len() > 0
            &&& lookup(state.subscriptions, first.subscription) is Some
            &&& 10 <= first.stream_ack_deadline_seconds <= 600
        },
        first.subscription.len() > 0 && parse_resource_spec(first.subscription, "subscriptions"@)
            is Ok && lookup(state.subscriptions, first.subscription) is Some && 10
            <= first.stream_ack_deadline_seconds <= 600 ==> open_stream_spec(state, first) is Ok,
        open_stream_spec(state, first) matches Ok(stream) ==> {
            &&& stream.subscription == first.subscription
            &&& stream.deadline_seconds == first.stream_ack_deadline_seconds
            &&& 0 < first.max_outstanding_messages <= 10000 ==> stream.max_messages
                == first.max_outstanding_messages
            &&& first.max_outstanding_messages <= 0 ==> stream.max_messages == 1000
            &&& first.max_outstanding_messages > 10000 ==> stream.max_messages == 10000
            &&& 0 < first.max_outstanding_bytes <= 64 * 1024 * 1024 ==> stream.max_bytes
                == first.max_outstanding_bytes
            &&& first.max_outstanding_bytes <= 0 || first.max_outstanding_bytes > 64 * 1024 * 1024
                ==> stream.max_bytes == 64 * 1024 * 1024
            &&& stream.outstanding.len() == 0
            &&& stream.first_request
        },
{
}

/// Only the first request of a stream may name a subscription and limits, and
/// every changed deadline belongs to an id.
pub proof fn later_requests_keep_the_terms(stream: StreamView, request: PullView)
    ensures
        check_pull_spec(stream, request) is Ok <==> {
            &&& stream.first_request || request.subscription.len() == 0
                && request.max_outstanding_messages == 0 && request.max_outstanding_bytes == 0
            &&& request.modify_deadline_ack_ids.len() == request.modify_deadline_seconds.len()
        },
        check_pull_spec(stream, request) is Err ==> check_pull_spec(stream, request)->Err_0.code
            == Code::InvalidArgument,
{
}

/// Acknowledged leases are off the stream, and every other stays on it.
pub proof fn acknowledged_leases_are_off_the_stream(
    outstanding: Seq<(Seq<char>, i64)>,
    ids: Seq<Seq<char>>,
    id: Seq<char>,
)
    requires
        keys_sorted(outstanding),
    ensures
        keys_sorted(without_all(outstanding, ids)),
        ids.contains(id) ==> lookup(without_all(outstanding, ids), id) is None,
        !ids.contains(id) ==> lookup(without_all(outstanding, ids), id) == lookup(outstanding, id),
    decreases ids.len(),
{
    if ids.len() > 0 {
        let init = ids.drop_last();
        acknowledged_leases_are_off_the_stream(outstanding, init, id);
        let before = without_all(outstanding, init);
        without_sorted(before, ids.last());
        lookup_after_without(before, ids.last(), id);
        if ids.contains(id) {
            let k = choose|k: int| 0 <= k < ids.len() && ids[k] == id;
            if k < init.len() {
                assert(init[k] == id);
            }
        } else {
            assert(!init.contains(id)) by {
                if init.contains(id) {
                    let k = choose|k: int| 0 <= k < init.len() && init[k] == id;
                    assert(ids[k] == id);
                }
            }
            assert(ids[ids.len() - 1] != id);
        }
    }
}

/// A stream claims messages while it holds fewer messages and fewer bytes than
/// it may: up to a hundred at a time, and no more than are left to either limit.
pub proof fn streams_claim_what_they_may_hold(stream: StreamView)
    ensures
        ({
            let count = stream.max_messages - stream.outstanding.len();
            let bytes = stream.max_bytes - outstanding_bytes(stream.outstanding);
            match claim_budget(stream) {
                None => count <= 0 || bytes <= 0,
                Some(budget) => {
                    &&& count > 0 && bytes > 0
                    &&& 0 < budget.0 <= count && budget.0 <= 100
                    &&& count <= 100 ==> budget.0 == count
                    &&& count > 100 ==> budget.0 == 100
                    &&& 0 < budget.1 <= bytes
                    &&& bytes <= 10 * 1024 * 1024 ==> budget.1 == bytes
                },
            }
        }),
{
}

/// A request on a stream that acknowledges leases takes their deliveries from
/// the broker and off the stream. One that gives a lease back takes it off the
/// stream too, and one that moves its deadline keeps it there.
pub proof fn streams_serve_their_requests(
    broker: BrokerView,
    stream: StreamView,
    request: PullView,
    now: i64,
    id: Seq<char>,
    i: int,
)
    requires
        keys_sorted(stream.outstanding),
        keys_sorted(broker.deliveries),
        check_pull_spec(stream, request) is Ok,
        get_subscription_spec(broker, stream.subscription) is Ok,
        0 <= i < broker.deliveries.len(),
    ensures
        ({
            let step = request_step(broker, stream, request, now);
            let delivery = broker.deliveries[i];
            &&& request.ack_ids.len() > 0 && request.modify_deadline_ack_ids.len() == 0 ==> {
                &&& step.error is None
                &&& request.ack_ids.contains(id) ==> lookup(step.stream.outstanding, id) is None
                &&& !request.ack_ids.contains(id) ==> lookup(step.stream.outstanding, id) == lookup(
                    stream.outstanding,
                    id,
                )
                &&& delivery.1.subscription == stream.subscription && delivery.1.ack_id is Some
                    && request.ack_ids.contains(delivery.1.ack_id->0) ==> lookup(
                    step.broker.deliveries,
                    delivery.0,
                ) is None
                &&& delivery.1.subscription != stream.subscription || delivery.1.ack_id is None
                    || !request.ack_ids.contains(delivery.1.ack_id->0) ==> lookup(
                    step.broker.deliveries,
                    delivery.0,
                ) == Some(delivery.1)
            }
            &&& request.ack_ids.len() == 0 && request.modify_deadline_ack_ids == seq![id] ==> {
                let seconds = request.modify_deadline_seconds[0];
                &&& seconds == 0 ==> step.error is None && lookup(step.stream.outstanding, id)
                    is None
                &&& 0 < seconds <= 600 ==> step.error is None && step.stream.outstanding
                    == stream.outstanding
                &&& seconds < 0 || seconds > 600 ==> step.error is Some
            }
            &&& step.error is None ==> !step.stream.first_request
            &&& step.stream.subscription == stream.subscription
        }),
{
    acknowledged_leases_are_off_the_stream(stream.outstanding, request.ack_ids, id);
    lookup_after_without(stream.outstanding, id, id);
    let ids = request.ack_ids;
    let delivery = broker.deliveries[i];
    let kept = |e: (Seq<char>, DeliveryView)| !leased_under(e.1, stream.subscription, ids);
    lookup_after_keep(broker.deliveries, kept, delivery.0);
    lookup_at(broker.deliveries, i);
    let started = StreamView { first_request: false, ..stream };
    let before = StreamStep { broker, stream: started, error: None };
    if ids.len() == 0 && request.modify_deadline_ack_ids == seq![id] {
        reveal_with_fuel(modify_all, 2);
        assert(seq![request.modify_deadline_ack_ids[0]] =~= seq![id]);
    }
    if ids.len() > 0 {
        let acked = StreamStep {
            broker: acknowledged(broker, stream.subscription, ids),
            stream: StreamView {
                outstanding: without_all(stream.outstanding, ids),
                ..started
            },
            error: None,
        };
        same_subscription(acked, request, now, request.modify_deadline_ack_ids.len());
    }
    same_subscription(before, request, now, request.modify_deadline_ack_ids.len());
}

proof fn same_subscription(before: StreamStep, request: PullView, now: i64, n: nat)
    ensures
        modify_all(before, request, now, n).stream.subscription == before.stream.subscription,
        modify_all(before, request, now, n).stream.first_request == before.stream.first_request,
    decreases n,
{
    if n > 0 && n <= request.modify_deadline_ack_ids.len() {
        same_subscription(before, request, now, (n - 1) as nat);
    }
}

/// Messages that are handed out are on the stream with their sizes, and what
/// was on it stays.
pub proof fn handed_out_messages_are_on_the_stream(
    outstanding: Seq<(Seq<char>, i64)>,
    messages: Seq<ReceivedView>,
    id: Seq<char>,
)
    requires
        keys_sorted(outstanding),
    ensures
        keys_sorted(with_messages(outstanding, messages)),
        (forall|i: int| 0 <= i < messages.len() ==> (#[trigger] messages[i]).ack_id != id)
            ==> lookup(with_messages(outstanding, messages), id) == lookup(outstanding, id),
        (exists|i: int| 0 <= i < messages.len() && (#[trigger] messages[i]).ack_id == id) ==> (
        lookup(with_messages(outstanding, messages), id) matches Some(size) && exists|i: int|
            0 <= i < messages.len() && (#[trigger] messages[i]).ack_id == id
                && messages[i].size_bytes == size),
    decreases messages.len(),
{
    if messages.len() > 0 {
        let init = messages.drop_last();
        let last = messages.len() - 1;
        handed_out_messages_are_on_the_stream(outstanding, init, id);
        let before = with_messages(outstanding, init);
        put_sorted(before, messages.last().ack_id, messages.last().size_bytes);
        lookup_after_put(before, messages.last().ack_id, messages.last().size_bytes, id);
        if messages[last].ack_id != id {
            if exists|i: int| 0 <= i < messages.len() && (#[trigger] messages[i]).ack_id == id {
                let i = choose|i: int|
                    0 <= i < messages.len() && (#[trigger] messages[i]).ack_id == id;
                assert(init[i] == messages[i]);
                let size = lookup(before, id)->0;
                let k = choose|k: int|
                    0 <= k < init.len() && (#[trigger] init[k]).ack_id == id && init[k].size_bytes
                        == size;
                assert(messages[k] == init[k]);
            } else {
                assert forall|i: int| 0 <= i < init.len() implies (#[trigger] init[i]).ack_id
                    != id by {
                    assert(messages[i] == init[i]);
                }
            }
        } else {
            assert(messages[last].size_bytes == messages.last().size_bytes);
        }
    }
}

} // verus!
