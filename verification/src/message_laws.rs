//! What subscribers receive of what was published.
use crate::broker::{
    all_deliverable, all_stamped, cleaned, create_subscription_spec, get_subscription_spec,
    is_drawn_id, publish_stamped_spec, stored, subscribers, BrokerView, DeliveriesView,
    DeliveryView, StoredView,
};
use crate::claims::{claim_keeps_its_terms, is_leased, was_free};
use crate::fanout::{is_named, SubscriptionsView};
use crate::guarantees::{
    cleanup_is_sound, fanout_reaches_every_subscription, ids_fresh, publish_is_sound, sound,
    stored_is_sound, MessagesView,
};
use crate::leases::{acknowledged, claim_spec, leased_under, modify_spec};
use crate::ordered::{lookup, lookup_after_keep};
use crate::pubsub::{MessageView, SubscriptionView};
use crate::status::Code;
use crate::value::Timestamp;
use vstd::prelude::*;

verus! {

/// Whether the ids can be given to new messages: drawn, and none of them in use
/// or given twice.
pub open spec fn are_new(messages: MessagesView, ids: Seq<Seq<char>>) -> bool {
    &&& forall|i: int|
        0 <= i < ids.len() ==> is_drawn_id(#[trigger] ids[i]) && lookup(messages, ids[i]) is None
    &&& forall|i: int, j: int|
        0 <= i < j < ids.len() ==> #[trigger] ids[i] != #[trigger] ids[j]
}

/// Whether a message is what a subscriber gets of a published one: the same
/// data and attributes, the id that it was given, and when it was published.
pub open spec fn is_copy_of(
    got: MessageView,
    sent: MessageView,
    id: Seq<char>,
    published: Timestamp,
) -> bool {
    &&& got.data == sent.data
    &&& got.attributes == sent.attributes
    &&& got.ordering_key == sent.ordering_key
    &&& got.message_id == id
    &&& got.publish_time == Some(published)
}

proof fn subscriber_is_found(subscriptions: SubscriptionsView, topic: Seq<char>, name: Seq<char>)
    -> (k: int)
    requires
        is_named(subscriptions),
        lookup(subscriptions, name) matches Some(s) && s.topic == topic,
    ensures
        0 <= k < subscribers(subscriptions, topic).len(),
        subscribers(subscriptions, topic)[k] == name,
    decreases subscriptions.len(),
{
    crate::ordered::lookup_found(subscriptions, name);
    let i = choose|i: int|
        0 <= i < subscriptions.len() && #[trigger] subscriptions[i] == (
            name,
            lookup(subscriptions, name)->0,
        );
    let init = subscriptions.drop_last();
    if i < init.len() {
        assert(is_named(init)) by {
            assert forall|a: int, b: int| 0 <= a < b < init.len() implies crate::text::text_less(
                #[trigger] init[a].0,
                #[trigger] init[b].0,
            ) by {
                assert(init[a] == subscriptions[a] && init[b] == subscriptions[b]);
            }
            assert forall|a: int| 0 <= a < init.len() implies (#[trigger] init[a]).1.name
                == init[a].0 by {
                assert(init[a] == subscriptions[a]);
            }
        }
        assert(init[i] == subscriptions[i]);
        crate::ordered::lookup_at(init, i);
        let k = subscriber_is_found(init, topic, name);
        assert(subscribers(subscriptions, topic)[k] == subscribers(init, topic)[k]);
        k
    } else {
        assert(subscriptions[i].1.name == name);
        subscribers(subscriptions, topic).len() - 1
    }
}

/// Whether a delivery of a message waits for a subscription, never handed out
/// before.
pub open spec fn waits_for(
    deliveries: DeliveriesView,
    subscription: Seq<char>,
    id: Seq<char>,
) -> bool {
    lookup(deliveries, subscription + seq!['\0'] + id) == Some(
        DeliveryView {
            subscription,
            message_id: id,
            in_flight: false,
            ack_id: None,
            deadline_ms: None,
            attempts: 0,
        },
    )
}

/// A message that was accepted for a topic is kept as it was given, under its
/// id and with the time of its publication, and waits for every subscription of
/// the topic.
pub proof fn published_messages_are_kept(
    state: BrokerView,
    topic: Seq<char>,
    messages: Seq<MessageView>,
    ids: Seq<Seq<char>>,
    published: Timestamp,
    published_ms: i64,
    subscription: Seq<char>,
    m: int,
)
    requires
        sound(state),
        is_named(state.subscriptions),
        ids.len() == messages.len(),
        are_new(cleaned(state, published_ms).messages, ids),
        publish_stamped_spec(state, topic, messages, ids, published, published_ms).1 is Ok,
        lookup(state.subscriptions, subscription) matches Some(s) && s.topic == topic,
        0 <= m < messages.len(),
    ensures
        ({
            let after = publish_stamped_spec(
                state,
                topic,
                messages,
                ids,
                published,
                published_ms,
            ).0;
            &&& sound(after)
            &&& after.subscriptions == state.subscriptions
            &&& after.topics == state.topics
            &&& lookup(after.messages, ids[m]) matches Some(kept)
            &&& is_copy_of(kept.message, messages[m], ids[m], published)
            &&& kept.topic == topic
            &&& kept.published == published_ms
            &&& kept.expiry > published_ms || published_ms == i64::MAX
            &&& waits_for(after.deliveries, subscription, ids[m])
        }),
{
    let all = all_stamped(messages, ids, published);
    let current = cleaned(state, published_ms);
    let names = subscribers(current.subscriptions, topic);
    let k = subscriber_is_found(state.subscriptions, topic, subscription);
    assert forall|i: int| 0 <= i < all.len() implies is_drawn_id((#[trigger] all[i]).message_id)
        && lookup(current.messages, all[i].message_id) is None by {
        assert(all[i].message_id == ids[i]);
    }
    assert forall|i: int, j: int| 0 <= i < j < all.len() implies (#[trigger] all[i]).message_id != (
    #[trigger] all[j]).message_id by {
        assert(all[i].message_id == ids[i] && all[j].message_id == ids[j]);
    }
    cleanup_is_sound(state, published_ms);
    publish_is_sound(state, topic, all, published_ms);
    fanout_reaches_every_subscription(current, topic, all, names, published_ms, k, m);
    stored_frame(current, topic, all, names, published_ms, m);
    assert(all[m].message_id == ids[m]);
}

proof fn stored_frame(
    state: BrokerView,
    topic: Seq<char>,
    added: Seq<MessageView>,
    names: Seq<Seq<char>>,
    published: i64,
    m: int,
)
    requires
        crate::guarantees::parts_sound(state.messages, state.deliveries),
        ids_fresh(state.messages, added),
        all_deliverable(added),
        0 <= m < added.len(),
    ensures
        ({
            let after = stored(state, topic, added, names, published);
            &&& after.subscriptions == state.subscriptions
            &&& after.topics == state.topics
            &&& after.durable == state.durable
            &&& lookup(after.messages, added[m].message_id) matches Some(kept)
            &&& kept.topic == topic
            &&& kept.published == published
            &&& kept.expiry > published || published == i64::MAX
        }),
    decreases added.len(),
{
    let init = added.drop_last();
    let last = added.len() - 1;
    let message = added.last();
    assert(added[last] == message);
    assert(ids_fresh(state.messages, init)) by {
        assert forall|i: int| 0 <= i < init.len() implies is_drawn_id(
            (#[trigger] init[i]).message_id,
        ) && lookup(state.messages, init[i].message_id) is None by {
            assert(init[i] == added[i]);
        }
        assert forall|i: int, j: int| 0 <= i < j < init.len() implies (
        #[trigger] init[i]).message_id != (#[trigger] init[j]).message_id by {
            assert(init[i] == added[i] && init[j] == added[j]);
        }
    }
    assert(all_deliverable(init)) by {
        assert forall|i: int| 0 <= i < init.len() implies crate::pubsub::message_len(
            #[trigger] init[i],
        ) <= crate::broker::MAX_DELIVERY_MESSAGE_BYTES by {
            assert(init[i] == added[i]);
        }
    }
    stored_is_sound(state, topic, init, names, published);
    let before = stored(state, topic, init, names, published);
    let value = crate::broker::stored_message(message, topic, published);
    crate::ordered::lookup_after_put(
        before.messages,
        message.message_id,
        value,
        added[m].message_id,
    );
    if m < last {
        assert(init[m] == added[m]);
        stored_frame(state, topic, init, names, published, m);
        assert(added[m].message_id != added[last].message_id);
    } else if init.len() > 0 {
        stored_frame(state, topic, init, names, published, 0);
    }
}

/// What a subscriber receives is a message that is kept, as it is kept, for a
/// delivery of its subscription.
pub proof fn received_messages_are_kept_ones(
    state: BrokerView,
    subscription: Seq<char>,
    max_count: nat,
    max_bytes: int,
    asked: Option<i32>,
    now: i64,
    acks: Seq<Seq<char>>,
    k: int,
)
    requires
        sound(state),
        get_subscription_spec(state, subscription) is Ok,
        0 <= k < claim_spec(
            state,
            subscription,
            max_count,
            max_bytes,
            asked,
            now,
            acks,
        ).1->Ok_0.len(),
    ensures
        ({
            let taken = claim_spec(
                state,
                subscription,
                max_count,
                max_bytes,
                asked,
                now,
                acks,
            ).1->Ok_0;
            &&& lookup(state.messages, taken[k].message.message_id) matches Some(kept)
            &&& taken[k].message == kept.message
            &&& taken[k].size_bytes == kept.size
            &&& taken[k].ack_id == acks[k]
            &&& exists|i: int|
                0 <= i < state.deliveries.len() && (#[trigger] state.deliveries[i]).1.subscription
                    == subscription && state.deliveries[i].1.message_id
                    == taken[k].message.message_id
        }),
{
    claim_keeps_its_terms(state, subscription, max_count, max_bytes, asked, now, acks);
    let taken = claim_spec(state, subscription, max_count, max_bytes, asked, now, acks).1->Ok_0;
    assert(was_free(state, subscription, now, taken[k]));
}

/// A subscriber that claims after a publish receives, under the id of a
/// published message, its data and its attributes, whichever subscription of
/// the topic it reads.
pub proof fn subscribers_receive_what_was_published(
    state: BrokerView,
    topic: Seq<char>,
    messages: Seq<MessageView>,
    ids: Seq<Seq<char>>,
    published: Timestamp,
    published_ms: i64,
    subscription: Seq<char>,
    max_count: nat,
    max_bytes: int,
    asked: Option<i32>,
    now: i64,
    acks: Seq<Seq<char>>,
    m: int,
    k: int,
)
    requires
        sound(state),
        is_named(state.subscriptions),
        ids.len() == messages.len(),
        are_new(cleaned(state, published_ms).messages, ids),
        publish_stamped_spec(state, topic, messages, ids, published, published_ms).1 is Ok,
        lookup(state.subscriptions, subscription) matches Some(s) && s.topic == topic,
        get_subscription_spec(state, subscription) is Ok,
        0 <= m < messages.len(),
        ({
            let after = publish_stamped_spec(
                state,
                topic,
                messages,
                ids,
                published,
                published_ms,
            ).0;
            let taken = claim_spec(
                after,
                subscription,
                max_count,
                max_bytes,
                asked,
                now,
                acks,
            ).1->Ok_0;
            0 <= k < taken.len() && taken[k].message.message_id == ids[m]
        }),
    ensures
        ({
            let after = publish_stamped_spec(
                state,
                topic,
                messages,
                ids,
                published,
                published_ms,
            ).0;
            let got = claim_spec(
                after,
                subscription,
                max_count,
                max_bytes,
                asked,
                now,
                acks,
            ).1->Ok_0[k];
            is_copy_of(got.message, messages[m], ids[m], published)
        }),
{
    published_messages_are_kept(
        state,
        topic,
        messages,
        ids,
        published,
        published_ms,
        subscription,
        m,
    );
    let after = publish_stamped_spec(state, topic, messages, ids, published, published_ms).0;
    received_messages_are_kept_ones(
        after,
        subscription,
        max_count,
        max_bytes,
        asked,
        now,
        acks,
        k,
    );
}

/// Kept messages never change: claiming, acknowledging and changing deadlines
/// leave every message as it is or remove it.
pub proof fn kept_messages_do_not_change(
    state: BrokerView,
    subscription: Seq<char>,
    max_count: nat,
    max_bytes: int,
    asked: Option<i32>,
    now: i64,
    acks: Seq<Seq<char>>,
    seconds: i32,
    id: Seq<char>,
)
    requires
        sound(state),
    ensures
        ({
            let claimed = claim_spec(
                state,
                subscription,
                max_count,
                max_bytes,
                asked,
                now,
                acks,
            ).0;
            let settled = acknowledged(state, subscription, acks);
            let modified = modify_spec(state, subscription, acks, seconds, now);
            let kept = lookup(state.messages, id);
            &&& lookup(claimed.messages, id) is Some ==> lookup(claimed.messages, id) == kept
            &&& kept is Some && kept->0.expiry > now ==> lookup(claimed.messages, id) == kept
            &&& lookup(settled.messages, id) is Some ==> lookup(settled.messages, id) == kept
            &&& modified is Ok ==> lookup(modified->Ok_0.messages, id) == kept
        }),
{
    lookup_after_keep(state.messages, |e: (Seq<char>, StoredView)| e.1.expiry > now, id);
    let left = acknowledged(state, subscription, acks).deliveries;
    lookup_after_keep(
        state.messages,
        |e: (Seq<char>, StoredView)| crate::broker::is_needed(left, e.0),
        id,
    );
}

/// The bound of a number of seconds that a lease may last.
pub open spec fn lease_seconds(wanted: int) -> int {
    if wanted < 10 {
        10
    } else if wanted > 600 {
        600
    } else {
        wanted
    }
}

/// A received message is leased for the seconds that were asked for, or for
/// those of the subscription, but for no less than ten and no more than six
/// hundred.
pub proof fn leases_last_as_long_as_asked(
    state: BrokerView,
    subscription: Seq<char>,
    max_count: nat,
    max_bytes: int,
    asked: Option<i32>,
    now: i64,
    acks: Seq<Seq<char>>,
    k: int,
)
    requires
        sound(state),
        get_subscription_spec(state, subscription) is Ok,
        0 <= k < claim_spec(
            state,
            subscription,
            max_count,
            max_bytes,
            asked,
            now,
            acks,
        ).1->Ok_0.len(),
    ensures
        ({
            let (after, outcome) = claim_spec(
                state,
                subscription,
                max_count,
                max_bytes,
                asked,
                now,
                acks,
            );
            let own = lookup(state.subscriptions, subscription)->0.ack_deadline_seconds;
            let wanted = lease_seconds(
                match asked {
                    Some(seconds) => seconds as int,
                    None => own as int,
                },
            );
            let key = subscription + seq!['\0'] + outcome->Ok_0[k].message.message_id;
            &&& lookup(after.deliveries, key) matches Some(d)
            &&& d.in_flight
            &&& d.ack_id == Some(acks[k])
            &&& d.deadline_ms matches Some(deadline)
            &&& deadline == now + wanted * 1000 || (deadline == i64::MAX && now + wanted * 1000
                > i64::MAX)
        }),
{
    claim_keeps_its_terms(state, subscription, max_count, max_bytes, asked, now, acks);
    let (after, outcome) = claim_spec(
        state,
        subscription,
        max_count,
        max_bytes,
        asked,
        now,
        acks,
    );
    let terms = crate::claims::terms_of(state, subscription, max_count, max_bytes, asked, now);
    assert(is_leased(after, subscription, terms.deadline, outcome->Ok_0[k]));
}

/// A change of deadline moves the deadlines of the deliveries leased under the
/// ids to so many seconds from now, and with none it gives them back; every
/// other delivery stays.
pub proof fn deadlines_move_as_asked(
    state: BrokerView,
    subscription: Seq<char>,
    ids: Seq<Seq<char>>,
    seconds: i32,
    now: i64,
    i: int,
)
    requires
        modify_spec(state, subscription, ids, seconds, now) is Ok,
        0 <= i < state.deliveries.len(),
    ensures
        ({
            let after = modify_spec(state, subscription, ids, seconds, now)->Ok_0;
            let (old_one, new_one) = (state.deliveries[i].1, after.deliveries[i].1);
            let meant = old_one.subscription == subscription && (old_one.ack_id matches Some(ack)
                && ids.contains(ack));
            &&& 0 <= seconds <= 600
            &&& after.deliveries.len() == state.deliveries.len()
            &&& after.deliveries[i].0 == state.deliveries[i].0
            &&& new_one.subscription == old_one.subscription
            &&& new_one.message_id == old_one.message_id
            &&& new_one.attempts == old_one.attempts
            &&& !meant ==> new_one == old_one
            &&& meant && seconds == 0 ==> !new_one.in_flight && new_one.ack_id is None
                && new_one.deadline_ms is None
            &&& meant && seconds > 0 ==> new_one.in_flight == old_one.in_flight && new_one.ack_id
                == old_one.ack_id && (new_one.deadline_ms matches Some(deadline) && (deadline == now
                + seconds * 1000 || (deadline == i64::MAX && now + seconds * 1000 > i64::MAX)))
        }),
{
}

/// Acknowledging removes exactly the deliveries of the subscription that are
/// leased under the ids.
pub proof fn acknowledging_removes_the_leased(
    state: BrokerView,
    subscription: Seq<char>,
    ids: Seq<Seq<char>>,
    i: int,
)
    requires
        sound(state),
        0 <= i < state.deliveries.len(),
    ensures
        ({
            let after = acknowledged(state, subscription, ids);
            let (key, d) = state.deliveries[i];
            let meant = d.subscription == subscription && (d.ack_id matches Some(ack)
                && ids.contains(ack));
            lookup(after.deliveries, key) == if meant {
                None
            } else {
                Some(d)
            }
        }),
{
    crate::ordered::lookup_at(state.deliveries, i);
    lookup_after_keep(
        state.deliveries,
        |e: (Seq<char>, DeliveryView)| !leased_under(e.1, subscription, ids),
        state.deliveries[i].0,
    );
}

/// A subscription is created as asked for, with a deadline of ten seconds where
/// none is given; it needs its topic, a name of its own, and a deadline between
/// ten and six hundred seconds.
pub proof fn subscriptions_are_created_as_asked(state: BrokerView, asked: SubscriptionView)
    ensures
        ({
            let made = create_subscription_spec(state, asked);
            &&& made matches Ok(s) ==> ({
                &&& s.name == asked.name
                &&& s.topic == asked.topic
                &&& s.labels == asked.labels
                &&& s.ack_deadline_seconds == (if asked.ack_deadline_seconds == 0 {
                    10
                } else {
                    asked.ack_deadline_seconds as int
                })
                &&& 10 <= s.ack_deadline_seconds <= 600
                &&& lookup(state.topics, asked.topic) is Some
                &&& lookup(state.subscriptions, asked.name) is None
            })
            &&& made is Err && made->Err_0.code == Code::AlreadyExists ==> lookup(
                state.subscriptions,
                asked.name,
            ) is Some
            &&& made is Err && made->Err_0.code == Code::NotFound ==> lookup(
                state.topics,
                asked.topic,
            ) is None
        }),
{
}

} // verus!
