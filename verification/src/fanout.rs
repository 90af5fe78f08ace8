//! What publishing adds: a copy of each message for each subscription of the
//! topic, and nothing for the others.
use crate::broker::{
    all_deliverable, cleaned, delivery_key, detached, fan_out,
    fresh_delivery, is_drawn_id, is_expired, publish_spec, stored, stored_message, subscribers, BrokerView,
    DeliveriesView, DeliveryView, StoredView,
};
use crate::claims::pending_prefix;
use crate::guarantees::{
    add_message_is_sound, cleanup_is_sound, delivery_keys_differ, delivery_sound,
    fan_out_is_sound, ids_fresh, parts_sound, sound, stored_is_sound, MessagesView,
};
use crate::leases::pending_spec;
use crate::ordered::{
    all_are_kept, keys_sorted, lookup, lookup_after_put, lookup_at, lookup_found, lower_bound,
    lower_bound_properties, put, put_sorted, without, without_sorted,
};
use crate::pubsub::{message_len, MessageView, SubscriptionView};
use vstd::prelude::*;

verus! {

/// Subscriptions by their names.
pub type SubscriptionsView = Seq<(Seq<char>, SubscriptionView)>;

/// Whether each subscription stands under its own name, once.
pub open spec fn is_named(subscriptions: SubscriptionsView) -> bool {
    keys_sorted(subscriptions) && forall|i: int|
        0 <= i < subscriptions.len() ==> (#[trigger] subscriptions[i]).1.name
            == subscriptions[i].0
}

/// Making, deleting and detaching subscriptions keeps each under its own name.
pub proof fn subscriptions_stay_named(
    subscriptions: SubscriptionsView,
    value: SubscriptionView,
    name: Seq<char>,
    topic: Seq<char>,
)
    requires
        is_named(subscriptions),
    ensures
        is_named(put(subscriptions, value.name, value)),
        is_named(without(subscriptions, name)),
        is_named(detached(subscriptions, topic)),
{
    put_sorted(subscriptions, value.name, value);
    without_sorted(subscriptions, name);
    lower_bound_properties(subscriptions, value.name);
    lower_bound_properties(subscriptions, name);
    let after = put(subscriptions, value.name, value);
    let b = lower_bound(subscriptions, value.name);
    assert forall|i: int| 0 <= i < after.len() implies (#[trigger] after[i]).1.name
        == after[i].0 by {
        if i != b {
            let k = if after.len() == subscriptions.len() || i < b { i } else { i - 1 };
            assert(after[i] == subscriptions[k]);
        }
    }
    let left = without(subscriptions, name);
    let c = lower_bound(subscriptions, name);
    assert forall|i: int| 0 <= i < left.len() implies (#[trigger] left[i]).1.name == left[i].0 by {
        let k = if left.len() == subscriptions.len() || i < c { i } else { i + 1 };
        assert(left[i] == subscriptions[k]);
    }
    let cut = detached(subscriptions, topic);
    assert forall|i: int, j: int| 0 <= i < j < cut.len() implies crate::text::text_less(
        #[trigger] cut[i].0,
        #[trigger] cut[j].0,
    ) by {
        assert(crate::text::text_less(subscriptions[i].0, subscriptions[j].0));
    }
    assert forall|i: int| 0 <= i < cut.len() implies (#[trigger] cut[i]).1.name == cut[i].0 by {
        assert(subscriptions[i].1.name == subscriptions[i].0);
    }
}

/// Whether a name is that of a subscription of a topic.
pub open spec fn subscribes(
    subscriptions: SubscriptionsView,
    topic: Seq<char>,
    name: Seq<char>,
) -> bool {
    exists|i: int|
        0 <= i < subscriptions.len() && (#[trigger] subscriptions[i]).1.name == name
            && subscriptions[i].1.topic == topic
}

proof fn subscribers_are_named(subscriptions: SubscriptionsView, topic: Seq<char>)
    requires
        is_named(subscriptions),
    ensures
        ({
            let names = subscribers(subscriptions, topic);
            &&& names.no_duplicates()
            &&& forall|name: Seq<char>| #[trigger]
                names.contains(name) <==> subscribes(subscriptions, topic, name)
        }),
    decreases subscriptions.len(),
{
    let names = subscribers(subscriptions, topic);
    if subscriptions.len() > 0 {
        let init = subscriptions.drop_last();
        let last = subscriptions.last();
        let n = subscriptions.len() - 1;
        assert(subscriptions[n] == last);
        assert(is_named(init)) by {
            assert forall|i: int, j: int| 0 <= i < j < init.len() implies crate::text::text_less(
                #[trigger] init[i].0,
                #[trigger] init[j].0,
            ) by {
                assert(init[i] == subscriptions[i] && init[j] == subscriptions[j]);
            }
            assert forall|i: int| 0 <= i < init.len() implies (#[trigger] init[i]).1.name
                == init[i].0 by {
                assert(init[i] == subscriptions[i]);
            }
        }
        subscribers_are_named(init, topic);
        let before = subscribers(init, topic);
        if before.contains(last.1.name) {
            assert(subscribes(init, topic, last.1.name));
            let i = choose|i: int|
                0 <= i < init.len() && (#[trigger] init[i]).1.name == last.1.name
                    && init[i].1.topic == topic;
            assert(init[i] == subscriptions[i]);
            assert(subscriptions[i].0 == subscriptions[n].0);
            lookup_at(subscriptions, i);
            lookup_at(subscriptions, n);
        }
        assert forall|name: Seq<char>| #[trigger] names.contains(name) <==> subscribes(
            subscriptions,
            topic,
            name,
        ) by {
            if names.contains(name) {
                let k = choose|k: int| 0 <= k < names.len() && names[k] == name;
                if k < before.len() {
                    assert(before[k] == name);
                    assert(before.contains(name));
                    let i = choose|i: int|
                        0 <= i < init.len() && (#[trigger] init[i]).1.name == name
                            && init[i].1.topic == topic;
                    assert(subscriptions[i] == init[i]);
                } else {
                    assert(subscriptions[n].1.name == name);
                }
            }
            if subscribes(subscriptions, topic, name) {
                let i = choose|i: int|
                    0 <= i < subscriptions.len() && (#[trigger] subscriptions[i]).1.name == name
                        && subscriptions[i].1.topic == topic;
                if i < n {
                    assert(init[i] == subscriptions[i]);
                    assert(subscribes(init, topic, name));
                    assert(before.contains(name));
                    let k = choose|k: int| 0 <= k < before.len() && before[k] == name;
                    assert(names[k] == name);
                } else {
                    assert(names[names.len() - 1] == name);
                }
            }
        }
    }
}

proof fn pending_inserted(
    deliveries: DeliveriesView,
    subscriptions: Seq<Seq<char>>,
    at: int,
    entry: (Seq<char>, DeliveryView),
)
    requires
        0 <= at <= deliveries.len(),
    ensures
        pending_spec(
            deliveries.insert(at, entry),
            subscriptions,
            deliveries.len() + 1,
        ) == pending_spec(deliveries, subscriptions, deliveries.len()) + if subscriptions.contains(
            entry.1.subscription,
        ) {
            1nat
        } else {
            0nat
        },
    decreases deliveries.len(),
{
    let all = deliveries.insert(at, entry);
    let n = deliveries.len();
    if at == n {
        assert forall|i: int| 0 <= i < n implies (#[trigger] all[i]).1.subscription
            == deliveries[i].1.subscription by {}
        pending_prefix(all, deliveries, subscriptions, n);
    } else {
        let init = deliveries.drop_last();
        pending_inserted(init, subscriptions, at, entry);
        let inner = init.insert(at, entry);
        assert forall|i: int| 0 <= i < n implies (#[trigger] all[i]).1.subscription
            == inner[i].1.subscription by {}
        pending_prefix(all, inner, subscriptions, n);
        pending_prefix(deliveries, init, subscriptions, (n - 1) as nat);
        assert(all[n as int] == deliveries[n - 1]);
    }
}

proof fn no_copy_yet(
    messages: MessagesView,
    deliveries: DeliveriesView,
    names: Seq<Seq<char>>,
    id: Seq<char>,
    name: Seq<char>,
)
    requires
        parts_sound(messages, deliveries),
        is_drawn_id(id),
        forall|i: int| 0 <= i < deliveries.len() ==> (#[trigger] deliveries[i]).1.message_id != id,
        !names.contains(name),
        lookup(messages, id) is Some,
    ensures
        lookup(fan_out(deliveries, names, id), delivery_key(name, id)) is None,
    decreases names.len(),
{
    let key = delivery_key(name, id);
    if names.len() == 0 {
        lookup_found(deliveries, key);
        if lookup(deliveries, key) is Some {
            let i = choose|i: int|
                0 <= i < deliveries.len() && #[trigger] deliveries[i] == (
                    key,
                    lookup(deliveries, key)->0,
                );
            assert(delivery_sound(messages, deliveries[i]));
            delivery_keys_differ(
                deliveries[i].1.subscription,
                deliveries[i].1.message_id,
                name,
                id,
            );
        }
    } else {
        let init = names.drop_last();
        assert(!init.contains(name)) by {
            if init.contains(name) {
                let k = choose|k: int| 0 <= k < init.len() && init[k] == name;
                assert(names[k] == name);
            }
        }
        assert(names[names.len() - 1] == names.last());
        no_copy_yet(messages, deliveries, init, id, name);
        fan_out_is_sound(messages, deliveries, init, id);
        let before = fan_out(deliveries, init, id);
        if delivery_key(names.last(), id) == key {
            delivery_keys_differ(names.last(), id, name, id);
        }
        lookup_after_put(
            before,
            delivery_key(names.last(), id),
            fresh_delivery(names.last(), id),
            key,
        );
    }
}

proof fn fan_out_adds(
    messages: MessagesView,
    deliveries: DeliveriesView,
    names: Seq<Seq<char>>,
    id: Seq<char>,
    name: Seq<char>,
)
    requires
        parts_sound(messages, deliveries),
        lookup(messages, id) is Some,
        is_drawn_id(id),
        forall|i: int| 0 <= i < deliveries.len() ==> (#[trigger] deliveries[i]).1.message_id != id,
        names.no_duplicates(),
    ensures
        ({
            let after = fan_out(deliveries, names, id);
            pending_spec(after, seq![name], after.len()) == pending_spec(
                deliveries,
                seq![name],
                deliveries.len(),
            ) + if names.contains(name) {
                1nat
            } else {
                0nat
            }
        }),
    decreases names.len(),
{
    if names.len() > 0 {
        let init = names.drop_last();
        let last = names.last();
        let top = names.len() - 1;
        assert(names[top] == last);
        assert(init.no_duplicates());
        fan_out_adds(messages, deliveries, init, id, name);
        let before = fan_out(deliveries, init, id);
        assert(!init.contains(last)) by {
            if init.contains(last) {
                let k = choose|k: int| 0 <= k < init.len() && init[k] == last;
                assert(names[k] == names[top]);
            }
        }
        no_copy_yet(messages, deliveries, init, id, last);
        fan_out_is_sound(messages, deliveries, init, id);
        let key = delivery_key(last, id);
        let entry = (key, fresh_delivery(last, id));
        lower_bound_properties(before, key);
        let b = lower_bound(before, key);
        assert(put(before, key, entry.1) == before.insert(b, entry));
        pending_inserted(before, seq![name], b, entry);
        assert(seq![name].contains(last) == (name == last)) by {
            assert(seq![name][0] == name);
        }
        assert(names.contains(name) == (init.contains(name) || name == last)) by {
            if names.contains(name) {
                let k = choose|k: int| 0 <= k < names.len() && names[k] == name;
                if k < top {
                    assert(init[k] == name);
                }
            }
            if init.contains(name) {
                let k = choose|k: int| 0 <= k < init.len() && init[k] == name;
                assert(names[k] == name);
            }
        }
    }
}

proof fn stored_adds(
    state: BrokerView,
    topic: Seq<char>,
    added: Seq<MessageView>,
    names: Seq<Seq<char>>,
    published: i64,
    name: Seq<char>,
)
    requires
        parts_sound(state.messages, state.deliveries),
        ids_fresh(state.messages, added),
        all_deliverable(added),
        names.no_duplicates(),
    ensures
        ({
            let after = stored(state, topic, added, names, published).deliveries;
            pending_spec(after, seq![name], after.len()) == pending_spec(
                state.deliveries,
                seq![name],
                state.deliveries.len(),
            ) + if names.contains(name) {
                added.len()
            } else {
                0
            }
        }),
    decreases added.len(),
{
    if added.len() > 0 {
        let init = added.drop_last();
        let message = added.last();
        let id = message.message_id;
        let last = added.len() - 1;
        assert(added[last] == message);
        assert(ids_fresh(state.messages, init)) by {
            assert forall|i: int| 0 <= i < init.len() implies is_drawn_id(
                (#[trigger] init[i]).message_id,
            ) && lookup(state.messages, init[i].message_id) is None by {
                assert(init[i] == added[i]);
            }
            assert forall|i: int, j: int| 0 <= i < j < init.len() implies (
            #[trigger] init[i]).message_id != (#[trigger] init[j]).message_id by {
                assert(init[i] == added[i] && init[j] == added[j]);
            }
        }
        assert(all_deliverable(init)) by {
            assert forall|i: int| 0 <= i < init.len() implies message_len(#[trigger] init[i])
                <= crate::broker::MAX_DELIVERY_MESSAGE_BYTES by {
                assert(init[i] == added[i]);
            }
        }
        stored_adds(state, topic, init, names, published, name);
        stored_is_sound(state, topic, init, names, published);
        let before = stored(state, topic, init, names, published);
        assert(lookup(before.messages, id) == lookup(state.messages, id)) by {
            assert forall|i: int| 0 <= i < init.len() implies (#[trigger] init[i]).message_id
                != id by {
                assert(init[i] == added[i]);
                assert(added[i].message_id != added[last].message_id);
            }
        }
        assert(message_len(added[last]) <= crate::broker::MAX_DELIVERY_MESSAGE_BYTES);
        assert forall|i: int| 0 <= i < before.deliveries.len() implies (
        #[trigger] before.deliveries[i]).1.message_id != id by {
            assert(delivery_sound(before.messages, before.deliveries[i]));
        }
        let value = stored_message(message, topic, published);
        add_message_is_sound(before.messages, before.deliveries, id, value);
        fan_out_adds(put(before.messages, id, value), before.deliveries, names, id, name);
    }
}

/// A publish that is accepted adds as many pending messages to each
/// subscription of the topic as were published, and none to any other; without
/// a subscription it stores nothing. What has expired goes first, and where
/// nothing has, everything stays.
pub proof fn publishing_adds_to_each_subscription(
    state: BrokerView,
    topic: Seq<char>,
    added: Seq<MessageView>,
    published_ms: i64,
    name: Seq<char>,
)
    requires
        sound(state),
        is_named(state.subscriptions),
        ids_fresh(cleaned(state, published_ms).messages, added),
        all_deliverable(added),
        publish_spec(state, topic, added, published_ms).1 is Ok,
    ensures
        ({
            let before = cleaned(state, published_ms);
            let after = publish_spec(state, topic, added, published_ms).0;
            &&& pending_spec(after.deliveries, seq![name], after.deliveries.len()) == pending_spec(
                before.deliveries,
                seq![name],
                before.deliveries.len(),
            ) + if subscribes(state.subscriptions, topic, name) {
                added.len()
            } else {
                0
            }
            &&& subscribers(state.subscriptions, topic).len() == 0 ==> after == before
            &&& (forall|i: int|
                0 <= i < state.messages.len() ==> (#[trigger] state.messages[i]).1.expiry
                    > published_ms) ==> before == state
        }),
{
    cleanup_is_sound(state, published_ms);
    let before = cleaned(state, published_ms);
    subscribers_are_named(state.subscriptions, topic);
    let names = subscribers(state.subscriptions, topic);
    stored_adds(before, topic, added, names, published_ms, name);
    assert(names.contains(name) <==> subscribes(state.subscriptions, topic, name));
    if names.len() == 0 {
        assert(!names.contains(name));
    }
    if forall|i: int|
        0 <= i < state.messages.len() ==> (#[trigger] state.messages[i]).1.expiry > published_ms {
        all_are_kept(state.messages, |e: (Seq<char>, StoredView)| e.1.expiry > published_ms);
        let keep = |e: (Seq<char>, DeliveryView)|
            !is_expired(state.messages, e.1.message_id, published_ms);
        assert forall|i: int| 0 <= i < state.deliveries.len() implies keep(
            #[trigger] state.deliveries[i],
        ) by {
            let id = state.deliveries[i].1.message_id;
            lookup_found(state.messages, id);
        }
        all_are_kept(state.deliveries, keep);
        assert(before =~= state);
    }
}

} // verus!
