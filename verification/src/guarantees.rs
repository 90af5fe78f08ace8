//! What holds of the Pub/Sub broker in every state that its operations reach.
use crate::broker::{
    all_deliverable, cleaned, delivery_key, fan_out, fresh_delivery,
    get_subscription_spec, is_drawn_id, is_expired, is_needed, is_uuid_char, live_messages,
    pending_bytes, publishable, publish_spec, size_of, stamped, stored, stored_message, subscribers, total_bytes,
    BrokerView, DeliveriesView, DeliveryView, StoredView, MAX_DELIVERY_MESSAGE_BYTES,
    MAX_PENDING_BYTES, MAX_PENDING_DELIVERIES,
};
use crate::leases::{
    acknowledged, any_fits, before_claim, candidates_wait, claim_candidates, claim_deadline,
    claim_fold, claim_spec,
    deadlines_modified, leased_under, modify_spec, waiting, without_subscription, ClaimTerms,
};
use crate::ordered::{
    keep_entries, keep_entries_sorted, keys_sorted, lookup, lookup_after_keep, lookup_after_put,
    lookup_at, lookup_found, lower_bound, lower_bound_properties, put, put_sorted,
};
use crate::pubsub::{message_len, signed_len, varint_len, MessageView};
use crate::timestamps::is_current;
use crate::value::Timestamp;
use vstd::prelude::*;

verus! {

/// Messages by their ids.
pub type MessagesView = Seq<(Seq<char>, StoredView)>;

/// Whether a message is stored under its id with its size.
pub open spec fn message_sound(entry: (Seq<char>, StoredView)) -> bool {
    entry.1.message.message_id == entry.0 && entry.1.size == message_len(entry.1.message)
        && entry.1.size <= MAX_DELIVERY_MESSAGE_BYTES
}

/// Whether a delivery is stored under its key and its message is there.
pub open spec fn delivery_sound(messages: MessagesView, entry: (Seq<char>, DeliveryView)) -> bool {
    entry.0 == delivery_key(entry.1.subscription, entry.1.message_id) && is_drawn_id(
        entry.1.message_id,
    ) && lookup(messages, entry.1.message_id) is Some
}

/// Whether the messages and the deliveries fit together.
pub open spec fn parts_sound(messages: MessagesView, deliveries: DeliveriesView) -> bool {
    keys_sorted(messages) && keys_sorted(deliveries) && (forall|i: int|
        0 <= i < messages.len() ==> message_sound(#[trigger] messages[i])) && (forall|i: int|
        0 <= i < deliveries.len() ==> delivery_sound(messages, #[trigger] deliveries[i]))
}

/// Whether no more is pending than may be.
pub open spec fn within_limits(messages: MessagesView, deliveries: DeliveriesView) -> bool {
    deliveries.len() <= MAX_PENDING_DELIVERIES && pending_bytes(messages, deliveries)
        <= MAX_PENDING_BYTES
}

/// Whether a state is one that the operations of the broker reach.
pub open spec fn sound(state: BrokerView) -> bool {
    parts_sound(state.messages, state.deliveries) && within_limits(
        state.messages,
        state.deliveries,
    )
}

/// A broker without messages is sound.
pub proof fn empty_is_sound(state: BrokerView)
    requires
        state.messages.len() == 0,
        state.deliveries.len() == 0,
    ensures
        sound(state),
{
}

/// The size of a message of a sound state can be delivered.
pub proof fn size_is_sound(messages: MessagesView, id: Seq<char>)
    requires
        keys_sorted(messages),
        forall|i: int| 0 <= i < messages.len() ==> message_sound(#[trigger] messages[i]),
    ensures
        0 <= size_of(messages, id) <= MAX_DELIVERY_MESSAGE_BYTES,
{
    lookup_found(messages, id);
    if lookup(messages, id) is Some {
        let i = choose|i: int|
            0 <= i < messages.len() && #[trigger] messages[i] == (id, lookup(messages, id)->0);
        assert(message_sound(messages[i]));
    }
}

proof fn pending_not_negative(messages: MessagesView, deliveries: DeliveriesView)
    requires
        keys_sorted(messages),
        forall|i: int| 0 <= i < messages.len() ==> message_sound(#[trigger] messages[i]),
    ensures
        pending_bytes(messages, deliveries) >= 0,
    decreases deliveries.len(),
{
    if deliveries.len() > 0 {
        pending_not_negative(messages, deliveries.drop_last());
        size_is_sound(messages, deliveries.last().1.message_id);
    }
}

proof fn pending_of_kept(
    messages: MessagesView,
    deliveries: DeliveriesView,
    keep: spec_fn((Seq<char>, DeliveryView)) -> bool,
)
    requires
        keys_sorted(messages),
        forall|i: int| 0 <= i < messages.len() ==> message_sound(#[trigger] messages[i]),
    ensures
        pending_bytes(messages, keep_entries(deliveries, keep)) <= pending_bytes(
            messages,
            deliveries,
        ),
        keep_entries(deliveries, keep).len() <= deliveries.len(),
    decreases deliveries.len(),
{
    if deliveries.len() > 0 {
        let init = deliveries.drop_last();
        pending_of_kept(messages, init, keep);
        size_is_sound(messages, deliveries.last().1.message_id);
        let kept = keep_entries(init, keep);
        assert(kept.push(deliveries.last()).drop_last() =~= kept);
    }
}

proof fn pending_same_sizes(a: MessagesView, b: MessagesView, deliveries: DeliveriesView)
    requires
        forall|i: int|
            0 <= i < deliveries.len() ==> size_of(a, (#[trigger] deliveries[i]).1.message_id)
                == size_of(b, deliveries[i].1.message_id),
    ensures
        pending_bytes(a, deliveries) == pending_bytes(b, deliveries),
    decreases deliveries.len(),
{
    if deliveries.len() > 0 {
        let init = deliveries.drop_last();
        assert forall|i: int| 0 <= i < init.len() implies size_of(
            a,
            (#[trigger] init[i]).1.message_id,
        ) == size_of(b, init[i].1.message_id) by {
            assert(init[i] == deliveries[i]);
        }
        pending_same_sizes(a, b, init);
        assert(deliveries.last() == deliveries[deliveries.len() - 1]);
    }
}

proof fn pending_same_ids(messages: MessagesView, a: DeliveriesView, b: DeliveriesView)
    requires
        a.len() == b.len(),
        forall|i: int| 0 <= i < a.len() ==> (#[trigger] a[i]).1.message_id == b[i].1.message_id,
    ensures
        pending_bytes(messages, a) == pending_bytes(messages, b),
    decreases a.len(),
{
    if a.len() > 0 {
        let x = a.drop_last();
        let y = b.drop_last();
        assert forall|i: int| 0 <= i < x.len() implies (#[trigger] x[i]).1.message_id
            == y[i].1.message_id by {
            assert(x[i] == a[i] && y[i] == b[i]);
        }
        pending_same_ids(messages, x, y);
        assert(a[a.len() - 1].1.message_id == b[b.len() - 1].1.message_id);
    }
}

proof fn pending_of_inserted(
    messages: MessagesView,
    deliveries: DeliveriesView,
    at: int,
    entry: (Seq<char>, DeliveryView),
)
    requires
        0 <= at <= deliveries.len(),
    ensures
        pending_bytes(messages, deliveries.insert(at, entry)) == pending_bytes(
            messages,
            deliveries,
        ) + size_of(messages, entry.1.message_id),
    decreases deliveries.len(),
{
    let all = deliveries.insert(at, entry);
    if at == deliveries.len() {
        assert(all.drop_last() =~= deliveries);
    } else {
        let init = deliveries.drop_last();
        assert(all.drop_last() =~= init.insert(at, entry));
        assert(all.last() == deliveries.last());
        pending_of_inserted(messages, init, at, entry);
    }
}

/// Dropping deliveries, and with them only messages that the others do not
/// need, keeps a state sound.
proof fn dropping_is_sound(
    messages: MessagesView,
    deliveries: DeliveriesView,
    keep_delivery: spec_fn((Seq<char>, DeliveryView)) -> bool,
    keep_message: spec_fn((Seq<char>, StoredView)) -> bool,
)
    requires
        parts_sound(messages, deliveries),
        within_limits(messages, deliveries),
        forall|i: int|
            0 <= i < keep_entries(deliveries, keep_delivery).len() ==> keep_message(
                (
                    (#[trigger] keep_entries(deliveries, keep_delivery)[i]).1.message_id,
                    lookup(
                        messages,
                        keep_entries(deliveries, keep_delivery)[i].1.message_id,
                    )->0,
                ),
            ),
    ensures
        parts_sound(
            keep_entries(messages, keep_message),
            keep_entries(deliveries, keep_delivery),
        ),
        within_limits(
            keep_entries(messages, keep_message),
            keep_entries(deliveries, keep_delivery),
        ),
{
    let new_messages = keep_entries(messages, keep_message);
    let new_deliveries = keep_entries(deliveries, keep_delivery);
    keep_entries_sorted(messages, keep_message);
    keep_entries_sorted(deliveries, keep_delivery);
    assert forall|i: int| 0 <= i < new_messages.len() implies message_sound(
        #[trigger] new_messages[i],
    ) by {
        lookup_at(new_messages, i);
        lookup_after_keep(messages, keep_message, new_messages[i].0);
        lookup_found(messages, new_messages[i].0);
        let k = choose|k: int|
            0 <= k < messages.len() && #[trigger] messages[k] == (
                new_messages[i].0,
                lookup(messages, new_messages[i].0)->0,
            );
        assert(message_sound(messages[k]));
    }
    assert forall|i: int| 0 <= i < new_deliveries.len() implies delivery_sound(
        new_messages,
        #[trigger] new_deliveries[i],
    ) && size_of(messages, new_deliveries[i].1.message_id) == size_of(
        new_messages,
        new_deliveries[i].1.message_id,
    ) by {
        lookup_at(new_deliveries, i);
        lookup_after_keep(deliveries, keep_delivery, new_deliveries[i].0);
        lookup_found(deliveries, new_deliveries[i].0);
        let k = choose|k: int|
            0 <= k < deliveries.len() && #[trigger] deliveries[k] == (
                new_deliveries[i].0,
                lookup(deliveries, new_deliveries[i].0)->0,
            );
        assert(delivery_sound(messages, deliveries[k]));
        lookup_after_keep(messages, keep_message, new_deliveries[i].1.message_id);
    }
    pending_of_kept(messages, deliveries, keep_delivery);
    pending_same_sizes(messages, new_messages, new_deliveries);
}

proof fn kept_from(
    deliveries: DeliveriesView,
    keep: spec_fn((Seq<char>, DeliveryView)) -> bool,
    i: int,
) -> (k: int)
    requires
        keys_sorted(deliveries),
        0 <= i < keep_entries(deliveries, keep).len(),
    ensures
        0 <= k < deliveries.len(),
        deliveries[k] == keep_entries(deliveries, keep)[i],
        keep(deliveries[k]),
{
    let kept = keep_entries(deliveries, keep);
    keep_entries_sorted(deliveries, keep);
    lookup_at(kept, i);
    lookup_after_keep(deliveries, keep, kept[i].0);
    lookup_found(deliveries, kept[i].0);
    choose|k: int|
        0 <= k < deliveries.len() && #[trigger] deliveries[k] == (
            kept[i].0,
            lookup(deliveries, kept[i].0)->0,
        )
}

/// Removing what has expired keeps the broker sound.
pub proof fn cleanup_is_sound(state: BrokerView, now: i64)
    requires
        sound(state),
    ensures
        sound(cleaned(state, now)),
{
    let keep_delivery = |e: (Seq<char>, DeliveryView)|
        !is_expired(state.messages, e.1.message_id, now);
    let keep_message = |e: (Seq<char>, StoredView)| e.1.expiry > now;
    assert forall|i: int| 0 <= i < keep_entries(state.deliveries, keep_delivery).len() implies
        keep_message(
        (
            (#[trigger] keep_entries(state.deliveries, keep_delivery)[i]).1.message_id,
            lookup(
                state.messages,
                keep_entries(state.deliveries, keep_delivery)[i].1.message_id,
            )->0,
        ),
    ) by {
        let k = kept_from(state.deliveries, keep_delivery, i);
        assert(delivery_sound(state.messages, state.deliveries[k]));
    }
    dropping_is_sound(state.messages, state.deliveries, keep_delivery, keep_message);
}

proof fn dropping_deliveries_is_sound(
    state: BrokerView,
    keep: spec_fn((Seq<char>, DeliveryView)) -> bool,
)
    requires
        sound(state),
    ensures
        parts_sound(
            live_messages(state.messages, keep_entries(state.deliveries, keep)),
            keep_entries(state.deliveries, keep),
        ),
        within_limits(
            live_messages(state.messages, keep_entries(state.deliveries, keep)),
            keep_entries(state.deliveries, keep),
        ),
{
    let left = keep_entries(state.deliveries, keep);
    let keep_message = |e: (Seq<char>, StoredView)| is_needed(left, e.0);
    assert forall|i: int| 0 <= i < left.len() implies keep_message(
        (
            (#[trigger] left[i]).1.message_id,
            lookup(state.messages, left[i].1.message_id)->0,
        ),
    ) by {}
    dropping_is_sound(state.messages, state.deliveries, keep, keep_message);
}

/// Acknowledging keeps the broker sound.
pub proof fn acknowledge_is_sound(state: BrokerView, subscription: Seq<char>, ids: Seq<Seq<char>>)
    requires
        sound(state),
    ensures
        sound(acknowledged(state, subscription, ids)),
{
    dropping_deliveries_is_sound(
        state,
        |e: (Seq<char>, DeliveryView)| !leased_under(e.1, subscription, ids),
    );
}

/// Deleting a subscription keeps the broker sound.
pub proof fn delete_subscription_is_sound(state: BrokerView, name: Seq<char>)
    requires
        sound(state),
    ensures
        sound(without_subscription(state, name)),
{
    dropping_deliveries_is_sound(state, |e: (Seq<char>, DeliveryView)| e.1.subscription != name);
}

/// Changing leases, but neither keys nor what is delivered, keeps a state
/// sound.
pub proof fn relabelling_is_sound(
    messages: MessagesView,
    before: DeliveriesView,
    after: DeliveriesView,
)
    requires
        parts_sound(messages, before),
        within_limits(messages, before),
        before.len() == after.len(),
        forall|i: int|
            0 <= i < before.len() ==> (#[trigger] after[i]).0 == before[i].0
                && after[i].1.subscription == before[i].1.subscription && after[i].1.message_id
                == before[i].1.message_id,
    ensures
        parts_sound(messages, after),
        within_limits(messages, after),
{
    assert forall|i: int, j: int| 0 <= i < j < after.len() implies crate::text::text_less(
        #[trigger] after[i].0,
        #[trigger] after[j].0,
    ) by {
        assert(crate::text::text_less(before[i].0, before[j].0));
    }
    assert forall|i: int| 0 <= i < after.len() implies delivery_sound(
        messages,
        #[trigger] after[i],
    ) by {
        assert(delivery_sound(messages, before[i]));
    }
    pending_same_ids(messages, after, before);
}

/// Moving deadlines keeps the broker sound.
pub proof fn modify_is_sound(
    state: BrokerView,
    subscription: Seq<char>,
    ids: Seq<Seq<char>>,
    seconds: i32,
    now: i64,
)
    requires
        sound(state),
        modify_spec(state, subscription, ids, seconds, now) is Ok,
    ensures
        sound(modify_spec(state, subscription, ids, seconds, now)->Ok_0),
{
    relabelling_is_sound(
        state.messages,
        state.deliveries,
        deadlines_modified(state.deliveries, subscription, ids, seconds, now),
    );
}

/// What waits for a subscription are deliveries of it, each once.
pub proof fn waiting_holds(deliveries: DeliveriesView, subscription: Seq<char>, n: nat)
    requires
        n <= deliveries.len(),
    ensures
        forall|j: int|
            0 <= j < waiting(deliveries, subscription, n).len() ==> 0 <= #[trigger] waiting(
                deliveries,
                subscription,
                n,
            )[j] < n && deliveries[waiting(deliveries, subscription, n)[j]].1.subscription
                == subscription,
        forall|j: int, k: int|
            0 <= j < k < waiting(deliveries, subscription, n).len() ==> #[trigger] waiting(
                deliveries,
                subscription,
                n,
            )[j] < #[trigger] waiting(deliveries, subscription, n)[k],
    decreases n,
{
    if n > 0 {
        waiting_holds(deliveries, subscription, (n - 1) as nat);
    }
}

/// Claims in a sound state never fail on a message, change only the leases of
/// the subscription and hand out its messages.
proof fn claim_fold_holds(
    messages: MessagesView,
    deliveries: DeliveriesView,
    candidates: Seq<int>,
    terms: ClaimTerms,
    acks: Seq<Seq<char>>,
    n: nat,
)
    requires
        parts_sound(messages, deliveries),
        n <= candidates.len(),
        forall|j: int|
            0 <= j < candidates.len() ==> 0 <= #[trigger] candidates[j] < deliveries.len(),
    ensures
        ({
            let done = claim_fold(messages, deliveries, candidates, terms, acks, n);
            &&& done.error is None
            &&& done.taken.len() <= terms.max_count
            &&& done.taken.len() <= n
            &&& done.deliveries.len() == deliveries.len()
            &&& forall|i: int|
                0 <= i < deliveries.len() ==> (#[trigger] done.deliveries[i]).0 == deliveries[i].0
                    && done.deliveries[i].1.subscription == deliveries[i].1.subscription
                    && done.deliveries[i].1.message_id == deliveries[i].1.message_id
        }),
    decreases n,
{
    if n > 0 {
        claim_fold_holds(messages, deliveries, candidates, terms, acks, (n - 1) as nat);
        let before = claim_fold(messages, deliveries, candidates, terms, acks, (n - 1) as nat);
        let at = candidates[n - 1];
        assert(delivery_sound(messages, deliveries[at]));
        assert(before.deliveries[at].1.message_id == deliveries[at].1.message_id);
        size_is_sound(messages, deliveries[at].1.message_id);
    }
}

/// A claim keeps the broker sound. In a sound broker it fails only where the
/// subscription cannot be read, and takes no more messages than asked for.
pub proof fn claim_is_sound(
    state: BrokerView,
    subscription: Seq<char>,
    max_count: nat,
    max_bytes: int,
    asked: Option<i32>,
    now: i64,
    acks: Seq<Seq<char>>,
)
    requires
        sound(state),
    ensures
        ({
            let after = claim_spec(state, subscription, max_count, max_bytes, asked, now, acks);
            &&& sound(after.0)
            &&& (after.1 is Ok) == (get_subscription_spec(state, subscription) is Ok)
            &&& after.1 is Ok ==> after.1->Ok_0.len() <= max_count
        }),
{
    if get_subscription_spec(state, subscription) is Ok {
        cleanup_is_sound(state, now);
        let tidy = cleaned(state, now);
        let current = before_claim(state, subscription, now);
        relabelling_is_sound(tidy.messages, tidy.deliveries, current.deliveries);
        let candidates = claim_candidates(current, subscription, max_count);
        candidates_wait(current, subscription, max_count);
        let found = get_subscription_spec(state, subscription)->Ok_0;
        let terms = ClaimTerms {
            max_count,
            max_bytes,
            deadline: claim_deadline(found.ack_deadline_seconds, asked, now),
            has_fitting: any_fits(current.messages, current.deliveries, candidates, max_bytes),
        };
        claim_fold_holds(
            current.messages,
            current.deliveries,
            candidates,
            terms,
            acks,
            candidates.len(),
        );
        let done = claim_fold(
            current.messages,
            current.deliveries,
            candidates,
            terms,
            acks,
            candidates.len(),
        );
        relabelling_is_sound(current.messages, current.deliveries, done.deliveries);
    }
}

/// Acknowledging for one subscription leaves the copies of every other one
/// alone, with their messages.
pub proof fn acknowledging_is_independent(
    state: BrokerView,
    subscription: Seq<char>,
    ids: Seq<Seq<char>>,
    i: int,
)
    requires
        sound(state),
        0 <= i < state.deliveries.len(),
        state.deliveries[i].1.subscription != subscription,
    ensures
        lookup(acknowledged(state, subscription, ids).deliveries, state.deliveries[i].0) == Some(
            state.deliveries[i].1,
        ),
        lookup(
            acknowledged(state, subscription, ids).messages,
            state.deliveries[i].1.message_id,
        ) == lookup(state.messages, state.deliveries[i].1.message_id),
{
    let keep = |e: (Seq<char>, DeliveryView)| !leased_under(e.1, subscription, ids);
    let entry = state.deliveries[i];
    lookup_at(state.deliveries, i);
    lookup_after_keep(state.deliveries, keep, entry.0);
    let left = keep_entries(state.deliveries, keep);
    lookup_found(left, entry.0);
    let k = choose|k: int|
        0 <= k < left.len() && #[trigger] left[k] == (entry.0, lookup(left, entry.0)->0);
    assert(left[k].1.message_id == entry.1.message_id);
    assert(is_needed(left, entry.1.message_id));
    assert(delivery_sound(state.messages, entry));
    lookup_after_keep(
        state.messages,
        |e: (Seq<char>, StoredView)| is_needed(left, e.0),
        entry.1.message_id,
    );
}

/// An acknowledged delivery is gone.
pub proof fn acknowledged_is_gone(
    state: BrokerView,
    subscription: Seq<char>,
    ids: Seq<Seq<char>>,
    i: int,
)
    requires
        keys_sorted(state.deliveries),
        0 <= i < state.deliveries.len(),
        leased_under(state.deliveries[i].1, subscription, ids),
    ensures
        lookup(
            acknowledged(state, subscription, ids).deliveries,
            state.deliveries[i].0,
        ) is None,
{
    lookup_at(state.deliveries, i);
    lookup_after_keep(
        state.deliveries,
        |e: (Seq<char>, DeliveryView)| !leased_under(e.1, subscription, ids),
        state.deliveries[i].0,
    );
}

/// A zero-second deadline releases the lease: the delivery waits again, with
/// the same message.
pub proof fn nack_releases(
    state: BrokerView,
    subscription: Seq<char>,
    ids: Seq<Seq<char>>,
    now: i64,
    i: int,
)
    requires
        0 <= i < state.deliveries.len(),
        leased_under(state.deliveries[i].1, subscription, ids),
    ensures
        ({
            let after = deadlines_modified(state.deliveries, subscription, ids, 0, now)[i].1;
            &&& !after.in_flight
            &&& after.ack_id is None
            &&& after.message_id == state.deliveries[i].1.message_id
            &&& after.subscription == subscription
        }),
{
}

/// The key of a delivery tells which subscription and message it is of, where
/// the ids are drawn ones.
pub proof fn delivery_keys_differ(s1: Seq<char>, id1: Seq<char>, s2: Seq<char>, id2: Seq<char>)
    requires
        is_drawn_id(id1),
        is_drawn_id(id2),
        delivery_key(s1, id1) == delivery_key(s2, id2),
    ensures
        s1 == s2,
        id1 == id2,
{
    let a = delivery_key(s1, id1);
    let b = delivery_key(s2, id2);
    assert(a.len() == s1.len() + 1 + 36);
    assert(b.len() == s2.len() + 1 + 36);
    assert(s1.len() == s2.len());
    assert forall|i: int| 0 <= i < s1.len() implies s1[i] == s2[i] by {
        assert(a[i] == s1[i] && b[i] == s2[i]);
    }
    assert forall|i: int| 0 <= i < 36 implies id1[i] == id2[i] by {
        assert(a[s1.len() + 1 + i] == id1[i] && b[s2.len() + 1 + i] == id2[i]);
    }
    assert(s1 =~= s2);
    assert(id1 =~= id2);
}

proof fn add_delivery_is_sound(
    messages: MessagesView,
    deliveries: DeliveriesView,
    name: Seq<char>,
    id: Seq<char>,
)
    requires
        parts_sound(messages, deliveries),
        lookup(messages, id) is Some,
        is_drawn_id(id),
    ensures
        ({
            let after = put(deliveries, delivery_key(name, id), fresh_delivery(name, id));
            &&& parts_sound(messages, after)
            &&& after.len() <= deliveries.len() + 1
            &&& pending_bytes(messages, after) <= pending_bytes(messages, deliveries) + size_of(
                messages,
                id,
            )
        }),
{
    let key = delivery_key(name, id);
    let entry = (key, fresh_delivery(name, id));
    let after = put(deliveries, key, entry.1);
    put_sorted(deliveries, key, entry.1);
    lower_bound_properties(deliveries, key);
    let b = lower_bound(deliveries, key);
    size_is_sound(messages, id);
    assert(delivery_sound(messages, entry));
    assert forall|i: int| 0 <= i < after.len() implies delivery_sound(
        messages,
        #[trigger] after[i],
    ) by {
        if i != b {
            let k = if after.len() == deliveries.len() || i < b { i } else { i - 1 };
            assert(after[i] == deliveries[k]);
        }
    }
    if b < deliveries.len() && deliveries[b].0 == key {
        assert(delivery_sound(messages, deliveries[b]));
        delivery_keys_differ(
            deliveries[b].1.subscription,
            deliveries[b].1.message_id,
            name,
            id,
        );
        assert forall|i: int| 0 <= i < after.len() implies (#[trigger] after[i]).1.message_id
            == deliveries[i].1.message_id by {}
        pending_same_ids(messages, after, deliveries);
    } else {
        pending_of_inserted(messages, deliveries, b, entry);
    }
}

/// Fanning a message out keeps the parts of a state sound.
pub proof fn fan_out_is_sound(
    messages: MessagesView,
    deliveries: DeliveriesView,
    names: Seq<Seq<char>>,
    id: Seq<char>,
)
    requires
        parts_sound(messages, deliveries),
        lookup(messages, id) is Some,
        is_drawn_id(id),
    ensures
        ({
            let after = fan_out(deliveries, names, id);
            &&& parts_sound(messages, after)
            &&& after.len() <= deliveries.len() + names.len()
            &&& pending_bytes(messages, after) <= pending_bytes(messages, deliveries) + size_of(
                messages,
                id,
            ) * names.len()
        }),
    decreases names.len(),
{
    let size = size_of(messages, id);
    if names.len() > 0 {
        let init = names.drop_last();
        fan_out_is_sound(messages, deliveries, init, id);
        add_delivery_is_sound(messages, fan_out(deliveries, init, id), names.last(), id);
        let n = names.len() as int;
        assert(size * n == size * (n - 1) + size) by (nonlinear_arith);
    } else {
        assert(size * 0 == 0);
    }
}

/// Whether the ids of messages are new and different from each other.
pub open spec fn ids_fresh(messages: MessagesView, added: Seq<MessageView>) -> bool {
    (forall|i: int|
        0 <= i < added.len() ==> is_drawn_id((#[trigger] added[i]).message_id) && lookup(
            messages,
            added[i].message_id,
        ) is None) && forall|i: int, j: int|
        0 <= i < j < added.len() ==> (#[trigger] added[i]).message_id != (
        #[trigger] added[j]).message_id
}

proof fn put_message_sound(messages: MessagesView, id: Seq<char>, value: StoredView)
    requires
        forall|i: int| 0 <= i < messages.len() ==> message_sound(#[trigger] messages[i]),
        message_sound((id, value)),
    ensures
        forall|i: int|
            0 <= i < put(messages, id, value).len() ==> message_sound(
                #[trigger] put(messages, id, value)[i],
            ),
{
    let after = put(messages, id, value);
    lower_bound_properties(messages, id);
    let b = lower_bound(messages, id);
    assert forall|i: int| 0 <= i < after.len() implies message_sound(#[trigger] after[i]) by {
        if i != b {
            let k = if after.len() == messages.len() || i < b { i } else { i - 1 };
            assert(after[i] == messages[k]);
        }
    }
}

proof fn put_message_keeps_delivery(
    messages: MessagesView,
    id: Seq<char>,
    value: StoredView,
    delivery: (Seq<char>, DeliveryView),
)
    requires
        keys_sorted(messages),
        lookup(messages, id) is None,
        delivery_sound(messages, delivery),
    ensures
        delivery_sound(put(messages, id, value), delivery),
        size_of(put(messages, id, value), delivery.1.message_id) == size_of(
            messages,
            delivery.1.message_id,
        ),
{
    lookup_after_put(messages, id, value, delivery.1.message_id);
}

/// Adding a message under a new id keeps the parts of a state sound.
pub proof fn add_message_is_sound(
    messages: MessagesView,
    deliveries: DeliveriesView,
    id: Seq<char>,
    value: StoredView,
)
    requires
        parts_sound(messages, deliveries),
        lookup(messages, id) is None,
        message_sound((id, value)),
    ensures
        parts_sound(put(messages, id, value), deliveries),
        pending_bytes(put(messages, id, value), deliveries) == pending_bytes(
            messages,
            deliveries,
        ),
        lookup(put(messages, id, value), id) == Some(value),
{
    let after = put(messages, id, value);
    put_sorted(messages, id, value);
    lookup_after_put(messages, id, value, id);
    put_message_sound(messages, id, value);
    assert forall|i: int| 0 <= i < deliveries.len() implies delivery_sound(
        after,
        #[trigger] deliveries[i],
    ) && size_of(after, deliveries[i].1.message_id) == size_of(
        messages,
        deliveries[i].1.message_id,
    ) by {
        put_message_keeps_delivery(messages, id, value, deliveries[i]);
    }
    pending_same_sizes(after, messages, deliveries);
}

/// Storing messages under new ids keeps the parts of a state sound.
pub proof fn stored_is_sound(
    state: BrokerView,
    topic: Seq<char>,
    added: Seq<MessageView>,
    names: Seq<Seq<char>>,
    published: i64,
)
    requires
        parts_sound(state.messages, state.deliveries),
        ids_fresh(state.messages, added),
        all_deliverable(added),
    ensures
        ({
            let after = stored(state, topic, added, names, published);
            &&& parts_sound(after.messages, after.deliveries)
            &&& after.deliveries.len() <= state.deliveries.len() + names.len() * added.len()
            &&& pending_bytes(after.messages, after.deliveries) <= pending_bytes(
                state.messages,
                state.deliveries,
            ) + total_bytes(added) * names.len()
            &&& forall|id: Seq<char>|
                (forall|i: int|
                    0 <= i < added.len() ==> (#[trigger] added[i]).message_id != id)
                    ==> #[trigger] lookup(after.messages, id) == lookup(state.messages, id)
        }),
    decreases added.len(),
{
    if added.len() > 0 {
        let init = added.drop_last();
        let message = added.last();
        let id = message.message_id;
        let last = added.len() - 1;
        assert(added[last] == message);
        assert(ids_fresh(state.messages, init)) by {
            assert forall|i: int| 0 <= i < init.len() implies is_drawn_id(
                (#[trigger] init[i]).message_id,
            ) && lookup(state.messages, init[i].message_id) is None by {
                assert(init[i] == added[i]);
            }
            assert forall|i: int, j: int| 0 <= i < j < init.len() implies (
            #[trigger] init[i]).message_id != (#[trigger] init[j]).message_id by {
                assert(init[i] == added[i] && init[j] == added[j]);
            }
        }
        assert(all_deliverable(init)) by {
            assert forall|i: int| 0 <= i < init.len() implies message_len(#[trigger] init[i])
                <= MAX_DELIVERY_MESSAGE_BYTES by {
                assert(init[i] == added[i]);
            }
        }
        stored_is_sound(state, topic, init, names, published);
        let before = stored(state, topic, init, names, published);
        assert(lookup(before.messages, id) == lookup(state.messages, id)) by {
            assert forall|i: int| 0 <= i < init.len() implies (#[trigger] init[i]).message_id
                != id by {
                assert(init[i] == added[i]);
                assert(added[i].message_id != added[last].message_id);
            }
        }
        assert(message_len(added[last]) <= MAX_DELIVERY_MESSAGE_BYTES);
        let value = stored_message(message, topic, published);
        add_message_is_sound(before.messages, before.deliveries, id, value);
        let with_message = put(before.messages, id, value);
        fan_out_is_sound(with_message, before.deliveries, names, id);
        let n = names.len() as int;
        let m = added.len() as int;
        let t = total_bytes(init) as int;
        let len = message_len(message) as int;
        assert(n * m == n * (m - 1) + n) by (nonlinear_arith);
        assert((t + len) * n == t * n + len * n) by (nonlinear_arith);
        let after = stored(state, topic, added, names, published);
        assert forall|other: Seq<char>|
            (forall|i: int| 0 <= i < added.len() ==> (#[trigger] added[i]).message_id != other)
                implies #[trigger] lookup(after.messages, other) == lookup(
            state.messages,
            other,
        ) by {
            assert(added[last].message_id != other);
            lookup_after_put(before.messages, id, value, other);
            assert forall|i: int| 0 <= i < init.len() implies (#[trigger] init[i]).message_id
                != other by {
                assert(init[i] == added[i]);
            }
        }
    } else {
        let n = names.len() as int;
        assert(n * 0 == 0 && 0 * n == 0) by (nonlinear_arith);
    }
}

/// Publishing under new ids keeps the broker sound: no more is ever pending
/// than may be.
pub proof fn publish_is_sound(
    state: BrokerView,
    topic: Seq<char>,
    added: Seq<MessageView>,
    published_ms: i64,
)
    requires
        sound(state),
        ids_fresh(cleaned(state, published_ms).messages, added),
        all_deliverable(added),
    ensures
        sound(publish_spec(state, topic, added, published_ms).0),
{
    cleanup_is_sound(state, published_ms);
    let current = cleaned(state, published_ms);
    let names = subscribers(current.subscriptions, topic);
    stored_is_sound(current, topic, added, names, published_ms);
}

proof fn fan_out_reaches(
    messages: MessagesView,
    deliveries: DeliveriesView,
    names: Seq<Seq<char>>,
    id: Seq<char>,
    k: int,
)
    requires
        parts_sound(messages, deliveries),
        lookup(messages, id) is Some,
        is_drawn_id(id),
        0 <= k < names.len(),
    ensures
        lookup(fan_out(deliveries, names, id), delivery_key(names[k], id)) == Some(
            fresh_delivery(names[k], id),
        ),
    decreases names.len(),
{
    let init = names.drop_last();
    let before = fan_out(deliveries, init, id);
    fan_out_is_sound(messages, deliveries, init, id);
    let last = names.last();
    lookup_after_put(
        before,
        delivery_key(last, id),
        fresh_delivery(last, id),
        delivery_key(names[k], id),
    );
    if k < init.len() {
        fan_out_reaches(messages, deliveries, init, id, k);
        if delivery_key(names[k], id) == delivery_key(last, id) {
            delivery_keys_differ(names[k], id, last, id);
        }
    }
}

proof fn fan_out_frame(
    messages: MessagesView,
    deliveries: DeliveriesView,
    names: Seq<Seq<char>>,
    id: Seq<char>,
    name: Seq<char>,
    other: Seq<char>,
)
    requires
        parts_sound(messages, deliveries),
        lookup(messages, id) is Some,
        is_drawn_id(id),
        is_drawn_id(other),
        other != id,
    ensures
        lookup(fan_out(deliveries, names, id), delivery_key(name, other)) == lookup(
            deliveries,
            delivery_key(name, other),
        ),
    decreases names.len(),
{
    if names.len() > 0 {
        let init = names.drop_last();
        fan_out_frame(messages, deliveries, init, id, name, other);
        fan_out_is_sound(messages, deliveries, init, id);
        lookup_after_put(
            fan_out(deliveries, init, id),
            delivery_key(names.last(), id),
            fresh_delivery(names.last(), id),
            delivery_key(name, other),
        );
        if delivery_key(name, other) == delivery_key(names.last(), id) {
            delivery_keys_differ(name, other, names.last(), id);
        }
    }
}

/// A message that was stored for a topic waits for every subscription that the
/// topic had, each with a copy of its own.
pub proof fn fanout_reaches_every_subscription(
    state: BrokerView,
    topic: Seq<char>,
    added: Seq<MessageView>,
    names: Seq<Seq<char>>,
    published: i64,
    k: int,
    m: int,
)
    requires
        parts_sound(state.messages, state.deliveries),
        ids_fresh(state.messages, added),
        all_deliverable(added),
        0 <= k < names.len(),
        0 <= m < added.len(),
    ensures
        lookup(
            stored(state, topic, added, names, published).deliveries,
            delivery_key(names[k], added[m].message_id),
        ) == Some(fresh_delivery(names[k], added[m].message_id)),
        lookup(
            stored(state, topic, added, names, published).messages,
            added[m].message_id,
        ) matches Some(kept) && kept.message == added[m],
    decreases added.len(),
{
    let init = added.drop_last();
    let message = added.last();
    let id = message.message_id;
    let last = added.len() - 1;
    assert(added[last] == message);
    assert(ids_fresh(state.messages, init)) by {
        assert forall|i: int| 0 <= i < init.len() implies is_drawn_id(
            (#[trigger] init[i]).message_id,
        ) && lookup(state.messages, init[i].message_id) is None by {
            assert(init[i] == added[i]);
        }
        assert forall|i: int, j: int| 0 <= i < j < init.len() implies (
        #[trigger] init[i]).message_id != (#[trigger] init[j]).message_id by {
            assert(init[i] == added[i] && init[j] == added[j]);
        }
    }
    assert(all_deliverable(init)) by {
        assert forall|i: int| 0 <= i < init.len() implies message_len(#[trigger] init[i])
            <= MAX_DELIVERY_MESSAGE_BYTES by {
            assert(init[i] == added[i]);
        }
    }
    stored_is_sound(state, topic, init, names, published);
    let before = stored(state, topic, init, names, published);
    assert(lookup(before.messages, id) == lookup(state.messages, id)) by {
        assert forall|i: int| 0 <= i < init.len() implies (#[trigger] init[i]).message_id
            != id by {
            assert(init[i] == added[i]);
            assert(added[i].message_id != added[last].message_id);
        }
    }
    assert(message_len(added[last]) <= MAX_DELIVERY_MESSAGE_BYTES);
    let value = stored_message(message, topic, published);
    add_message_is_sound(before.messages, before.deliveries, id, value);
    let with_message = put(before.messages, id, value);
    if m == last {
        fan_out_reaches(with_message, before.deliveries, names, id, k);
    } else {
        assert(init[m] == added[m]);
        assert(added[m].message_id != added[last].message_id);
        fanout_reaches_every_subscription(state, topic, init, names, published, k, m);
        fan_out_frame(
            with_message,
            before.deliveries,
            names,
            id,
            names[k],
            added[m].message_id,
        );
        lookup_after_put(before.messages, id, value, added[m].message_id);
    }
}

/// A refused publish stores nothing: on disk all stays as it was, in memory
/// what has not expired does.
pub proof fn refused_publish_stores_nothing(
    state: BrokerView,
    topic: Seq<char>,
    added: Seq<MessageView>,
    published_ms: i64,
)
    requires
        publish_spec(state, topic, added, published_ms).1 is Err,
    ensures
        publish_spec(state, topic, added, published_ms).0 == if state.durable {
            state
        } else {
            cleaned(state, published_ms)
        },
{
}

proof fn varint_is_short(value: nat)
    requires
        value < 0x8000_0000_0000_0000,
    ensures
        varint_len(value) <= 10,
{
    reveal_with_fuel(varint_len, 11);
}

/// A message that may be published stays small enough to be delivered once it
/// has its id and its time.
pub proof fn published_stays_deliverable(message: MessageView, id: Seq<char>, time: Timestamp)
    requires
        publishable(message) is Ok,
        is_drawn_id(id),
        is_current(time),
    ensures
        message_len(stamped(message, id, time)) <= MAX_DELIVERY_MESSAGE_BYTES,
{
    assert(vstd::utf8::is_ascii_chars(id)) by {
        assert forall|i: int| 0 <= i < id.len() implies '\0' <= #[trigger] id[i] <= '\u{7f}' by {
            assert(is_uuid_char(id[i]));
        }
    }
    vstd::utf8::is_ascii_chars_encode_utf8(id);
    assert(message.message_id =~= Seq::empty());
    assert(message.ordering_key =~= Seq::empty());
    assert(vstd::utf8::encode_utf8(Seq::empty()).len() == 0);
    varint_is_short(36);
    varint_is_short(time.seconds as nat);
    varint_is_short(time.nanos as nat);
    let len = signed_len(time.seconds as int) + signed_len(time.nanos as int);
    varint_is_short(len);
}

} // verus!
