//! What claims hand out: each message once, within the terms, as long as it is
//! neither leased nor acknowledged.
use crate::broker::{
    cleaned, delivery_key, get_subscription_spec, is_expired, size_of, BrokerView, DeliveriesView,
    DeliveryView, StoredView,
};
use crate::guarantees::{
    cleanup_is_sound, delivery_sound, message_sound, parts_sound, relabelling_is_sound,
    size_is_sound, sound, waiting_holds, MessagesView,
};
use crate::leases::{
    acknowledged, any_fits, before_claim, by_age, by_age_members, candidates_wait,
    claim_candidates, claim_deadline, claim_fold, claim_spec, claim_window, deadline_after,
    deadlines_modified, insert_by_age, insert_by_age_members, is_active, is_older, leased, leased_under, modify_spec, pending_spec,
    waiting, without_subscription, ClaimTerms, ReceivedView,
};
use crate::ordered::{
    all_are_kept, keep_entries, kept_entry_is_old, lookup, lookup_after_keep, lookup_at, lookup_found,
    old_entry_is_kept,
};
use crate::text::{text_less, text_less_total, text_less_transitive};
use vstd::prelude::*;

verus! {

/// The bytes of messages that were handed out.
pub open spec fn received_bytes(taken: Seq<ReceivedView>) -> int
    decreases taken.len(),
{
    if taken.len() == 0 {
        0
    } else {
        received_bytes(taken.drop_last()) + taken.last().size_bytes
    }
}

/// The places of the deliveries that a claim takes among the first `n`
/// candidates.
pub open spec fn taken_at(
    messages: MessagesView,
    deliveries: DeliveriesView,
    candidates: Seq<int>,
    terms: ClaimTerms,
    acks: Seq<Seq<char>>,
    n: nat,
) -> Seq<int>
    decreases n,
{
    if n == 0 || n > candidates.len() {
        Seq::empty()
    } else {
        let before = taken_at(messages, deliveries, candidates, terms, acks, (n - 1) as nat);
        if claim_fold(messages, deliveries, candidates, terms, acks, n).taken.len() > claim_fold(
            messages,
            deliveries,
            candidates,
            terms,
            acks,
            (n - 1) as nat,
        ).taken.len() {
            before.push(candidates[n - 1])
        } else {
            before
        }
    }
}

/// Whether the candidates are deliveries that wait for a subscription, each
/// once.
pub open spec fn all_wait(
    deliveries: DeliveriesView,
    subscription: Seq<char>,
    candidates: Seq<int>,
) -> bool {
    &&& forall|j: int|
        0 <= j < candidates.len() ==> 0 <= #[trigger] candidates[j] < deliveries.len()
            && deliveries[candidates[j]].1.subscription == subscription
            && !deliveries[candidates[j]].1.in_flight
    &&& candidates.no_duplicates()
}

/// The message of a delivery as it is handed out under an id.
pub open spec fn handed_out(
    messages: MessagesView,
    delivery: DeliveryView,
    ack_id: Seq<char>,
) -> ReceivedView {
    let stored = lookup(messages, delivery.message_id)->0;
    ReceivedView { ack_id, message: stored.message, size_bytes: stored.size }
}

/// Whether a claim that took `taken` passes over a candidate of a size.
pub open spec fn passed_over(terms: ClaimTerms, taken: Seq<ReceivedView>, size: int) -> bool {
    taken.len() >= terms.max_count || (received_bytes(taken) + size > terms.max_bytes && (
    taken.len() > 0 || terms.has_fitting))
}

proof fn fold_details(
    messages: MessagesView,
    deliveries: DeliveriesView,
    subscription: Seq<char>,
    candidates: Seq<int>,
    terms: ClaimTerms,
    acks: Seq<Seq<char>>,
    n: nat,
)
    requires
        parts_sound(messages, deliveries),
        all_wait(deliveries, subscription, candidates),
        n <= candidates.len(),
    ensures
        ({
            let done = claim_fold(messages, deliveries, candidates, terms, acks, n);
            let places = taken_at(messages, deliveries, candidates, terms, acks, n);
            &&& done.error is None
            &&& places.len() == done.taken.len()
            &&& done.taken.len() <= terms.max_count
            &&& done.used == received_bytes(done.taken)
            &&& done.used >= 0
            &&& done.taken.len() == 0 || done.used <= terms.max_bytes || (done.taken.len() == 1
                && !terms.has_fitting)
            &&& forall|k: int|
                0 <= k < places.len() ==> 0 <= #[trigger] places[k] < deliveries.len()
                    && deliveries[places[k]].1.subscription == subscription
                    && !deliveries[places[k]].1.in_flight && candidates.take(
                    n as int,
                ).contains(places[k])
            &&& places.no_duplicates()
            &&& forall|k: int|
                0 <= k < places.len() ==> #[trigger] done.taken[k] == handed_out(
                    messages,
                    deliveries[places[k]].1,
                    acks[k],
                )
            &&& done.deliveries.len() == deliveries.len()
            &&& forall|k: int|
                0 <= k < places.len() ==> done.deliveries[#[trigger] places[k]] == (
                    deliveries[places[k]].0,
                    leased(deliveries[places[k]].1, acks[k], terms.deadline),
                )
            &&& forall|i: int|
                0 <= i < deliveries.len() && !places.contains(i) ==> #[trigger] done.deliveries[i]
                    == deliveries[i]
            &&& forall|j: int|
                0 <= j < n ==> places.contains(#[trigger] candidates[j]) || passed_over(
                    terms,
                    done.taken,
                    size_of(messages, deliveries[candidates[j]].1.message_id),
                )
        }),
    decreases n,
{
    if n > 0 {
        let m = (n - 1) as nat;
        fold_details(messages, deliveries, subscription, candidates, terms, acks, m);
        let before = claim_fold(messages, deliveries, candidates, terms, acks, m);
        let old_places = taken_at(messages, deliveries, candidates, terms, acks, m);
        let done = claim_fold(messages, deliveries, candidates, terms, acks, n);
        let places = taken_at(messages, deliveries, candidates, terms, acks, n);
        let at = candidates[n - 1];
        assert(!old_places.contains(at)) by {
            if old_places.contains(at) {
                let k = choose|k: int| 0 <= k < old_places.len() && old_places[k] == at;
                assert(candidates.take(m as int).contains(old_places[k]));
                let j = choose|j: int|
                    0 <= j < m && candidates.take(m as int)[j] == old_places[k];
                assert(candidates[j] == candidates[n - 1]);
            }
        }
        assert forall|k: int| 0 <= k < old_places.len() implies candidates.take(
            n as int,
        ).contains(#[trigger] old_places[k]) by {
            let j = choose|j: int| 0 <= j < m && candidates.take(m as int)[j] == old_places[k];
            assert(candidates.take(n as int)[j] == old_places[k]);
        }
        assert(candidates.take(n as int)[n - 1] == at);
        assert(before.deliveries[at] == deliveries[at]);
        assert(delivery_sound(messages, deliveries[at]));
        let size = size_of(messages, deliveries[at].1.message_id);
        size_is_sound(messages, deliveries[at].1.message_id);
        if done.taken.len() > before.taken.len() {
            assert(done.taken.drop_last() =~= before.taken);
            assert(done.taken.last().size_bytes == size);
            assert(places =~= old_places.push(at));
            assert(places[places.len() - 1] == at);
            assert forall|x: int, y: int| 0 <= x < places.len() && 0 <= y < places.len() && x
                != y implies places[x] != places[y] by {
                if x < old_places.len() {
                    assert(old_places.contains(old_places[x]));
                }
                if y < old_places.len() {
                    assert(old_places.contains(old_places[y]));
                }
            }
            assert forall|i: int| 0 <= i < deliveries.len() && !places.contains(
                i,
            ) implies #[trigger] done.deliveries[i] == deliveries[i] by {
                if old_places.contains(i) {
                    let k = choose|k: int| 0 <= k < old_places.len() && old_places[k] == i;
                    assert(places[k] == i);
                }
                assert(i != at);
                assert(before.deliveries[i] == deliveries[i]);
            }
            assert forall|k: int| 0 <= k < places.len() implies done.deliveries[#[trigger] places[k]]
                == (
                deliveries[places[k]].0,
                leased(deliveries[places[k]].1, acks[k], terms.deadline),
            ) by {
                if k < old_places.len() {
                    assert(places[k] == old_places[k]);
                }
            }
            assert forall|k: int| 0 <= k < places.len() implies #[trigger] done.taken[k]
                == handed_out(messages, deliveries[places[k]].1, acks[k]) by {
                if k < old_places.len() {
                    assert(done.taken[k] == before.taken[k]);
                    assert(places[k] == old_places[k]);
                }
            }
            assert forall|j: int| 0 <= j < n implies places.contains(#[trigger] candidates[j])
                || passed_over(
                terms,
                done.taken,
                size_of(messages, deliveries[candidates[j]].1.message_id),
            ) by {
                if j < m {
                    if old_places.contains(candidates[j]) {
                        let k = choose|k: int|
                            0 <= k < old_places.len() && old_places[k] == candidates[j];
                        assert(places[k] == candidates[j]);
                    }
                } else {
                    assert(places[places.len() - 1] == candidates[j]);
                }
            }
        } else {
            assert(done == before);
            assert(places == old_places);
        }
    }
}

/// What a claim may take of a state.
pub open spec fn terms_of(
    state: BrokerView,
    subscription: Seq<char>,
    max_count: nat,
    max_bytes: int,
    asked: Option<i32>,
    now: i64,
) -> ClaimTerms {
    let current = before_claim(state, subscription, now);
    ClaimTerms {
        max_count,
        max_bytes,
        deadline: claim_deadline(
            get_subscription_spec(state, subscription)->Ok_0.ack_deadline_seconds,
            asked,
            now,
        ),
        has_fitting: any_fits(
            current.messages,
            current.deliveries,
            claim_candidates(current, subscription, max_count),
            max_bytes,
        ),
    }
}

/// The delivery of the state before that a delivery comes from which a claim
/// looks at.
proof fn looked_at_from(state: BrokerView, subscription: Seq<char>, now: i64, i: int) -> (k: int)
    requires
        0 <= i < before_claim(state, subscription, now).deliveries.len(),
    ensures
        0 <= k < state.deliveries.len(),
        ({
            let current = before_claim(state, subscription, now).deliveries[i];
            let old = state.deliveries[k];
            &&& current.0 == old.0
            &&& current.1.subscription == old.1.subscription
            &&& current.1.message_id == old.1.message_id
            &&& !is_expired(state.messages, old.1.message_id, now)
            &&& old.1.subscription == subscription && !current.1.in_flight ==> !is_active(
                old.1,
                subscription,
                now,
            )
            &&& is_active(old.1, subscription, now) ==> current == old
        }),
{
    let keep = |e: (Seq<char>, DeliveryView)| !is_expired(state.messages, e.1.message_id, now);
    let kept = cleaned(state, now).deliveries;
    let k = kept_entry_is_old(state.deliveries, keep, i);
    assert(kept[i] == state.deliveries[k]);
    k
}

proof fn looked_at_is_sound(
    state: BrokerView,
    subscription: Seq<char>,
    now: i64,
    max_count: nat,
)
    requires
        sound(state),
    ensures
        sound(before_claim(state, subscription, now)),
        all_wait(
            before_claim(state, subscription, now).deliveries,
            subscription,
            claim_candidates(before_claim(state, subscription, now), subscription, max_count),
        ),
{
    cleanup_is_sound(state, now);
    let tidy = cleaned(state, now);
    let current = before_claim(state, subscription, now);
    let n = current.deliveries.len();
    relabelling_is_sound(tidy.messages, tidy.deliveries, current.deliveries);
    waiting_holds(current.deliveries, subscription, n);
    waiting_is_free(current.deliveries, subscription, n);
    candidates_wait(current, subscription, max_count);
    let all = waiting(current.deliveries, subscription, n);
    let candidates = claim_candidates(current, subscription, max_count);
    assert forall|j: int| 0 <= j < candidates.len() implies 0 <= #[trigger] candidates[j] < n
        && current.deliveries[candidates[j]].1.subscription == subscription
        && !current.deliveries[candidates[j]].1.in_flight by {
        assert(all.contains(candidates[j]));
        let k = choose|k: int| 0 <= k < all.len() && all[k] == candidates[j];
        assert(all[k] == candidates[j]);
    }
}

proof fn waiting_is_free(deliveries: DeliveriesView, subscription: Seq<char>, n: nat)
    requires
        n <= deliveries.len(),
    ensures
        forall|j: int|
            0 <= j < waiting(deliveries, subscription, n).len() ==> !deliveries[#[trigger] waiting(
                deliveries,
                subscription,
                n,
            )[j]].1.in_flight,
        forall|i: int|
            0 <= i < n && (#[trigger] deliveries[i]).1.subscription == subscription
                && !deliveries[i].1.in_flight ==> waiting(deliveries, subscription, n).contains(i),
    decreases n,
{
    if n > 0 {
        waiting_is_free(deliveries, subscription, (n - 1) as nat);
        let before = waiting(deliveries, subscription, (n - 1) as nat);
        let all = waiting(deliveries, subscription, n);
        assert forall|i: int|
            0 <= i < n && (#[trigger] deliveries[i]).1.subscription == subscription
                && !deliveries[i].1.in_flight implies all.contains(i) by {
            if i < n - 1 {
                let j = choose|j: int| 0 <= j < before.len() && before[j] == i;
                assert(all[j] == i);
            } else {
                assert(all[all.len() - 1] == i);
            }
        }
    }
}

/// Two deliveries of a message for one subscription are the same.
proof fn one_delivery(messages: MessagesView, deliveries: DeliveriesView, i: int, j: int)
    requires
        parts_sound(messages, deliveries),
        0 <= i < deliveries.len(),
        0 <= j < deliveries.len(),
        deliveries[i].1.subscription == deliveries[j].1.subscription,
        deliveries[i].1.message_id == deliveries[j].1.message_id,
    ensures
        i == j,
{
    assert(delivery_sound(messages, deliveries[i]));
    assert(delivery_sound(messages, deliveries[j]));
    lookup_at(deliveries, i);
    lookup_at(deliveries, j);
}

/// A claim keeps its terms: it takes no more messages than asked for, nor more
/// bytes, but for one message where none fits; each message once, under an id
/// of its own; only messages that have not expired and whose deliveries are not
/// leased; and each is leased until the deadline.
pub proof fn claim_keeps_its_terms(
    state: BrokerView,
    subscription: Seq<char>,
    max_count: nat,
    max_bytes: int,
    asked: Option<i32>,
    now: i64,
    acks: Seq<Seq<char>>,
)
    requires
        sound(state),
        get_subscription_spec(state, subscription) is Ok,
    ensures
        ({
            let (after, outcome) = claim_spec(
                state,
                subscription,
                max_count,
                max_bytes,
                asked,
                now,
                acks,
            );
            let terms = terms_of(state, subscription, max_count, max_bytes, asked, now);
            &&& outcome is Ok
            &&& outcome->Ok_0.len() <= max_count
            &&& outcome->Ok_0.len() == 0 || received_bytes(outcome->Ok_0) <= max_bytes || (
            outcome->Ok_0.len() == 1 && !terms.has_fitting)
            &&& forall|k: int|
                0 <= k < outcome->Ok_0.len() ==> (#[trigger] outcome->Ok_0[k]).ack_id == acks[k]
            &&& forall|j: int, k: int|
                0 <= j < k < outcome->Ok_0.len() ==> (
                #[trigger] outcome->Ok_0[j]).message.message_id != (
                #[trigger] outcome->Ok_0[k]).message.message_id
            &&& forall|k: int|
                0 <= k < outcome->Ok_0.len() ==> was_free(
                    state,
                    subscription,
                    now,
                    #[trigger] outcome->Ok_0[k],
                )
            &&& forall|k: int|
                0 <= k < outcome->Ok_0.len() ==> is_leased(
                    after,
                    subscription,
                    terms.deadline,
                    #[trigger] outcome->Ok_0[k],
                )
        }),
{
    let current = before_claim(state, subscription, now);
    let candidates = claim_candidates(current, subscription, max_count);
    let terms = terms_of(state, subscription, max_count, max_bytes, asked, now);
    looked_at_is_sound(state, subscription, now, max_count);
    let n = candidates.len();
    fold_details(
        current.messages,
        current.deliveries,
        subscription,
        candidates,
        terms,
        acks,
        n,
    );
    let done = claim_fold(
        current.messages,
        current.deliveries,
        candidates,
        terms,
        acks,
        n,
    );
    let places = taken_at(current.messages, current.deliveries, candidates, terms, acks, n);
    let (after, outcome) = claim_spec(
        state,
        subscription,
        max_count,
        max_bytes,
        asked,
        now,
        acks,
    );
    assert(outcome == Ok::<_, crate::status::StatusView>(done.taken));
    assert forall|k: int| 0 <= k < done.taken.len() implies was_free(
        state,
        subscription,
        now,
        #[trigger] done.taken[k],
    ) && is_leased(after, subscription, terms.deadline, done.taken[k]) && done.taken[k].ack_id
        == acks[k] && done.taken[k].message.message_id
        == current.deliveries[places[k]].1.message_id by {
        let entry = current.deliveries[places[k]];
        message_is_handed_out(current.messages, current.deliveries, places[k]);
        let i = looked_at_from(state, subscription, now, places[k]);
        lookup_after_keep(
            state.messages,
            |e: (Seq<char>, StoredView)| e.1.expiry > now,
            entry.1.message_id,
        );
        assert(state.deliveries[i].1.message_id == entry.1.message_id);
        assert(done.deliveries[places[k]] == (
            entry.0,
            leased(entry.1, acks[k], terms.deadline),
        ));
        relabelling_is_sound(current.messages, current.deliveries, done.deliveries);
        lookup_at(done.deliveries, places[k]);
    }
    assert forall|j: int, k: int| 0 <= j < k < done.taken.len() implies (
    #[trigger] done.taken[j]).message.message_id != (
    #[trigger] done.taken[k]).message.message_id by {
        if done.taken[j].message.message_id == done.taken[k].message.message_id {
            one_delivery(current.messages, current.deliveries, places[j], places[k]);
        }
    }
}

/// Whether a message that was handed out is the stored one, has not expired,
/// and was not leased to anyone.
pub open spec fn was_free(
    state: BrokerView,
    subscription: Seq<char>,
    now: i64,
    received: ReceivedView,
) -> bool {
    &&& lookup(state.messages, received.message.message_id) matches Some(stored)
        && stored.message == received.message && stored.size == received.size_bytes
        && stored.expiry > now
    &&& exists|i: int|
        0 <= i < state.deliveries.len() && (#[trigger] state.deliveries[i]).1.subscription
            == subscription && state.deliveries[i].1.message_id == received.message.message_id
            && !is_active(state.deliveries[i].1, subscription, now)
}

/// Whether a message that was handed out is leased until a deadline.
pub open spec fn is_leased(
    state: BrokerView,
    subscription: Seq<char>,
    deadline: i64,
    received: ReceivedView,
) -> bool {
    lookup(
        state.deliveries,
        delivery_key(subscription, received.message.message_id),
    ) matches Some(d) && d.in_flight && d.ack_id == Some(received.ack_id) && d.deadline_ms == Some(
        deadline,
    )
}

proof fn message_is_handed_out(messages: MessagesView, deliveries: DeliveriesView, i: int)
    requires
        parts_sound(messages, deliveries),
        0 <= i < deliveries.len(),
    ensures
        lookup(messages, deliveries[i].1.message_id) is Some,
        lookup(messages, deliveries[i].1.message_id)->0.message.message_id
            == deliveries[i].1.message_id,
        deliveries[i].0 == delivery_key(deliveries[i].1.subscription, deliveries[i].1.message_id),
{
    assert(delivery_sound(messages, deliveries[i]));
    let id = deliveries[i].1.message_id;
    lookup_found(messages, id);
    let k = choose|k: int|
        0 <= k < messages.len() && #[trigger] messages[k] == (id, lookup(messages, id)->0);
    assert(message_sound(messages[k]));
}

/// A lease keeps others away: as long as it lasts, no claim hands the message
/// out for the same subscription.
pub proof fn leases_exclude_other_claims(
    state: BrokerView,
    subscription: Seq<char>,
    max_count: nat,
    max_bytes: int,
    asked: Option<i32>,
    now: i64,
    acks: Seq<Seq<char>>,
    i: int,
)
    requires
        sound(state),
        0 <= i < state.deliveries.len(),
        is_active(state.deliveries[i].1, subscription, now),
    ensures
        claim_spec(state, subscription, max_count, max_bytes, asked, now, acks).1 matches Ok(taken)
            ==> forall|k: int|
            0 <= k < taken.len() ==> (#[trigger] taken[k]).message.message_id
                != state.deliveries[i].1.message_id,
{
    if get_subscription_spec(state, subscription) is Ok {
        claim_keeps_its_terms(state, subscription, max_count, max_bytes, asked, now, acks);
        let taken = claim_spec(
            state,
            subscription,
            max_count,
            max_bytes,
            asked,
            now,
            acks,
        ).1->Ok_0;
        assert forall|k: int| 0 <= k < taken.len() implies (
        #[trigger] taken[k]).message.message_id != state.deliveries[i].1.message_id by {
            assert(was_free(state, subscription, now, taken[k]));
            let j = choose|j: int|
                0 <= j < state.deliveries.len() && (
                #[trigger] state.deliveries[j]).1.subscription == subscription
                    && state.deliveries[j].1.message_id == taken[k].message.message_id
                    && !is_active(state.deliveries[j].1, subscription, now);
            if taken[k].message.message_id == state.deliveries[i].1.message_id {
                one_delivery(state.messages, state.deliveries, i, j);
            }
        }
    }
}

/// Whether no delivery of a message is left for a subscription.
pub open spec fn is_settled(
    deliveries: DeliveriesView,
    subscription: Seq<char>,
    id: Seq<char>,
) -> bool {
    forall|i: int|
        0 <= i < deliveries.len() ==> !((#[trigger] deliveries[i]).1.subscription == subscription
            && deliveries[i].1.message_id == id)
}

proof fn settled_when_kept(
    deliveries: DeliveriesView,
    keep: spec_fn((Seq<char>, DeliveryView)) -> bool,
    subscription: Seq<char>,
    id: Seq<char>,
)
    requires
        is_settled(deliveries, subscription, id),
    ensures
        is_settled(keep_entries(deliveries, keep), subscription, id),
{
    let left = keep_entries(deliveries, keep);
    assert forall|i: int| 0 <= i < left.len() implies !((
    #[trigger] left[i]).1.subscription == subscription && left[i].1.message_id == id) by {
        let k = kept_entry_is_old(deliveries, keep, i);
        assert(deliveries[k] == left[i]);
    }
}

/// Acknowledging a message settles it for the subscription.
pub proof fn acknowledged_is_settled(
    state: BrokerView,
    subscription: Seq<char>,
    ids: Seq<Seq<char>>,
    i: int,
)
    requires
        sound(state),
        0 <= i < state.deliveries.len(),
        leased_under(state.deliveries[i].1, subscription, ids),
    ensures
        is_settled(
            acknowledged(state, subscription, ids).deliveries,
            subscription,
            state.deliveries[i].1.message_id,
        ),
{
    let keep = |e: (Seq<char>, DeliveryView)| !leased_under(e.1, subscription, ids);
    let left = keep_entries(state.deliveries, keep);
    let id = state.deliveries[i].1.message_id;
    assert forall|j: int| 0 <= j < left.len() implies !((
    #[trigger] left[j]).1.subscription == subscription && left[j].1.message_id == id) by {
        let k = kept_entry_is_old(state.deliveries, keep, j);
        if left[j].1.subscription == subscription && left[j].1.message_id == id {
            one_delivery(state.messages, state.deliveries, i, k);
        }
    }
}

/// No claim hands a settled message out, and it stays settled: whatever is
/// claimed, acknowledged, released or removed afterwards.
pub proof fn settled_messages_do_not_come_back(
    state: BrokerView,
    subscription: Seq<char>,
    id: Seq<char>,
    claimer: Seq<char>,
    max_count: nat,
    max_bytes: int,
    asked: Option<i32>,
    now: i64,
    acks: Seq<Seq<char>>,
    ids: Seq<Seq<char>>,
    seconds: i32,
)
    requires
        sound(state),
        is_settled(state.deliveries, subscription, id),
    ensures
        claim_spec(state, subscription, max_count, max_bytes, asked, now, acks).1 matches Ok(taken)
            ==> forall|k: int|
            0 <= k < taken.len() ==> (#[trigger] taken[k]).message.message_id != id,
        is_settled(
            claim_spec(state, claimer, max_count, max_bytes, asked, now, acks).0.deliveries,
            subscription,
            id,
        ),
        is_settled(cleaned(state, now).deliveries, subscription, id),
        is_settled(acknowledged(state, claimer, ids).deliveries, subscription, id),
        is_settled(without_subscription(state, claimer).deliveries, subscription, id),
        modify_spec(state, claimer, ids, seconds, now) matches Ok(after) ==> is_settled(
            after.deliveries,
            subscription,
            id,
        ),
{
    settled_when_kept(
        state.deliveries,
        |e: (Seq<char>, DeliveryView)| !is_expired(state.messages, e.1.message_id, now),
        subscription,
        id,
    );
    settled_when_kept(
        state.deliveries,
        |e: (Seq<char>, DeliveryView)| !leased_under(e.1, claimer, ids),
        subscription,
        id,
    );
    settled_when_kept(
        state.deliveries,
        |e: (Seq<char>, DeliveryView)| e.1.subscription != claimer,
        subscription,
        id,
    );
    let moved = deadlines_modified(state.deliveries, claimer, ids, seconds, now);
    assert forall|i: int| 0 <= i < moved.len() implies !((
    #[trigger] moved[i]).1.subscription == subscription && moved[i].1.message_id == id) by {
        assert(!(state.deliveries[i].1.subscription == subscription
            && state.deliveries[i].1.message_id == id));
    }
    if get_subscription_spec(state, subscription) is Ok {
        claim_keeps_its_terms(state, subscription, max_count, max_bytes, asked, now, acks);
        let taken = claim_spec(
            state,
            subscription,
            max_count,
            max_bytes,
            asked,
            now,
            acks,
        ).1->Ok_0;
        assert forall|k: int| 0 <= k < taken.len() implies (
        #[trigger] taken[k]).message.message_id != id by {
            assert(was_free(state, subscription, now, taken[k]));
        }
    }
    if get_subscription_spec(state, claimer) is Ok {
        let current = before_claim(state, claimer, now);
        looked_at_is_sound(state, claimer, now, max_count);
        let candidates = claim_candidates(current, claimer, max_count);
        let terms = terms_of(state, claimer, max_count, max_bytes, asked, now);
        fold_details(
            current.messages,
            current.deliveries,
            claimer,
            candidates,
            terms,
            acks,
            candidates.len(),
        );
        let done = claim_fold(
            current.messages,
            current.deliveries,
            candidates,
            terms,
            acks,
            candidates.len(),
        ).deliveries;
        let places = taken_at(
            current.messages,
            current.deliveries,
            candidates,
            terms,
            acks,
            candidates.len(),
        );
        assert forall|i: int| 0 <= i < done.len() implies !((
        #[trigger] done[i]).1.subscription == subscription && done[i].1.message_id == id) by {
            let k = looked_at_from(state, claimer, now, i);
            assert(!(state.deliveries[k].1.subscription == subscription
                && state.deliveries[k].1.message_id == id));
            if places.contains(i) {
                let p = choose|p: int| 0 <= p < places.len() && places[p] == i;
                assert(done[places[p]] == (
                    current.deliveries[i].0,
                    leased(current.deliveries[i].1, acks[p], terms.deadline),
                ));
            } else {
                assert(done[i] == current.deliveries[i]);
            }
        }
    }
}

/// As many are pending among deliveries of the same subscriptions.
pub proof fn pending_prefix(
    a: DeliveriesView,
    b: DeliveriesView,
    subscriptions: Seq<Seq<char>>,
    n: nat,
)
    requires
        n <= a.len(),
        n <= b.len(),
        forall|i: int|
            0 <= i < n ==> (#[trigger] a[i]).1.subscription == b[i].1.subscription,
    ensures
        pending_spec(a, subscriptions, n) == pending_spec(b, subscriptions, n),
    decreases n,
{
    if n > 0 {
        pending_prefix(a, b, subscriptions, (n - 1) as nat);
        assert(a[n - 1].1.subscription == b[n - 1].1.subscription);
    }
}

/// Dropping deliveries of other subscriptions leaves as many pending.
pub proof fn pending_of_kept_stays(
    deliveries: DeliveriesView,
    keep: spec_fn((Seq<char>, DeliveryView)) -> bool,
    subscriptions: Seq<Seq<char>>,
)
    requires
        forall|i: int|
            0 <= i < deliveries.len() && subscriptions.contains(
                (#[trigger] deliveries[i]).1.subscription,
            ) ==> keep(deliveries[i]),
    ensures
        pending_spec(
            keep_entries(deliveries, keep),
            subscriptions,
            keep_entries(deliveries, keep).len(),
        ) == pending_spec(deliveries, subscriptions, deliveries.len()),
    decreases deliveries.len(),
{
    if deliveries.len() > 0 {
        let init = deliveries.drop_last();
        assert forall|i: int|
            0 <= i < init.len() && subscriptions.contains(
                (#[trigger] init[i]).1.subscription,
            ) implies keep(init[i]) by {
            assert(init[i] == deliveries[i]);
        }
        pending_of_kept_stays(init, keep, subscriptions);
        let kept = keep_entries(init, keep);
        pending_prefix(deliveries, init, subscriptions, init.len());
        assert(deliveries.last() == deliveries[deliveries.len() - 1]);
        if keep(deliveries.last()) {
            pending_prefix(kept.push(deliveries.last()), kept, subscriptions, kept.len());
        }
    }
}

/// Acknowledging for one subscription leaves as many pending for the others,
/// and ids that lease nothing remove nothing.
pub proof fn acknowledging_leaves_others_pending(
    state: BrokerView,
    subscription: Seq<char>,
    ids: Seq<Seq<char>>,
    others: Seq<Seq<char>>,
)
    requires
        !others.contains(subscription),
    ensures
        ({
            let left = acknowledged(state, subscription, ids).deliveries;
            &&& pending_spec(left, others, left.len()) == pending_spec(
                state.deliveries,
                others,
                state.deliveries.len(),
            )
            &&& (forall|i: int|
                0 <= i < state.deliveries.len() ==> !leased_under(
                    (#[trigger] state.deliveries[i]).1,
                    subscription,
                    ids,
                )) ==> left == state.deliveries
        }),
{
    let keep = |e: (Seq<char>, DeliveryView)| !leased_under(e.1, subscription, ids);
    pending_of_kept_stays(state.deliveries, keep, others);
    if forall|i: int|
        0 <= i < state.deliveries.len() ==> !leased_under(
            (#[trigger] state.deliveries[i]).1,
            subscription,
            ids,
        ) {
        all_are_kept(state.deliveries, keep);
    }
}

/// Whether a claim on disk may not look at all that wait, because there are too
/// many.
pub open spec fn has_too_many(
    state: BrokerView,
    subscription: Seq<char>,
    max_count: nat,
    now: i64,
) -> bool {
    let current = before_claim(state, subscription, now);
    state.durable && waiting(
        current.deliveries,
        subscription,
        current.deliveries.len(),
    ).len() > claim_window(max_count)
}

/// A claim passes over a message that waits only where it is full: it has as
/// many messages as were asked for, or has some and no room for its bytes; or,
/// on disk, where more messages wait than it looks at.
pub proof fn waiting_messages_are_claimed(
    state: BrokerView,
    subscription: Seq<char>,
    max_count: nat,
    max_bytes: int,
    asked: Option<i32>,
    now: i64,
    acks: Seq<Seq<char>>,
    i: int,
)
    requires
        sound(state),
        get_subscription_spec(state, subscription) is Ok,
        0 <= i < state.deliveries.len(),
        state.deliveries[i].1.subscription == subscription,
        !state.deliveries[i].1.in_flight,
        !is_expired(state.messages, state.deliveries[i].1.message_id, now),
    ensures
        ({
            let taken = claim_spec(
                state,
                subscription,
                max_count,
                max_bytes,
                asked,
                now,
                acks,
            ).1->Ok_0;
            let stored = lookup(state.messages, state.deliveries[i].1.message_id)->0;
            ||| has_too_many(state, subscription, max_count, now)
            ||| taken.len() >= max_count
            ||| taken.len() > 0 && received_bytes(taken) + stored.size > max_bytes
            ||| exists|k: int|
                0 <= k < taken.len() && #[trigger] taken[k] == (ReceivedView {
                    ack_id: acks[k],
                    message: stored.message,
                    size_bytes: stored.size,
                })
        }),
{
    let current = before_claim(state, subscription, now);
    let id = state.deliveries[i].1.message_id;
    looked_at_is_sound(state, subscription, now, max_count);
    let keep = |e: (Seq<char>, DeliveryView)| !is_expired(state.messages, e.1.message_id, now);
    let at = old_entry_is_kept(state.deliveries, keep, i);
    assert(cleaned(state, now).deliveries[at] == state.deliveries[i]);
    assert(current.deliveries[at] == state.deliveries[i]);
    let candidates = claim_candidates(current, subscription, max_count);
    let all = waiting(current.deliveries, subscription, current.deliveries.len());
    waiting_is_free(current.deliveries, subscription, current.deliveries.len());
    assert(all.contains(at));
    message_is_handed_out(state.messages, state.deliveries, i);
    lookup_after_keep(state.messages, |e: (Seq<char>, StoredView)| e.1.expiry > now, id);
    assert(lookup(current.messages, id) == lookup(state.messages, id));
    if !has_too_many(state, subscription, max_count, now) {
        if state.durable {
            by_age_members(current.messages, current.deliveries, all);
            assert(by_age(current.messages, current.deliveries, all).contains(at));
            assert(candidates == by_age(current.messages, current.deliveries, all));
        }
        assert(candidates.contains(at));
        let terms = terms_of(state, subscription, max_count, max_bytes, asked, now);
        let n = candidates.len();
        fold_details(
            current.messages,
            current.deliveries,
            subscription,
            candidates,
            terms,
            acks,
            n,
        );
        let done = claim_fold(
            current.messages,
            current.deliveries,
            candidates,
            terms,
            acks,
            n,
        );
        let places = taken_at(current.messages, current.deliveries, candidates, terms, acks, n);
        let j = choose|j: int| 0 <= j < n && candidates[j] == at;
        assert(candidates[j] == at);
        if places.contains(at) {
            let k = choose|k: int| 0 <= k < places.len() && places[k] == at;
            assert(done.taken[k] == handed_out(current.messages, current.deliveries[at].1, acks[k]));
        } else if done.taken.len() == 0 && done.taken.len() < max_count {
            assert(passed_over(terms, done.taken, size_of(current.messages, id)));
            assert(terms.has_fitting);
            let f = choose|f: int|
                0 <= f < candidates.len() && size_of(
                    current.messages,
                    current.deliveries[#[trigger] candidates[f]].1.message_id,
                ) <= max_bytes;
            assert(places.contains(candidates[f]) || passed_over(
                terms,
                done.taken,
                size_of(current.messages, current.deliveries[candidates[f]].1.message_id),
            ));
        }
    }
}

/// A released message comes again: after a deadline of zero seconds the ids
/// lease nothing any more, and each later claim on the subscription, until the
/// message expires or is claimed, hands it out as it was published, under an id
/// of that claim, unless the claim is full without it or, on disk, too many
/// wait.
pub proof fn released_messages_come_again(
    state: BrokerView,
    subscription: Seq<char>,
    ids: Seq<Seq<char>>,
    now: i64,
    max_count: nat,
    max_bytes: int,
    asked: Option<i32>,
    later: i64,
    acks: Seq<Seq<char>>,
    i: int,
)
    requires
        sound(state),
        modify_spec(state, subscription, ids, 0, now) is Ok,
        0 <= i < state.deliveries.len(),
        leased_under(state.deliveries[i].1, subscription, ids),
        !is_expired(state.messages, state.deliveries[i].1.message_id, later),
    ensures
        ({
            let after = modify_spec(state, subscription, ids, 0, now)->Ok_0;
            let outcome = claim_spec(
                after,
                subscription,
                max_count,
                max_bytes,
                asked,
                later,
                acks,
            ).1;
            let stored = lookup(state.messages, state.deliveries[i].1.message_id)->0;
            &&& forall|j: int|
                0 <= j < after.deliveries.len() ==> !leased_under(
                    (#[trigger] after.deliveries[j]).1,
                    subscription,
                    ids,
                )
            &&& outcome is Ok
            &&& stored.message.message_id == state.deliveries[i].1.message_id
            &&& {
                ||| has_too_many(after, subscription, max_count, later)
                ||| outcome->Ok_0.len() >= max_count
                ||| outcome->Ok_0.len() > 0 && received_bytes(outcome->Ok_0) + stored.size
                    > max_bytes
                ||| exists|k: int|
                    0 <= k < outcome->Ok_0.len() && #[trigger] outcome->Ok_0[k] == (ReceivedView {
                        ack_id: acks[k],
                        message: stored.message,
                        size_bytes: stored.size,
                    })
            }
        }),
{
    let after = modify_spec(state, subscription, ids, 0, now)->Ok_0;
    crate::guarantees::modify_is_sound(state, subscription, ids, 0, now);
    assert(get_subscription_spec(after, subscription) == get_subscription_spec(
        state,
        subscription,
    ));
    message_is_handed_out(state.messages, state.deliveries, i);
    assert(after.deliveries[i].1.subscription == subscription);
    claim_keeps_its_terms(after, subscription, max_count, max_bytes, asked, later, acks);
    waiting_messages_are_claimed(
        after,
        subscription,
        max_count,
        max_bytes,
        asked,
        later,
        acks,
        i,
    );
}

/// A deadline of some seconds keeps the lease, under the same id, until then.
pub proof fn moved_deadlines_keep_the_lease(
    state: BrokerView,
    subscription: Seq<char>,
    ids: Seq<Seq<char>>,
    seconds: i32,
    now: i64,
    i: int,
)
    requires
        modify_spec(state, subscription, ids, seconds, now) is Ok,
        seconds > 0,
        0 <= i < state.deliveries.len(),
        leased_under(state.deliveries[i].1, subscription, ids),
    ensures
        modify_spec(state, subscription, ids, seconds, now)->Ok_0.deliveries[i] == (
            state.deliveries[i].0,
            DeliveryView {
                deadline_ms: Some(deadline_after(seconds as int, now)),
                ..state.deliveries[i].1
            },
        ),
{
}

/// Whether deliveries stand in the order of the age of their messages.
pub open spec fn is_in_age_order(
    messages: MessagesView,
    deliveries: DeliveriesView,
    list: Seq<int>,
) -> bool {
    forall|i: int, j: int|
        0 <= i < j < list.len() ==> is_older(
            messages,
            deliveries,
            #[trigger] list[i],
            #[trigger] list[j],
        )
}

proof fn older_is_transitive(
    messages: MessagesView,
    deliveries: DeliveriesView,
    a: int,
    b: int,
    c: int,
)
    requires
        is_older(messages, deliveries, a, b),
        is_older(messages, deliveries, b, c),
    ensures
        is_older(messages, deliveries, a, c),
{
    let x = deliveries[a].1.message_id;
    let y = deliveries[b].1.message_id;
    let z = deliveries[c].1.message_id;
    if text_less(x, y) && text_less(y, z) {
        text_less_transitive(x, y, z);
    }
}

proof fn inserting_keeps_age_order(
    messages: MessagesView,
    deliveries: DeliveriesView,
    list: Seq<int>,
    at: int,
)
    requires
        is_in_age_order(messages, deliveries, list),
        forall|k: int|
            0 <= k < list.len() ==> deliveries[#[trigger] list[k]].1.message_id
                != deliveries[at].1.message_id,
    ensures
        is_in_age_order(messages, deliveries, insert_by_age(messages, deliveries, list, at)),
    decreases list.len(),
{
    let out = insert_by_age(messages, deliveries, list, at);
    if list.len() > 0 {
        let n = list.len() - 1;
        let last = list.last();
        assert(list[n] == last);
        let init = list.drop_last();
        if !is_older(messages, deliveries, at, last) {
            text_less_total(deliveries[at].1.message_id, deliveries[last].1.message_id);
            assert(is_older(messages, deliveries, last, at));
            assert forall|i: int, j: int| 0 <= i < j < out.len() implies is_older(
                messages,
                deliveries,
                #[trigger] out[i],
                #[trigger] out[j],
            ) by {
                if j == list.len() && i < n {
                    assert(is_older(messages, deliveries, list[i], list[n]));
                    older_is_transitive(messages, deliveries, list[i], last, at);
                } else if j < list.len() {
                    assert(out[i] == list[i] && out[j] == list[j]);
                }
            }
        } else {
            assert forall|i: int, j: int| 0 <= i < j < init.len() implies is_older(
                messages,
                deliveries,
                #[trigger] init[i],
                #[trigger] init[j],
            ) by {
                assert(init[i] == list[i] && init[j] == list[j]);
            }
            assert forall|k: int| 0 <= k < init.len() implies deliveries[
                #[trigger] init[k]
            ].1.message_id != deliveries[at].1.message_id by {
                assert(init[k] == list[k]);
            }
            inserting_keeps_age_order(messages, deliveries, init, at);
            insert_by_age_members(messages, deliveries, init, at);
            let inner = insert_by_age(messages, deliveries, init, at);
            assert forall|i: int, j: int| 0 <= i < j < out.len() implies is_older(
                messages,
                deliveries,
                #[trigger] out[i],
                #[trigger] out[j],
            ) by {
                assert(out[i] == inner[i]);
                if j < inner.len() {
                    assert(out[j] == inner[j]);
                } else {
                    assert(inner.contains(inner[i]));
                    if inner[i] != at {
                        let k = choose|k: int| 0 <= k < init.len() && init[k] == inner[i];
                        assert(list[k] == inner[i]);
                        assert(is_older(messages, deliveries, list[k], list[n]));
                    }
                }
            }
        }
    }
}

proof fn by_age_is_in_order(messages: MessagesView, deliveries: DeliveriesView, list: Seq<int>)
    requires
        forall|i: int, j: int|
            0 <= i < j < list.len() ==> deliveries[#[trigger] list[i]].1.message_id
                != deliveries[#[trigger] list[j]].1.message_id,
    ensures
        is_in_age_order(messages, deliveries, by_age(messages, deliveries, list)),
    decreases list.len(),
{
    if list.len() > 0 {
        let init = list.drop_last();
        let n = list.len() - 1;
        assert(list[n] == list.last());
        assert forall|i: int, j: int| 0 <= i < j < init.len() implies deliveries[
            #[trigger] init[i]
        ].1.message_id != deliveries[#[trigger] init[j]].1.message_id by {
            assert(init[i] == list[i] && init[j] == list[j]);
        }
        by_age_is_in_order(messages, deliveries, init);
        by_age_members(messages, deliveries, init);
        let before = by_age(messages, deliveries, init);
        assert forall|k: int| 0 <= k < before.len() implies deliveries[
            #[trigger] before[k]
        ].1.message_id != deliveries[list.last()].1.message_id by {
            assert(before.contains(before[k]));
            let m = choose|m: int| 0 <= m < init.len() && init[m] == before[k];
            assert(list[m] == before[k]);
            assert(deliveries[list[m]].1.message_id != deliveries[list[n]].1.message_id);
        }
        inserting_keeps_age_order(messages, deliveries, before, list.last());
    }
}

/// A claim on disk looks at the oldest messages that wait, the oldest first: at
/// all, or at as many as its window holds, and then at none that is younger
/// than one that it does not look at.
pub proof fn claims_on_disk_look_at_the_oldest(
    state: BrokerView,
    subscription: Seq<char>,
    max_count: nat,
)
    requires
        sound(state),
        state.durable,
    ensures
        ({
            let all = waiting(state.deliveries, subscription, state.deliveries.len());
            let candidates = claim_candidates(state, subscription, max_count);
            &&& is_in_age_order(state.messages, state.deliveries, candidates)
            &&& forall|x: int|
                all.contains(x) ==> #[trigger] candidates.contains(x) || (candidates.len()
                    == claim_window(max_count) && forall|j: int|
                    0 <= j < candidates.len() ==> is_older(
                        state.messages,
                        state.deliveries,
                        #[trigger] candidates[j],
                        x,
                    ))
        }),
{
    let n = state.deliveries.len();
    let all = waiting(state.deliveries, subscription, n);
    let candidates = claim_candidates(state, subscription, max_count);
    waiting_holds(state.deliveries, subscription, n);
    assert forall|i: int, j: int| 0 <= i < j < all.len() implies state.deliveries[
        #[trigger] all[i]
    ].1.message_id != state.deliveries[#[trigger] all[j]].1.message_id by {
        assert(all[i] < all[j]);
        if state.deliveries[all[i]].1.message_id == state.deliveries[all[j]].1.message_id {
            one_delivery(state.messages, state.deliveries, all[i], all[j]);
        }
    }
    by_age_is_in_order(state.messages, state.deliveries, all);
    by_age_members(state.messages, state.deliveries, all);
    let aged = by_age(state.messages, state.deliveries, all);
    assert forall|i: int, j: int| 0 <= i < j < candidates.len() implies is_older(
        state.messages,
        state.deliveries,
        #[trigger] candidates[i],
        #[trigger] candidates[j],
    ) by {
        assert(candidates[i] == aged[i] && candidates[j] == aged[j]);
    }
    assert forall|x: int| all.contains(x) implies #[trigger] candidates.contains(x) || (
    candidates.len() == claim_window(max_count) && forall|j: int|
        0 <= j < candidates.len() ==> is_older(
            state.messages,
            state.deliveries,
            #[trigger] candidates[j],
            x,
        )) by {
        let w = choose|w: int| 0 <= w < all.len() && all[w] == x;
        assert(0 <= all[w] < n);
        assert(delivery_sound(state.messages, state.deliveries[x]));
        assert(aged.contains(x));
        let k = choose|k: int| 0 <= k < aged.len() && aged[k] == x;
        if k < candidates.len() {
            assert(candidates[k] == x);
        } else {
            assert forall|j: int| 0 <= j < candidates.len() implies is_older(
                state.messages,
                state.deliveries,
                #[trigger] candidates[j],
                x,
            ) by {
                assert(candidates[j] == aged[j]);
                assert(is_older(state.messages, state.deliveries, aged[j], aged[k]));
            }
        }
    }
}

} // verus!
