//! Leases on Pub/Sub deliveries: claiming, acknowledging and extending them.
use crate::broker::{
    all_drawn, cleaned, get_subscription_spec, is_drawn_id, live_messages, random_id, random_ids,
    size_of, Broker, BrokerView, DeliveriesView, Delivery, DeliveryView, StoredView,
    MAX_DELIVERY_MESSAGE_BYTES,
};
use crate::ordered::{
    keep_entries, kept_entry_is_old, lookup, lookup_found, without, Duplicate,
};
use crate::pubsub::{MessageView, PubsubMessage};
use crate::status::{invalid, status_view, unit_result, Code, Status, StatusView};
use crate::text::{cat, cat3, less, same, text_less, texts};
use crate::timestamps::now_ms;
use vstd::prelude::*;

verus! {

/// A message handed to a subscriber.
#[derive(PartialEq, Eq, Debug)]
pub struct BrokerMessage {
    pub ack_id: String,
    pub message: PubsubMessage,
    pub size_bytes: i64,
}

/// What a [`BrokerMessage`] stands for.
#[verifier::ext_equal]
pub struct ReceivedView {
    pub ack_id: Seq<char>,
    pub message: MessageView,
    pub size_bytes: i64,
}

impl View for BrokerMessage {
    type V = ReceivedView;

    open spec fn view(&self) -> ReceivedView {
        ReceivedView {
            ack_id: self.ack_id@,
            message: self.message@,
            size_bytes: self.size_bytes,
        }
    }
}

/// Whether a delivery of a subscription is in flight beyond its deadline.
pub open spec fn has_lapsed(delivery: DeliveryView, subscription: Seq<char>, now: i64) -> bool {
    delivery.subscription == subscription && delivery.in_flight && (
    delivery.deadline_ms matches Some(deadline) && deadline <= now)
}

/// A delivery that waits for its subscription again.
pub open spec fn released(delivery: DeliveryView) -> DeliveryView {
    DeliveryView { in_flight: false, ack_id: None, deadline_ms: None, ..delivery }
}

/// The deliveries after the lapsed ones of a subscription are released.
pub open spec fn lapsed_released(
    deliveries: DeliveriesView,
    subscription: Seq<char>,
    now: i64,
) -> DeliveriesView {
    deliveries.map_values(
        |e: (Seq<char>, DeliveryView)|
            if has_lapsed(e.1, subscription, now) {
                (e.0, released(e.1))
            } else {
                e
            },
    )
}

/// The positions of those of the first `n` deliveries that wait for a
/// subscription.
pub open spec fn waiting(deliveries: DeliveriesView, subscription: Seq<char>, n: nat) -> Seq<int>
    decreases n,
{
    if n == 0 || n > deliveries.len() {
        Seq::empty()
    } else {
        let before = waiting(deliveries, subscription, (n - 1) as nat);
        let delivery = deliveries[n - 1].1;
        if delivery.subscription == subscription && !delivery.in_flight {
            before.push(n - 1)
        } else {
            before
        }
    }
}

/// A delivery that is in flight until a deadline.
pub open spec fn leased(delivery: DeliveryView, ack_id: Seq<char>, deadline: i64) -> DeliveryView {
    DeliveryView {
        in_flight: true,
        ack_id: Some(ack_id),
        deadline_ms: Some(deadline),
        attempts: if delivery.attempts < i32::MAX {
            (delivery.attempts + 1) as i32
        } else {
            i32::MAX
        },
        ..delivery
    }
}

/// What a claim may take: so many messages, of so many bytes, until when.
#[verifier::ext_equal]
pub struct ClaimTerms {
    pub max_count: nat,
    pub max_bytes: int,
    pub deadline: i64,
    pub has_fitting: bool,
}

/// How far a claim has come.
#[verifier::ext_equal]
pub struct ClaimView {
    pub deliveries: DeliveriesView,
    pub taken: Seq<ReceivedView>,
    pub used: int,
    pub error: Option<StatusView>,
}

/// Considers one more waiting delivery. Bytes are a target: when no waiting
/// message fits, one may exceed it, so that it cannot stall the subscription.
pub open spec fn claim_step(
    messages: Seq<(Seq<char>, StoredView)>,
    terms: ClaimTerms,
    acks: Seq<Seq<char>>,
    state: ClaimView,
    at: int,
) -> ClaimView {
    if state.error is Some || state.taken.len() >= terms.max_count {
        state
    } else {
        let delivery = state.deliveries[at].1;
        let id = delivery.message_id;
        let size = size_of(messages, id);
        if size > MAX_DELIVERY_MESSAGE_BYTES {
            ClaimView {
                error: Some(
                    status_view(
                        Code::Internal,
                        "Pub/Sub message "@ + id + " exceeds delivery response budget"@,
                    ),
                ),
                ..state
            }
        } else if state.used + size > terms.max_bytes && (state.taken.len() > 0
            || terms.has_fitting) {
            state
        } else {
            match lookup(messages, id) {
                None => ClaimView {
                    error: Some(status_view(Code::Internal, "orphan Pub/Sub delivery"@)),
                    ..state
                },
                Some(stored) => {
                    let ack_id = acks[state.taken.len() as int];
                    ClaimView {
                        deliveries: state.deliveries.update(
                            at,
                            (state.deliveries[at].0, leased(delivery, ack_id, terms.deadline)),
                        ),
                        taken: state.taken.push(
                            ReceivedView {
                                ack_id,
                                message: stored.message,
                                size_bytes: stored.size,
                            },
                        ),
                        used: state.used + size,
                        error: None,
                    }
                },
            }
        }
    }
}

/// The claim after the first `n` candidates.
pub open spec fn claim_fold(
    messages: Seq<(Seq<char>, StoredView)>,
    deliveries: DeliveriesView,
    candidates: Seq<int>,
    terms: ClaimTerms,
    acks: Seq<Seq<char>>,
    n: nat,
) -> ClaimView
    decreases n,
{
    if n == 0 || n > candidates.len() {
        ClaimView { deliveries, taken: Seq::empty(), used: 0, error: None }
    } else {
        claim_step(
            messages,
            terms,
            acks,
            claim_fold(messages, deliveries, candidates, terms, acks, (n - 1) as nat),
            candidates[n - 1],
        )
    }
}

/// Whether one of the candidates is no larger than `max_bytes`.
pub open spec fn any_fits(
    messages: Seq<(Seq<char>, StoredView)>,
    deliveries: DeliveriesView,
    candidates: Seq<int>,
    max_bytes: int,
) -> bool {
    exists|j: int|
        0 <= j < candidates.len() && size_of(
            messages,
            deliveries[#[trigger] candidates[j]].1.message_id,
        ) <= max_bytes
}

/// The deadline of a claim: the one asked for or the subscription's own,
/// between 10 and 600 seconds from now.
pub open spec fn claim_deadline(configured: i32, asked: Option<i32>, now: i64) -> i64 {
    let wanted = match asked {
        Some(seconds) => seconds,
        None => configured,
    };
    deadline_after(
        if wanted < 10 {
            10
        } else if wanted > 600 {
            600
        } else {
            wanted as int
        },
        now,
    )
}

/// So many seconds from now, at most the largest time.
pub open spec fn deadline_after(seconds: int, now: i64) -> i64 {
    if now + seconds * 1000 > i64::MAX {
        i64::MAX
    } else {
        (now + seconds * 1000) as i64
    }
}

/// The state in which a claim looks for messages: expired messages gone and
/// lapsed leases released.
pub open spec fn before_claim(state: BrokerView, subscription: Seq<char>, now: i64) -> BrokerView {
    let current = cleaned(state, now);
    BrokerView {
        deliveries: lapsed_released(current.deliveries, subscription, now),
        ..current
    }
}

/// Whether the message of one delivery is older than that of another: it was
/// published before, or at the same time under an id that comes first.
pub open spec fn is_older(
    messages: Seq<(Seq<char>, StoredView)>,
    deliveries: DeliveriesView,
    a: int,
    b: int,
) -> bool {
    let x = lookup(messages, deliveries[a].1.message_id)->0.published;
    let y = lookup(messages, deliveries[b].1.message_id)->0.published;
    x < y || (x == y && text_less(deliveries[a].1.message_id, deliveries[b].1.message_id))
}

/// A list of deliveries by age with one more at its place.
pub open spec fn insert_by_age(
    messages: Seq<(Seq<char>, StoredView)>,
    deliveries: DeliveriesView,
    list: Seq<int>,
    at: int,
) -> Seq<int>
    decreases list.len(),
{
    if list.len() == 0 || !is_older(messages, deliveries, at, list.last()) {
        list.push(at)
    } else {
        insert_by_age(messages, deliveries, list.drop_last(), at).push(list.last())
    }
}

/// Those of some deliveries whose messages are there, the oldest message first.
pub open spec fn by_age(
    messages: Seq<(Seq<char>, StoredView)>,
    deliveries: DeliveriesView,
    list: Seq<int>,
) -> Seq<int>
    decreases list.len(),
{
    if list.len() == 0 {
        Seq::empty()
    } else {
        let before = by_age(messages, deliveries, list.drop_last());
        match lookup(messages, deliveries[list.last()].1.message_id) {
            Some(_) => insert_by_age(messages, deliveries, before, list.last()),
            None => before,
        }
    }
}

/// How many messages a claim on disk looks at: four for each that it may take,
/// between 16 and 1000.
pub open spec fn claim_window(max_count: nat) -> nat {
    if 4 * max_count < 16 {
        16
    } else if 4 * max_count > 1000 {
        1000
    } else {
        4 * max_count
    }
}

/// The deliveries that a claim looks at, in this order: in memory all that wait
/// for the subscription, by id; on disk the oldest of them, by age.
pub open spec fn claim_candidates(state: BrokerView, subscription: Seq<char>, max_count: nat)
    -> Seq<int> {
    let all = waiting(state.deliveries, subscription, state.deliveries.len());
    if state.durable {
        let aged = by_age(state.messages, state.deliveries, all);
        if claim_window(max_count) < aged.len() {
            aged.take(claim_window(max_count) as int)
        } else {
            aged
        }
    } else {
        all
    }
}

/// What is answered where a claim on disk meets a message that cannot be
/// delivered.
pub open spec fn storage_failure(error: StatusView) -> StatusView {
    status_view(
        Code::Internal,
        "Pub/Sub persistence error: persistence database failed integrity_check: "@
            + error.message,
    )
}

/// The state after a claim, and the messages that it took. The message at
/// place `k` among them is leased under `acks[k]`.
pub open spec fn claim_spec(
    state: BrokerView,
    subscription: Seq<char>,
    max_count: nat,
    max_bytes: int,
    asked: Option<i32>,
    now: i64,
    acks: Seq<Seq<char>>,
) -> (BrokerView, Result<Seq<ReceivedView>, StatusView>) {
    match get_subscription_spec(state, subscription) {
        Err(e) => (state, Err(e)),
        Ok(found) => {
            let current = before_claim(state, subscription, now);
            let candidates = claim_candidates(current, subscription, max_count);
            let terms = ClaimTerms {
                max_count,
                max_bytes,
                deadline: claim_deadline(found.ack_deadline_seconds, asked, now),
                has_fitting: any_fits(
                    current.messages,
                    current.deliveries,
                    candidates,
                    max_bytes,
                ),
            };
            let done = claim_fold(
                current.messages,
                current.deliveries,
                candidates,
                terms,
                acks,
                candidates.len(),
            );
            match done.error {
                None => (BrokerView { deliveries: done.deliveries, ..current }, Ok(done.taken)),
                Some(e) => if state.durable {
                    (state, Err(storage_failure(e)))
                } else {
                    (BrokerView { deliveries: done.deliveries, ..current }, Err(e))
                },
            }
        },
    }
}

/// The views of a list of received messages.
pub open spec fn received_view(messages: Seq<BrokerMessage>) -> Seq<ReceivedView> {
    messages.map_values(|m: BrokerMessage| m@)
}

/// What a list of positions stands for.
pub open spec fn positions(list: Seq<usize>) -> Seq<int> {
    list.map_values(|i: usize| i as int)
}

proof fn waiting_in_range(deliveries: DeliveriesView, subscription: Seq<char>, n: nat)
    requires
        n <= deliveries.len(),
    ensures
        waiting(deliveries, subscription, n).len() <= n,
        forall|j: int|
            0 <= j < waiting(deliveries, subscription, n).len() ==> 0 <= #[trigger] waiting(
                deliveries,
                subscription,
                n,
            )[j] < n,
    decreases n,
{
    if n > 0 {
        waiting_in_range(deliveries, subscription, (n - 1) as nat);
    }
}

/// A delivery that is put in its place among others is the only one added.
pub proof fn insert_by_age_members(
    messages: Seq<(Seq<char>, StoredView)>,
    deliveries: DeliveriesView,
    list: Seq<int>,
    at: int,
)
    ensures
        insert_by_age(messages, deliveries, list, at).len() == list.len() + 1,
        forall|x: int| #[trigger]
            insert_by_age(messages, deliveries, list, at).contains(x) <==> list.contains(x) || x
                == at,
        list.no_duplicates() && !list.contains(at) ==> insert_by_age(
            messages,
            deliveries,
            list,
            at,
        ).no_duplicates(),
    decreases list.len(),
{
    let out = insert_by_age(messages, deliveries, list, at);
    if list.len() == 0 || !is_older(messages, deliveries, at, list.last()) {
        assert forall|x: int| #[trigger] out.contains(x) <==> list.contains(x) || x == at by {
            if list.contains(x) {
                let k = choose|k: int| 0 <= k < list.len() && list[k] == x;
                assert(out[k] == x);
            }
            assert(out[list.len() as int] == at);
            if out.contains(x) {
                let k = choose|k: int| 0 <= k < out.len() && out[k] == x;
                if k < list.len() {
                    assert(list[k] == x);
                }
            }
        }
    } else {
        let init = list.drop_last();
        insert_by_age_members(messages, deliveries, init, at);
        let inner = insert_by_age(messages, deliveries, init, at);
        let n = list.len() - 1;
        assert(list[n] == list.last());
        assert forall|x: int| #[trigger] out.contains(x) <==> list.contains(x) || x == at by {
            if list.contains(x) {
                let k = choose|k: int| 0 <= k < list.len() && list[k] == x;
                if k < n {
                    assert(init[k] == x);
                    assert(init.contains(x));
                    assert(inner.contains(x));
                    let m = choose|m: int| 0 <= m < inner.len() && inner[m] == x;
                    assert(out[m] == x);
                } else {
                    assert(out[inner.len() as int] == x);
                }
            }
            if x == at {
                assert(inner.contains(at));
                let m = choose|m: int| 0 <= m < inner.len() && inner[m] == at;
                assert(out[m] == at);
            }
            if out.contains(x) {
                let k = choose|k: int| 0 <= k < out.len() && out[k] == x;
                if k < inner.len() {
                    assert(inner[k] == x);
                    assert(inner.contains(x));
                    if init.contains(x) {
                        let m = choose|m: int| 0 <= m < init.len() && init[m] == x;
                        assert(list[m] == x);
                    }
                } else {
                    assert(list[n] == x);
                }
            }
        }
        if list.no_duplicates() && !list.contains(at) {
            assert(init.no_duplicates());
            assert(!init.contains(at)) by {
                if init.contains(at) {
                    let m = choose|m: int| 0 <= m < init.len() && init[m] == at;
                    assert(list[m] == at);
                }
            }
            assert(!init.contains(list.last())) by {
                if init.contains(list.last()) {
                    let m = choose|m: int| 0 <= m < init.len() && init[m] == list.last();
                    assert(list[m] == list[n]);
                }
            }
            assert(at != list.last()) by {
                assert(list.contains(list[n]));
            }
            assert(!inner.contains(list.last()));
            assert forall|x: int, y: int| 0 <= x < out.len() && 0 <= y < out.len() && x
                != y implies out[x] != out[y] by {
                if x < inner.len() {
                    assert(inner.contains(inner[x]));
                }
                if y < inner.len() {
                    assert(inner.contains(inner[y]));
                }
            }
        }
    }
}

/// Putting deliveries in the order of their age drops those alone whose message
/// is missing, and adds none.
pub proof fn by_age_members(
    messages: Seq<(Seq<char>, StoredView)>,
    deliveries: DeliveriesView,
    list: Seq<int>,
)
    ensures
        by_age(messages, deliveries, list).len() <= list.len(),
        forall|x: int| #[trigger]
            by_age(messages, deliveries, list).contains(x) <==> list.contains(x) && lookup(
                messages,
                deliveries[x].1.message_id,
            ) is Some,
        list.no_duplicates() ==> by_age(messages, deliveries, list).no_duplicates(),
    decreases list.len(),
{
    if list.len() > 0 {
        let init = list.drop_last();
        let n = list.len() - 1;
        by_age_members(messages, deliveries, init);
        let before = by_age(messages, deliveries, init);
        insert_by_age_members(messages, deliveries, before, list.last());
        assert(list[n] == list.last());
        assert forall|x: int| list.contains(x) <==> init.contains(x) || x == list.last() by {
            if list.contains(x) {
                let k = choose|k: int| 0 <= k < list.len() && list[k] == x;
                if k < n {
                    assert(init[k] == x);
                }
            }
            if init.contains(x) {
                let k = choose|k: int| 0 <= k < init.len() && init[k] == x;
                assert(list[k] == x);
            }
        }
        let out = by_age(messages, deliveries, list);
        assert forall|x: int| #[trigger] out.contains(x) <==> list.contains(x) && lookup(
            messages,
            deliveries[x].1.message_id,
        ) is Some by {
            assert(before.contains(x) <==> init.contains(x) && lookup(
                messages,
                deliveries[x].1.message_id,
            ) is Some);
            assert(list.contains(x) <==> init.contains(x) || x == list.last());
        }
        if list.no_duplicates() {
            assert(init.no_duplicates());
            assert(!init.contains(list.last())) by {
                if init.contains(list.last()) {
                    let k = choose|k: int| 0 <= k < init.len() && init[k] == list.last();
                    assert(list[k] == list[n]);
                }
            }
            assert(!before.contains(list.last()));
        }
    }
}

/// What a claim looks at waits for the subscription, each delivery once.
pub proof fn candidates_wait(state: BrokerView, subscription: Seq<char>, max_count: nat)
    ensures
        ({
            let all = waiting(state.deliveries, subscription, state.deliveries.len());
            let candidates = claim_candidates(state, subscription, max_count);
            &&& candidates.no_duplicates()
            &&& candidates.len() <= all.len()
            &&& forall|j: int|
                0 <= j < candidates.len() ==> all.contains(#[trigger] candidates[j])
            &&& forall|j: int|
                0 <= j < candidates.len() ==> 0 <= #[trigger] candidates[j]
                    < state.deliveries.len()
        }),
{
    let n = state.deliveries.len();
    let all = waiting(state.deliveries, subscription, n);
    waiting_in_range(state.deliveries, subscription, n);
    waiting_differ(state.deliveries, subscription, n);
    by_age_members(state.messages, state.deliveries, all);
    let aged = by_age(state.messages, state.deliveries, all);
    let candidates = claim_candidates(state, subscription, max_count);
    assert forall|j: int| 0 <= j < candidates.len() implies all.contains(
        #[trigger] candidates[j],
    ) && 0 <= candidates[j] < n by {
        if state.durable {
            assert(aged[j] == candidates[j]);
            assert(aged.contains(candidates[j]));
        } else {
            assert(all[j] == candidates[j]);
        }
        let k = choose|k: int| 0 <= k < all.len() && all[k] == candidates[j];
        assert(0 <= all[k] < n);
    }
}

proof fn waiting_differ(deliveries: DeliveriesView, subscription: Seq<char>, n: nat)
    requires
        n <= deliveries.len(),
    ensures
        waiting(deliveries, subscription, n).no_duplicates(),
    decreases n,
{
    if n > 0 {
        waiting_differ(deliveries, subscription, (n - 1) as nat);
        waiting_in_range(deliveries, subscription, (n - 1) as nat);
    }
}

proof fn claim_meets_no_error(
    messages: Seq<(Seq<char>, StoredView)>,
    deliveries: DeliveriesView,
    candidates: Seq<int>,
    terms: ClaimTerms,
    acks: Seq<Seq<char>>,
    n: nat,
)
    requires
        n <= candidates.len(),
        forall|j: int|
            0 <= j < candidates.len() ==> 0 <= #[trigger] candidates[j] < deliveries.len()
                && lookup(messages, deliveries[candidates[j]].1.message_id) is Some,
        forall|j: int|
            0 <= j < candidates.len() ==> size_of(
                messages,
                deliveries[#[trigger] candidates[j]].1.message_id,
            ) <= MAX_DELIVERY_MESSAGE_BYTES,
    ensures
        ({
            let done = claim_fold(messages, deliveries, candidates, terms, acks, n);
            &&& done.error is None
            &&& done.deliveries.len() == deliveries.len()
            &&& forall|i: int|
                0 <= i < deliveries.len() ==> (#[trigger] done.deliveries[i]).1.message_id
                    == deliveries[i].1.message_id
        }),
    decreases n,
{
    if n > 0 {
        claim_meets_no_error(messages, deliveries, candidates, terms, acks, (n - 1) as nat);
        let before = claim_fold(messages, deliveries, candidates, terms, acks, (n - 1) as nat);
        let at = candidates[n - 1];
        assert(before.deliveries[at].1.message_id == deliveries[at].1.message_id);
    }
}

proof fn claim_fold_keeps_len(
    messages: Seq<(Seq<char>, StoredView)>,
    deliveries: DeliveriesView,
    candidates: Seq<int>,
    terms: ClaimTerms,
    acks: Seq<Seq<char>>,
    n: nat,
)
    requires
        n <= candidates.len(),
        forall|j: int|
            0 <= j < candidates.len() ==> 0 <= #[trigger] candidates[j] < deliveries.len(),
    ensures
        claim_fold(messages, deliveries, candidates, terms, acks, n).deliveries.len()
            == deliveries.len(),
        claim_fold(messages, deliveries, candidates, terms, acks, n).taken.len() <= n,
    decreases n,
{
    if n > 0 {
        claim_fold_keeps_len(messages, deliveries, candidates, terms, acks, (n - 1) as nat);
    }
}

impl Broker {
    /// Removes expired messages, releases the lapsed leases of a subscription
    /// and finds the deliveries that wait for it.
    fn find_waiting(&mut self, subscription: &str, now: i64) -> (r: Vec<usize>)
        ensures
            final(self)@ == before_claim(old(self)@, subscription@, now),
            positions(r@) == waiting(
                final(self)@.deliveries,
                subscription@,
                final(self)@.deliveries.len(),
            ),
    {
        self.cleanup(now);
        let ghost current = self@;
        let ghost after = lapsed_released(current.deliveries, subscription@, now);
        let mut found: Vec<usize> = Vec::new();
        let mut i: usize = 0;
        assert(positions(found@) =~= Seq::empty());
        while i < self.deliveries.len()
            invariant
                i <= self.deliveries@.len(),
                self.deliveries@.len() == current.deliveries.len(),
                after == lapsed_released(current.deliveries, subscription@, now),
                self.durable == current.durable,
                self.topics@ == current.topics,
                self.subscriptions@ == current.subscriptions,
                self.messages@ == current.messages,
                forall|k: int| 0 <= k < i ==> #[trigger] self.deliveries@[k] == after[k],
                forall|k: int|
                    i <= k < self.deliveries@.len() ==> #[trigger] self.deliveries@[k]
                        == current.deliveries[k],
                positions(found@) == waiting(after, subscription@, i as nat),
            decreases self.deliveries@.len() - i,
        {
            let delivery = self.deliveries.value_at(i);
            let mine = same(delivery.subscription.as_str(), subscription);
            let lapsed = mine && delivery.in_flight && match delivery.deadline_ms {
                Some(deadline) => deadline <= now,
                None => false,
            };
            let free = mine && (!delivery.in_flight || lapsed);
            if lapsed {
                let mut back = delivery.duplicate();
                back.in_flight = false;
                back.ack_id = None;
                back.deadline_ms = None;
                self.deliveries.set_value_at(i, back);
            }
            assert(self.deliveries@[i as int] == after[i as int]);
            if free {
                let ghost before = positions(found@);
                found.push(i);
                assert(positions(found@) =~= before.push(i as int));
            }
            i += 1;
        }
        assert(self.deliveries@ =~= after);
        found
    }

    fn older(&self, a: usize, b: usize) -> (r: bool)
        requires
            a < self@.deliveries.len(),
            b < self@.deliveries.len(),
            lookup(self@.messages, self@.deliveries[a as int].1.message_id) is Some,
            lookup(self@.messages, self@.deliveries[b as int].1.message_id) is Some,
        ensures
            r == is_older(self@.messages, self@.deliveries, a as int, b as int),
    {
        let first = self.deliveries.value_at(a).message_id.as_str();
        let second = self.deliveries.value_at(b).message_id.as_str();
        let x: i64 = match self.messages.get(first) {
            Some(stored) => stored.published,
            None => 0,
        };
        let y: i64 = match self.messages.get(second) {
            Some(stored) => stored.published,
            None => 0,
        };
        x < y || (x == y && less(first, second))
    }

    /// Puts deliveries in the order of their age.
    fn sort_by_age(&self, list: &Vec<usize>) -> (r: Vec<usize>)
        requires
            forall|j: int|
                0 <= j < list@.len() ==> (#[trigger] list@[j]) < self@.deliveries.len(),
        ensures
            positions(r@) == by_age(self@.messages, self@.deliveries, positions(list@)),
    {
        let ghost all = positions(list@);
        let ghost (messages, deliveries) = (self@.messages, self@.deliveries);
        let mut out: Vec<usize> = Vec::new();
        let mut i: usize = 0;
        assert(all.take(0) =~= Seq::empty());
        assert(positions(out@) =~= Seq::empty());
        while i < list.len()
            invariant
                i <= list@.len(),
                all == positions(list@),
                messages == self@.messages,
                deliveries == self@.deliveries,
                forall|j: int| 0 <= j < list@.len() ==> (#[trigger] list@[j]) < deliveries.len(),
                positions(out@) == by_age(messages, deliveries, all.take(i as int)),
            decreases list.len() - i,
        {
            let at: usize = list[i];
            let ghost sorted = positions(out@);
            assert(all.take(i + 1).drop_last() =~= all.take(i as int));
            assert(all.take(i + 1).last() == at);
            proof {
                by_age_members(messages, deliveries, all.take(i as int));
                assert forall|k: int| 0 <= k < out@.len() implies (#[trigger] out@[k])
                    < deliveries.len() && lookup(
                    messages,
                    deliveries[out@[k] as int].1.message_id,
                ) is Some by {
                    assert(sorted[k] == out@[k]);
                    assert(sorted.contains(sorted[k]));
                    let m = choose|m: int|
                        0 <= m < i && all.take(i as int)[m] == sorted[k];
                    assert(list@[m] == out@[k]);
                }
            }
            if self.messages.contains(self.deliveries.value_at(at).message_id.as_str()) {
                let mut pos: usize = out.len();
                while pos > 0 && self.older(at, out[pos - 1])
                    invariant
                        pos <= out@.len(),
                        at < deliveries.len(),
                        messages == self@.messages,
                        deliveries == self@.deliveries,
                        sorted == positions(out@),
                        lookup(messages, deliveries[at as int].1.message_id) is Some,
                        forall|k: int|
                            0 <= k < out@.len() ==> (#[trigger] out@[k]) < deliveries.len()
                                && lookup(
                                messages,
                                deliveries[out@[k] as int].1.message_id,
                            ) is Some,
                        forall|k: int|
                            pos <= k < sorted.len() ==> is_older(
                                messages,
                                deliveries,
                                at as int,
                                #[trigger] sorted[k],
                            ),
                    decreases pos,
                {
                    assert(sorted[pos - 1] == out@[pos - 1]);
                    pos -= 1;
                }
                proof {
                    if pos > 0 {
                        assert(sorted[pos - 1] == out@[pos - 1]);
                    }
                    insert_by_age_split(messages, deliveries, sorted, at as int, pos as int);
                }
                out.insert(pos, at);
                assert(positions(out@) =~= sorted.insert(pos as int, at as int));
            }
            i += 1;
        }
        assert(all.take(i as int) =~= all);
        out
    }

    /// Finds the deliveries that a claim looks at among those that wait.
    fn pick_candidates(&self, subscription: &str, max_count: usize, found: Vec<usize>) -> (r: Vec<
        usize,
    >)
        requires
            positions(found@) == waiting(
                self@.deliveries,
                subscription@,
                self@.deliveries.len(),
            ),
        ensures
            positions(r@) == claim_candidates(self@, subscription@, max_count as nat),
    {
        if !self.durable {
            return found;
        }
        proof {
            waiting_in_range(self@.deliveries, subscription@, self@.deliveries.len());
            assert forall|j: int| 0 <= j < found@.len() implies (#[trigger] found@[j])
                < self@.deliveries.len() by {
                assert(positions(found@)[j] == found@[j]);
            }
        }
        let window: usize = if max_count <= 4 {
            16
        } else if max_count > 250 {
            1000
        } else {
            4 * max_count
        };
        let mut aged = self.sort_by_age(&found);
        let ghost all = positions(aged@);
        if aged.len() > window {
            aged.truncate(window);
            assert(positions(aged@) =~= all.take(window as int));
        }
        aged
    }

    fn has_oversized(&self) -> (r: bool)
        ensures
            !r ==> forall|i: int|
                0 <= i < self@.messages.len() ==> (#[trigger] self@.messages[i]).1.size
                    <= MAX_DELIVERY_MESSAGE_BYTES,
    {
        let mut i: usize = 0;
        while i < self.messages.len()
            invariant
                i <= self.messages@.len(),
                forall|j: int|
                    0 <= j < i ==> (#[trigger] self.messages@[j]).1.size
                        <= MAX_DELIVERY_MESSAGE_BYTES,
            decreases self.messages@.len() - i,
        {
            if self.messages.value_at(i).size > MAX_DELIVERY_MESSAGE_BYTES {
                return true;
            }
            i += 1;
        }
        false
    }

    fn size_at(&self, at: usize) -> (r: i64)
        requires
            at < self@.deliveries.len(),
        ensures
            r == size_of(self@.messages, self@.deliveries[at as int].1.message_id),
    {
        match self.messages.get(self.deliveries.value_at(at).message_id.as_str()) {
            Some(stored) => stored.size,
            None => 0,
        }
    }

    fn has_fitting(&self, candidates: &Vec<usize>, max_bytes: i64) -> (r: bool)
        requires
            forall|j: int|
                0 <= j < candidates@.len() ==> (#[trigger] candidates@[j]) < self@.deliveries.len(),
        ensures
            r == any_fits(
                self@.messages,
                self@.deliveries,
                positions(candidates@),
                max_bytes as int,
            ),
    {
        let ghost all = positions(candidates@);
        let mut i: usize = 0;
        while i < candidates.len()
            invariant
                i <= candidates.len(),
                all == positions(candidates@),
                forall|j: int|
                    0 <= j < candidates@.len() ==> (#[trigger] candidates@[j])
                        < self@.deliveries.len(),
                forall|j: int|
                    0 <= j < i ==> size_of(
                        self@.messages,
                        self@.deliveries[#[trigger] all[j]].1.message_id,
                    ) > max_bytes,
            decreases candidates.len() - i,
        {
            assert(all[i as int] == candidates@[i as int]);
            if self.size_at(candidates[i]) <= max_bytes {
                return true;
            }
            i += 1;
        }
        false
    }

    /// Leases waiting deliveries on the given terms.
    fn take_waiting(
        &mut self,
        candidates: &Vec<usize>,
        max_count: usize,
        max_bytes: i64,
        deadline: i64,
        has_fitting: bool,
        acks: &Vec<String>,
    ) -> (r: Result<Vec<BrokerMessage>, Status>)
        requires
            forall|j: int|
                0 <= j < candidates@.len() ==> (#[trigger] candidates@[j]) < old(
                    self,
                )@.deliveries.len(),
            acks@.len() >= max_count || acks@.len() >= candidates@.len(),
        ensures
            ({
                let done = claim_fold(
                    old(self)@.messages,
                    old(self)@.deliveries,
                    positions(candidates@),
                    ClaimTerms {
                        max_count: max_count as nat,
                        max_bytes: max_bytes as int,
                        deadline,
                        has_fitting,
                    },
                    texts(acks@),
                    candidates@.len(),
                );
                &&& final(self)@ == (BrokerView { deliveries: done.deliveries, ..old(self)@ })
                &&& match done.error {
                    Some(e) => r is Err && r->Err_0@ == e,
                    None => r is Ok && received_view(r->Ok_0@) == done.taken,
                }
            }),
    {
        let ghost start = self@;
        let ghost all = positions(candidates@);
        let ghost ids = texts(acks@);
        let ghost terms = ClaimTerms {
            max_count: max_count as nat,
            max_bytes: max_bytes as int,
            deadline,
            has_fitting,
        };
        let mut taken: Vec<BrokerMessage> = Vec::new();
        let mut used: i128 = 0;
        let mut i: usize = 0;
        assert(received_view(taken@) =~= Seq::empty());
        while i < candidates.len()
            invariant
                i <= candidates@.len(),
                all == positions(candidates@),
                ids == texts(acks@),
                start == old(self)@,
                terms == (ClaimTerms {
                    max_count: max_count as nat,
                    max_bytes: max_bytes as int,
                    deadline,
                    has_fitting,
                }),
                acks@.len() >= max_count || acks@.len() >= candidates@.len(),
                forall|j: int|
                    0 <= j < candidates@.len() ==> (#[trigger] candidates@[j])
                        < start.deliveries.len(),
                self@.deliveries.len() == start.deliveries.len(),
                self@ == (BrokerView { deliveries: self@.deliveries, ..start }),
                taken@.len() <= i,
                -(i * 0x8000_0000_0000_0000) <= used <= i * 0x8000_0000_0000_0000,
                claim_fold(start.messages, start.deliveries, all, terms, ids, i as nat) == (
                ClaimView {
                    deliveries: self@.deliveries,
                    taken: received_view(taken@),
                    used: used as int,
                    error: None,
                }),
            decreases candidates@.len() - i,
        {
            let ghost so_far = claim_fold(
                start.messages,
                start.deliveries,
                all,
                terms,
                ids,
                i as nat,
            );
            let at: usize = candidates[i];
            assert(all[i as int] == at);
            assert(claim_fold(start.messages, start.deliveries, all, terms, ids, (i + 1) as nat)
                == claim_step(start.messages, terms, ids, so_far, at as int));
            if taken.len() < max_count {
                let size = self.size_at(at);
                if size > MAX_DELIVERY_MESSAGE_BYTES {
                    let id = self.deliveries.value_at(at).message_id.as_str();
                    let message = cat3("Pub/Sub message ", id, " exceeds delivery response budget");
                    proof {
                        claim_error_stays(
                            start.messages,
                            start.deliveries,
                            all,
                            terms,
                            ids,
                            (i + 1) as nat,
                            all.len(),
                        );
                    }
                    return Err(Status::new(Code::Internal, message.as_str()));
                }
                if used + size as i128 > max_bytes as i128 && (taken.len() > 0 || has_fitting) {
                    // Left for a later claim.
                } else {
                    let delivery = self.deliveries.value_at(at);
                    match self.messages.get(delivery.message_id.as_str()) {
                        None => {
                            proof {
                                claim_error_stays(
                                    start.messages,
                                    start.deliveries,
                                    all,
                                    terms,
                                    ids,
                                    (i + 1) as nat,
                                    all.len(),
                                );
                            }
                            return Err(Status::new(Code::Internal, "orphan Pub/Sub delivery"));
                        },
                        Some(stored) => {
                            let ack_id = acks[taken.len()].clone();
                            let received = BrokerMessage {
                                ack_id: ack_id.clone(),
                                message: stored.message.duplicate(),
                                size_bytes: stored.size,
                            };
                            let mut lease = delivery.duplicate();
                            lease.in_flight = true;
                            lease.ack_id = Some(ack_id);
                            lease.deadline_ms = Some(deadline);
                            lease.attempts = if lease.attempts < i32::MAX {
                                lease.attempts + 1
                            } else {
                                i32::MAX
                            };
                            let ghost before = received_view(taken@);
                            self.deliveries.set_value_at(at, lease);
                            taken.push(received);
                            assert(received_view(taken@) =~= before.push(received@));
                            used = used + size as i128;
                        },
                    }
                }
            }
            i += 1;
        }
        Ok(taken)
    }
}

proof fn insert_by_age_split(
    messages: Seq<(Seq<char>, StoredView)>,
    deliveries: DeliveriesView,
    list: Seq<int>,
    at: int,
    pos: int,
)
    requires
        0 <= pos <= list.len(),
        forall|k: int|
            pos <= k < list.len() ==> is_older(messages, deliveries, at, #[trigger] list[k]),
        pos > 0 ==> !is_older(messages, deliveries, at, list[pos - 1]),
    ensures
        insert_by_age(messages, deliveries, list, at) == list.insert(pos, at),
    decreases list.len(),
{
    if pos < list.len() {
        let init = list.drop_last();
        assert(list[list.len() - 1] == list.last());
        assert forall|k: int| pos <= k < init.len() implies is_older(
            messages,
            deliveries,
            at,
            #[trigger] init[k],
        ) by {
            assert(init[k] == list[k]);
        }
        insert_by_age_split(messages, deliveries, init, at, pos);
        assert(init.insert(pos, at).push(list.last()) =~= list.insert(pos, at));
    } else {
        assert(list.insert(pos, at) =~= list.push(at));
    }
}

/// A claim on disk meets no message that cannot be delivered where there is
/// none.
proof fn durable_claim_succeeds(
    state: BrokerView,
    subscription: Seq<char>,
    max_count: nat,
    max_bytes: int,
    asked: Option<i32>,
    now: i64,
    acks: Seq<Seq<char>>,
)
    requires
        state.durable,
        get_subscription_spec(state, subscription) is Ok,
        forall|i: int|
            0 <= i < state.messages.len() ==> (#[trigger] state.messages[i]).1.size
                <= MAX_DELIVERY_MESSAGE_BYTES,
    ensures
        claim_spec(state, subscription, max_count, max_bytes, asked, now, acks).1 is Ok,
{
    let found = get_subscription_spec(state, subscription)->Ok_0;
    let current = before_claim(state, subscription, now);
    let candidates = claim_candidates(current, subscription, max_count);
    let all = waiting(current.deliveries, subscription, current.deliveries.len());
    candidates_wait(current, subscription, max_count);
    by_age_members(current.messages, current.deliveries, all);
    let aged = by_age(current.messages, current.deliveries, all);
    let keep = |e: (Seq<char>, StoredView)| e.1.expiry > now;
    assert forall|j: int| 0 <= j < candidates.len() implies lookup(
        current.messages,
        current.deliveries[#[trigger] candidates[j]].1.message_id,
    ) is Some && size_of(
        current.messages,
        current.deliveries[candidates[j]].1.message_id,
    ) <= MAX_DELIVERY_MESSAGE_BYTES by {
        assert(aged[j] == candidates[j]);
        assert(aged.contains(candidates[j]));
        let id = current.deliveries[candidates[j]].1.message_id;
        lookup_found(current.messages, id);
        let k = choose|k: int|
            0 <= k < current.messages.len() && #[trigger] current.messages[k] == (
                id,
                lookup(current.messages, id)->0,
            );
        let m = kept_entry_is_old(state.messages, keep, k);
        assert(state.messages[m] == current.messages[k]);
    }
    let terms = ClaimTerms {
        max_count,
        max_bytes,
        deadline: claim_deadline(found.ack_deadline_seconds, asked, now),
        has_fitting: any_fits(current.messages, current.deliveries, candidates, max_bytes),
    };
    claim_meets_no_error(
        current.messages,
        current.deliveries,
        candidates,
        terms,
        acks,
        candidates.len(),
    );
}

proof fn claim_error_stays(
    messages: Seq<(Seq<char>, StoredView)>,
    deliveries: DeliveriesView,
    candidates: Seq<int>,
    terms: ClaimTerms,
    acks: Seq<Seq<char>>,
    n: nat,
    m: nat,
)
    requires
        n <= m <= candidates.len(),
        claim_fold(messages, deliveries, candidates, terms, acks, n).error is Some,
    ensures
        claim_fold(messages, deliveries, candidates, terms, acks, m) == claim_fold(
            messages,
            deliveries,
            candidates,
            terms,
            acks,
            n,
        ),
    decreases m,
{
    if n < m {
        claim_error_stays(messages, deliveries, candidates, terms, acks, n, (m - 1) as nat);
    }
}

/// Whether a delivery of a subscription is leased under one of the ids.
pub open spec fn leased_under(
    delivery: DeliveryView,
    subscription: Seq<char>,
    ids: Seq<Seq<char>>,
) -> bool {
    delivery.subscription == subscription && (delivery.ack_id matches Some(ack)
        && ids.contains(ack))
}

/// The state after the deliveries leased under the ids are acknowledged: they
/// are gone, with the messages that no other delivery needs.
pub open spec fn acknowledged(
    state: BrokerView,
    subscription: Seq<char>,
    ids: Seq<Seq<char>>,
) -> BrokerView {
    let left = keep_entries(
        state.deliveries,
        |e: (Seq<char>, DeliveryView)| !leased_under(e.1, subscription, ids),
    );
    BrokerView { deliveries: left, messages: live_messages(state.messages, left), ..state }
}

/// The deliveries after a change of deadline: zero seconds release the lease.
pub open spec fn deadlines_modified(
    deliveries: DeliveriesView,
    subscription: Seq<char>,
    ids: Seq<Seq<char>>,
    seconds: i32,
    now: i64,
) -> DeliveriesView {
    deliveries.map_values(
        |e: (Seq<char>, DeliveryView)|
            if !leased_under(e.1, subscription, ids) {
                e
            } else if seconds == 0 {
                (e.0, released(e.1))
            } else {
                (
                    e.0,
                    DeliveryView {
                        deadline_ms: Some(deadline_after(seconds as int, now)),
                        ..e.1
                    },
                )
            },
    )
}

/// Whether a request about leases is acceptable.
pub open spec fn check_lease_request(
    state: BrokerView,
    subscription: Seq<char>,
    ids: Seq<Seq<char>>,
) -> Result<(), StatusView> {
    match get_subscription_spec(state, subscription) {
        Err(e) => Err(e),
        Ok(_) => if ids.len() == 0 {
            Err(invalid("ack_ids must not be empty"@))
        } else {
            Ok(())
        },
    }
}

pub open spec fn modify_spec(
    state: BrokerView,
    subscription: Seq<char>,
    ids: Seq<Seq<char>>,
    seconds: i32,
    now: i64,
) -> Result<BrokerView, StatusView> {
    match check_lease_request(state, subscription, ids) {
        Err(e) => Err(e),
        Ok(_) => if seconds < 0 || seconds > 600 {
            Err(invalid("ack deadline must be between 0 and 600"@))
        } else {
            Ok(
                BrokerView {
                    deliveries: deadlines_modified(
                        state.deliveries,
                        subscription,
                        ids,
                        seconds,
                        now,
                    ),
                    ..state
                },
            )
        },
    }
}

pub(crate) fn contains_text(list: &Vec<String>, text: &str) -> (r: bool)
    ensures
        r == texts(list@).contains(text@),
{
    let ghost all = texts(list@);
    let mut i: usize = 0;
    while i < list.len()
        invariant
            i <= list.len(),
            all == texts(list@),
            forall|j: int| 0 <= j < i ==> all[j] != text@,
        decreases list.len() - i,
    {
        if same(list[i].as_str(), text) {
            assert(all[i as int] == text@);
            return true;
        }
        assert(all[i as int] == list@[i as int]@);
        i += 1;
    }
    false
}

fn is_leased_under(delivery: &Delivery, subscription: &str, ids: &Vec<String>) -> (r: bool)
    ensures
        r == leased_under(delivery@, subscription@, texts(ids@)),
{
    same(delivery.subscription.as_str(), subscription) && match &delivery.ack_id {
        Some(ack) => contains_text(ids, ack.as_str()),
        None => false,
    }
}

fn add_seconds(seconds: i32, now: i64) -> (r: i64)
    requires
        0 <= seconds <= 600,
    ensures
        r == deadline_after(seconds as int, now),
{
    let millis: i64 = seconds as i64 * 1000;
    if now > i64::MAX - millis {
        i64::MAX
    } else {
        now + millis
    }
}

/// Whether a delivery of a subscription is in flight and its deadline ahead.
pub open spec fn is_active(delivery: DeliveryView, subscription: Seq<char>, now: i64) -> bool {
    delivery.subscription == subscription && delivery.in_flight && (
    delivery.deadline_ms matches Some(deadline) && deadline > now)
}

/// The ids, among those asked for, of the first `n` deliveries that are leased
/// and whose deadline is ahead.
pub open spec fn active_ids(
    deliveries: DeliveriesView,
    subscription: Seq<char>,
    ids: Seq<Seq<char>>,
    now: i64,
    n: nat,
) -> Seq<Seq<char>>
    decreases n,
{
    if n == 0 || n > deliveries.len() {
        Seq::empty()
    } else {
        let before = active_ids(deliveries, subscription, ids, now, (n - 1) as nat);
        let delivery = deliveries[n - 1].1;
        if is_active(delivery, subscription, now) && leased_under(delivery, subscription, ids) {
            before.push(delivery.ack_id->0)
        } else {
            before
        }
    }
}

/// How many of the first `n` deliveries are of the subscriptions.
pub open spec fn pending_spec(
    deliveries: DeliveriesView,
    subscriptions: Seq<Seq<char>>,
    n: nat,
) -> nat
    decreases n,
{
    if n == 0 || n > deliveries.len() {
        0
    } else {
        pending_spec(deliveries, subscriptions, (n - 1) as nat) + if subscriptions.contains(
            deliveries[n - 1].1.subscription,
        ) {
            1nat
        } else {
            0nat
        }
    }
}

/// How many deliveries there are of each of the first `n` subscriptions,
/// together.
pub open spec fn pending_sum(
    deliveries: DeliveriesView,
    subscriptions: Seq<Seq<char>>,
    n: nat,
) -> nat
    decreases n,
{
    if n == 0 || n > subscriptions.len() {
        0
    } else {
        pending_sum(deliveries, subscriptions, (n - 1) as nat) + pending_spec(
            deliveries,
            seq![subscriptions[n - 1]],
            deliveries.len(),
        )
    }
}

/// How many deliveries are pending for subscriptions. On disk they are counted
/// once for each time that a subscription is named.
pub open spec fn pending_total(state: BrokerView, subscriptions: Seq<Seq<char>>) -> nat {
    if state.durable {
        pending_sum(state.deliveries, subscriptions, subscriptions.len())
    } else {
        pending_spec(state.deliveries, subscriptions, state.deliveries.len())
    }
}

impl Broker {
    /// Claims messages at the given time under the given ids.
    pub fn claim_at(
        &mut self,
        subscription: &str,
        max_count: usize,
        max_bytes: i64,
        asked: Option<i32>,
        now: i64,
        acks: &Vec<String>,
    ) -> (r: Result<Vec<BrokerMessage>, Status>)
        requires
            acks@.len() >= max_count,
        ensures
            claim_spec(
                old(self)@,
                subscription@,
                max_count as nat,
                max_bytes as int,
                asked,
                now,
                texts(acks@),
            ) == (
                final(self)@,
                match r {
                    Ok(taken) => Ok(received_view(taken@)),
                    Err(e) => Err(e@),
                },
            ),
    {
        let found = match self.get_subscription(subscription) {
            Ok(found) => found,
            Err(e) => {
                return Err(e);
            },
        };
        let wanted: i32 = match asked {
            Some(seconds) => seconds,
            None => found.ack_deadline_seconds,
        };
        let seconds: i32 = if wanted < 10 {
            10
        } else if wanted > 600 {
            600
        } else {
            wanted
        };
        let deadline = add_seconds(seconds, now);
        let ghost before = self@;
        let saved = if self.durable && self.has_oversized() {
            Some(self.save())
        } else {
            None
        };
        proof {
            if self.durable && saved is None {
                durable_claim_succeeds(
                    self@,
                    subscription@,
                    max_count as nat,
                    max_bytes as int,
                    asked,
                    now,
                    texts(acks@),
                );
            }
        }
        let found = self.find_waiting(subscription, now);
        let candidates = self.pick_candidates(subscription, max_count, found);
        proof {
            candidates_wait(self@, subscription@, max_count as nat);
            assert forall|j: int| 0 <= j < candidates@.len() implies (#[trigger] candidates@[j])
                < self@.deliveries.len() by {
                assert(positions(candidates@)[j] == candidates@[j]);
            }
        }
        let fitting = self.has_fitting(&candidates, max_bytes);
        match self.take_waiting(&candidates, max_count, max_bytes, deadline, fitting, acks) {
            Ok(taken) => Ok(taken),
            Err(e) => match saved {
                Some(s) => {
                    self.restore(s);
                    assert(self@ =~= before);
                    let message = cat(
                        "Pub/Sub persistence error: persistence database failed integrity_check: ",
                        e.message.as_str(),
                    );
                    Err(Status::new(Code::Internal, message.as_str()))
                },
                None => Err(e),
            },
        }
    }

    /// Claims messages now.
    pub fn claim(
        &mut self,
        subscription: &str,
        max_count: usize,
        max_bytes: i64,
        asked: Option<i32>,
    ) -> (r: Result<Vec<BrokerMessage>, Status>)
        ensures
            exists|acks: Seq<Seq<char>>, now: i64|
                #![trigger claim_spec(
                    old(self)@,
                    subscription@,
                    max_count as nat,
                    max_bytes as int,
                    asked,
                    now,
                    acks,
                )]
                acks.len() == max_count && all_drawn(acks) && now >= 0 && claim_spec(
                    old(self)@,
                    subscription@,
                    max_count as nat,
                    max_bytes as int,
                    asked,
                    now,
                    acks,
                ) == (
                    final(self)@,
                    match r {
                        Ok(taken) => Ok(received_view(taken@)),
                        Err(e) => Err(e@),
                    },
                ),
    {
        let now = now_ms();
        let acks = random_ids(max_count);
        assert(texts(acks@).len() == max_count);
        self.claim_at(subscription, max_count, max_bytes, asked, now, &acks)
    }

    fn check_lease(&self, subscription: &str, ack_ids: &Vec<String>) -> (r: Result<(), Status>)
        ensures
            unit_result(r) == check_lease_request(self@, subscription@, texts(ack_ids@)),
    {
        match self.get_subscription(subscription) {
            Ok(_) => {},
            Err(e) => {
                return Err(e);
            },
        }
        if ack_ids.len() == 0 {
            return Err(Status::invalid_argument("ack_ids must not be empty"));
        }
        Ok(())
    }

    /// Acknowledges the deliveries leased under the ids.
    pub fn acknowledge_ids(&mut self, subscription: &str, ack_ids: &Vec<String>) -> (r: Result<
        (),
        Status,
    >)
        ensures
            unit_result(r) == check_lease_request(old(self)@, subscription@, texts(ack_ids@)),
            final(self)@ == if r is Ok {
                acknowledged(old(self)@, subscription@, texts(ack_ids@))
            } else {
                old(self)@
            },
    {
        match self.check_lease(subscription, ack_ids) {
            Ok(()) => {},
            Err(e) => {
                return Err(e);
            },
        }
        let ghost state = self@;
        let ghost ids = texts(ack_ids@);
        let ghost keep = |e: (Seq<char>, DeliveryView)| !leased_under(e.1, subscription@, ids);
        let mut flags: Vec<bool> = Vec::new();
        let mut i: usize = 0;
        while i < self.deliveries.len()
            invariant
                i <= self.deliveries@.len(),
                self@ == state,
                ids == texts(ack_ids@),
                flags@.len() == i,
                keep == (|e: (Seq<char>, DeliveryView)| !leased_under(e.1, subscription@, ids)),
                forall|j: int| 0 <= j < i ==> flags@[j] == keep(#[trigger] self.deliveries@[j]),
            decreases self.deliveries@.len() - i,
        {
            flags.push(!is_leased_under(self.deliveries.value_at(i), subscription, ack_ids));
            i += 1;
        }
        self.deliveries.retain_flagged(&flags, Ghost(keep));
        self.collect_garbage();
        Ok(())
    }

    /// Moves the deadlines of the deliveries leased under the ids, at the given
    /// time.
    pub fn modify_ack_ids_at(
        &mut self,
        subscription: &str,
        ack_ids: &Vec<String>,
        seconds: i32,
        now: i64,
    ) -> (r: Result<(), Status>)
        ensures
            match modify_spec(old(self)@, subscription@, texts(ack_ids@), seconds, now) {
                Err(e) => r is Err && r->Err_0@ == e && final(self)@ == old(self)@,
                Ok(after) => r is Ok && final(self)@ == after,
            },
    {
        match self.check_lease(subscription, ack_ids) {
            Ok(()) => {},
            Err(e) => {
                return Err(e);
            },
        }
        if seconds < 0 || seconds > 600 {
            return Err(Status::invalid_argument("ack deadline must be between 0 and 600"));
        }
        let deadline = add_seconds(seconds, now);
        let ghost state = self@;
        let ghost ids = texts(ack_ids@);
        let ghost after = deadlines_modified(state.deliveries, subscription@, ids, seconds, now);
        let mut i: usize = 0;
        while i < self.deliveries.len()
            invariant
                i <= self.deliveries@.len(),
                self.deliveries@.len() == state.deliveries.len(),
                ids == texts(ack_ids@),
                deadline == deadline_after(seconds as int, now),
                after == deadlines_modified(state.deliveries, subscription@, ids, seconds, now),
                self@ == (BrokerView { deliveries: self@.deliveries, ..state }),
                forall|k: int| 0 <= k < i ==> #[trigger] self.deliveries@[k] == after[k],
                forall|k: int|
                    i <= k < self.deliveries@.len() ==> #[trigger] self.deliveries@[k]
                        == state.deliveries[k],
            decreases self.deliveries@.len() - i,
        {
            let delivery = self.deliveries.value_at(i);
            if is_leased_under(delivery, subscription, ack_ids) {
                let mut moved = delivery.duplicate();
                if seconds == 0 {
                    moved.in_flight = false;
                    moved.ack_id = None;
                    moved.deadline_ms = None;
                } else {
                    moved.deadline_ms = Some(deadline);
                }
                self.deliveries.set_value_at(i, moved);
            }
            assert(self.deliveries@[i as int] == after[i as int]);
            i += 1;
        }
        assert(self.deliveries@ =~= after);
        Ok(())
    }

    /// Moves the deadlines of the deliveries leased under the ids, from now.
    pub fn modify_ack_ids(&mut self, subscription: &str, ack_ids: &Vec<String>, seconds: i32) -> (r:
        Result<(), Status>)
        ensures
            exists|now: i64|
                #![trigger modify_spec(
                    old(self)@,
                    subscription@,
                    texts(ack_ids@),
                    seconds,
                    now,
                )]
                now >= 0 && match modify_spec(
                    old(self)@,
                    subscription@,
                    texts(ack_ids@),
                    seconds,
                    now,
                ) {
                    Err(e) => r is Err && r->Err_0@ == e && final(self)@ == old(self)@,
                    Ok(after) => r is Ok && final(self)@ == after,
                },
    {
        let now = now_ms();
        self.modify_ack_ids_at(subscription, ack_ids, seconds, now)
    }

    /// Which of the ids still lease a delivery at the given time.
    pub fn active_ack_ids_at(&self, subscription: &str, ack_ids: &Vec<String>, now: i64) -> (r:
        Result<Vec<String>, Status>)
        ensures
            match get_subscription_spec(self@, subscription@) {
                Err(e) => r is Err && r->Err_0@ == e,
                Ok(_) => r is Ok && texts(r->Ok_0@) == active_ids(
                    self@.deliveries,
                    subscription@,
                    texts(ack_ids@),
                    now,
                    self@.deliveries.len(),
                ),
            },
    {
        match self.get_subscription(subscription) {
            Ok(_) => {},
            Err(e) => {
                return Err(e);
            },
        }
        let ghost ids = texts(ack_ids@);
        let mut active: Vec<String> = Vec::new();
        let mut i: usize = 0;
        assert(texts(active@) =~= Seq::empty());
        while i < self.deliveries.len()
            invariant
                i <= self.deliveries@.len(),
                ids == texts(ack_ids@),
                texts(active@) == active_ids(
                    self.deliveries@,
                    subscription@,
                    ids,
                    now,
                    i as nat,
                ),
            decreases self.deliveries@.len() - i,
        {
            let delivery = self.deliveries.value_at(i);
            let ahead = match delivery.deadline_ms {
                Some(deadline) => deadline > now,
                None => false,
            };
            if delivery.in_flight && ahead && is_leased_under(delivery, subscription, ack_ids) {
                match &delivery.ack_id {
                    Some(ack) => {
                        let ghost before = texts(active@);
                        let ack = ack.clone();
                        active.push(ack);
                        assert(texts(active@) =~= before.push(ack@));
                    },
                    None => {},
                }
            }
            i += 1;
        }
        Ok(active)
    }

    fn count_of(&self, subscriptions: &Vec<String>) -> (r: usize)
        ensures
            r == pending_spec(
                self@.deliveries,
                texts(subscriptions@),
                self@.deliveries.len(),
            ),
    {
        let mut count: usize = 0;
        let mut i: usize = 0;
        while i < self.deliveries.len()
            invariant
                i <= self.deliveries@.len(),
                count <= i,
                count == pending_spec(self.deliveries@, texts(subscriptions@), i as nat),
            decreases self.deliveries@.len() - i,
        {
            if contains_text(subscriptions, self.deliveries.value_at(i).subscription.as_str()) {
                count += 1;
            }
            i += 1;
        }
        count
    }

    /// How many deliveries are pending for the subscriptions.
    pub fn pending_count(&self, subscriptions: &Vec<String>) -> (r: u128)
        ensures
            r == pending_total(self@, texts(subscriptions@)),
    {
        if !self.durable {
            return self.count_of(subscriptions) as u128;
        }
        let ghost names = texts(subscriptions@);
        let mut count: u128 = 0;
        let mut i: usize = 0;
        while i < subscriptions.len()
            invariant
                i <= subscriptions@.len(),
                names == texts(subscriptions@),
                count <= i * 0xffff_ffff_ffff_ffff,
                count == pending_sum(self@.deliveries, names, i as nat),
            decreases subscriptions.len() - i,
        {
            let mut one: Vec<String> = Vec::new();
            one.push(subscriptions[i].clone());
            assert(texts(one@) =~= seq![names[i as int]]);
            let found: usize = self.count_of(&one);
            assert(i * 0xffff_ffff_ffff_ffff <= 0xffff_ffff_ffff_ffff * 0xffff_ffff_ffff_ffff)
                by (nonlinear_arith)
                requires
                    i <= 0xffff_ffff_ffff_ffff,
            ;
            assert((i + 1) * 0xffff_ffff_ffff_ffff == i * 0xffff_ffff_ffff_ffff
                + 0xffff_ffff_ffff_ffff) by (nonlinear_arith);
            count = count + found as u128;
            i += 1;
        }
        count
    }

    /// Deletes a subscription and its deliveries, with the messages that no
    /// other delivery needs.
    pub fn delete_subscription(&mut self, name: &str) -> (r: Result<(), Status>)
        ensures
            match get_subscription_spec(old(self)@, name@) {
                Err(e) => r is Err && r->Err_0@ == e && final(self)@ == old(self)@,
                Ok(_) => r is Ok && final(self)@ == without_subscription(old(self)@, name@),
            },
    {
        match self.get_subscription(name) {
            Ok(_) => {},
            Err(e) => {
                return Err(e);
            },
        }
        let _removed = self.subscriptions.remove(name);
        let ghost state = self@;
        let ghost keep = |e: (Seq<char>, DeliveryView)| e.1.subscription != name@;
        let mut flags: Vec<bool> = Vec::new();
        let mut i: usize = 0;
        while i < self.deliveries.len()
            invariant
                i <= self.deliveries@.len(),
                self@ == state,
                flags@.len() == i,
                keep == (|e: (Seq<char>, DeliveryView)| e.1.subscription != name@),
                forall|j: int| 0 <= j < i ==> flags@[j] == keep(#[trigger] self.deliveries@[j]),
            decreases self.deliveries@.len() - i,
        {
            flags.push(!same(self.deliveries.value_at(i).subscription.as_str(), name));
            i += 1;
        }
        self.deliveries.retain_flagged(&flags, Ghost(keep));
        self.collect_garbage();
        Ok(())
    }
}

/// The state without a subscription, its deliveries and the messages that no
/// other delivery needs.
pub open spec fn without_subscription(state: BrokerView, name: Seq<char>) -> BrokerView {
    let left = keep_entries(
        state.deliveries,
        |e: (Seq<char>, DeliveryView)| e.1.subscription != name,
    );
    BrokerView {
        subscriptions: without(state.subscriptions, name),
        deliveries: left,
        messages: live_messages(state.messages, left),
        ..state
    }
}

/// How many milliseconds a pull waits for messages.
pub const PULL_WAIT_MS: u64 = 2000;

/// Whether a pull is answered: where it has found messages, is not to wait, or
/// has waited long enough.
pub fn pull_done(found: usize, return_immediately: bool, waited_ms: u64) -> (r: bool)
    ensures
        r == (found > 0 || return_immediately || waited_ms >= 2000),
{
    found > 0 || return_immediately || waited_ms >= PULL_WAIT_MS
}

/// How many messages a pull asks for, at most a thousand.
pub fn pull_count(max_messages: i32) -> (r: Result<usize, Status>)
    ensures
        match r {
            Ok(n) => max_messages > 0 && n == if max_messages < 1000 {
                max_messages as int
            } else {
                1000
            },
            Err(e) => max_messages <= 0 && e@ == invalid("max_messages must be positive"@),
        },
{
    if max_messages <= 0 {
        return Err(Status::invalid_argument("max_messages must be positive"));
    }
    if max_messages < 1000 {
        Ok(max_messages as usize)
    } else {
        Ok(1000)
    }
}

impl Broker {
    /// Claims one message, at the given time and under the given id.
    pub fn pull_one_at(&mut self, subscription: &str, now: i64, ack: String) -> (r: Result<
        Option<BrokerMessage>,
        Status,
    >)
        ensures
            ({
                let after = claim_spec(
                    old(self)@,
                    subscription@,
                    1,
                    MAX_DELIVERY_MESSAGE_BYTES as int,
                    None,
                    now,
                    seq![ack@],
                );
                &&& final(self)@ == after.0
                &&& match after.1 {
                    Err(e) => r is Err && r->Err_0@ == e,
                    Ok(taken) => r is Ok && match r->Ok_0 {
                        Some(message) => taken.len() > 0 && message@ == taken.last(),
                        None => taken.len() == 0,
                    },
                }
            }),
    {
        let mut acks: Vec<String> = Vec::new();
        acks.push(ack);
        assert(texts(acks@) =~= seq![ack@]);
        match self.claim_at(subscription, 1, MAX_DELIVERY_MESSAGE_BYTES, None, now, &acks) {
            Ok(messages) => {
                let mut messages = messages;
                let ghost all = received_view(messages@);
                let last = messages.pop();
                assert(last is Some ==> all.last() == last->0@);
                Ok(last)
            },
            Err(e) => Err(e),
        }
    }

    /// Claims one message now.
    pub fn pull_one(&mut self, subscription: &str) -> (r: Result<Option<BrokerMessage>, Status>)
        ensures
            exists|ack: Seq<char>, now: i64|
                #![trigger claim_spec(
                    old(self)@,
                    subscription@,
                    1,
                    MAX_DELIVERY_MESSAGE_BYTES as int,
                    None,
                    now,
                    seq![ack],
                )]
                is_drawn_id(ack) && now >= 0 && ({
                    let after = claim_spec(
                        old(self)@,
                        subscription@,
                        1,
                        MAX_DELIVERY_MESSAGE_BYTES as int,
                        None,
                        now,
                        seq![ack],
                    );
                    &&& final(self)@ == after.0
                    &&& match after.1 {
                        Err(e) => r is Err && r->Err_0@ == e,
                        Ok(taken) => r is Ok && match r->Ok_0 {
                            Some(message) => taken.len() > 0 && message@ == taken.last(),
                            None => taken.len() == 0,
                        },
                    }
                }),
    {
        let now: i64 = now_ms();
        let ack = random_id();
        assert(is_drawn_id(ack@));
        self.pull_one_at(subscription, now, ack)
    }
}

} // verus!
