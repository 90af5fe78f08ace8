//! Streaming pull: flow control between a subscriber and the broker.
use crate::broker::{
    get_subscription_spec, Broker, BrokerView, DeliveriesView, StoredView,
    MAX_DELIVERY_MESSAGE_BYTES, MAX_PENDING_BYTES,
};
use crate::leases::{
    acknowledged, active_ids, any_fits, before_claim, check_lease_request, claim_candidates, claim_deadline,
    claim_fold, claim_spec, contains_text, modify_spec, received_view, BrokerMessage,
    ClaimTerms, ReceivedView,
};
use crate::ordered::{keep_entries, lower_bound_properties, put, without, OrderedMap};
use crate::status::{invalid, unit_result, Status, StatusView};
use crate::text::{is_blank, texts};
use vstd::prelude::*;

verus! {

/// A request on a stream. The first one opens it.
#[derive(PartialEq, Eq, Debug)]
pub struct StreamingPullRequest {
    pub subscription: String,
    pub ack_ids: Vec<String>,
    pub modify_deadline_seconds: Vec<i32>,
    pub modify_deadline_ack_ids: Vec<String>,
    pub stream_ack_deadline_seconds: i32,
    pub max_outstanding_messages: i64,
    pub max_outstanding_bytes: i64,
}

/// What a [`StreamingPullRequest`] stands for.
pub struct PullView {
    pub subscription: Seq<char>,
    pub ack_ids: Seq<Seq<char>>,
    pub modify_deadline_seconds: Seq<i32>,
    pub modify_deadline_ack_ids: Seq<Seq<char>>,
    pub stream_ack_deadline_seconds: i32,
    pub max_outstanding_messages: i64,
    pub max_outstanding_bytes: i64,
}

impl View for StreamingPullRequest {
    type V = PullView;

    open spec fn view(&self) -> PullView {
        PullView {
            subscription: self.subscription@,
            ack_ids: texts(self.ack_ids@),
            modify_deadline_seconds: self.modify_deadline_seconds@,
            modify_deadline_ack_ids: texts(self.modify_deadline_ack_ids@),
            stream_ack_deadline_seconds: self.stream_ack_deadline_seconds,
            max_outstanding_messages: self.max_outstanding_messages,
            max_outstanding_bytes: self.max_outstanding_bytes,
        }
    }
}

/// A stream: its terms and the leases that its subscriber holds.
pub struct PullStream {
    pub subscription: String,
    pub max_messages: usize,
    pub max_bytes: i64,
    pub deadline_seconds: i32,
    pub outstanding: OrderedMap<i64>,
    pub first_request: bool,
}

/// What a [`PullStream`] stands for.
#[verifier::ext_equal]
pub struct StreamView {
    pub subscription: Seq<char>,
    pub max_messages: int,
    pub max_bytes: int,
    pub deadline_seconds: i32,
    pub outstanding: Seq<(Seq<char>, i64)>,
    pub first_request: bool,
}

impl View for PullStream {
    type V = StreamView;

    open spec fn view(&self) -> StreamView {
        StreamView {
            subscription: self.subscription@,
            max_messages: self.max_messages as int,
            max_bytes: self.max_bytes as int,
            deadline_seconds: self.deadline_seconds,
            outstanding: self.outstanding@,
            first_request: self.first_request,
        }
    }
}

/// How many messages a stream may hold when the subscriber does not say.
pub const DEFAULT_OUTSTANDING_MESSAGES: i64 = 1000;

/// How many messages a stream may hold at most.
pub const MAX_OUTSTANDING_MESSAGES: i64 = 10_000;

/// How many messages are claimed at a time.
pub const CLAIM_BATCH: usize = 100;

/// The stream that a first request opens, or why it is refused.
pub open spec fn open_stream_spec(state: BrokerView, first: PullView) -> Result<
    StreamView,
    StatusView,
> {
    if first.subscription.len() == 0 {
        Err(invalid("first StreamingPull request requires subscription"@))
    } else {
        match get_subscription_spec(state, first.subscription) {
            Err(e) => Err(e),
            Ok(_) => if first.stream_ack_deadline_seconds < 10 || first.stream_ack_deadline_seconds
                > 600 {
                Err(invalid("stream_ack_deadline_seconds must be between 10 and 600"@))
            } else {
                Ok(stream_terms(first))
            },
        }
    }
}

/// The terms of a first request.
pub open spec fn stream_terms(first: PullView) -> StreamView {
    StreamView {
        subscription: first.subscription,
        max_messages: if first.max_outstanding_messages <= 0 {
            DEFAULT_OUTSTANDING_MESSAGES as int
        } else if first.max_outstanding_messages < MAX_OUTSTANDING_MESSAGES {
            first.max_outstanding_messages as int
        } else {
            MAX_OUTSTANDING_MESSAGES as int
        },
        max_bytes: if first.max_outstanding_bytes <= 0 {
            MAX_PENDING_BYTES as int
        } else if first.max_outstanding_bytes < MAX_PENDING_BYTES {
            first.max_outstanding_bytes as int
        } else {
            MAX_PENDING_BYTES as int
        },
        deadline_seconds: first.stream_ack_deadline_seconds,
        outstanding: Seq::empty(),
        first_request: true,
    }
}

/// Whether a request on an open stream is well formed.
pub open spec fn check_pull_spec(stream: StreamView, request: PullView) -> Result<(), StatusView> {
    if !stream.first_request && (request.subscription.len() > 0
        || request.max_outstanding_messages != 0 || request.max_outstanding_bytes != 0) {
        Err(
            invalid(
                "subscription and flow-control limits are only valid on the first stream request"@,
            ),
        )
    } else if request.modify_deadline_ack_ids.len() != request.modify_deadline_seconds.len() {
        Err(invalid("modify deadline ID and seconds lengths differ"@))
    } else {
        Ok(())
    }
}

/// The leases without those under the ids.
pub open spec fn without_all(
    outstanding: Seq<(Seq<char>, i64)>,
    ids: Seq<Seq<char>>,
) -> Seq<(Seq<char>, i64)>
    decreases ids.len(),
{
    if ids.len() == 0 {
        outstanding
    } else {
        without(without_all(outstanding, ids.drop_last()), ids.last())
    }
}

/// The bytes of the leases.
pub open spec fn outstanding_bytes(outstanding: Seq<(Seq<char>, i64)>) -> int
    decreases outstanding.len(),
{
    if outstanding.len() == 0 {
        0
    } else {
        outstanding_bytes(outstanding.drop_last()) + outstanding.last().1
    }
}

/// How many messages and bytes may be claimed for a stream; nothing when its
/// subscriber holds enough.
pub open spec fn claim_budget(stream: StreamView) -> Option<(int, int)> {
    let used = outstanding_bytes(stream.outstanding);
    if stream.outstanding.len() < stream.max_messages && used < stream.max_bytes {
        let count = stream.max_messages - stream.outstanding.len();
        let bytes = stream.max_bytes - used;
        Some(
            (
                if count < CLAIM_BATCH {
                    count
                } else {
                    CLAIM_BATCH as int
                },
                if bytes < MAX_DELIVERY_MESSAGE_BYTES {
                    bytes
                } else {
                    MAX_DELIVERY_MESSAGE_BYTES as int
                },
            ),
        )
    } else {
        None
    }
}

/// The leases with those of the messages.
pub open spec fn with_messages(
    outstanding: Seq<(Seq<char>, i64)>,
    messages: Seq<ReceivedView>,
) -> Seq<(Seq<char>, i64)>
    decreases messages.len(),
{
    if messages.len() == 0 {
        outstanding
    } else {
        put(
            with_messages(outstanding, messages.drop_last()),
            messages.last().ack_id,
            messages.last().size_bytes,
        )
    }
}

/// Opens a stream.
pub fn open_stream(broker: &Broker, first: &StreamingPullRequest) -> (r: Result<
    PullStream,
    Status,
>)
    ensures
        match open_stream_spec(broker@, first@) {
            Err(e) => r is Err && r->Err_0@ == e,
            Ok(stream) => r is Ok && r->Ok_0@ == stream,
        },
{
    if is_blank(first.subscription.as_str()) {
        return Err(
            Status::invalid_argument("first StreamingPull request requires subscription"),
        );
    }
    match broker.get_subscription(first.subscription.as_str()) {
        Ok(_) => {},
        Err(e) => {
            return Err(e);
        },
    }
    if first.stream_ack_deadline_seconds < 10 || first.stream_ack_deadline_seconds > 600 {
        return Err(
            Status::invalid_argument("stream_ack_deadline_seconds must be between 10 and 600"),
        );
    }
    Ok(new_stream(first))
}

/// Makes a stream from the terms of a first request.
pub fn new_stream(first: &StreamingPullRequest) -> (r: PullStream)
    ensures
        r@ == stream_terms(first@),
{
    let max_messages: usize = if first.max_outstanding_messages <= 0 {
        DEFAULT_OUTSTANDING_MESSAGES as usize
    } else if first.max_outstanding_messages < MAX_OUTSTANDING_MESSAGES {
        first.max_outstanding_messages as usize
    } else {
        MAX_OUTSTANDING_MESSAGES as usize
    };
    let max_bytes: i64 = if first.max_outstanding_bytes <= 0 {
        MAX_PENDING_BYTES
    } else if first.max_outstanding_bytes < MAX_PENDING_BYTES {
        first.max_outstanding_bytes
    } else {
        MAX_PENDING_BYTES
    };
    PullStream {
        subscription: first.subscription.clone(),
        max_messages,
        max_bytes,
        deadline_seconds: first.stream_ack_deadline_seconds,
        outstanding: OrderedMap::new(),
        first_request: true,
    }
}

impl PullStream {
    /// Checks a request on the open stream.
    pub fn check_request(&self, request: &StreamingPullRequest) -> (r: Result<(), Status>)
        ensures
            unit_result(r) == check_pull_spec(self@, request@),
    {
        if !self.first_request && (!is_blank(request.subscription.as_str())
            || request.max_outstanding_messages != 0 || request.max_outstanding_bytes != 0) {
            return Err(
                Status::invalid_argument(
                    "subscription and flow-control limits are only valid on the first stream request",
                ),
            );
        }
        if request.modify_deadline_ack_ids.len() != request.modify_deadline_seconds.len() {
            return Err(Status::invalid_argument("modify deadline ID and seconds lengths differ"));
        }
        Ok(())
    }

    /// Forgets the leases under the ids.
    pub fn forget(&mut self, ids: &Vec<String>)
        ensures
            final(self)@ == (StreamView {
                outstanding: without_all(old(self)@.outstanding, texts(ids@)),
                ..old(self)@
            }),
    {
        let ghost start = self.outstanding@;
        let ghost all = texts(ids@);
        let mut i: usize = 0;
        assert(all.take(0) =~= Seq::empty());
        while i < ids.len()
            invariant
                i <= ids.len(),
                all == texts(ids@),
                self.outstanding@ == without_all(start, all.take(i as int)),
                self@ == (StreamView { outstanding: self@.outstanding, ..old(self)@ }),
            decreases ids.len() - i,
        {
            assert(all.take(i + 1).drop_last() =~= all.take(i as int));
            assert(all.take(i + 1).last() == ids@[i as int]@);
            let _gone = self.outstanding.remove(ids[i].as_str());
            i += 1;
        }
        assert(all.take(i as int) =~= all);
    }

    /// Keeps only the leases that the broker still knows.
    pub fn keep_active(&mut self, active: &Vec<String>)
        ensures
            final(self)@ == (StreamView {
                outstanding: keep_entries(
                    old(self)@.outstanding,
                    |e: (Seq<char>, i64)| texts(active@).contains(e.0),
                ),
                ..old(self)@
            }),
    {
        let ghost start = self.outstanding@;
        let ghost ids = texts(active@);
        let ghost keep = |e: (Seq<char>, i64)| ids.contains(e.0);
        let mut flags: Vec<bool> = Vec::new();
        let mut i: usize = 0;
        while i < self.outstanding.len()
            invariant
                i <= self.outstanding@.len(),
                self.outstanding@ == start,
                ids == texts(active@),
                flags@.len() == i,
                keep == (|e: (Seq<char>, i64)| ids.contains(e.0)),
                forall|j: int| 0 <= j < i ==> flags@[j] == keep(#[trigger] self.outstanding@[j]),
            decreases self.outstanding@.len() - i,
        {
            let known = contains_text(active, self.outstanding.key_at(i));
            flags.push(known);
            i += 1;
        }
        self.outstanding.retain_flagged(&flags, Ghost(keep));
        assert(keep =~= (|e: (Seq<char>, i64)| texts(active@).contains(e.0)));
    }

    /// How many messages and bytes may be claimed.
    pub fn budget(&self) -> (r: Option<(usize, i64)>)
        ensures
            match r {
                Some(pair) => claim_budget(self@) == Some((pair.0 as int, pair.1 as int)),
                None => claim_budget(self@) is None,
            },
    {
        let ghost all = self.outstanding@;
        let total: usize = self.outstanding.len();
        let mut used: i128 = 0;
        let mut i: usize = 0;
        assert(all.take(0) =~= Seq::empty());
        while i < total
            invariant
                i <= all.len(),
                total == all.len(),
                all == self.outstanding@,
                used == outstanding_bytes(all.take(i as int)),
                -(i * 0x8000_0000_0000_0000) <= used <= i * 0x8000_0000_0000_0000,
            decreases all.len() - i,
        {
            assert(all.take(i + 1).drop_last() =~= all.take(i as int));
            assert(all.take(i + 1).last() == all[i as int]);
            let size: i64 = *self.outstanding.value_at(i);
            used = used + size as i128;
            i += 1;
        }
        assert(all.take(i as int) =~= all);
        if total < self.max_messages && used < self.max_bytes as i128 {
            let count: usize = self.max_messages - total;
            let bytes: i128 = self.max_bytes as i128 - used;
            Some(
                (
                    if count < CLAIM_BATCH {
                        count
                    } else {
                        CLAIM_BATCH
                    },
                    if bytes < MAX_DELIVERY_MESSAGE_BYTES as i128 {
                        bytes as i64
                    } else {
                        MAX_DELIVERY_MESSAGE_BYTES
                    },
                ),
            )
        } else {
            None
        }
    }

    /// Remembers the leases of messages that go to the subscriber.
    pub fn remember(&mut self, messages: &Vec<BrokerMessage>)
        ensures
            final(self)@ == (StreamView {
                outstanding: with_messages(old(self)@.outstanding, received_view(messages@)),
                ..old(self)@
            }),
    {
        let ghost start = self.outstanding@;
        let ghost all = received_view(messages@);
        let mut i: usize = 0;
        assert(all.take(0) =~= Seq::empty());
        while i < messages.len()
            invariant
                i <= messages.len(),
                all == received_view(messages@),
                self.outstanding@ == with_messages(start, all.take(i as int)),
                self@ == (StreamView { outstanding: self@.outstanding, ..old(self)@ }),
            decreases messages.len() - i,
        {
            assert(all.take(i + 1).drop_last() =~= all.take(i as int));
            assert(all.take(i + 1).last() == messages@[i as int]@);
            self.outstanding.insert(messages[i].ack_id.as_str(), messages[i].size_bytes);
            i += 1;
        }
        assert(all.take(i as int) =~= all);
    }

    /// The ids of the leases.
    pub fn outstanding_ids(&self) -> (r: Vec<String>)
        ensures
            texts(r@) == self@.outstanding.map_values(|e: (Seq<char>, i64)| e.0),
    {
        let mut out: Vec<String> = Vec::new();
        let mut i: usize = 0;
        while i < self.outstanding.len()
            invariant
                i <= self.outstanding@.len(),
                out@.len() == i,
                forall|j: int| 0 <= j < i ==> (#[trigger] out@[j])@ == self.outstanding@[j].0,
            decreases self.outstanding@.len() - i,
        {
            out.push(self.outstanding.key_at(i).to_owned());
            i += 1;
        }
        assert(texts(out@) =~= self@.outstanding.map_values(|e: (Seq<char>, i64)| e.0));
        out
    }
}

/// What became of a request on a stream: the broker, the stream, and the error
/// that ends it.
#[verifier::ext_equal]
pub struct StreamStep {
    pub broker: BrokerView,
    pub stream: StreamView,
    pub error: Option<StatusView>,
}

/// Moves the first `n` deadlines of a request, until one is refused.
pub open spec fn modify_all(before: StreamStep, request: PullView, now: i64, n: nat) -> StreamStep
    decreases n,
{
    if n == 0 || n > request.modify_deadline_ack_ids.len() {
        before
    } else {
        let so_far = modify_all(before, request, now, (n - 1) as nat);
        if so_far.error is Some {
            so_far
        } else {
            let id = request.modify_deadline_ack_ids[n - 1];
            let seconds = request.modify_deadline_seconds[n - 1];
            match modify_spec(so_far.broker, so_far.stream.subscription, seq![id], seconds, now) {
                Err(e) => StreamStep { error: Some(e), ..so_far },
                Ok(broker) => StreamStep {
                    broker,
                    stream: StreamView {
                        outstanding: if seconds == 0 {
                            without(so_far.stream.outstanding, id)
                        } else {
                            so_far.stream.outstanding
                        },
                        ..so_far.stream
                    },
                    error: None,
                },
            }
        }
    }
}

/// A request on a stream: acknowledgements first, then deadlines.
pub open spec fn request_step(
    broker: BrokerView,
    stream: StreamView,
    request: PullView,
    now: i64,
) -> StreamStep {
    match check_pull_spec(stream, request) {
        Err(e) => StreamStep { broker, stream, error: Some(e) },
        Ok(_) => {
            let started = StreamView { first_request: false, ..stream };
            let after_acks = if request.ack_ids.len() == 0 {
                StreamStep { broker, stream: started, error: None }
            } else {
                match check_lease_request(broker, stream.subscription, request.ack_ids) {
                    Err(e) => StreamStep { broker, stream: started, error: Some(e) },
                    Ok(_) => StreamStep {
                        broker: acknowledged(broker, stream.subscription, request.ack_ids),
                        stream: StreamView {
                            outstanding: without_all(stream.outstanding, request.ack_ids),
                            ..started
                        },
                        error: None,
                    },
                }
            };
            if after_acks.error is Some {
                after_acks
            } else {
                modify_all(after_acks, request, now, request.modify_deadline_ack_ids.len())
            }
        },
    }
}

proof fn modify_all_stays(before: StreamStep, request: PullView, now: i64, n: nat, m: nat)
    requires
        n <= m <= request.modify_deadline_ack_ids.len(),
        modify_all(before, request, now, n).error is Some,
    ensures
        modify_all(before, request, now, m) == modify_all(before, request, now, n),
    decreases m,
{
    if n < m {
        modify_all_stays(before, request, now, n, (m - 1) as nat);
    }
}

/// The view of an error that may be missing.
pub open spec fn opt_error(e: Option<Status>) -> Option<StatusView> {
    match e {
        Some(s) => Some(s@),
        None => None,
    }
}

/// Serves a request on a stream. Returns the error that ends the stream, if
/// there is one.
pub fn serve_request(
    broker: &mut Broker,
    stream: &mut PullStream,
    request: &StreamingPullRequest,
    now: i64,
) -> (r: Option<Status>)
    ensures
        request_step(old(broker)@, old(stream)@, request@, now) == (StreamStep {
            broker: final(broker)@,
            stream: final(stream)@,
            error: opt_error(r),
        }),
{
    match stream.check_request(request) {
        Ok(()) => {},
        Err(e) => {
            return Some(e);
        },
    }
    stream.first_request = false;
    if request.ack_ids.len() != 0 {
        match broker.acknowledge_ids(stream.subscription.as_str(), &request.ack_ids) {
            Ok(()) => {},
            Err(e) => {
                return Some(e);
            },
        }
        stream.forget(&request.ack_ids);
    }
    let ghost started = StreamStep { broker: broker@, stream: stream@, error: None };
    let ghost view = request@;
    let mut i: usize = 0;
    while i < request.modify_deadline_ack_ids.len()
        invariant
            i <= request.modify_deadline_ack_ids@.len(),
            request.modify_deadline_ack_ids@.len() == request.modify_deadline_seconds@.len(),
            view == request@,
            started.error is None,
            request_step(old(broker)@, old(stream)@, view, now) == modify_all(
                started,
                view,
                now,
                view.modify_deadline_ack_ids.len(),
            ),
            modify_all(started, view, now, i as nat) == (StreamStep {
                broker: broker@,
                stream: stream@,
                error: None,
            }),
        decreases request.modify_deadline_ack_ids@.len() - i,
    {
        let seconds: i32 = request.modify_deadline_seconds[i];
        let mut one: Vec<String> = Vec::new();
        one.push(request.modify_deadline_ack_ids[i].clone());
        assert(texts(one@) =~= seq![view.modify_deadline_ack_ids[i as int]]);
        let ghost so_far = modify_all(started, view, now, i as nat);
        match broker.modify_ack_ids_at(stream.subscription.as_str(), &one, seconds, now) {
            Ok(()) => {
                if seconds == 0 {
                    let _gone = stream.outstanding.remove(
                        request.modify_deadline_ack_ids[i].as_str(),
                    );
                }
            },
            Err(e) => {
                proof {
                    modify_all_stays(
                        started,
                        view,
                        now,
                        (i + 1) as nat,
                        view.modify_deadline_ack_ids.len(),
                    );
                }
                return Some(e);
            },
        }
        i += 1;
    }
    None
}

/// What a stream hands out next: leases that the broker no longer knows are
/// forgotten, then the budget is claimed.
pub open spec fn refill_spec(
    broker: BrokerView,
    stream: StreamView,
    now: i64,
    acks: Seq<Seq<char>>,
) -> (BrokerView, StreamView, Result<Seq<ReceivedView>, StatusView>) {
    match get_subscription_spec(broker, stream.subscription) {
        Err(e) => (broker, stream, Err(e)),
        Ok(_) => {
            let active = active_ids(
                broker.deliveries,
                stream.subscription,
                stream.outstanding.map_values(|e: (Seq<char>, i64)| e.0),
                now,
                broker.deliveries.len(),
            );
            let current = StreamView {
                outstanding: keep_entries(
                    stream.outstanding,
                    |e: (Seq<char>, i64)| active.contains(e.0),
                ),
                ..stream
            };
            match claim_budget(current) {
                None => (broker, current, Ok(Seq::empty())),
                Some(budget) => {
                    let claimed = claim_spec(
                        broker,
                        stream.subscription,
                        budget.0 as nat,
                        budget.1,
                        Some(stream.deadline_seconds),
                        now,
                        acks,
                    );
                    match claimed.1 {
                        Err(e) => (claimed.0, current, Err(e)),
                        Ok(messages) => (
                            claimed.0,
                            StreamView {
                                outstanding: with_messages(current.outstanding, messages),
                                ..current
                            },
                            Ok(messages),
                        ),
                    }
                },
            }
        },
    }
}

/// Hands out what a stream may hold next, at the given time and under the given
/// ids.
pub fn refill(broker: &mut Broker, stream: &mut PullStream, now: i64, acks: &Vec<String>) -> (r:
    Result<Vec<BrokerMessage>, Status>)
    requires
        acks@.len() >= CLAIM_BATCH,
    ensures
        refill_spec(old(broker)@, old(stream)@, now, texts(acks@)) == (
            final(broker)@,
            final(stream)@,
            match r {
                Ok(messages) => Ok(received_view(messages@)),
                Err(e) => Err(e@),
            },
        ),
{
    let ids = stream.outstanding_ids();
    let active = match broker.active_ack_ids_at(stream.subscription.as_str(), &ids, now) {
        Ok(active) => active,
        Err(e) => {
            return Err(e);
        },
    };
    stream.keep_active(&active);
    match stream.budget() {
        None => {
            let none: Vec<BrokerMessage> = Vec::new();
            assert(received_view(none@) =~= Seq::empty());
            Ok(none)
        },
        Some((count, bytes)) => {
            match broker.claim_at(
                stream.subscription.as_str(),
                count,
                bytes,
                Some(stream.deadline_seconds),
                now,
                acks,
            ) {
                Ok(messages) => {
                    stream.remember(&messages);
                    Ok(messages)
                },
                Err(e) => Err(e),
            }
        },
    }
}

/// The broker after a stream ends: its leases are released, so far as the
/// subscription is still there.
pub open spec fn closed_spec(broker: BrokerView, stream: StreamView, now: i64) -> BrokerView {
    let ids = stream.outstanding.map_values(|e: (Seq<char>, i64)| e.0);
    match modify_spec(broker, stream.subscription, ids, 0, now) {
        Ok(after) => after,
        Err(_) => broker,
    }
}

/// Releases the leases of a stream that ends.
pub fn close_stream(broker: &mut Broker, stream: PullStream, now: i64)
    ensures
        final(broker)@ == closed_spec(old(broker)@, stream@, now),
{
    let ids = stream.outstanding_ids();
    let _ = broker.modify_ack_ids_at(stream.subscription.as_str(), &ids, 0, now);
}

/// One refill asks for no more messages than the subscriber of a stream may
/// still hold, nor for more than fit one answer.
pub proof fn refill_honors_flow_control(stream: StreamView)
    requires
        claim_budget(stream) is Some,
    ensures
        stream.outstanding.len() + (claim_budget(stream)->0).0 <= stream.max_messages,
        outstanding_bytes(stream.outstanding) + (claim_budget(stream)->0).1 <= stream.max_bytes,
        0 < (claim_budget(stream)->0).0 <= CLAIM_BATCH,
        0 < (claim_budget(stream)->0).1 <= MAX_DELIVERY_MESSAGE_BYTES,
{
}

proof fn fold_counts(
    messages: Seq<(Seq<char>, StoredView)>,
    deliveries: DeliveriesView,
    candidates: Seq<int>,
    terms: ClaimTerms,
    acks: Seq<Seq<char>>,
    n: nat,
)
    ensures
        claim_fold(messages, deliveries, candidates, terms, acks, n).taken.len()
            <= terms.max_count,
    decreases n,
{
    if 0 < n <= candidates.len() {
        fold_counts(messages, deliveries, candidates, terms, acks, (n - 1) as nat);
    }
}

proof fn claim_counts(
    state: BrokerView,
    subscription: Seq<char>,
    max_count: nat,
    max_bytes: int,
    asked: Option<i32>,
    now: i64,
    acks: Seq<Seq<char>>,
)
    ensures
        claim_spec(state, subscription, max_count, max_bytes, asked, now, acks).1 matches Ok(taken)
            ==> taken.len() <= max_count,
{
    if let Ok(found) = get_subscription_spec(state, subscription) {
        let current = before_claim(state, subscription, now);
        let candidates = claim_candidates(current, subscription, max_count);
        let terms = ClaimTerms {
            max_count,
            max_bytes,
            deadline: claim_deadline(found.ack_deadline_seconds, asked, now),
            has_fitting: any_fits(current.messages, current.deliveries, candidates, max_bytes),
        };
        fold_counts(
            current.messages,
            current.deliveries,
            candidates,
            terms,
            acks,
            candidates.len(),
        );
    }
}

proof fn with_messages_counts(outstanding: Seq<(Seq<char>, i64)>, messages: Seq<ReceivedView>)
    ensures
        with_messages(outstanding, messages).len() <= outstanding.len() + messages.len(),
    decreases messages.len(),
{
    if messages.len() > 0 {
        with_messages_counts(outstanding, messages.drop_last());
        let before = with_messages(outstanding, messages.drop_last());
        lower_bound_properties(before, messages.last().ack_id);
    }
}

proof fn kept_counts(
    outstanding: Seq<(Seq<char>, i64)>,
    keep: spec_fn((Seq<char>, i64)) -> bool,
)
    ensures
        keep_entries(outstanding, keep).len() <= outstanding.len(),
    decreases outstanding.len(),
{
    if outstanding.len() > 0 {
        kept_counts(outstanding.drop_last(), keep);
    }
}

proof fn without_counts(outstanding: Seq<(Seq<char>, i64)>, ids: Seq<Seq<char>>)
    ensures
        without_all(outstanding, ids).len() <= outstanding.len(),
    decreases ids.len(),
{
    if ids.len() > 0 {
        without_counts(outstanding, ids.drop_last());
        lower_bound_properties(without_all(outstanding, ids.drop_last()), ids.last());
    }
}

proof fn modifying_counts(before: StreamStep, request: PullView, now: i64, n: nat)
    ensures
        modify_all(before, request, now, n).stream.outstanding.len()
            <= before.stream.outstanding.len(),
        modify_all(before, request, now, n).stream.max_messages == before.stream.max_messages,
    decreases n,
{
    if 0 < n <= request.modify_deadline_ack_ids.len() {
        modifying_counts(before, request, now, (n - 1) as nat);
        let so_far = modify_all(before, request, now, (n - 1) as nat);
        lower_bound_properties(
            so_far.stream.outstanding,
            request.modify_deadline_ack_ids[n - 1],
        );
    }
}

/// A subscriber never holds more messages of a stream than the stream allows:
/// none when it is opened, and no more than that after any refill or request.
/// The limit stays as it was set, between one and ten thousand.
pub proof fn streams_stay_within_their_limit(
    broker: BrokerView,
    first: PullView,
    stream: StreamView,
    request: PullView,
    now: i64,
    acks: Seq<Seq<char>>,
)
    requires
        stream.outstanding.len() <= stream.max_messages,
    ensures
        ({
            let opened = stream_terms(first);
            &&& opened.outstanding.len() == 0
            &&& 1 <= opened.max_messages <= MAX_OUTSTANDING_MESSAGES
        }),
        ({
            let refilled = refill_spec(broker, stream, now, acks).1;
            &&& refilled.outstanding.len() <= refilled.max_messages
            &&& refilled.max_messages == stream.max_messages
        }),
        ({
            let served = request_step(broker, stream, request, now).stream;
            &&& served.outstanding.len() <= served.max_messages
            &&& served.max_messages == stream.max_messages
        }),
{
    if get_subscription_spec(broker, stream.subscription) is Ok {
        let active = active_ids(
            broker.deliveries,
            stream.subscription,
            stream.outstanding.map_values(|e: (Seq<char>, i64)| e.0),
            now,
            broker.deliveries.len(),
        );
        let keep = |e: (Seq<char>, i64)| active.contains(e.0);
        kept_counts(stream.outstanding, keep);
        let current = StreamView {
            outstanding: keep_entries(stream.outstanding, keep),
            ..stream
        };
        if let Some(budget) = claim_budget(current) {
            claim_counts(
                broker,
                stream.subscription,
                budget.0 as nat,
                budget.1,
                Some(stream.deadline_seconds),
                now,
                acks,
            );
            if let Ok(messages) = claim_spec(
                broker,
                stream.subscription,
                budget.0 as nat,
                budget.1,
                Some(stream.deadline_seconds),
                now,
                acks,
            ).1 {
                with_messages_counts(current.outstanding, messages);
            }
        }
    }
    without_counts(stream.outstanding, request.ack_ids);
    let started = StreamView { first_request: false, ..stream };
    let after_acks = if request.ack_ids.len() == 0 {
        StreamStep { broker, stream: started, error: None }
    } else {
        StreamStep {
            broker: acknowledged(broker, stream.subscription, request.ack_ids),
            stream: StreamView {
                outstanding: without_all(stream.outstanding, request.ack_ids),
                ..started
            },
            error: None,
        }
    };
    modifying_counts(after_acks, request, now, request.modify_deadline_ack_ids.len());
}

/// A stream that ends gives back what its subscriber still held: those
/// deliveries wait again, so long as the subscription is there.
pub proof fn ended_streams_release_their_messages(
    broker: BrokerView,
    stream: StreamView,
    now: i64,
    i: int,
    k: int,
)
    requires
        get_subscription_spec(broker, stream.subscription) is Ok,
        0 <= k < stream.outstanding.len(),
        0 <= i < broker.deliveries.len(),
        broker.deliveries[i].1.subscription == stream.subscription,
        broker.deliveries[i].1.ack_id == Some(stream.outstanding[k].0),
    ensures
        closed_spec(broker, stream, now).deliveries[i] == (
            broker.deliveries[i].0,
            crate::leases::released(broker.deliveries[i].1),
        ),
{
    let ids = stream.outstanding.map_values(|e: (Seq<char>, i64)| e.0);
    assert(ids[k] == stream.outstanding[k].0);
    assert(ids.contains(stream.outstanding[k].0));
}

} // verus!
