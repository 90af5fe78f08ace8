//! Events on their way to functions: the queue in memory, and the outbox whose
//! events outlive the process.
use crate::encoding::{
    base64_bytes, base64_decode_or_error, base64_encode, base64_error_text, base64_text,
};
use crate::json::{
    as_text_spec, at, empty_object, is_plain_json, items_view, json_of_text, member_stays_plain,
    object1, text_of_json, with_member, write_json, Json, JsonView,
};
use crate::ordered::{lookup_after_put, put, put_sorted};
use crate::accounts::copy_items;
use crate::storage::opt_bytes;
use crate::text::{cat, opt_text, same};
use crate::web_values::single;
use vstd::prelude::*;

verus! {

/// How many seconds a delivery may take before its event can be claimed again.
pub const LEASE_SECONDS: i64 = 5;

/// How many times an event is delivered before it counts as failed.
pub const MAX_ATTEMPTS: i64 = 5;

/// How many events that are done with are kept of each outcome.
pub const KEPT_EVENTS: usize = 1000;

/// How many durable deliveries come in a row before other work is looked at.
pub const BURST: u32 = 32;

/// How many milliseconds pass between two full bursts.
pub const BURST_PAUSE_MS: u64 = 10;

/// How many milliseconds a queue with nothing due waits before it looks at the
/// outbox again.
pub const IDLE_WAIT_MS: u64 = 250;

/// Where an event of the outbox stands.
#[derive(Clone, Copy, PartialEq, Eq, Debug, Structural)]
pub enum EventState {
    Pending,
    InFlight,
    Delivered,
    Failed,
}

/// An event of the outbox, without its payload.
#[derive(Clone, Copy, PartialEq, Eq, Debug, Structural)]
pub struct OutboxRow {
    pub id: i64,
    pub state: EventState,
    pub attempts: i64,
    pub available_at: i64,
    pub lease_until: Option<i64>,
}

/// A number of seconds after a time, at most the largest.
pub open spec fn seconds_after(now: i64, seconds: i64) -> i64 {
    if now > i64::MAX - seconds {
        i64::MAX
    } else {
        (now + seconds) as i64
    }
}

fn after_seconds(now: i64, seconds: i64) -> (r: i64)
    requires
        0 <= seconds,
    ensures
        r == seconds_after(now, seconds),
{
    if now > i64::MAX - seconds {
        i64::MAX
    } else {
        now + seconds
    }
}

/// Whether an event can be delivered now: it waits and its time has come, or
/// the lease of its last delivery has run out.
pub open spec fn is_claimable(row: OutboxRow, now: i64) -> bool {
    ||| row.state == EventState::Pending && row.available_at <= now
    ||| row.state == EventState::InFlight && row.lease_until is Some && row.lease_until->0 <= now
}

/// An event that is being delivered once more.
pub open spec fn claimed(row: OutboxRow, now: i64) -> OutboxRow {
    OutboxRow {
        state: EventState::InFlight,
        attempts: if row.attempts < i64::MAX {
            (row.attempts + 1) as i64
        } else {
            row.attempts
        },
        lease_until: Some(seconds_after(now, LEASE_SECONDS)),
        ..row
    }
}

/// The first of the events from `i` on that can be delivered.
pub open spec fn claimable_index(rows: Seq<OutboxRow>, now: i64, i: int) -> Option<int>
    decreases rows.len() - i,
{
    if i < 0 || i >= rows.len() {
        None
    } else if is_claimable(rows[i], now) {
        Some(i)
    } else {
        claimable_index(rows, now, i + 1)
    }
}

/// Claims the first event that can be delivered, of events in the order of
/// their ids. Returns it as it stands then.
pub fn claim_outbox(rows: &Vec<OutboxRow>, now: i64) -> (r: Option<OutboxRow>)
    ensures
        r == match claimable_index(rows@, now, 0) {
            Some(i) => Some(claimed(rows@[i], now)),
            None => None,
        },
{
    let mut i: usize = 0;
    while i < rows.len()
        invariant
            i <= rows@.len(),
            claimable_index(rows@, now, 0) == claimable_index(rows@, now, i as int),
        decreases rows.len() - i,
    {
        let row: OutboxRow = rows[i];
        let due = row.state == EventState::Pending && row.available_at <= now;
        let expired = row.state == EventState::InFlight && match row.lease_until {
            Some(until) => until <= now,
            None => false,
        };
        if due || expired {
            let attempts: i64 = if row.attempts < i64::MAX {
                row.attempts + 1
            } else {
                row.attempts
            };
            return Some(
                OutboxRow {
                    id: row.id,
                    state: EventState::InFlight,
                    attempts,
                    available_at: row.available_at,
                    lease_until: Some(after_seconds(now, LEASE_SECONDS)),
                },
            );
        }
        i += 1;
    }
    None
}

/// An event after a process that was delivering it has gone.
pub open spec fn recovered(row: OutboxRow) -> OutboxRow {
    if row.state == EventState::InFlight {
        OutboxRow { state: EventState::Pending, lease_until: None, ..row }
    } else {
        row
    }
}

/// Makes an event that was being delivered wait again.
pub fn recover_outbox(row: OutboxRow) -> (r: OutboxRow)
    ensures
        r == recovered(row),
{
    if row.state == EventState::InFlight {
        OutboxRow {
            id: row.id,
            state: EventState::Pending,
            attempts: row.attempts,
            available_at: row.available_at,
            lease_until: None,
        }
    } else {
        row
    }
}

/// An event whose delivery has succeeded.
pub open spec fn acknowledged(row: OutboxRow) -> OutboxRow {
    if row.state == EventState::InFlight {
        OutboxRow { state: EventState::Delivered, lease_until: None, ..row }
    } else {
        row
    }
}

/// Marks an event that was being delivered as delivered.
pub fn acknowledge_outbox(row: OutboxRow) -> (r: OutboxRow)
    ensures
        r == acknowledged(row),
{
    if row.state == EventState::InFlight {
        OutboxRow {
            id: row.id,
            state: EventState::Delivered,
            attempts: row.attempts,
            available_at: row.available_at,
            lease_until: None,
        }
    } else {
        row
    }
}

/// How many seconds an event waits after so many attempts: one second after
/// the first, and twice as long after each other, up to sixteen.
pub open spec fn backoff_spec(attempts: i64) -> i64 {
    if attempts <= 1 {
        1
    } else if attempts == 2 {
        2
    } else if attempts == 3 {
        4
    } else if attempts == 4 {
        8
    } else {
        16
    }
}

pub fn backoff(attempts: i64) -> (r: i64)
    ensures
        r == backoff_spec(attempts),
{
    if attempts <= 1 {
        1
    } else if attempts == 2 {
        2
    } else if attempts == 3 {
        4
    } else if attempts == 4 {
        8
    } else {
        16
    }
}

/// An event whose delivery has failed: it waits for the next attempt, or has
/// failed for good after the last.
pub open spec fn failed(row: OutboxRow, now: i64) -> OutboxRow {
    if row.attempts >= MAX_ATTEMPTS {
        OutboxRow { state: EventState::Failed, lease_until: None, ..row }
    } else {
        OutboxRow {
            state: EventState::Pending,
            lease_until: None,
            available_at: seconds_after(now, backoff_spec(row.attempts)),
            ..row
        }
    }
}

/// Marks an event whose delivery has failed.
pub fn fail_outbox(row: OutboxRow, now: i64) -> (r: OutboxRow)
    ensures
        r == failed(row, now),
{
    if row.attempts >= MAX_ATTEMPTS {
        OutboxRow {
            id: row.id,
            state: EventState::Failed,
            attempts: row.attempts,
            available_at: row.available_at,
            lease_until: None,
        }
    } else {
        OutboxRow {
            id: row.id,
            state: EventState::Pending,
            attempts: row.attempts,
            available_at: after_seconds(now, backoff(row.attempts)),
            lease_until: None,
        }
    }
}

/// The ids of events that are done with and no longer kept: all but the
/// newest.
pub open spec fn expendable_spec(ids: Seq<i64>) -> Seq<i64> {
    if ids.len() <= KEPT_EVENTS {
        Seq::empty()
    } else {
        ids.take(ids.len() - KEPT_EVENTS)
    }
}

/// Chooses which events that are done with are no longer kept, of ids in
/// order.
pub fn expendable(ids: &Vec<i64>) -> (r: Vec<i64>)
    ensures
        r@ == expendable_spec(ids@),
{
    let mut out: Vec<i64> = Vec::new();
    if ids.len() <= KEPT_EVENTS {
        assert(out@ =~= Seq::empty());
        return out;
    }
    let end: usize = ids.len() - KEPT_EVENTS;
    let mut i: usize = 0;
    while i < end
        invariant
            i <= end,
            end <= ids@.len(),
            out@ == ids@.take(i as int),
        decreases end - i,
    {
        out.push(ids[i]);
        assert(out@ =~= ids@.take(i + 1));
        i += 1;
    }
    out
}

/// An event keeps its id through every delivery, and its attempts are counted.
pub proof fn events_keep_their_ids(row: OutboxRow, now: i64)
    ensures
        claimed(row, now).id == row.id,
        recovered(row).id == row.id,
        acknowledged(row).id == row.id,
        failed(row, now).id == row.id,
        recovered(row).attempts == row.attempts,
        failed(row, now).attempts == row.attempts,
        row.attempts < i64::MAX ==> claimed(row, now).attempts == row.attempts + 1,
{
}

/// An event that has not been delivered is not lost: after a failed delivery
/// it is pending, and claimable once its time has come, until the fifth
/// attempt; after a process that delivered it has gone it is pending again;
/// and after its lease has run out it can be claimed without that.
pub proof fn undelivered_events_come_again(row: OutboxRow, now: i64, then: i64)
    requires
        row.state == EventState::Pending || row.state == EventState::InFlight,
    ensures
        row.attempts < MAX_ATTEMPTS && then >= seconds_after(now, backoff_spec(row.attempts))
            ==> is_claimable(failed(row, now), then),
        row.attempts >= MAX_ATTEMPTS ==> failed(row, now).state == EventState::Failed
            && !is_claimable(failed(row, now), then),
        recovered(row).state == EventState::Pending,
        then >= seconds_after(now, LEASE_SECONDS) ==> is_claimable(claimed(row, now), then),
{
}

/// A delivered event is not delivered again.
pub proof fn delivered_events_stay_delivered(row: OutboxRow, now: i64)
    requires
        row.state == EventState::InFlight,
    ensures
        !is_claimable(acknowledged(row), now),
        recovered(acknowledged(row)) == acknowledged(row),
{
}

/// The time between two attempts is bounded.
pub proof fn backoff_is_bounded(attempts: i64)
    ensures
        1 <= backoff_spec(attempts) <= 16,
        1 <= attempts < 4 ==> backoff_spec((attempts + 1) as i64) == 2 * backoff_spec(attempts),
{
}

/// What comes next after a look at the outbox.
#[derive(Clone, Copy, PartialEq, Eq, Debug, Structural)]
pub enum QueueStep {
    /// To look at the outbox again.
    Durable,
    /// To look at direct work and, after a full burst, to pause.
    Direct { pause: bool },
}

/// How long the burst is after a look at the outbox, and what comes next:
/// direct work after a full burst or where nothing was due.
pub open spec fn burst_spec(burst: u32, delivered: bool) -> (u32, QueueStep) {
    if !delivered {
        (0, QueueStep::Direct { pause: false })
    } else if burst + 1 >= BURST {
        (0, QueueStep::Direct { pause: true })
    } else {
        ((burst + 1) as u32, QueueStep::Durable)
    }
}

/// Decides what comes next after a look at the outbox.
pub fn next_step(burst: u32, delivered: bool) -> (r: (u32, QueueStep))
    ensures
        r == burst_spec(burst, delivered),
{
    if !delivered {
        (0, QueueStep::Direct { pause: false })
    } else if burst >= BURST - 1 {
        (0, QueueStep::Direct { pause: true })
    } else {
        (burst + 1, QueueStep::Durable)
    }
}

/// How many milliseconds the queue waits for direct work: a pause after a full
/// burst, else until it looks at the outbox again.
pub fn direct_wait(pause: bool) -> (r: u64)
    ensures
        r == if pause {
            BURST_PAUSE_MS
        } else {
            IDLE_WAIT_MS
        },
{
    if pause {
        BURST_PAUSE_MS
    } else {
        IDLE_WAIT_MS
    }
}

/// How long the burst is after `n` deliveries in a row, and what came next
/// after the last.
pub open spec fn after_deliveries(n: nat) -> (u32, QueueStep)
    decreases n,
{
    if n == 0 {
        (0, QueueStep::Durable)
    } else {
        burst_spec(after_deliveries((n - 1) as nat).0, true)
    }
}

/// Direct work is looked at after every thirty-two durable deliveries in a
/// row, however many there are.
pub proof fn direct_work_is_not_starved(n: nat)
    ensures
        after_deliveries(n).0 == n % 32,
        n > 0 && n % 32 == 0 ==> after_deliveries(n).1 == (QueueStep::Direct { pause: true }),
    decreases n,
{
    if n > 0 {
        direct_work_is_not_starved((n - 1) as nat);
        assert(n % 32 == if (n - 1) % 32 == 31 {
            0int
        } else {
            (n - 1) % 32 + 1
        }) by (nonlinear_arith)
            requires
                n > 0,
        ;
    }
}

/// The count of events in memory: how many were taken, wait and are done with,
/// how many of a burst were dispatched while the queue never ran empty, and
/// what has failed.
pub struct Hub {
    pub sequence: u64,
    pub pending: u64,
    pub completed: u64,
    pub busy: u32,
    pub failures: Vec<Json>,
}

/// What a [`Hub`] stands for.
#[verifier::ext_equal]
pub struct HubView {
    pub sequence: nat,
    pub pending: nat,
    pub completed: nat,
    pub busy: nat,
    pub failures: Seq<JsonView>,
}

impl View for Hub {
    type V = HubView;

    open spec fn view(&self) -> HubView {
        HubView {
            sequence: self.sequence as nat,
            pending: self.pending as nat,
            completed: self.completed as nat,
            busy: self.busy as nat,
            failures: items_view(self.failures@),
        }
    }
}

/// What has failed, of an event where one is known.
pub open spec fn failure_json(id: Option<u64>, error: Seq<char>) -> JsonView {
    with_member(
        object1(
            "eventId"@,
            match id {
                Some(n) => JsonView::Unsigned(n),
                None => JsonView::Null,
            },
        ),
        "error"@,
        JsonView::Text(error),
    )
}

/// Writes what has failed.
pub fn failure(id: Option<u64>, error: &str) -> (r: Json)
    ensures
        r@ == failure_json(id, error@),
{
    single(
        "eventId",
        match id {
            Some(n) => Json::Unsigned(n),
            None => Json::Null,
        },
    ).with("error", Json::of_text(error))
}

/// A hub that has taken an event.
pub open spec fn taken(h: HubView) -> HubView {
    HubView { sequence: h.sequence + 1, pending: h.pending + 1, ..h }
}

/// A hub whose queue has refused an event that it had taken.
pub open spec fn refused(h: HubView, id: u64, message: Seq<char>) -> HubView {
    HubView {
        pending: (h.pending - 1) as nat,
        failures: h.failures.push(failure_json(Some(id), message)),
        ..h
    }
}

/// A hub that has dispatched an event, or failed to.
pub open spec fn finished(h: HubView, id: u64, error: Option<Seq<char>>) -> HubView {
    HubView {
        pending: (h.pending - 1) as nat,
        completed: h.completed + 1,
        busy: if h.pending == 1 {
            0
        } else {
            h.busy
        },
        failures: match error {
            Some(e) => h.failures.push(failure_json(Some(id), e)),
            None => h.failures,
        },
        ..h
    }
}

/// A hub that has begun to dispatch an event, and whether a pause comes first.
pub open spec fn begun(h: HubView) -> (HubView, bool) {
    if h.busy + 1 >= BURST {
        (HubView { busy: 0, ..h }, true)
    } else {
        (HubView { busy: h.busy + 1, ..h }, false)
    }
}

/// A hub that has begun to dispatch `n` events while its queue never ran
/// empty, and whether a pause came before the last.
pub open spec fn begun_times(h: HubView, n: nat) -> (HubView, bool)
    decreases n,
{
    if n == 0 {
        (h, false)
    } else {
        begun(begun_times(h, (n - 1) as nat).0)
    }
}

/// Functions that keep triggering each other are slowed down and no event of
/// theirs is lost: however many are dispatched in a row, each is, with a pause
/// before every thirty-second, and all stay counted as they were.
pub proof fn loops_are_slowed_down(h: HubView, n: nat)
    requires
        h.busy == 0,
    ensures
        begun_times(h, n).0 == (HubView { busy: (n % 32) as nat, ..h }),
        begun_times(h, n).1 == (n > 0 && n % 32 == 0),
    decreases n,
{
    if n > 0 {
        loops_are_slowed_down(h, (n - 1) as nat);
        assert(n % 32 == if (n - 1) % 32 == 31 {
            0int
        } else {
            (n - 1) % 32 + 1
        }) by (nonlinear_arith)
            requires
                n > 0,
        ;
    }
}

/// Every event that was taken is waiting or done with, so long as none was
/// refused; one that is refused leaves the others as they are.
pub proof fn events_are_accounted_for(h: HubView, id: u64, error: Option<Seq<char>>)
    requires
        h.pending + h.completed == h.sequence,
    ensures
        taken(h).pending + taken(h).completed == taken(h).sequence,
        h.pending > 0 ==> finished(h, id, error).pending + finished(h, id, error).completed
            == h.sequence,
        error is Some ==> refused(taken(h), id, error->0).pending + refused(
            taken(h),
            id,
            error->0,
        ).completed == h.sequence,
{
}

impl Hub {
    /// A hub that has taken no event.
    pub fn new() -> (r: Hub)
        ensures
            r@ == (HubView {
                sequence: 0,
                pending: 0,
                completed: 0,
                busy: 0,
                failures: Seq::empty(),
            }),
    {
        let r = Hub { sequence: 0, pending: 0, completed: 0, busy: 0, failures: Vec::new() };
        assert(r@.failures =~= Seq::empty());
        r
    }

    /// Takes an event and numbers it.
    pub fn enqueue(&mut self) -> (r: u64)
        requires
            old(self).sequence < u64::MAX,
            old(self).pending < u64::MAX,
        ensures
            final(self)@ == taken(old(self)@),
            r == old(self).sequence + 1,
    {
        self.sequence = self.sequence + 1;
        self.pending = self.pending + 1;
        self.sequence
    }

    /// Notes that the queue has refused an event, and says why.
    pub fn refuse(&mut self, id: u64, error: &str) -> (r: String)
        requires
            old(self).pending > 0,
        ensures
            r@ == "trigger queue rejected event: "@ + error@,
            final(self)@ == refused(old(self)@, id, r@),
    {
        let message = cat("trigger queue rejected event: ", error);
        let ghost before = self@.failures;
        self.pending = self.pending - 1;
        self.failures.push(failure(Some(id), message.as_str()));
        assert(self@.failures =~= before.push(failure_json(Some(id), message@)));
        message
    }

    /// Begins to dispatch an event. Says whether a pause comes first, as it does
    /// after each full burst while the queue never runs empty.
    pub fn begin(&mut self) -> (r: bool)
        ensures
            (final(self)@, r) == begun(old(self)@),
    {
        if self.busy >= BURST - 1 {
            self.busy = 0;
            true
        } else {
            self.busy = self.busy + 1;
            false
        }
    }

    /// Notes that an event was dispatched, or why it was not.
    pub fn finish(&mut self, id: u64, error: Option<String>)
        requires
            old(self).pending > 0,
            old(self).completed < u64::MAX,
        ensures
            final(self)@ == finished(old(self)@, id, opt_text(error)),
    {
        let ghost before = self@.failures;
        if let Some(e) = error {
            self.failures.push(failure(Some(id), e.as_str()));
            assert(self@.failures =~= before.push(failure_json(Some(id), e@)));
        }
        self.completed = self.completed + 1;
        self.pending = self.pending - 1;
        if self.pending == 0 {
            self.busy = 0;
        }
        assert(self@ =~= finished(old(self)@, id, opt_text(error)));
    }

    /// Writes how many events wait and are done with, and what has failed, of
    /// those in memory and those of the outbox together.
    pub fn status(&self, durable_pending: u64, durable_completed: u64, durable_failures: Vec<Json>)
        -> (r: Json)
        requires
            self.pending + durable_pending <= u64::MAX,
            self.completed + durable_completed <= u64::MAX,
        ensures
            r@ == status_json(
                self@,
                durable_pending,
                durable_completed,
                items_view(durable_failures@),
            ),
    {
        let mut failures = copy_items(&self.failures);
        let ghost start = items_view(failures@);
        let ghost more = items_view(durable_failures@);
        assert(start + more.take(0) =~= start);
        for entry in it: durable_failures
            invariant
                it.seq() == durable_failures@,
                more == items_view(durable_failures@),
                items_view(failures@) == start + more.take(it.index() as int),
        {
            let ghost i = it.index() as int;
            let ghost before = items_view(failures@);
            failures.push(entry);
            assert(items_view(failures@) =~= before.push(entry@));
            assert(more[i] == entry@);
            assert(before.push(entry@) =~= start + more.take(i + 1));
        }
        assert(more.take(more.len() as int) =~= more);
        single("pending", Json::Unsigned(self.pending + durable_pending)).with(
            "completed",
            Json::Unsigned(self.completed + durable_completed),
        ).with("failures", Json::array(failures))
    }
}

/// The status of a hub and an outbox.
pub open spec fn status_json(
    h: HubView,
    durable_pending: u64,
    durable_completed: u64,
    durable_failures: Seq<JsonView>,
) -> JsonView {
    let v = object1("pending"@, JsonView::Unsigned((h.pending + durable_pending) as u64));
    let v = with_member(
        v,
        "completed"@,
        JsonView::Unsigned((h.completed + durable_completed) as u64),
    );
    with_member(v, "failures"@, JsonView::Array(h.failures + durable_failures))
}

/// The HTTP status of a drain: that of a timeout where events are still
/// waiting, else that of success where nothing has failed.
pub fn drain_status(timed_out: bool, failures: usize) -> (r: u16)
    ensures
        r == if timed_out {
            408u16
        } else if failures == 0 {
            200
        } else {
            500
        },
{
    if timed_out {
        408
    } else if failures == 0 {
        200
    } else {
        500
    }
}

/// The message of events that could not be delivered, with one message for
/// each.
pub open spec fn joined_errors(errors: Seq<Seq<char>>) -> Option<Seq<char>> {
    if errors.len() == 0 {
        None
    } else {
        Some(crate::text::join_spec(errors, "; "@))
    }
}

/// Joins the messages of events that could not be delivered.
pub fn join_errors(errors: &Vec<String>) -> (r: Option<String>)
    ensures
        opt_text(r) == joined_errors(crate::text::texts(errors@)),
{
    if errors.len() == 0 {
        None
    } else {
        Some(crate::text::join(errors, "; "))
    }
}

/// What an event of the outbox is about.
#[derive(Clone, Copy, PartialEq, Eq, Debug, Structural)]
pub enum DurableSource {
    Firestore,
    Storage,
}

/// Reads what an event of the outbox is about.
pub fn durable_source(source: &str) -> (r: Result<DurableSource, String>)
    ensures
        match r {
            Ok(DurableSource::Firestore) => source@ == "firestore"@,
            Ok(DurableSource::Storage) => source@ == "storage"@,
            Err(e) => source@ != "firestore"@ && source@ != "storage"@ && e@
                == "unsupported durable event source: "@ + source@,
        },
{
    if same(source, "firestore") {
        Ok(DurableSource::Firestore)
    } else if same(source, "storage") {
        Ok(DurableSource::Storage)
    } else {
        Err(cat("unsupported durable event source: ", source))
    }
}

/// Checks the kind of a storage event of the outbox.
pub fn storage_kind(kind: &str) -> (r: Result<(), String>)
    ensures
        match r {
            Ok(_) => kind@ == "finalize"@ || kind@ == "delete"@,
            Err(e) => kind@ != "finalize"@ && kind@ != "delete"@ && e@
                == "unsupported durable Storage event kind: "@ + kind@,
        },
{
    if same(kind, "finalize") || same(kind, "delete") {
        Ok(())
    } else {
        Err(cat("unsupported durable Storage event kind: ", kind))
    }
}

/// Bytes in base64 as JSON, null where there are none.
pub open spec fn bytes_or_null(bytes: Option<Seq<u8>>) -> JsonView {
    match bytes {
        Some(b) => JsonView::Text(base64_text(b)),
        None => JsonView::Null,
    }
}

fn encoded_or_null(bytes: Option<Vec<u8>>) -> (r: Json)
    ensures
        r@ == bytes_or_null(opt_bytes(bytes)),
        state_spec(as_text_spec(r@)) == Ok::<_, Seq<char>>(opt_bytes(bytes)),
{
    match bytes {
        Some(b) => Json::Text(base64_encode(b.as_slice())),
        None => Json::Null,
    }
}

/// The payload of a document's event: its encoded states before and after.
pub open spec fn firestore_payload_spec(before: Option<Seq<u8>>, after: Option<Seq<u8>>) -> JsonView {
    with_member(object1("before"@, bytes_or_null(before)), "after"@, bytes_or_null(after))
}

/// The payload of a document's event. Reading it gives the states back.
pub fn firestore_payload(before: Option<Vec<u8>>, after: Option<Vec<u8>>) -> (r: String)
    ensures
        ({
            let payload = firestore_payload_spec(opt_bytes(before), opt_bytes(after));
            &&& r@ == text_of_json(payload)
            &&& json_of_text(r@) == Some(payload)
            &&& stored_states_spec(
                as_text_spec(at(payload, "before"@)),
                as_text_spec(at(payload, "after"@)),
            ) == Ok::<_, Seq<char>>((opt_bytes(before), opt_bytes(after)))
        }),
{
    let first = encoded_or_null(before);
    let second = encoded_or_null(after);
    let ghost (x, y) = (first@, second@);
    let payload = single("before", first).with("after", second);
    proof {
        let none: Seq<(Seq<char>, JsonView)> = Seq::empty();
        let one = put(none, "before"@, x);
        reveal_strlit("before");
        reveal_strlit("after");
        assert("before"@[0] != "after"@[0]);
        member_stays_plain(empty_object(), "before"@, x, 100);
        member_stays_plain(object1("before"@, x), "after"@, y, 100);
        put_sorted(none, "before"@, x);
        lookup_after_put(none, "before"@, x, "before"@);
        lookup_after_put(one, "after"@, y, "before"@);
    }
    write_json(&payload)
}

/// One state of a document as it is stored in an event: none, or its bytes in
/// base64.
pub open spec fn state_spec(text: Option<Seq<char>>) -> Result<Option<Seq<u8>>, Seq<char>> {
    match text {
        None => Ok(None),
        Some(t) => match base64_bytes(t) {
            Some(bytes) => Ok(Some(bytes)),
            None => Err(base64_error_text(t)),
        },
    }
}

/// The states of a document before and after, as they are stored in an event.
pub open spec fn stored_states_spec(before: Option<Seq<char>>, after: Option<Seq<char>>) -> Result<
    (Option<Seq<u8>>, Option<Seq<u8>>),
    Seq<char>,
> {
    match state_spec(before) {
        Err(e) => Err(e),
        Ok(b) => match state_spec(after) {
            Err(e) => Err(e),
            Ok(a) => Ok((b, a)),
        },
    }
}

fn stored_state(text: &Option<String>) -> (r: Result<Option<Vec<u8>>, String>)
    ensures
        (match r {
            Ok(bytes) => Ok(opt_bytes(bytes)),
            Err(e) => Err(e@),
        }) == state_spec(opt_text(*text)),
{
    match text {
        None => Ok(None),
        Some(t) => match base64_decode_or_error(t.as_str()) {
            Ok(bytes) => Ok(Some(bytes)),
            Err(e) => Err(e),
        },
    }
}

/// Reads the states of a document that an event stores.
pub fn stored_states(before: &Option<String>, after: &Option<String>) -> (r: Result<
    (Option<Vec<u8>>, Option<Vec<u8>>),
    String,
>)
    ensures
        (match r {
            Ok(states) => Ok((opt_bytes(states.0), opt_bytes(states.1))),
            Err(e) => Err(e@),
        }) == stored_states_spec(opt_text(*before), opt_text(*after)),
{
    match stored_state(before) {
        Err(e) => Err(e),
        Ok(b) => match stored_state(after) {
            Err(e) => Err(e),
            Ok(a) => Ok((b, a)),
        },
    }
}

/// The payload of a storage object's event. Reading it gives the kind and the
/// object back, where the object has no fractions and at most 99 levels.
pub fn storage_outbox_record(kind: &str, object: Json) -> (r: String)
    ensures
        ({
            let payload = with_member(
                object1("kind"@, JsonView::Text(kind@)),
                "object"@,
                object@,
            );
            &&& r@ == text_of_json(payload)
            &&& is_plain_json(object@, 99) ==> json_of_text(r@) == Some(payload)
        }),
{
    proof {
        member_stays_plain(empty_object(), "kind"@, JsonView::Text(kind@), 100);
        if is_plain_json(object@, 99) {
            let one = object1("kind"@, JsonView::Text(kind@));
            member_stays_plain(one, "object"@, object@, 100);
        }
    }
    write_json(&single("kind", Json::of_text(kind)).with("object", object))
}

} // verus!
