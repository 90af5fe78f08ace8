//! What the browser channel and the REST interface do with a request.
use crate::changes::{changes_view, ChangeView, DocumentChange};
use crate::document::{Document, DocumentView};
use crate::firestore::{
    batch_get_view, commit_spec, BatchGetResponse, BatchGetResult, BatchGetResultView, BatchGetView,
    CommitRequest, Store, StoreView,
};
use crate::json::{
    array_at, as_integer_spec, at, items_view, json_of_text, member, object1, parse_json,
    text_of_json, with_member, Json, JsonView,
};
use crate::ordered::OrderedMap;
use crate::query::{docs_view, QueryView, StructuredQuery};
use crate::status::{invalid, result_view, status_view, unit_result, Code, Status, StatusView};
use crate::text::{before_suffix, opt_text, parse_unsigned, parse_unsigned_spec, same, strip_suffix, texts};
use crate::value::Timestamp;
use crate::listing::headers_view;
use crate::web_channel::{
    accept_spec, acknowledged, added_target_is_found, adding_is_bounded, count_named, error_json,
    error_json_spec, insert_target, named_count, push_spec, refresh_initial_spec,
    refresh_is_bounded, refresh_spec, stream_committed, target_change_json, targets_bound, waiting,
    Session, SessionView, StepView, WebStep, WebTargetView,
};
use crate::web_form::{frame, frame_spec, numbered_view, Numbered};
use crate::web_requests::{
    query_proto, query_proto_spec, texts_among, texts_under, writes_proto, writes_proto_spec,
};
use crate::web_values::{document_json, document_json_spec, single, time_json, time_json_spec};
use crate::writes::{writes_view, Write, WriteView};
use vstd::prelude::*;

verus! {

/// The store, the session and the events after a request, and why it was
/// refused where it was.
pub open spec fn process_spec(
    store: StoreView,
    s: SessionView,
    rpc: Seq<char>,
    sid: Seq<char>,
    message: JsonView,
    now: Timestamp,
) -> (StoreView, SessionView, Seq<ChangeView>, Result<(), StatusView>) {
    match accept_spec(s, rpc, sid, message) {
        (after, Err(e)) => (store, after, Seq::empty(), Err(e)),
        (after, Ok(step)) => match step {
            StepView::Done => (store, after, Seq::empty(), Ok(())),
            StepView::Commit(writes) => match commit_spec(
                store,
                after.database,
                writes,
                Seq::empty(),
                now,
            ) {
                Err(e) => (store, after, Seq::empty(), Err(e)),
                Ok(done) => (
                    done.0,
                    push_spec(after, stream_committed(after.seq, sid, done.1, now)),
                    done.2,
                    Ok(()),
                ),
            },
            StepView::Refresh(id) => {
                let (told, outcome) = refresh_initial_spec(store.documents, after, id, now);
                (store, told, Seq::empty(), outcome)
            },
        },
    }
}

/// Serves a request of a channel on a store in memory. Returns the events that
/// the changes are worth.
pub fn process(
    store: &mut Store,
    session: &mut Session,
    rpc: &str,
    sid: &str,
    message: &Json,
    now: &Timestamp,
) -> (r: (Vec<DocumentChange>, Result<(), Status>))
    requires
        old(session).seq < u64::MAX,
        process_spec(old(store)@, old(session)@, rpc@, sid@, message@, *now).1.seq <= u64::MAX,
    ensures
        process_spec(old(store)@, old(session)@, rpc@, sid@, message@, *now) == (
            final(store)@,
            final(session)@,
            changes_view(r.0@),
            unit_result(r.1),
        ),
{
    let ghost before = session@;
    let none: Vec<DocumentChange> = Vec::new();
    assert(changes_view(none@) =~= Seq::empty());
    match session.accept(rpc, sid, message) {
        Err(e) => (none, Err(e)),
        Ok(WebStep::Done) => (none, Ok(())),
        Ok(WebStep::Commit(writes)) => {
            let transaction: Vec<u8> = Vec::new();
            assert(transaction@ =~= Seq::empty());
            let request = CommitRequest { database: session.database.clone(), writes, transaction };
            match store.commit(request, now) {
                Err(e) => (none, Err(e)),
                Ok((results, changes)) => {
                    session.committed(sid, &results, now);
                    (changes, Ok(()))
                },
            }
        },
        Ok(WebStep::Refresh(id)) => {
            proof {
                let target = crate::json::member(message@, "addTarget"@)->0;
                added_target_is_found(
                    before.targets,
                    id,
                    crate::web_channel::WebTargetView { spec: target, documents: Seq::empty() },
                );
            }
            let outcome = session.refresh_initial(&store.documents, id, now);
            (none, outcome)
        },
    }
}

/// How a request reaches a channel.
#[derive(Clone, Copy, PartialEq, Eq, Debug, Structural)]
pub enum WebMethod {
    Options,
    Post,
    Get,
    Other,
}

/// The parameters of a channel request.
pub struct ChannelParams {
    pub kind: Option<String>,
    pub sid: Option<String>,
    pub rid: Option<String>,
    pub aid: Option<String>,
}

/// What a channel request asks for.
#[derive(PartialEq, Debug)]
pub enum ChannelRequest {
    /// Nothing: the answer is empty.
    Preflight,
    /// To end a session, where one is named.
    Terminate(Option<String>),
    /// To open a session and hand it messages.
    Open,
    /// To hand messages to a session.
    Send(String),
    /// To wait for the messages behind the one acknowledged.
    Poll(String, u64),
    /// Nothing that can be served; the session is looked up all the same.
    Unknown(String),
}

/// What a [`ChannelRequest`] stands for.
pub enum RequestView {
    Preflight,
    Terminate(Option<Seq<char>>),
    Open,
    Send(Seq<char>),
    Poll(Seq<char>, u64),
    Unknown(Seq<char>),
}

impl View for ChannelRequest {
    type V = RequestView;

    open spec fn view(&self) -> RequestView {
        match self {
            ChannelRequest::Preflight => RequestView::Preflight,
            ChannelRequest::Terminate(sid) => RequestView::Terminate(opt_text(*sid)),
            ChannelRequest::Open => RequestView::Open,
            ChannelRequest::Send(sid) => RequestView::Send(sid@),
            ChannelRequest::Poll(sid, aid) => RequestView::Poll(sid@, *aid),
            ChannelRequest::Unknown(sid) => RequestView::Unknown(sid@),
        }
    }
}

/// The acknowledged number of a poll.
pub open spec fn acknowledged_number(aid: Option<Seq<char>>) -> u64 {
    match aid {
        Some(text) => match parse_unsigned_spec(text, u64::MAX as nat) {
            Some(n) => n as u64,
            None => 0,
        },
        None => 0,
    }
}

/// What a channel request asks for, or why it is refused.
pub open spec fn channel_request_spec(
    method: WebMethod,
    rpc: Seq<char>,
    kind: Option<Seq<char>>,
    sid: Option<Seq<char>>,
    rid: Option<Seq<char>>,
    aid: Option<Seq<char>>,
) -> Result<RequestView, StatusView> {
    if method == WebMethod::Options {
        Ok(RequestView::Preflight)
    } else if rpc != "Listen"@ && rpc != "Write"@ {
        Err(status_view(Code::Unimplemented, "unknown stream"@))
    } else if kind == Some("terminate"@) {
        Ok(RequestView::Terminate(sid))
    } else {
        match sid {
            None => if method == WebMethod::Post {
                Ok(RequestView::Open)
            } else {
                Err(invalid("POST is required for channel handshake"@))
            },
            Some(id) => if method == WebMethod::Post {
                Ok(RequestView::Send(id))
            } else if method == WebMethod::Get && rid == Some("rpc"@) {
                Ok(RequestView::Poll(id, acknowledged_number(aid)))
            } else {
                Ok(RequestView::Unknown(id))
            },
        }
    }
}

fn is_text(value: &Option<String>, wanted: &str) -> (r: bool)
    ensures
        r == (opt_text(*value) == Some(wanted@)),
{
    match value {
        Some(text) => same(text.as_str(), wanted),
        None => false,
    }
}

/// Decides what a channel request asks for.
pub fn channel_request(method: WebMethod, rpc: &str, params: ChannelParams) -> (r: Result<
    ChannelRequest,
    Status,
>)
    ensures
        result_view(r) == channel_request_spec(
            method,
            rpc@,
            opt_text(params.kind),
            opt_text(params.sid),
            opt_text(params.rid),
            opt_text(params.aid),
        ),
{
    if method == WebMethod::Options {
        return Ok(ChannelRequest::Preflight);
    }
    if !same(rpc, "Listen") && !same(rpc, "Write") {
        return Err(Status::new(Code::Unimplemented, "unknown stream"));
    }
    if is_text(&params.kind, "terminate") {
        return Ok(ChannelRequest::Terminate(params.sid));
    }
    let polls = method == WebMethod::Get && is_text(&params.rid, "rpc");
    match params.sid {
        None => if method == WebMethod::Post {
            Ok(ChannelRequest::Open)
        } else {
            Err(Status::invalid_argument("POST is required for channel handshake"))
        },
        Some(sid) => if method == WebMethod::Post {
            Ok(ChannelRequest::Send(sid))
        } else if polls {
            let aid: u64 = match params.aid {
                Some(text) => match parse_unsigned(text.as_str(), u64::MAX) {
                    Some(n) => n,
                    None => 0,
                },
                None => 0,
            };
            Ok(ChannelRequest::Poll(sid, aid))
        } else {
            Ok(ChannelRequest::Unknown(sid))
        },
    }
}

/// How many milliseconds a channel may stay idle.
pub const CHANNEL_IDLE_MS: u64 = 300_000;

/// How many milliseconds a poll waits for a message.
pub const POLL_MS: u64 = 20_000;

/// Whether a channel that was last touched at `touched` is dropped at `now`.
pub fn channel_is_idle(touched: u64, now: u64) -> (r: bool)
    ensures
        r == (now - touched >= CHANNEL_IDLE_MS),
{
    now >= touched && now - touched >= CHANNEL_IDLE_MS
}

/// The answer to a handshake.
pub open spec fn handshake_json(sid: Seq<char>) -> JsonView {
    JsonView::Array(
        seq![
            JsonView::Array(
                seq![
                    JsonView::Unsigned(0),
                    JsonView::Array(
                        seq![
                            JsonView::Text("c"@),
                            JsonView::Text(sid),
                            JsonView::Text(""@),
                            JsonView::Unsigned(8),
                            JsonView::Unsigned(12),
                            JsonView::Unsigned(30000),
                        ],
                    ),
                ],
            ),
        ],
    )
}

/// Answers a handshake.
pub fn handshake(sid: &str) -> (r: String)
    ensures
        r@ == frame_spec(text_of_json(handshake_json(sid@))),
{
    let mut terms: Vec<Json> = Vec::new();
    terms.push(Json::of_text("c"));
    terms.push(Json::of_text(sid));
    terms.push(Json::of_text(""));
    terms.push(Json::Unsigned(8));
    terms.push(Json::Unsigned(12));
    terms.push(Json::Unsigned(30000));
    assert(items_view(terms@) =~= seq![
        JsonView::Text("c"@),
        JsonView::Text(sid@),
        JsonView::Text(""@),
        JsonView::Unsigned(8),
        JsonView::Unsigned(12),
        JsonView::Unsigned(30000),
    ]);
    let mut message: Vec<Json> = Vec::new();
    message.push(Json::Unsigned(0));
    let listed = Json::array(terms);
    message.push(listed);
    assert(items_view(message@) =~= seq![JsonView::Unsigned(0), listed@]);
    let mut outer: Vec<Json> = Vec::new();
    let first = Json::array(message);
    outer.push(first);
    assert(items_view(outer@) =~= seq![first@]);
    frame(&Json::array(outer))
}

/// The answer to messages that were handed in.
pub open spec fn received_json(seq: u64) -> JsonView {
    JsonView::Array(seq![JsonView::Unsigned(1), JsonView::Unsigned(seq), JsonView::Unsigned(0)])
}

/// Answers messages that were handed in.
pub fn received(seq: u64) -> (r: String)
    ensures
        r@ == frame_spec(text_of_json(received_json(seq))),
{
    let mut items: Vec<Json> = Vec::new();
    items.push(Json::Unsigned(1));
    items.push(Json::Unsigned(seq));
    items.push(Json::Unsigned(0));
    assert(items_view(items@) =~= seq![
        JsonView::Unsigned(1),
        JsonView::Unsigned(seq),
        JsonView::Unsigned(0),
    ]);
    frame(&Json::array(items))
}

impl Session {
    /// Looks for messages behind the one acknowledged, after comparing the
    /// targets of a listening channel with their documents.
    pub fn poll(&mut self, documents: &OrderedMap<Document>, rpc: &str, aid: u64, now: &Timestamp)
        -> (r: Result<Option<String>, Status>)
        requires
            rpc@ == "Listen"@ ==> refresh_spec(documents@, old(self)@, *now).0.seq <= u64::MAX,
        ensures
            ({
                let (told, outcome) = if rpc@ == "Listen"@ {
                    refresh_spec(documents@, old(self)@, *now)
                } else {
                    (old(self)@, Ok(()))
                };
                match outcome {
                    Err(e) => r is Err && r->Err_0@ == e && final(self)@ == told,
                    Ok(_) => r is Ok && opt_text(r->Ok_0) == waiting(acknowledged(told, aid))
                        && final(self)@ == acknowledged(told, aid),
                }
            }),
    {
        if same(rpc, "Listen") {
            match self.refresh(documents, now) {
                Ok(()) => {},
                Err(e) => {
                    return Err(e);
                },
            }
        }
        Ok(self.queued(aid))
    }

    /// Looks for messages as [`Session::poll`] does, where the numbers last for
    /// those that the targets may need.
    pub fn poll_within(
        &mut self,
        documents: &OrderedMap<Document>,
        rpc: &str,
        aid: u64,
        now: &Timestamp,
    ) -> (r: Option<Result<Option<String>, Status>>)
        ensures
            r is None <==> old(self).seq + targets_bound(
                documents@.len(),
                old(self)@.targets,
                old(self)@.targets.len(),
            ) >= u64::MAX,
            match r {
                None => final(self)@ == old(self)@,
                Some(answer) => {
                    let (told, outcome) = if rpc@ == "Listen"@ {
                        refresh_spec(documents@, old(self)@, *now)
                    } else {
                        (old(self)@, Ok(()))
                    };
                    match outcome {
                        Err(e) => answer is Err && answer->Err_0@ == e && final(self)@ == told,
                        Ok(_) => answer is Ok && opt_text(answer->Ok_0) == waiting(
                            acknowledged(told, aid),
                        ) && final(self)@ == acknowledged(told, aid),
                    }
                },
            },
    {
        let fits = match self.room(documents.len()) {
            Some(left) => left > 0,
            None => false,
        };
        if !fits {
            return None;
        }
        proof {
            refresh_is_bounded(documents@, self@, *now);
        }
        Some(self.poll(documents, rpc, aid, now))
    }

    /// Ends a poll that has waited long enough: the client is told that there
    /// is nothing to tell.
    pub fn expire(&mut self, aid: u64) -> (r: Option<String>)
        requires
            old(self).seq < u64::MAX,
        ensures
            final(self)@ == acknowledged(push_spec(old(self)@, JsonView::Text("noop"@)), aid),
            opt_text(r) == waiting(
                acknowledged(push_spec(old(self)@, JsonView::Text("noop"@)), aid),
            ),
    {
        self.push(Json::of_text("noop"));
        self.queued(aid)
    }
}

/// The headers of an answer to a browser: the origin that asked may read it.
pub open spec fn response_headers_spec(
    content_type: Seq<char>,
    origin: Option<Seq<char>>,
    requested: Option<Seq<char>>,
) -> Seq<(Seq<char>, Seq<char>)> {
    seq![
        ("content-type"@, content_type),
        ("cache-control"@, "no-cache, no-store"@),
        (
            "access-control-allow-origin"@,
            match origin {
                Some(o) => o,
                None => "*"@,
            },
        ),
        ("access-control-allow-credentials"@, "true"@),
        ("access-control-allow-methods"@, "GET, POST, OPTIONS"@),
        (
            "access-control-allow-headers"@,
            match requested {
                Some(h) => h,
                None => "content-type, authorization, x-goog-api-client"@,
            },
        ),
        ("access-control-expose-headers"@, "X-HTTP-Session-Id"@),
        ("vary"@, "Origin"@),
    ]
}

/// Writes the headers of an answer to a browser.
pub fn response_headers(content_type: &str, origin: Option<String>, requested: Option<String>) -> (r:
    Vec<(String, String)>)
    ensures
        headers_view(r@) == response_headers_spec(
            content_type@,
            opt_text(origin),
            opt_text(requested),
        ),
{
    let allowed = match origin {
        Some(o) => o,
        None => "*".to_owned(),
    };
    let headers = match requested {
        Some(h) => h,
        None => "content-type, authorization, x-goog-api-client".to_owned(),
    };
    let mut out: Vec<(String, String)> = Vec::new();
    out.push(("content-type".to_owned(), content_type.to_owned()));
    out.push(("cache-control".to_owned(), "no-cache, no-store".to_owned()));
    out.push(("access-control-allow-origin".to_owned(), allowed));
    out.push(("access-control-allow-credentials".to_owned(), "true".to_owned()));
    out.push(("access-control-allow-methods".to_owned(), "GET, POST, OPTIONS".to_owned()));
    out.push(("access-control-allow-headers".to_owned(), headers));
    out.push(("access-control-expose-headers".to_owned(), "X-HTTP-Session-Id".to_owned()));
    out.push(("vary".to_owned(), "Origin".to_owned()));
    assert(headers_view(out@) =~= response_headers_spec(
        content_type@,
        opt_text(origin),
        opt_text(requested),
    ));
    out
}

/// The store, the session and the events after one message. A message that was
/// received before is passed over; one that is refused is answered with the
/// refusal.
#[verifier::opaque]
pub open spec fn post_step(
    store: StoreView,
    session: SessionView,
    rpc: Seq<char>,
    sid: Seq<char>,
    item: (u128, JsonView),
    now: Timestamp,
) -> (StoreView, SessionView, Seq<ChangeView>) {
    let noted = SessionView { received: session.received.insert(item.0), ..session };
    if session.received.contains(item.0) {
        (store, noted, Seq::empty())
    } else {
        let (after, told, changes, outcome) = process_spec(store, noted, rpc, sid, item.1, now);
        (
            after,
            match outcome {
                Ok(_) => told,
                Err(e) => push_spec(told, error_json_spec(e)),
            },
            changes,
        )
    }
}

/// The store, the session and the events after the first `n` of some
/// messages.
pub open spec fn post_spec(
    store: StoreView,
    s: SessionView,
    rpc: Seq<char>,
    sid: Seq<char>,
    messages: Seq<(u128, JsonView)>,
    now: Timestamp,
    n: nat,
) -> (StoreView, SessionView, Seq<ChangeView>)
    decreases n,
{
    if n == 0 || n > messages.len() {
        (store, s, Seq::empty())
    } else {
        let (docs, session, changes) = post_spec(
            store,
            s,
            rpc,
            sid,
            messages,
            now,
            (n - 1) as nat,
        );
        let (after, told, more) = post_step(docs, session, rpc, sid, messages[n - 1], now);
        (after, told, changes + more)
    }
}

/// How many numbers for messages one request of a channel may take, given how
/// many documents there are.
pub open spec fn message_bound(documents: nat, s: SessionView, message: JsonView) -> nat {
    targets_bound(documents, s.targets, s.targets.len()) + documents + named_count(
        at(message, "addTarget"@),
    ) + 4
}

/// A request, and its refusal, take no more numbers than
/// [`message_bound`] says.
pub proof fn processing_is_bounded(
    store: StoreView,
    s: SessionView,
    rpc: Seq<char>,
    sid: Seq<char>,
    message: JsonView,
    now: Timestamp,
)
    ensures
        process_spec(store, s, rpc, sid, message, now).1.seq + 1 <= s.seq + message_bound(
            store.documents.len(),
            s,
            message,
        ),
{
    let target = at(message, "addTarget"@);
    if rpc != "Write"@ && member(message, "addTarget"@) is Some && as_integer_spec(
        at(target, "targetId"@),
    ) is Some {
        let id = as_integer_spec(at(target, "targetId"@))->0 as i32;
        let told = target_change_json("ADD"@, seq![id as int], None);
        let view = WebTargetView { spec: target, documents: Seq::empty() };
        let targets = insert_target(s.targets, id, view);
        let pushed = push_spec(s, told);
        adding_is_bounded(store.documents, pushed, id, target, now);
        assert(SessionView { targets, ..pushed } =~= push_spec(
            SessionView { targets, ..s },
            told,
        ));
    }
}

/// Whether a session has numbers for the messages that a request may take.
pub fn has_room(session: &Session, documents: usize, message: &Json) -> (r: bool)
    ensures
        r == (session.seq + message_bound(documents as nat, session@, message@) <= u64::MAX),
{
    let named: usize = match message.get("addTarget") {
        Some(target) => count_named(target),
        None => 0,
    };
    match session.room(documents) {
        Some(left) => left as u128 >= documents as u128 + named as u128 + 4,
        None => false,
    }
}

/// A message that a session has received before changes nothing.
pub proof fn repeated_messages_change_nothing(
    store: StoreView,
    session: SessionView,
    rpc: Seq<char>,
    sid: Seq<char>,
    item: (u128, JsonView),
    now: Timestamp,
)
    requires
        session.received.contains(item.0),
    ensures
        post_step(store, session, rpc, sid, item, now) == (
            store,
            session,
            Seq::<ChangeView>::empty(),
        ),
{
    reveal(post_step);
    assert(session.received.insert(item.0) =~= session.received);
}

fn post_one(
    store: &mut Store,
    session: &mut Session,
    rpc: &str,
    sid: &str,
    item: &Numbered,
    now: &Timestamp,
) -> (r: Vec<DocumentChange>)
    requires
        old(session).seq + message_bound(old(store)@.documents.len(), old(session)@, item@.1)
            <= u64::MAX,
    ensures
        post_step(old(store)@, old(session)@, rpc@, sid@, item@, *now) == (
            final(store)@,
            final(session)@,
            changes_view(r@),
        ),
{
    proof {
        reveal(post_step);
    }
    let ghost before = session@;
    if !session.receive(item.id) {
        let none: Vec<DocumentChange> = Vec::new();
        assert(changes_view(none@) =~= Seq::empty());
        return none;
    }
    proof {
        processing_is_bounded(store@, session@, rpc@, sid@, item@.1, *now);
        assert(session@.targets == before.targets);
    }
    let (changes, outcome) = process(store, session, rpc, sid, &item.message, now);
    if let Err(e) = outcome {
        session.push(error_json(&e));
    }
    changes
}

/// Hands messages to a session on a store in memory. Returns the events that
/// the changes are worth and how many messages were taken: all of them, or
/// those before the first that the numbers may not last for.
pub fn post(
    store: &mut Store,
    session: &mut Session,
    rpc: &str,
    sid: &str,
    messages: &Vec<Numbered>,
    now: &Timestamp,
) -> (r: (Vec<DocumentChange>, usize))
    ensures
        r.1 <= messages@.len(),
        post_spec(
            old(store)@,
            old(session)@,
            rpc@,
            sid@,
            numbered_view(messages@),
            *now,
            r.1 as nat,
        ) == (final(store)@, final(session)@, changes_view(r.0@)),
        r.1 < messages@.len() ==> final(session).seq + message_bound(
            final(store)@.documents.len(),
            final(session)@,
            numbered_view(messages@)[r.1 as int].1,
        ) > u64::MAX,
{
    let ghost all = numbered_view(messages@);
    let ghost docs = store@;
    let ghost start = session@;
    let mut changes: Vec<DocumentChange> = Vec::new();
    assert(changes_view(changes@) =~= Seq::empty());
    let mut i: usize = 0;
    while i < messages.len()
        invariant
            i <= messages@.len(),
            all == numbered_view(messages@),
            docs == old(store)@,
            start == old(session)@,
            post_spec(docs, start, rpc@, sid@, all, *now, i as nat) == (
                store@,
                session@,
                changes_view(changes@),
            ),
        decreases messages.len() - i,
    {
        assert(all[i as int] == messages@[i as int]@);
        if !has_room(session, store.documents.len(), &messages[i].message) {
            return (changes, i);
        }
        let ghost before = changes_view(changes@);
        let mut more = post_one(store, session, rpc, sid, &messages[i], now);
        let ghost added = changes_view(more@);
        changes.append(&mut more);
        assert(changes_view(changes@) =~= before + added);
        i += 1;
    }
    (changes, i)
}

/// What a REST request asks for.
#[derive(PartialEq, Debug)]
pub enum RestRequest {
    Commit(String, Vec<Write>),
    BatchGet(String, Vec<String>),
    RunQuery(String, StructuredQuery),
}

/// What a [`RestRequest`] stands for.
pub enum RestView {
    Commit(Seq<char>, Seq<WriteView>),
    BatchGet(Seq<char>, Seq<Seq<char>>),
    RunQuery(Seq<char>, QueryView),
}

impl View for RestRequest {
    type V = RestView;

    open spec fn view(&self) -> RestView {
        match self {
            RestRequest::Commit(database, writes) => {
                RestView::Commit(database@, writes_view(writes@))
            },
            RestRequest::BatchGet(database, names) => {
                RestView::BatchGet(database@, texts(names@))
            },
            RestRequest::RunQuery(parent, query) => RestView::RunQuery(parent@, query@),
        }
    }
}

/// The database of a resource: what stands before its documents.
pub open spec fn resource_database(parent: Seq<char>) -> Seq<char> {
    match before_suffix(parent, "/documents"@) {
        Some(database) => database,
        None => parent,
    }
}

fn database_of(parent: String) -> (r: String)
    ensures
        r@ == resource_database(parent@),
{
    match strip_suffix(parent.as_str(), "/documents") {
        Some(database) => database,
        None => parent,
    }
}

/// What a REST request asks for, given what its body was parsed to.
pub open spec fn rest_request_spec(resource: Seq<char>, body: Option<JsonView>) -> Result<
    RestView,
    StatusView,
> {
    match body {
        None => Err(invalid("invalid JSON"@)),
        Some(v) => if before_suffix(resource, ":commit"@) is Some {
            match writes_proto_spec(array_at(v, "writes"@), 0) {
                Err(e) => Err(e),
                Ok(writes) => Ok(
                    RestView::Commit(
                        resource_database(before_suffix(resource, ":commit"@)->0),
                        writes,
                    ),
                ),
            }
        } else if before_suffix(resource, ":batchGet"@) is Some {
            Ok(
                RestView::BatchGet(
                    resource_database(before_suffix(resource, ":batchGet"@)->0),
                    texts_among(array_at(v, "documents"@)),
                ),
            )
        } else if before_suffix(resource, ":runQuery"@) is Some {
            match query_proto_spec(at(v, "structuredQuery"@)) {
                Err(e) => Err(e),
                Ok(query) => Ok(
                    RestView::RunQuery(before_suffix(resource, ":runQuery"@)->0, query),
                ),
            }
        } else {
            Err(status_view(Code::Unimplemented, "unknown REST operation"@))
        },
    }
}

/// Decides what a REST request asks for, given what its body was parsed to.
pub fn parsed_rest_request(resource: &str, body: Option<Json>) -> (r: Result<RestRequest, Status>)
    ensures
        result_view(r) == rest_request_spec(
            resource@,
            match body {
                Some(v) => Some(v@),
                None => None,
            },
        ),
{
    let v = match body {
        Some(v) => v,
        None => {
            return Err(Status::invalid_argument("invalid JSON"));
        },
    };
    if let Some(parent) = strip_suffix(resource, ":commit") {
        return match writes_proto(&v) {
            Ok(writes) => Ok(RestRequest::Commit(database_of(parent), writes)),
            Err(e) => Err(e),
        };
    }
    if let Some(parent) = strip_suffix(resource, ":batchGet") {
        return Ok(RestRequest::BatchGet(database_of(parent), texts_under(&v, "documents")));
    }
    if let Some(parent) = strip_suffix(resource, ":runQuery") {
        let parsed = match v.get("structuredQuery") {
            Some(query) => query_proto(query),
            None => query_proto(&Json::Null),
        };
        return match parsed {
            Ok(query) => Ok(RestRequest::RunQuery(parent, query)),
            Err(e) => Err(e),
        };
    }
    Err(Status::new(Code::Unimplemented, "unknown REST operation"))
}

/// Decides what a REST request asks for. Only posted requests are served.
pub fn rest_request(method: WebMethod, resource: &str, body: &str) -> (r: Result<
    RestRequest,
    Status,
>)
    ensures
        result_view(r) == if method == WebMethod::Post {
            rest_request_spec(resource@, json_of_text(body@))
        } else {
            Err(status_view(Code::Unimplemented, "REST method is not supported"@))
        },
{
    if method != WebMethod::Post {
        return Err(Status::new(Code::Unimplemented, "REST method is not supported"));
    }
    parsed_rest_request(resource, parse_json(body))
}

/// The JSON of one answer of a batch read.
pub open spec fn batch_get_json_of(response: BatchGetView) -> JsonView {
    let time = time_json_spec(Some(response.read_time));
    match response.result {
        BatchGetResultView::Found(doc) => with_member(
            object1("found"@, document_json_spec(doc)),
            "readTime"@,
            time,
        ),
        BatchGetResultView::Missing(name) => with_member(
            object1("missing"@, JsonView::Text(name)),
            "readTime"@,
            time,
        ),
        BatchGetResultView::Unset => object1("readTime"@, time),
    }
}

/// Writes the answers of a batch read as JSON.
pub fn batch_get_json(responses: &Vec<BatchGetResponse>) -> (r: Json)
    ensures
        r@ == JsonView::Array(
            batch_get_view(responses@).map_values(|v: BatchGetView| batch_get_json_of(v)),
        ),
{
    let mut items: Vec<Json> = Vec::new();
    let mut i: usize = 0;
    while i < responses.len()
        invariant
            i <= responses@.len(),
            items@.len() == i,
            forall|j: int|
                0 <= j < i ==> (#[trigger] items@[j])@ == batch_get_json_of(responses@[j]@),
        decreases responses.len() - i,
    {
        let time = time_json(Some(responses[i].read_time));
        let item = match &responses[i].result {
            BatchGetResult::Found(doc) => single("found", document_json(doc)).with(
                "readTime",
                time,
            ),
            BatchGetResult::Missing(name) => single("missing", Json::of_text(name.as_str())).with(
                "readTime",
                time,
            ),
            BatchGetResult::Unset => single("readTime", time),
        };
        items.push(item);
        i += 1;
    }
    assert(items_view(items@) =~= batch_get_view(responses@).map_values(
        |v: BatchGetView| batch_get_json_of(v),
    ));
    Json::array(items)
}

/// The JSON of a query's results: one item for each document, or the time
/// alone where there is none.
pub open spec fn query_json_spec(docs: Seq<DocumentView>, now: Timestamp) -> JsonView {
    let time = time_json_spec(Some(now));
    JsonView::Array(
        if docs.len() == 0 {
            seq![object1("readTime"@, time)]
        } else {
            docs.map_values(
                |d: DocumentView|
                    with_member(object1("document"@, document_json_spec(d)), "readTime"@, time),
            )
        },
    )
}

/// Writes a query's results as JSON.
pub fn query_json(docs: &Vec<Document>, now: &Timestamp) -> (r: Json)
    ensures
        r@ == query_json_spec(docs_view(docs@), *now),
{
    let time = time_json(Some(*now));
    let mut items: Vec<Json> = Vec::new();
    if docs.len() == 0 {
        let item = single("readTime", time);
        items.push(item);
        assert(items_view(items@) =~= seq![item@]);
        return Json::array(items);
    }
    let mut i: usize = 0;
    while i < docs.len()
        invariant
            i <= docs@.len(),
            items@.len() == i,
            time@ == time_json_spec(Some(*now)),
            forall|j: int|
                0 <= j < i ==> (#[trigger] items@[j])@ == with_member(
                    object1("document"@, document_json_spec(docs@[j]@)),
                    "readTime"@,
                    time@,
                ),
        decreases docs.len() - i,
    {
        items.push(single("document", document_json(&docs[i])).with("readTime", time.duplicate()));
        i += 1;
    }
    assert(items_view(items@) =~= docs_view(docs@).map_values(
        |d: DocumentView|
            with_member(object1("document"@, document_json_spec(d)), "readTime"@, time@),
    ));
    Json::array(items)
}

/// The HTTP status of a refused REST request.
pub open spec fn rest_status_spec(code: Code) -> u16 {
    match code {
        Code::NotFound => 404,
        Code::AlreadyExists => 409,
        Code::Unimplemented => 501,
        _ => 400,
    }
}

pub fn rest_status(code: Code) -> (r: u16)
    ensures
        r == rest_status_spec(code),
{
    match code {
        Code::NotFound => 404,
        Code::AlreadyExists => 409,
        Code::Unimplemented => 501,
        _ => 400,
    }
}

} // verus!
