//! Which functions an event reaches, and what they are told of it.
use crate::document::{Document, DocumentView};
use crate::encoding::{base64_encode, base64_text};
use crate::json::{
    as_text_spec, at, empty_object, member, object1, text_at, text_of_json, with_member, write_json,
    Json, JsonView,
};
use crate::multipart::find_spec;
use crate::buckets::find_text;
use crate::text::{
    after_prefix, cat, cat3, chars_of, decimal, decimal_spec, ends_with, is_blank, opt_text, same,
    split, split_spec, starts_with, strip_prefix, text_of, texts,
};
use crate::web_requests::text_within;
use crate::web_values::{document_json, document_json_spec, single, text_under, time_json, time_json_spec};
use vstd::prelude::*;
use vstd::utf8::encode_utf8;

verus! {

/// Whether a part of a pattern stands for any text: a name in braces.
pub open spec fn is_wildcard(part: Seq<char>) -> bool {
    part.len() > 2 && part[0] == '{' && part.last() == '}'
}

/// The parameters that the first `n` parts of a path give to the wildcards of
/// a pattern; none where a part that is no wildcard differs.
pub open spec fn params_spec(pattern: Seq<Seq<char>>, path: Seq<Seq<char>>, n: nat) -> Option<
    JsonView,
>
    decreases n,
{
    if n == 0 || n > pattern.len() || n > path.len() {
        Some(empty_object())
    } else {
        match params_spec(pattern, path, (n - 1) as nat) {
            None => None,
            Some(params) => {
                let a = pattern[n - 1];
                let b = path[n - 1];
                if is_wildcard(a) {
                    Some(with_member(params, a.subrange(1, a.len() - 1), JsonView::Text(b)))
                } else if a == b {
                    Some(params)
                } else {
                    None
                }
            },
        }
    }
}

/// The parameters of a path that matches a pattern part by part.
pub open spec fn wildcard_params_spec(pattern: Seq<char>, path: Seq<char>) -> Option<JsonView> {
    let a = split_spec(pattern, '/');
    let b = split_spec(path, '/');
    if a.len() != b.len() {
        None
    } else {
        params_spec(a, b, a.len())
    }
}

proof fn params_stuck(pattern: Seq<Seq<char>>, path: Seq<Seq<char>>, n: nat, m: nat)
    requires
        n <= m <= pattern.len(),
        m <= path.len(),
        params_spec(pattern, path, n) is None,
    ensures
        params_spec(pattern, path, m) is None,
    decreases m - n,
{
    if n < m {
        params_stuck(pattern, path, n, (m - 1) as nat);
    }
}

fn wildcard_name(part: &str) -> (r: Option<String>)
    ensures
        match r {
            Some(name) => is_wildcard(part@) && name@ == part@.subrange(1, part@.len() - 1),
            None => !is_wildcard(part@),
        },
{
    let chars = chars_of(part);
    if chars.len() > 2 && chars[0] == '{' && chars[chars.len() - 1] == '}' {
        Some(text_of(chars.as_slice(), 1, chars.len() - 1))
    } else {
        None
    }
}

/// Matches a path against a pattern, part by part, and tells what its
/// wildcards stand for.
pub fn wildcard_params(pattern: &str, path: &str) -> (r: Option<Json>)
    ensures
        (match r {
            Some(v) => Some(v@),
            None => None,
        }) == wildcard_params_spec(pattern@, path@),
{
    let a = split(pattern, '/');
    let b = split(path, '/');
    if a.len() != b.len() {
        return None;
    }
    let ghost x = texts(a@);
    let ghost y = texts(b@);
    let mut params = Json::object();
    let mut i: usize = 0;
    while i < a.len()
        invariant
            i <= a@.len(),
            a@.len() == b@.len(),
            x == texts(a@),
            y == texts(b@),
            x == split_spec(pattern@, '/'),
            y == split_spec(path@, '/'),
            params_spec(x, y, i as nat) == Some(params@),
        decreases a.len() - i,
    {
        assert(x[i as int] == a@[i as int]@ && y[i as int] == b@[i as int]@);
        match wildcard_name(a[i].as_str()) {
            Some(name) => {
                params = params.with(name.as_str(), Json::of_text(b[i].as_str()));
            },
            None => {
                if !same(a[i].as_str(), b[i].as_str()) {
                    proof {
                        params_stuck(x, y, (i + 1) as nat, x.len());
                    }
                    return None;
                }
            },
        }
        i += 1;
    }
    Some(params)
}

/// What happens to a document that is there before or after a change.
pub open spec fn event_kind_spec(before: bool, after: bool) -> Seq<char> {
    if !before && after {
        "create"@
    } else if before && !after {
        "delete"@
    } else {
        "update"@
    }
}

/// Names what happens to a document.
pub fn event_kind(before: bool, after: bool) -> (r: String)
    ensures
        r@ == event_kind_spec(before, after),
{
    if !before && after {
        "create".to_owned()
    } else if before && !after {
        "delete".to_owned()
    } else {
        "update".to_owned()
    }
}

/// The piece between the first and the second `sep`, or behind the first where
/// there is no second.
pub open spec fn second_piece(s: Seq<char>, sep: Seq<char>) -> Option<Seq<char>> {
    match find_spec(s, sep, 0) {
        None => None,
        Some(k) => {
            let rest = s.skip(k + sep.len());
            match find_spec(rest, sep, 0) {
                None => Some(rest),
                Some(j) => Some(rest.take(j)),
            }
        },
    }
}

fn piece_behind(s: &str, sep: &str) -> (r: Option<String>)
    ensures
        opt_text(r) == second_piece(s@, sep@),
{
    match find_text(s, sep) {
        None => None,
        Some(k) => {
            let chars = chars_of(s);
            let total: usize = chars.len();
            let from: usize = k + chars_of(sep).len();
            let rest = text_of(chars.as_slice(), from, chars.len());
            assert(rest@ =~= s@.skip(k + sep@.len()));
            match find_text(rest.as_str(), sep) {
                None => Some(rest),
                Some(j) => {
                    let inner = chars_of(rest.as_str());
                    let piece = text_of(inner.as_slice(), 0, j);
                    assert(piece@ =~= rest@.take(j as int));
                    Some(piece)
                },
            }
        },
    }
}

/// A function of a codebase: its name, its regions and what triggers it.
pub struct Function {
    pub name: String,
    pub regions: Vec<String>,
    pub trigger: Json,
}

/// What a [`Function`] stands for.
#[verifier::ext_equal]
pub struct FunctionView {
    pub name: Seq<char>,
    pub regions: Seq<Seq<char>>,
    pub trigger: JsonView,
}

impl View for Function {
    type V = FunctionView;

    open spec fn view(&self) -> FunctionView {
        FunctionView { name: self.name@, regions: texts(self.regions@), trigger: self.trigger@ }
    }
}

/// The process that runs the functions of a codebase, and where it listens.
pub struct Worker {
    pub codebase: String,
    pub base: String,
    pub functions: Vec<Function>,
}

/// What a [`Worker`] stands for.
#[verifier::ext_equal]
pub struct WorkerView {
    pub codebase: Seq<char>,
    pub base: Seq<char>,
    pub functions: Seq<FunctionView>,
}

/// The view of a list of functions.
pub open spec fn functions_view(functions: Seq<Function>) -> Seq<FunctionView> {
    functions.map_values(|f: Function| f@)
}

/// The view of a list of workers.
pub open spec fn workers_view(workers: Seq<Worker>) -> Seq<WorkerView> {
    workers.map_values(|w: Worker| w@)
}

impl View for Worker {
    type V = WorkerView;

    open spec fn view(&self) -> WorkerView {
        WorkerView {
            codebase: self.codebase@,
            base: self.base@,
            functions: functions_view(self.functions@),
        }
    }
}

/// What a function is told: the data of an event and its context.
pub type DeliveryView = (JsonView, JsonView);

/// The view of a delivery.
pub open spec fn delivery_view(delivery: Option<(Json, Json)>) -> Option<DeliveryView> {
    match delivery {
        Some(d) => Some((d.0@, d.1@)),
        None => None,
    }
}

/// The id of an event.
pub open spec fn event_id_spec(id: u64) -> Seq<char> {
    "rust-"@ + decimal_spec(id as nat)
}

/// Names an event.
pub fn event_id(id: u64) -> (r: String)
    ensures
        r@ == event_id_spec(id),
{
    cat("rust-", decimal(id).as_str())
}

/// The context of an event.
pub open spec fn context_spec(
    id: u64,
    timestamp: JsonView,
    event_type: Seq<char>,
    service: Seq<char>,
    name: Seq<char>,
    params: JsonView,
) -> JsonView {
    let v = object1("eventId"@, JsonView::Text(event_id_spec(id)));
    let v = with_member(v, "timestamp"@, timestamp);
    let v = with_member(v, "eventType"@, JsonView::Text(event_type));
    let v = with_member(
        v,
        "resource"@,
        with_member(object1("service"@, JsonView::Text(service)), "name"@, JsonView::Text(name)),
    );
    with_member(v, "params"@, params)
}

fn context(
    id: u64,
    timestamp: Json,
    event_type: &str,
    service: &str,
    name: &str,
    params: Json,
) -> (r: Json)
    ensures
        r@ == context_spec(id, timestamp@, event_type@, service@, name@, params@),
{
    single("eventId", Json::Text(event_id(id))).with("timestamp", timestamp).with(
        "eventType",
        Json::of_text(event_type),
    ).with(
        "resource",
        single("service", Json::of_text(service)).with("name", Json::of_text(name)),
    ).with("params", params)
}

/// What a function is sent.
pub open spec fn payload_spec(function: Seq<char>, data: JsonView, context: JsonView) -> JsonView {
    with_member(
        object1("name"@, JsonView::Text(function)),
        "event"@,
        with_member(object1("data"@, data), "context"@, context),
    )
}

/// Writes what a function is sent.
pub fn event_payload(function: &str, data: Json, context: Json) -> (r: Json)
    ensures
        r@ == payload_spec(function@, data@, context@),
{
    single("name", Json::of_text(function)).with(
        "event",
        single("data", data).with("context", context),
    )
}

/// The kind of events that triggers a function.
pub open spec fn event_type_of(trigger: JsonView) -> Seq<char> {
    text_at(at(trigger, "eventTrigger"@), "eventType"@)
}

/// The resource whose events trigger a function.
pub open spec fn resource_of(trigger: JsonView) -> Seq<char> {
    text_at(at(trigger, "eventTrigger"@), "resource"@)
}

/// Where the documents of a project's default database are.
pub open spec fn default_documents(project: Seq<char>) -> Seq<char> {
    "projects/"@ + project + "/databases/(default)/documents/"@
}

/// A document as JSON, an empty object where it is missing.
pub open spec fn document_or_empty(doc: Option<DocumentView>) -> JsonView {
    match doc {
        Some(d) => document_json_spec(d),
        None => empty_object(),
    }
}

/// What a function is told of a change of a document, where its trigger asks
/// for such changes: those of any kind, or those of the kind that this is, of
/// documents whose paths match its pattern.
pub open spec fn firestore_delivery_spec(
    project: Seq<char>,
    trigger: JsonView,
    id: u64,
    before: Option<DocumentView>,
    after: Option<DocumentView>,
) -> Option<DeliveryView>
    recommends
        before is Some || after is Some,
{
    let doc = if after is Some {
        after->0
    } else {
        before->0
    };
    let ty = event_type_of(trigger);
    let kind = "."@ + event_kind_spec(before is Some, after is Some);
    match after_prefix(doc.name, default_documents(project)) {
        None => None,
        Some(path) => if !"providers/cloud.firestore/eventTypes/document."@.is_prefix_of(ty) || (
        !".write"@.is_suffix_of(ty) && !kind.is_suffix_of(ty)) {
            None
        } else {
            match second_piece(resource_of(trigger), "/documents/"@) {
                None => None,
                Some(pattern) => match wildcard_params_spec(pattern, path) {
                    None => None,
                    Some(params) => Some(
                        (
                            with_member(
                                object1("oldValue"@, document_or_empty(before)),
                                "value"@,
                                document_or_empty(after),
                            ),
                            context_spec(
                                id,
                                time_json_spec(doc.update_time),
                                ty,
                                "firestore.googleapis.com"@,
                                doc.name,
                                params,
                            ),
                        ),
                    ),
                },
            }
        },
    }
}

fn written_or_empty(doc: Option<&Document>) -> (r: Json)
    ensures
        r@ == document_or_empty(crate::document::opt_document(doc)),
{
    match doc {
        Some(d) => document_json(d),
        None => Json::object(),
    }
}

/// Decides whether a change of a document triggers a function, and what the
/// function is told.
pub fn firestore_delivery(
    project: &str,
    trigger: &Json,
    id: u64,
    before: Option<&Document>,
    after: Option<&Document>,
) -> (r: Option<(Json, Json)>)
    requires
        before is Some || after is Some,
    ensures
        delivery_view(r) == firestore_delivery_spec(
            project@,
            trigger@,
            id,
            crate::document::opt_document(before),
            crate::document::opt_document(after),
        ),
{
    let doc = match after {
        Some(d) => d,
        None => match before {
            Some(d) => d,
            None => {
                return None;
            },
        },
    };
    let prefix = cat3("projects/", project, "/databases/(default)/documents/");
    let path = match strip_prefix(doc.name.as_str(), prefix.as_str()) {
        Some(path) => path,
        None => {
            return None;
        },
    };
    let ty = text_within(trigger, "eventTrigger", "eventType");
    if !starts_with(ty.as_str(), "providers/cloud.firestore/eventTypes/document.") {
        return None;
    }
    let kind = cat(".", event_kind(before.is_some(), after.is_some()).as_str());
    if !ends_with(ty.as_str(), ".write") && !ends_with(ty.as_str(), kind.as_str()) {
        return None;
    }
    let resource = text_within(trigger, "eventTrigger", "resource");
    let pattern = match piece_behind(resource.as_str(), "/documents/") {
        Some(pattern) => pattern,
        None => {
            return None;
        },
    };
    let params = match wildcard_params(pattern.as_str(), path.as_str()) {
        Some(params) => params,
        None => {
            return None;
        },
    };
    let data = single("oldValue", written_or_empty(before)).with("value", written_or_empty(after));
    let told = context(
        id,
        time_json(doc.update_time),
        ty.as_str(),
        "firestore.googleapis.com",
        doc.name.as_str(),
        params,
    );
    Some((data, told))
}

/// What a function is told of a change of a storage object, where its trigger
/// asks for such changes in the object's bucket or in any.
pub open spec fn storage_delivery_spec(
    trigger: JsonView,
    id: u64,
    kind: Seq<char>,
    object: JsonView,
) -> Option<DeliveryView> {
    let ty = "google.storage.object."@ + kind;
    let bucket = text_at(object, "bucket"@);
    let configured = match second_piece(resource_of(trigger), "/buckets/"@) {
        Some(b) => b,
        None => Seq::empty(),
    };
    if event_type_of(trigger) != ty || (configured.len() > 0 && configured != "{bucket}"@
        && configured != bucket) {
        None
    } else {
        Some(
            (
                object,
                context_spec(
                    id,
                    JsonView::Text(
                        match as_text_spec(at(object, "updated"@)) {
                            Some(t) => t,
                            None => "1970-01-01T00:00:00Z"@,
                        },
                    ),
                    ty,
                    "storage.googleapis.com"@,
                    "projects/_/buckets/"@ + bucket + "/objects/"@ + text_at(object, "name"@),
                    empty_object(),
                ),
            ),
        )
    }
}

/// Decides whether a change of a storage object triggers a function, and what
/// the function is told.
pub fn storage_delivery(trigger: &Json, id: u64, kind: &str, object: &Json) -> (r: Option<
    (Json, Json),
>)
    ensures
        delivery_view(r) == storage_delivery_spec(trigger@, id, kind@, object@),
{
    let ty = cat("google.storage.object.", kind);
    if !same(text_within(trigger, "eventTrigger", "eventType").as_str(), ty.as_str()) {
        return None;
    }
    let bucket = object.text("bucket");
    let resource = text_within(trigger, "eventTrigger", "resource");
    let configured = match piece_behind(resource.as_str(), "/buckets/") {
        Some(b) => b,
        None => String::new(),
    };
    assert(second_piece(resource@, "/buckets/"@) is None ==> configured@ =~= Seq::empty());
    if !is_blank(configured.as_str()) && !same(configured.as_str(), "{bucket}") && !same(
        configured.as_str(),
        bucket.as_str(),
    ) {
        return None;
    }
    let updated = match text_under(object, "updated") {
        Some(t) => t,
        None => "1970-01-01T00:00:00Z".to_owned(),
    };
    let mut name = cat3("projects/_/buckets/", bucket.as_str(), "/objects/");
    name.append(object.text("name").as_str());
    let told = context(
        id,
        Json::Text(updated),
        ty.as_str(),
        "storage.googleapis.com",
        name.as_str(),
        Json::object(),
    );
    Some((object.duplicate(), told))
}

/// The kind of events that a published message is.
pub open spec fn publish_event() -> Seq<char> {
    "google.pubsub.topic.publish"@
}

/// The topic whose messages a trigger asks for, where it does and is no
/// schedule.
pub open spec fn trigger_topic_spec(trigger: JsonView) -> Option<Seq<char>> {
    let event = at(trigger, "eventTrigger"@);
    if as_text_spec(at(event, "eventType"@)) != Some(publish_event()) || member(
        trigger,
        "schedule"@,
    ) is Some {
        None
    } else {
        match as_text_spec(at(event, "resource"@)) {
            None => None,
            Some(resource) => Some(split_spec(resource, '/').last()),
        }
    }
}

/// What a function is told of a message on a topic, where its trigger asks for
/// the messages of the topic.
pub open spec fn pubsub_delivery_spec(
    project: Seq<char>,
    trigger: JsonView,
    id: u64,
    topic: Seq<char>,
    message: JsonView,
) -> Option<DeliveryView> {
    if trigger_topic_spec(trigger) != Some(topic) {
        None
    } else {
        Some(
            (
                message,
                context_spec(
                    id,
                    at(message, "publishTime"@),
                    publish_event(),
                    "pubsub.googleapis.com"@,
                    "projects/"@ + project + "/topics/"@ + topic,
                    empty_object(),
                ),
            ),
        )
    }
}

fn member_or_null(v: &Json, key: &str) -> (r: Json)
    ensures
        r@ == at(v@, key@),
{
    match v.get(key) {
        Some(inner) => inner.duplicate(),
        None => Json::Null,
    }
}

/// Finds the topic whose messages a trigger asks for.
pub fn trigger_topic(trigger: &Json) -> (r: Option<String>)
    ensures
        opt_text(r) == trigger_topic_spec(trigger@),
{
    let event = member_or_null(trigger, "eventTrigger");
    let published = match text_under(&event, "eventType") {
        Some(ty) => same(ty.as_str(), "google.pubsub.topic.publish"),
        None => false,
    };
    if !published || trigger.get("schedule").is_some() {
        return None;
    }
    match text_under(&event, "resource") {
        None => None,
        Some(resource) => {
            let parts = split(resource.as_str(), '/');
            proof {
                crate::text::split_is_never_empty(resource@, '/');
                assert(texts(parts@).last() == parts@[parts@.len() - 1]@);
            }
            Some(parts[parts.len() - 1].clone())
        },
    }
}

/// Decides whether a message triggers a function, and what the function is
/// told.
pub fn pubsub_delivery(project: &str, trigger: &Json, id: u64, topic: &str, message: &Json) -> (r:
    Option<(Json, Json)>)
    ensures
        delivery_view(r) == pubsub_delivery_spec(project@, trigger@, id, topic@, message@),
{
    match trigger_topic(trigger) {
        None => {
            return None;
        },
        Some(asked) => {
            if !same(asked.as_str(), topic) {
                return None;
            }
        },
    }
    let mut name = cat3("projects/", project, "/topics/");
    name.append(topic);
    let told = context(
        id,
        member_or_null(message, "publishTime"),
        "google.pubsub.topic.publish",
        "pubsub.googleapis.com",
        name.as_str(),
        Json::object(),
    );
    Some((message.duplicate(), told))
}

/// What a scheduled function is told at a time.
pub open spec fn schedule_delivery_spec(
    project: Seq<char>,
    trigger: JsonView,
    id: u64,
    timestamp: Seq<char>,
) -> DeliveryView {
    let v = object1("data"@, JsonView::Text("e30="@));
    let v = with_member(v, "attributes"@, empty_object());
    let v = with_member(v, "messageId"@, JsonView::Text(event_id_spec(id)));
    let v = with_member(v, "publishTime"@, JsonView::Text(timestamp));
    (
        v,
        context_spec(
            id,
            JsonView::Text(timestamp),
            match as_text_spec(at(at(trigger, "eventTrigger"@), "eventType"@)) {
                Some(ty) => ty,
                None => publish_event(),
            },
            "pubsub.googleapis.com"@,
            "projects/"@ + project + "/topics"@,
            empty_object(),
        ),
    )
}

/// Writes what a scheduled function is told at a time.
pub fn schedule_delivery(project: &str, trigger: &Json, id: u64, timestamp: &str) -> (r: (Json, Json))
    ensures
        (r.0@, r.1@) == schedule_delivery_spec(project@, trigger@, id, timestamp@),
{
    let data = single("data", Json::of_text("e30=")).with("attributes", Json::object()).with(
        "messageId",
        Json::Text(event_id(id)),
    ).with("publishTime", Json::of_text(timestamp));
    let event = member_or_null(trigger, "eventTrigger");
    let ty = match text_under(&event, "eventType") {
        Some(ty) => ty,
        None => "google.pubsub.topic.publish".to_owned(),
    };
    let name = cat3("projects/", project, "/topics");
    let told = context(
        id,
        Json::of_text(timestamp),
        ty.as_str(),
        "pubsub.googleapis.com",
        name.as_str(),
        Json::object(),
    );
    (data, told)
}

/// Whether a function is a scheduled one of a name.
pub open spec fn is_scheduled(function: FunctionView, name: Seq<char>) -> bool {
    function.name == name && member(function.trigger, "schedule"@) is Some
}

/// The first worker from `i` on, and its first function, that a schedule of a
/// name runs.
pub open spec fn scheduled_at(workers: Seq<WorkerView>, name: Seq<char>, i: int) -> Option<(int, int)>
    decreases workers.len() - i,
{
    if i < 0 || i >= workers.len() {
        None
    } else {
        match scheduled_in(workers[i].functions, name, 0) {
            Some(k) => Some((i, k)),
            None => scheduled_at(workers, name, i + 1),
        }
    }
}

/// The first of the functions from `i` on that a schedule of a name runs.
pub open spec fn scheduled_in(functions: Seq<FunctionView>, name: Seq<char>, i: int) -> Option<int>
    decreases functions.len() - i,
{
    if i < 0 || i >= functions.len() {
        None
    } else if is_scheduled(functions[i], name) {
        Some(i)
    } else {
        scheduled_in(functions, name, i + 1)
    }
}

fn find_in(functions: &Vec<Function>, name: &str) -> (r: Option<usize>)
    ensures
        match r {
            Some(k) => scheduled_in(functions_view(functions@), name@, 0) == Some(k as int) && k
                < functions@.len(),
            None => scheduled_in(functions_view(functions@), name@, 0) is None,
        },
{
    let ghost all = functions_view(functions@);
    let mut i: usize = 0;
    while i < functions.len()
        invariant
            i <= functions@.len(),
            all == functions_view(functions@),
            scheduled_in(all, name@, 0) == scheduled_in(all, name@, i as int),
        decreases functions.len() - i,
    {
        assert(all[i as int] == functions@[i as int]@);
        if same(functions[i].name.as_str(), name) && functions[i].trigger.get("schedule").is_some() {
            return Some(i);
        }
        i += 1;
    }
    None
}

/// Finds the worker and the function that a schedule of a name runs.
pub fn find_scheduled(workers: &Vec<Worker>, name: &str) -> (r: Option<(usize, usize)>)
    ensures
        match r {
            Some(found) => scheduled_at(workers_view(workers@), name@, 0) == Some(
                (found.0 as int, found.1 as int),
            ) && found.0 < workers@.len() && found.1 < workers@[found.0 as int].functions@.len(),
            None => scheduled_at(workers_view(workers@), name@, 0) is None,
        },
{
    let ghost all = workers_view(workers@);
    let mut i: usize = 0;
    while i < workers.len()
        invariant
            i <= workers@.len(),
            all == workers_view(workers@),
            scheduled_at(all, name@, 0) == scheduled_at(all, name@, i as int),
        decreases workers.len() - i,
    {
        assert(all[i as int] == workers@[i as int]@);
        if let Some(k) = find_in(&workers[i].functions, name) {
            return Some((i, k));
        }
        i += 1;
    }
    None
}

/// Whether a function serves HTTP requests under a name in a region.
pub open spec fn serves(function: FunctionView, region: Seq<char>, name: Seq<char>) -> bool {
    function.name == name && function.regions.contains(region) && member(
        function.trigger,
        "httpsTrigger"@,
    ) is Some
}

/// The first worker from `i` on with a function that serves requests.
pub open spec fn serving_worker(
    workers: Seq<WorkerView>,
    region: Seq<char>,
    name: Seq<char>,
    i: int,
) -> Option<int>
    decreases workers.len() - i,
{
    if i < 0 || i >= workers.len() {
        None
    } else if exists|k: int|
        0 <= k < workers[i].functions.len() && serves(
            #[trigger] workers[i].functions[k],
            region,
            name,
        ) {
        Some(i)
    } else {
        serving_worker(workers, region, name, i + 1)
    }
}

fn has_text(list: &Vec<String>, wanted: &str) -> (r: bool)
    ensures
        r == texts(list@).contains(wanted@),
{
    let ghost all = texts(list@);
    let mut i: usize = 0;
    while i < list.len()
        invariant
            i <= list@.len(),
            all == texts(list@),
            forall|j: int| 0 <= j < i ==> all[j] != wanted@,
        decreases list.len() - i,
    {
        assert(all[i as int] == list@[i as int]@);
        if same(list[i].as_str(), wanted) {
            return true;
        }
        i += 1;
    }
    false
}

fn worker_serves(worker: &Worker, region: &str, name: &str) -> (r: bool)
    ensures
        r == exists|k: int|
            0 <= k < worker@.functions.len() && serves(
                #[trigger] worker@.functions[k],
                region@,
                name@,
            ),
{
    let ghost all = worker@.functions;
    let mut i: usize = 0;
    while i < worker.functions.len()
        invariant
            i <= worker.functions@.len(),
            all == worker@.functions,
            forall|j: int| 0 <= j < i ==> !serves(#[trigger] all[j], region@, name@),
        decreases worker.functions.len() - i,
    {
        let function = &worker.functions[i];
        assert(all[i as int] == function@);
        if same(function.name.as_str(), name) && has_text(&function.regions, region)
            && function.trigger.get("httpsTrigger").is_some() {
            assert(serves(all[i as int], region@, name@));
            return true;
        }
        i += 1;
    }
    false
}

/// The path of a request for a function behind its first four parts, where it
/// has any.
pub open spec fn path_tail(parts: Seq<Seq<char>>) -> Option<Seq<char>> {
    if parts.len() > 4 {
        Some(crate::text::join_spec(parts.skip(4), seq!['/']))
    } else {
        None
    }
}

/// Where a request for a function goes: the worker, and the address at it. The
/// path names the project, the region and the function.
pub open spec fn route_spec(
    project: Seq<char>,
    workers: Seq<WorkerView>,
    path: Seq<char>,
    query: Option<Seq<char>>,
) -> Option<(int, Seq<char>)> {
    let parts = split_spec(path, '/');
    if parts.len() < 4 || parts[1] != project {
        None
    } else {
        match serving_worker(workers, parts[2], parts[3], 0) {
            None => None,
            Some(i) => {
                let url = workers[i].base + "/invoke/"@ + parts[3];
                let url = match path_tail(parts) {
                    Some(tail) => url + "/"@ + tail,
                    None => url,
                };
                Some(
                    (
                        i,
                        match query {
                            Some(q) => url + "?"@ + q,
                            None => url,
                        },
                    ),
                )
            },
        }
    }
}

/// Finds where a request for a function goes.
pub fn route(project: &str, workers: &Vec<Worker>, path: &str, query: Option<&str>) -> (r: Option<
    (usize, String),
>)
    ensures
        match r {
            Some(found) => route_spec(
                project@,
                workers_view(workers@),
                path@,
                match query {
                    Some(q) => Some(q@),
                    None => None,
                },
            ) == Some((found.0 as int, found.1@)) && found.0 < workers@.len(),
            None => route_spec(
                project@,
                workers_view(workers@),
                path@,
                match query {
                    Some(q) => Some(q@),
                    None => None,
                },
            ) is None,
        },
{
    let parts = split(path, '/');
    let ghost pieces = texts(parts@);
    if parts.len() < 4 {
        return None;
    }
    assert(pieces[1] == parts@[1]@ && pieces[2] == parts@[2]@ && pieces[3] == parts@[3]@);
    if !same(parts[1].as_str(), project) {
        return None;
    }
    let region = parts[2].clone();
    let name = parts[3].clone();
    let ghost all = workers_view(workers@);
    let mut i: usize = 0;
    while i < workers.len()
        invariant
            i <= workers@.len(),
            all == workers_view(workers@),
            pieces == split_spec(path@, '/'),
            pieces == texts(parts@),
            parts@.len() >= 4,
            pieces[1] == project@,
            region@ == pieces[2],
            name@ == pieces[3],
            serving_worker(all, region@, name@, 0) == serving_worker(
                all,
                region@,
                name@,
                i as int,
            ),
        decreases workers.len() - i,
    {
        assert(all[i as int] == workers@[i as int]@);
        if worker_serves(&workers[i], region.as_str(), name.as_str()) {
            let mut url = cat3(workers[i].base.as_str(), "/invoke/", name.as_str());
            if parts.len() > 4 {
                let mut tail: Vec<String> = Vec::new();
                let mut k: usize = 4;
                while k < parts.len()
                    invariant
                        4 <= k <= parts@.len(),
                        tail@.len() == k - 4,
                        forall|j: int| 0 <= j < k - 4 ==> (#[trigger] tail@[j])@ == parts@[j + 4]@,
                    decreases parts.len() - k,
                {
                    tail.push(parts[k].clone());
                    k += 1;
                }
                proof {
                    assert(texts(tail@) =~= pieces.skip(4));
                    reveal_strlit("/");
                    assert("/"@ =~= seq!['/']);
                }
                url.append("/");
                url.append(crate::text::join(&tail, "/").as_str());
            }
            if let Some(q) = query {
                url.append("?");
                url.append(q);
            }
            return Some((i, url));
        }
        i += 1;
    }
    None
}

/// Whether a header of a request stays behind when the request is passed on.
pub fn is_request_hop_header(name: &str) -> (r: bool)
    ensures
        r == (name@ == "host"@ || name@ == "connection"@ || name@ == "content-length"@ || name@
            == "transfer-encoding"@),
{
    same(name, "host") || same(name, "connection") || same(name, "content-length") || same(
        name,
        "transfer-encoding",
    )
}

/// Whether a header of an answer stays behind when the answer is passed on.
pub fn is_response_hop_header(name: &str) -> (r: bool)
    ensures
        r == (name@ == "connection"@ || name@ == "transfer-encoding"@),
{
    same(name, "connection") || same(name, "transfer-encoding")
}

/// Whether a text can name a topic of an injected message.
pub open spec fn is_topic_text(topic: Seq<char>) -> bool {
    topic.len() > 0 && forall|i: int|
        0 <= i < topic.len() ==> is_topic_char(#[trigger] topic[i])
}

/// A letter or a digit of ASCII, or one of `-_.`.
pub open spec fn is_topic_char(c: char) -> bool {
    ('a' <= c && c <= 'z') || ('A' <= c && c <= 'Z') || ('0' <= c && c <= '9') || c == '-' || c == '_'
        || c == '.'
}

fn names_topic(topic: &str) -> (r: bool)
    ensures
        r == is_topic_text(topic@),
{
    let chars = chars_of(topic);
    let mut i: usize = 0;
    while i < chars.len()
        invariant
            i <= chars@.len(),
            chars@ == topic@,
            forall|j: int| 0 <= j < i ==> is_topic_char(#[trigger] topic@[j]),
        decreases chars.len() - i,
    {
        let c: char = chars[i];
        let good = ('a' <= c && c <= 'z') || ('A' <= c && c <= 'Z') || ('0' <= c && c <= '9') || c
            == '-' || c == '_' || c == '.';
        if !good {
            assert(!is_topic_char(topic@[i as int]));
            return false;
        }
        i += 1;
    }
    chars.len() > 0
}

/// The message that a request injects on a topic, or why it is refused, given
/// the text of its data.
pub open spec fn injected_spec(
    topic: Seq<char>,
    body: JsonView,
    next_id: u64,
    timestamp: Seq<char>,
) -> Result<JsonView, Seq<char>> {
    if !is_topic_text(topic) {
        Err("Invalid topic"@)
    } else {
        match member(body, "data"@) {
            None => Err("Expected data"@),
            Some(data) => {
                let v = object1(
                    "data"@,
                    JsonView::Text(base64_text(encode_utf8(text_of_json(data)))),
                );
                let v = with_member(
                    v,
                    "attributes"@,
                    match member(body, "attributes"@) {
                        Some(a) => a,
                        None => empty_object(),
                    },
                );
                let v = with_member(v, "messageId"@, JsonView::Text(event_id_spec(next_id)));
                Ok(with_member(v, "publishTime"@, JsonView::Text(timestamp)))
            },
        }
    }
}

/// Makes the message that a request injects on a topic.
pub fn injected_message(topic: &str, body: &Json, next_id: u64, timestamp: &str) -> (r: Result<
    Json,
    String,
>)
    ensures
        crate::auth::json_result(r) == injected_spec(topic@, body@, next_id, timestamp@),
{
    if !names_topic(topic) {
        return Err("Invalid topic".to_owned());
    }
    match body.get("data") {
        None => Err("Expected data".to_owned()),
        Some(data) => {
            let encoded = base64_encode(write_json(data).as_str().as_bytes());
            let attributes = match body.get("attributes") {
                Some(a) => a.duplicate(),
                None => Json::object(),
            };
            Ok(
                single("data", Json::Text(encoded)).with("attributes", attributes).with(
                    "messageId",
                    Json::Text(event_id(next_id)),
                ).with("publishTime", Json::of_text(timestamp)),
            )
        },
    }
}

/// The first of the functions from `i` on whose name is already known.
pub open spec fn repeated_name(
    names: Seq<Seq<char>>,
    functions: Seq<FunctionView>,
    i: int,
) -> Option<Seq<char>>
    decreases functions.len() - i,
{
    if i < 0 || i >= functions.len() {
        None
    } else if names.contains(functions[i].name) {
        Some(functions[i].name)
    } else {
        repeated_name(names.push(functions[i].name), functions, i + 1)
    }
}

/// Notes the names of a worker's functions; stops at the first that is already
/// known and returns it.
pub fn note_names(names: &mut Vec<String>, functions: &Vec<Function>) -> (r: Option<String>)
    ensures
        opt_text(r) == repeated_name(texts(old(names)@), functions_view(functions@), 0),
        r is None ==> texts(final(names)@) == texts(old(names)@) + functions_view(
            functions@,
        ).map_values(|f: FunctionView| f.name),
{
    let ghost all = functions_view(functions@);
    let ghost before = texts(names@);
    let mut i: usize = 0;
    assert(before + all.take(0).map_values(|f: FunctionView| f.name) =~= before);
    while i < functions.len()
        invariant
            i <= functions@.len(),
            all == functions_view(functions@),
            before == texts(old(names)@),
            repeated_name(before, all, 0) == repeated_name(texts(names@), all, i as int),
            texts(names@) == before + all.take(i as int).map_values(|f: FunctionView| f.name),
        decreases functions.len() - i,
    {
        assert(all[i as int] == functions@[i as int]@);
        if has_text(names, functions[i].name.as_str()) {
            return Some(functions[i].name.clone());
        }
        let ghost now = texts(names@);
        names.push(functions[i].name.clone());
        assert(texts(names@) =~= now.push(all[i as int].name));
        assert(now.push(all[i as int].name) =~= before + all.take(i + 1).map_values(
            |f: FunctionView| f.name,
        ));
        i += 1;
    }
    assert(all.take(i as int) =~= all);
    None
}

/// A path as Node takes it: a verbatim path of Windows to a share or a drive
/// without the prefix that makes it verbatim, any other as it is.
pub open spec fn node_path_spec(value: Seq<char>) -> Seq<char> {
    match after_prefix(value, "\\\\?\\UNC\\"@) {
        Some(rest) => "\\\\"@ + rest,
        None => match after_prefix(value, "\\\\?\\"@) {
            Some(rest) => if rest.len() >= 3 && is_letter(rest[0]) && rest[1] == ':' && (rest[2]
                == '\\' || rest[2] == '/') {
                rest
            } else {
                value
            },
            None => value,
        },
    }
}

/// A letter of ASCII.
pub open spec fn is_letter(c: char) -> bool {
    ('a' <= c && c <= 'z') || ('A' <= c && c <= 'Z')
}

/// Writes a path as Node takes it.
pub fn normalize_node_path(value: &str) -> (r: String)
    ensures
        r@ == node_path_spec(value@),
{
    if let Some(rest) = strip_prefix(value, "\\\\?\\UNC\\") {
        return cat("\\\\", rest.as_str());
    }
    if let Some(rest) = strip_prefix(value, "\\\\?\\") {
        let chars = chars_of(rest.as_str());
        if chars.len() >= 3 {
            let c: char = chars[0];
            let letter = ('a' <= c && c <= 'z') || ('A' <= c && c <= 'Z');
            if letter && chars[1] == ':' && (chars[2] == '\\' || chars[2] == '/') {
                return rest;
            }
        }
    }
    value.to_owned()
}

/// A path as Node takes it, where the path is text; none where it stays as it
/// is because it is not.
pub fn node_compatible_path(path: Option<&str>) -> (r: Option<String>)
    ensures
        opt_text(r) == match path {
            Some(value) => Some(node_path_spec(value@)),
            None => None,
        },
{
    match path {
        Some(value) => Some(normalize_node_path(value)),
        None => None,
    }
}

/// A text without any number of `nodejs` at its front.
pub open spec fn major_spec(runtime: Seq<char>) -> Seq<char>
    decreases runtime.len(),
{
    match after_prefix(runtime, "nodejs"@) {
        Some(rest) => if rest.len() < runtime.len() {
            major_spec(rest)
        } else {
            runtime
        },
        None => runtime,
    }
}

/// The major version that a runtime names.
pub fn runtime_major(runtime: &str) -> (r: String)
    ensures
        r@ == major_spec(runtime@),
    decreases runtime@.len(),
{
    proof {
        reveal_strlit("nodejs");
    }
    match strip_prefix(runtime, "nodejs") {
        Some(rest) => runtime_major(rest.as_str()),
        None => runtime.to_owned(),
    }
}

/// The major version that Node reports.
pub open spec fn reported_major(version: Seq<char>) -> Seq<char> {
    split_spec(
        crate::multipart::skip_front(
            crate::multipart::trim_spec(version),
            crate::multipart::just('v'),
        ),
        '.',
    )[0]
}

/// Whether the Node that reports a version can run a runtime: the versions are
/// the same, and one of those that are supported.
pub open spec fn node_fits(version: Seq<char>, runtime: Seq<char>) -> bool {
    let actual = reported_major(version);
    actual == major_spec(runtime) && (actual == "18"@ || actual == "20"@ || actual == "22"@)
}

/// Checks the version that Node reports against a runtime.
pub fn validate_node_version(version: &str, runtime: &str) -> (r: bool)
    ensures
        r == node_fits(version@, runtime@),
{
    let trimmed = crate::multipart::trim(version);
    let bare = crate::multipart::trim_front(trimmed.as_str(), 'v');
    let parts = split(bare.as_str(), '.');
    proof {
        crate::text::split_is_never_empty(bare@, '.');
        assert(texts(parts@)[0] == parts@[0]@);
    }
    let actual = parts[0].as_str();
    same(actual, runtime_major(runtime).as_str()) && (same(actual, "18") || same(actual, "20")
        || same(actual, "22"))
}

} // verus!
