//! Which functions an event reaches, and what the data and the context of the
//! event tell them.
use crate::document::DocumentView;
use crate::json::{at, empty_object, member, object1, with_member, JsonView};
use crate::json_laws::{
    documents_are_written, is_object, members_are_added, nothing_is_in_an_empty_object,
    one_member_is_alone, tells_document,
};
use crate::multipart::find_spec;
use crate::text::{after_prefix, decimal_spec, split_spec};
use crate::triggers::{
    context_spec, firestore_delivery_spec, params_spec, payload_spec, pubsub_delivery_spec,
    route_spec, schedule_delivery_spec, second_piece, serving_worker, storage_delivery_spec,
    wildcard_params_spec, DeliveryView, FunctionView, WorkerView,
};
use crate::web_values::time_text;
use crate::workers::{all_dispatches, delivery_spec, worker_dispatches, SourceView};
use vstd::prelude::*;

verus! {

/// What the context of an event says of it.
pub open spec fn tells_context(
    context: JsonView,
    id: u64,
    timestamp: JsonView,
    event_type: Seq<char>,
    service: Seq<char>,
    name: Seq<char>,
    params: JsonView,
) -> bool {
    &&& member(context, "eventId"@) == Some(JsonView::Text("rust-"@ + decimal_spec(id as nat)))
    &&& member(context, "timestamp"@) == Some(timestamp)
    &&& member(context, "eventType"@) == Some(JsonView::Text(event_type))
    &&& member(context, "params"@) == Some(params)
    &&& member(context, "resource"@) matches Some(resource)
    &&& member(resource, "service"@) == Some(JsonView::Text(service))
    &&& member(resource, "name"@) == Some(JsonView::Text(name))
}

proof fn contexts_tell(
    id: u64,
    timestamp: JsonView,
    event_type: Seq<char>,
    service: Seq<char>,
    name: Seq<char>,
    params: JsonView,
)
    ensures
        tells_context(
            context_spec(id, timestamp, event_type, service, name, params),
            id,
            timestamp,
            event_type,
            service,
            name,
            params,
        ),
{
    reveal_strlit("eventId");
    reveal_strlit("timestamp");
    reveal_strlit("eventType");
    reveal_strlit("resource");
    reveal_strlit("params");
    reveal_strlit("service");
    reveal_strlit("name");
    assert("eventId"@.len() == 7 && "timestamp"@.len() == 9 && "eventType"@.len() == 9);
    assert("timestamp"@[0] == 't' && "eventType"@[0] == 'e');
    assert("resource"@.len() == 8 && "params"@.len() == 6);
    assert("service"@.len() == 7 && "name"@.len() == 4);
    let event = JsonView::Text("rust-"@ + decimal_spec(id as nat));
    let (ty, s, n) = (JsonView::Text(event_type), JsonView::Text(service), JsonView::Text(name));
    let half = object1("service"@, s);
    let resource = with_member(half, "name"@, n);
    one_member_is_alone("service"@, s, "service"@);
    members_are_added(half, "name"@, n, "service"@);
    let a = object1("eventId"@, event);
    let b = with_member(a, "timestamp"@, timestamp);
    let c = with_member(b, "eventType"@, ty);
    let d = with_member(c, "resource"@, resource);
    one_member_is_alone("eventId"@, event, "eventId"@);
    members_are_added(a, "timestamp"@, timestamp, "eventId"@);
    members_are_added(b, "eventType"@, ty, "eventId"@);
    members_are_added(b, "eventType"@, ty, "timestamp"@);
    members_are_added(c, "resource"@, resource, "eventId"@);
    members_are_added(c, "resource"@, resource, "timestamp"@);
    members_are_added(c, "resource"@, resource, "eventType"@);
    members_are_added(d, "params"@, params, "eventId"@);
    members_are_added(d, "params"@, params, "timestamp"@);
    members_are_added(d, "params"@, params, "eventType"@);
    members_are_added(d, "params"@, params, "resource"@);
}

/// What a function is sent names it, and has the data and the context of the
/// event.
pub proof fn payloads_carry_the_event(function: Seq<char>, data: JsonView, context: JsonView)
    ensures
        ({
            let payload = payload_spec(function, data, context);
            &&& member(payload, "name"@) == Some(JsonView::Text(function))
            &&& member(payload, "event"@) matches Some(event)
            &&& member(event, "data"@) == Some(data)
            &&& member(event, "context"@) == Some(context)
        }),
{
    reveal_strlit("name");
    reveal_strlit("event");
    reveal_strlit("data");
    reveal_strlit("context");
    assert("name"@.len() == 4 && "event"@.len() == 5 && "data"@.len() == 4 && "context"@.len()
        == 7);
    let half = object1("data"@, data);
    let event = with_member(half, "context"@, context);
    one_member_is_alone("data"@, data, "data"@);
    members_are_added(half, "context"@, context, "data"@);
    let named = object1("name"@, JsonView::Text(function));
    one_member_is_alone("name"@, JsonView::Text(function), "name"@);
    members_are_added(named, "event"@, event, "name"@);
}

/// The text under a key of what triggers a function.
pub open spec fn trigger_text(trigger: JsonView, key: Seq<char>) -> Option<Seq<char>> {
    match member(trigger, "eventTrigger"@) {
        None => None,
        Some(event) => match member(event, key) {
            Some(JsonView::Text(s)) => Some(s),
            _ => None,
        },
    }
}

/// Whether a member of the data of a change tells the document, or is empty
/// where there is none.
pub open spec fn tells_state(data: JsonView, key: Seq<char>, doc: Option<DocumentView>) -> bool {
    match doc {
        Some(d) => member(data, key) matches Some(v) && tells_document(v, d),
        None => member(data, key) == Some(JsonView::Object(Seq::empty())),
    }
}

/// A function that hears of a change is told the document before the change
/// under `oldValue` and the one after it under `value`, each in full, and an
/// empty object where there was none. The context tells the id of the event,
/// when the document changed, what the function asked for, and which document
/// it is.
pub proof fn changes_are_told_in_full(
    project: Seq<char>,
    trigger: JsonView,
    id: u64,
    before: Option<DocumentView>,
    after: Option<DocumentView>,
)
    requires
        before is Some || after is Some,
        firestore_delivery_spec(project, trigger, id, before, after) is Some,
    ensures
        ({
            let (data, context) = firestore_delivery_spec(project, trigger, id, before, after)->0;
            let doc = if after is Some { after->0 } else { before->0 };
            &&& tells_state(data, "oldValue"@, before)
            &&& tells_state(data, "value"@, after)
            &&& trigger_text(trigger, "eventType"@) matches Some(ty)
            &&& member(context, "params"@) matches Some(params)
            &&& tells_context(
                context,
                id,
                match doc.update_time {
                    Some(t) => JsonView::Text(time_text(t.seconds, t.nanos)),
                    None => JsonView::Null,
                },
                ty,
                "firestore.googleapis.com"@,
                doc.name,
                params,
            )
        }),
{
    reveal_strlit("oldValue");
    reveal_strlit("value");
    assert("oldValue"@.len() == 8 && "value"@.len() == 5);
    let doc = if after is Some { after->0 } else { before->0 };
    let old = crate::triggers::document_or_empty(before);
    let new = crate::triggers::document_or_empty(after);
    one_member_is_alone("oldValue"@, old, "oldValue"@);
    members_are_added(object1("oldValue"@, old), "value"@, new, "oldValue"@);
    if let Some(d) = before {
        documents_are_written(d);
    }
    if let Some(d) = after {
        documents_are_written(d);
    }
    let ty = crate::triggers::event_type_of(trigger);
    let path = after_prefix(doc.name, crate::triggers::default_documents(project))->0;
    let pattern = second_piece(crate::triggers::resource_of(trigger), "/documents/"@)->0;
    let params = wildcard_params_spec(pattern, path)->0;
    let front = "providers/cloud.firestore/eventTypes/document."@;
    reveal_strlit("providers/cloud.firestore/eventTypes/document.");
    assert(ty.len() > 0) by {
        assert(front.is_prefix_of(ty));
        assert(front.len() > 0);
    }
    contexts_tell(
        id,
        crate::web_values::time_json_spec(doc.update_time),
        ty,
        "firestore.googleapis.com"@,
        doc.name,
        params,
    );
}

/// Whether the changes that a function asks for are of the kind of this one:
/// any, or the making, changing or removing of a document.
pub open spec fn asks_for(ty: Seq<char>, before: bool, after: bool) -> bool {
    ||| ty == "providers/cloud.firestore/eventTypes/document.write"@
    ||| ty == "providers/cloud.firestore/eventTypes/document.create"@ && !before && after
    ||| ty == "providers/cloud.firestore/eventTypes/document.update"@ && before && after
    ||| ty == "providers/cloud.firestore/eventTypes/document.delete"@ && before && !after
}

/// The kinds of changes that a function can ask for.
pub open spec fn is_change_type(ty: Seq<char>) -> bool {
    ||| ty == "providers/cloud.firestore/eventTypes/document.write"@
    ||| ty == "providers/cloud.firestore/eventTypes/document.create"@
    ||| ty == "providers/cloud.firestore/eventTypes/document.update"@
    ||| ty == "providers/cloud.firestore/eventTypes/document.delete"@
}

proof fn change_types_end(ty: Seq<char>, before: bool, after: bool)
    requires
        is_change_type(ty),
        before || after,
    ensures
        ({
            let kind = "."@ + crate::triggers::event_kind_spec(before, after);
            &&& "providers/cloud.firestore/eventTypes/document."@.is_prefix_of(ty)
            &&& (".write"@.is_suffix_of(ty) || kind.is_suffix_of(ty)) == asks_for(
                ty,
                before,
                after,
            )
        }),
{
    reveal_strlit("providers/cloud.firestore/eventTypes/document.");
    reveal_strlit("providers/cloud.firestore/eventTypes/document.write");
    reveal_strlit("providers/cloud.firestore/eventTypes/document.create");
    reveal_strlit("providers/cloud.firestore/eventTypes/document.update");
    reveal_strlit("providers/cloud.firestore/eventTypes/document.delete");
    reveal_strlit(".write");
    reveal_strlit(".");
    reveal_strlit("create");
    reveal_strlit("update");
    reveal_strlit("delete");
    let front = "providers/cloud.firestore/eventTypes/document."@;
    let n = front.len() as int;
    assert(n == 46);
    assert(ty.take(n) =~= front);
    let kind = "."@ + crate::triggers::event_kind_spec(before, after);
    let (w, c, u, d) = (
        "providers/cloud.firestore/eventTypes/document.write"@,
        "providers/cloud.firestore/eventTypes/document.create"@,
        "providers/cloud.firestore/eventTypes/document.update"@,
        "providers/cloud.firestore/eventTypes/document.delete"@,
    );
    assert(w.len() == 51 && c.len() == 52 && u.len() == 52 && d.len() == 52);
    assert(w[46] == 'w' && c[46] == 'c' && u[46] == 'u' && d[46] == 'd');
    assert(kind.len() == 7 && kind[0] == '.');
    assert(kind[1] == 'c' || kind[1] == 'u' || kind[1] == 'd');
    assert(!before && after ==> kind[1] == 'c');
    assert(before && after ==> kind[1] == 'u');
    assert(before && !after ==> kind[1] == 'd');
    let end = ty.skip(45);
    if ty == w {
        assert(ty.skip(ty.len() - 6) =~= ".write"@);
        assert(".write"@.is_suffix_of(ty));
    } else {
        assert(!".write"@.is_suffix_of(ty)) by {
            if ".write"@.is_suffix_of(ty) {
                assert(ty.skip(ty.len() - 6)[0] == ".write"@[0]);
                assert(ty[46] == '.');
            }
        }
        if kind.is_suffix_of(ty) {
            assert(ty.skip(ty.len() - 7)[1] == kind[1]);
            assert(ty[46] == kind[1]);
        }
        if asks_for(ty, before, after) {
            assert(ty.skip(45) =~= kind);
            assert(ty.len() - kind.len() == 45);
            assert(kind.is_suffix_of(ty));
        }
    }
}

/// Whether a part of a pattern stands for any text.
pub open spec fn is_hole(part: Seq<char>) -> bool {
    part.len() > 2 && part[0] == '{' && part[part.len() - 1] == '}'
}

/// The name of a part of a pattern that stands for any text.
pub open spec fn hole_name(part: Seq<char>) -> Seq<char> {
    part.subrange(1, part.len() - 1)
}

/// Whether the parts of a path match those of a pattern: as many, and the same
/// but where the pattern has a hole.
pub open spec fn fits(pattern: Seq<Seq<char>>, path: Seq<Seq<char>>) -> bool {
    pattern.len() == path.len() && forall|i: int|
        0 <= i < pattern.len() ==> is_hole(#[trigger] pattern[i]) || pattern[i] == path[i]
}

/// Whether the holes of a pattern have different names.
pub open spec fn holes_differ(pattern: Seq<Seq<char>>) -> bool {
    forall|i: int, j: int|
        0 <= i < j < pattern.len() && is_hole(pattern[i]) && is_hole(pattern[j]) ==> hole_name(
            #[trigger] pattern[i],
        ) != hole_name(#[trigger] pattern[j])
}

proof fn holes_are_filled(pattern: Seq<Seq<char>>, path: Seq<Seq<char>>, n: nat, key: Seq<char>)
    requires
        pattern.len() == path.len(),
        n <= pattern.len(),
    ensures
        ({
            let same = forall|i: int|
                0 <= i < n ==> is_hole(#[trigger] pattern[i]) || pattern[i] == path[i];
            &&& (params_spec(pattern, path, n) is Some) == same
            &&& params_spec(pattern, path, n) matches Some(params) ==> is_object(params) && (
            holes_differ(pattern) ==> forall|i: int|
                0 <= i < n && is_hole(#[trigger] pattern[i]) ==> member(
                    params,
                    hole_name(pattern[i]),
                ) == Some(JsonView::Text(path[i]))) && ((forall|i: int|
                0 <= i < n && is_hole(#[trigger] pattern[i]) ==> hole_name(pattern[i]) != key)
                ==> member(params, key) is None)
        }),
    decreases n,
{
    if n == 0 {
        nothing_is_in_an_empty_object(key);
    } else {
        let m = (n - 1) as nat;
        holes_are_filled(pattern, path, m, key);
        if params_spec(pattern, path, m) is Some {
            let before = params_spec(pattern, path, m)->0;
            let (a, b) = (pattern[n - 1], path[n - 1]);
            if is_hole(a) {
                members_are_added(before, hole_name(a), JsonView::Text(b), key);
                let after = params_spec(pattern, path, n)->0;
                assert(after == with_member(before, hole_name(a), JsonView::Text(b)));
                if holes_differ(pattern) {
                    assert forall|i: int| 0 <= i < n && is_hole(#[trigger] pattern[i]) implies
                        member(after, hole_name(pattern[i])) == Some(JsonView::Text(path[i])) by {
                        if i < m {
                            assert(hole_name(pattern[i]) != hole_name(pattern[n - 1]));
                            members_are_added(
                                before,
                                hole_name(a),
                                JsonView::Text(b),
                                hole_name(pattern[i]),
                            );
                        }
                    }
                }
            }
        }
    }
}

/// A path matches a pattern exactly where it has as many parts and the same
/// ones but for the holes; then each hole is told what stands there.
pub proof fn patterns_match_part_by_part(pattern: Seq<char>, path: Seq<char>, i: int)
    ensures
        ({
            let (a, b) = (split_spec(pattern, '/'), split_spec(path, '/'));
            &&& (wildcard_params_spec(pattern, path) is Some) == fits(a, b)
            &&& fits(a, b) && holes_differ(a) && 0 <= i < a.len() && is_hole(a[i]) ==> member(
                wildcard_params_spec(pattern, path)->0,
                hole_name(a[i]),
            ) == Some(JsonView::Text(b[i]))
        }),
{
    let (a, b) = (split_spec(pattern, '/'), split_spec(path, '/'));
    if a.len() == b.len() {
        holes_are_filled(a, b, a.len(), Seq::empty());
    }
}

/// A function hears of a change exactly where it asks for changes of that kind,
/// the document is one of the project's default database, and the document's
/// path fits the pattern that the function asks for.
pub proof fn functions_hear_of_the_changes_they_ask_for(
    project: Seq<char>,
    trigger: JsonView,
    id: u64,
    before: Option<DocumentView>,
    after: Option<DocumentView>,
    ty: Seq<char>,
    resource: Seq<char>,
    pattern: Seq<char>,
)
    requires
        before is Some || after is Some,
        trigger_text(trigger, "eventType"@) == Some(ty),
        is_change_type(ty),
        trigger_text(trigger, "resource"@) == Some(resource),
        second_piece(resource, "/documents/"@) == Some(pattern),
    ensures
        ({
            let doc = if after is Some { after->0 } else { before->0 };
            let front = "projects/"@ + project + "/databases/(default)/documents/"@;
            let path = doc.name.skip(front.len() as int);
            firestore_delivery_spec(project, trigger, id, before, after) is Some <==> asks_for(
                ty,
                before is Some,
                after is Some,
            ) && front.is_prefix_of(doc.name) && fits(
                split_spec(pattern, '/'),
                split_spec(path, '/'),
            )
        }),
{
    let doc = if after is Some { after->0 } else { before->0 };
    let front = "projects/"@ + project + "/databases/(default)/documents/"@;
    let path = doc.name.skip(front.len() as int);
    change_types_end(ty, before is Some, after is Some);
    patterns_match_part_by_part(pattern, path, 0);
}

/// The pattern of a resource is what stands behind its documents.
pub proof fn patterns_stand_behind_the_documents(front: Seq<char>, pattern: Seq<char>)
    requires
        find_spec(front + "/documents/"@ + pattern, "/documents/"@, 0) == Some(
            front.len() as int,
        ),
        find_spec(pattern, "/documents/"@, 0) is None,
    ensures
        second_piece(front + "/documents/"@ + pattern, "/documents/"@) == Some(pattern),
{
    let all = front + "/documents/"@ + pattern;
    let n = front.len() + "/documents/"@.len();
    assert(all.skip(n as int) =~= pattern);
}

/// A function that hears of a change of a stored object is told the object as
/// it is and what happened to it; it hears of the changes that it asks for, in
/// the bucket that it names or in any.
pub proof fn stored_objects_are_told(
    trigger: JsonView,
    id: u64,
    kind: Seq<char>,
    object: JsonView,
    bucket: Seq<char>,
    name: Seq<char>,
    updated: Seq<char>,
    resource: Seq<char>,
)
    requires
        member(object, "bucket"@) == Some(JsonView::Text(bucket)),
        member(object, "name"@) == Some(JsonView::Text(name)),
        member(object, "updated"@) == Some(JsonView::Text(updated)),
        trigger_text(trigger, "resource"@) == Some(resource),
    ensures
        ({
            let told = storage_delivery_spec(trigger, id, kind, object);
            let asked = second_piece(resource, "/buckets/"@);
            &&& told is Some <==> trigger_text(trigger, "eventType"@) == Some(
                "google.storage.object."@ + kind,
            ) && (asked is None || asked->0.len() == 0 || asked->0 == "{bucket}"@ || asked->0
                == bucket)
            &&& told matches Some(pair) ==> pair.0 == object && tells_context(
                pair.1,
                id,
                JsonView::Text(updated),
                "google.storage.object."@ + kind,
                "storage.googleapis.com"@,
                "projects/_/buckets/"@ + bucket + "/objects/"@ + name,
                JsonView::Object(Seq::empty()),
            )
        }),
{
    reveal_strlit("google.storage.object.");
    assert(("google.storage.object."@ + kind).len() > 0);
    contexts_tell(
        id,
        JsonView::Text(updated),
        "google.storage.object."@ + kind,
        "storage.googleapis.com"@,
        "projects/_/buckets/"@ + bucket + "/objects/"@ + name,
        empty_object(),
    );
}

/// A function that hears of a message is told it as it is; it hears of the
/// messages of the topic that it names, unless it is run by a schedule.
pub proof fn messages_are_told(
    project: Seq<char>,
    trigger: JsonView,
    id: u64,
    topic: Seq<char>,
    message: JsonView,
    time: JsonView,
)
    requires
        member(message, "publishTime"@) == Some(time),
    ensures
        ({
            let told = pubsub_delivery_spec(project, trigger, id, topic, message);
            &&& told is Some <==> trigger_text(trigger, "eventType"@) == Some(
                "google.pubsub.topic.publish"@,
            ) && member(trigger, "schedule"@) is None && (trigger_text(
                trigger,
                "resource"@,
            ) matches Some(resource) && split_spec(resource, '/').last() == topic)
            &&& told matches Some(pair) ==> pair.0 == message && tells_context(
                pair.1,
                id,
                time,
                "google.pubsub.topic.publish"@,
                "pubsub.googleapis.com"@,
                "projects/"@ + project + "/topics/"@ + topic,
                JsonView::Object(Seq::empty()),
            )
        }),
{
    contexts_tell(
        id,
        time,
        "google.pubsub.topic.publish"@,
        "pubsub.googleapis.com"@,
        "projects/"@ + project + "/topics/"@ + topic,
        empty_object(),
    );
}

/// A scheduled function is told the time, in a message of an empty object.
pub proof fn schedules_are_told(
    project: Seq<char>,
    trigger: JsonView,
    id: u64,
    timestamp: Seq<char>,
)
    ensures
        ({
            let (data, context) = schedule_delivery_spec(project, trigger, id, timestamp);
            &&& member(data, "publishTime"@) == Some(JsonView::Text(timestamp))
            &&& member(data, "data"@) == Some(JsonView::Text("e30="@))
            &&& member(data, "messageId"@) == Some(
                JsonView::Text("rust-"@ + decimal_spec(id as nat)),
            )
            &&& member(data, "attributes"@) == Some(JsonView::Object(Seq::empty()))
            &&& tells_context(
                context,
                id,
                JsonView::Text(timestamp),
                match trigger_text(trigger, "eventType"@) {
                    Some(ty) => ty,
                    None => "google.pubsub.topic.publish"@,
                },
                "pubsub.googleapis.com"@,
                "projects/"@ + project + "/topics"@,
                JsonView::Object(Seq::empty()),
            )
        }),
{
    reveal_strlit("data");
    reveal_strlit("attributes");
    reveal_strlit("messageId");
    reveal_strlit("publishTime");
    assert("data"@.len() == 4 && "attributes"@.len() == 10 && "messageId"@.len() == 9
        && "publishTime"@.len() == 11);
    let event = JsonView::Text("rust-"@ + decimal_spec(id as nat));
    let a = object1("data"@, JsonView::Text("e30="@));
    let b = with_member(a, "attributes"@, empty_object());
    let c = with_member(b, "messageId"@, event);
    one_member_is_alone("data"@, JsonView::Text("e30="@), "data"@);
    members_are_added(a, "attributes"@, empty_object(), "data"@);
    members_are_added(b, "messageId"@, event, "data"@);
    members_are_added(b, "messageId"@, event, "attributes"@);
    members_are_added(c, "publishTime"@, JsonView::Text(timestamp), "data"@);
    members_are_added(c, "publishTime"@, JsonView::Text(timestamp), "attributes"@);
    members_are_added(c, "publishTime"@, JsonView::Text(timestamp), "messageId"@);
    contexts_tell(
        id,
        JsonView::Text(timestamp),
        match trigger_text(trigger, "eventType"@) {
            Some(ty) => ty,
            None => "google.pubsub.topic.publish"@,
        },
        "pubsub.googleapis.com"@,
        "projects/"@ + project + "/topics"@,
        empty_object(),
    );
}

proof fn worker_deliveries(
    project: Seq<char>,
    functions: Seq<FunctionView>,
    worker: nat,
    id: u64,
    source: SourceView,
    n: nat,
    d: (nat, nat, JsonView, JsonView),
)
    requires
        n <= functions.len(),
    ensures
        worker_dispatches(project, functions, worker, id, source, n).contains(d) <==> d.0 == worker
            && d.1 < n && delivery_spec(project, functions[d.1 as int].trigger, id, source) == Some(
            (d.2, d.3),
        ),
    decreases n,
{
    let all = worker_dispatches(project, functions, worker, id, source, n);
    if n > 0 {
        let m = (n - 1) as nat;
        worker_deliveries(project, functions, worker, id, source, m, d);
        let before = worker_dispatches(project, functions, worker, id, source, m);
        if before.contains(d) {
            let i = choose|i: int| 0 <= i < before.len() && before[i] == d;
            assert(all[i] == d);
        }
        match delivery_spec(project, functions[n - 1].trigger, id, source) {
            Some(told) => {
                assert(all[all.len() - 1] == (worker, m, told.0, told.1));
                if all.contains(d) {
                    let i = choose|i: int| 0 <= i < all.len() && all[i] == d;
                    if i < before.len() {
                        assert(before[i] == d);
                    }
                }
            },
            None => {},
        }
    }
}

proof fn deliveries_of(
    project: Seq<char>,
    workers: Seq<WorkerView>,
    id: u64,
    source: SourceView,
    n: nat,
    d: (nat, nat, JsonView, JsonView),
)
    requires
        n <= workers.len(),
    ensures
        all_dispatches(project, workers, id, source, n).contains(d) <==> d.0 < n && d.1
            < workers[d.0 as int].functions.len() && delivery_spec(
            project,
            workers[d.0 as int].functions[d.1 as int].trigger,
            id,
            source,
        ) == Some((d.2, d.3)),
    decreases n,
{
    let all = all_dispatches(project, workers, id, source, n);
    if n > 0 {
        let m = (n - 1) as nat;
        let functions = workers[n - 1].functions;
        deliveries_of(project, workers, id, source, m, d);
        worker_deliveries(project, functions, m, id, source, functions.len(), d);
        let before = all_dispatches(project, workers, id, source, m);
        let more = worker_dispatches(project, functions, m, id, source, functions.len());
        if before.contains(d) {
            let i = choose|i: int| 0 <= i < before.len() && before[i] == d;
            assert(all[i] == d);
        }
        if more.contains(d) {
            let i = choose|i: int| 0 <= i < more.len() && more[i] == d;
            assert(all[before.len() + i] == d);
        }
        if all.contains(d) {
            let i = choose|i: int| 0 <= i < all.len() && all[i] == d;
            if i < before.len() {
                assert(before[i] == d);
            } else {
                assert(more[i - before.len()] == d);
            }
        }
    }
}

/// An event is delivered to every function of every worker that hears of it,
/// with what that function is told, and to no other.
pub proof fn events_reach_every_function_that_hears(
    project: Seq<char>,
    workers: Seq<WorkerView>,
    id: u64,
    source: SourceView,
    w: int,
    f: int,
    told: DeliveryView,
)
    requires
        0 <= w < workers.len(),
        0 <= f < workers[w].functions.len(),
    ensures
        ({
            let trigger = workers[w].functions[f].trigger;
            all_dispatches(project, workers, id, source, workers.len()).contains(
                (w as nat, f as nat, told.0, told.1),
            ) <==> (match source {
                SourceView::Firestore { before, after } => (before is Some || after is Some)
                    && firestore_delivery_spec(project, trigger, id, before, after) == Some(told),
                SourceView::Storage { kind, object } => storage_delivery_spec(
                    trigger,
                    id,
                    kind,
                    object,
                ) == Some(told),
                SourceView::PubSub { topic, message } => pubsub_delivery_spec(
                    project,
                    trigger,
                    id,
                    topic,
                    message,
                ) == Some(told),
            })
        }),
{
    deliveries_of(
        project,
        workers,
        id,
        source,
        workers.len(),
        (w as nat, f as nat, told.0, told.1),
    );
}

/// A request for a function of the project goes to a worker that serves it, at
/// the address of the function there, with the rest of its path and its query;
/// a request for anything else goes nowhere.
pub proof fn requests_reach_their_function(
    project: Seq<char>,
    workers: Seq<WorkerView>,
    path: Seq<char>,
    query: Option<Seq<char>>,
)
    ensures
        ({
            let parts = split_spec(path, '/');
            let served = parts.len() >= 4 && parts[1] == project && exists|w: int, f: int|
                0 <= w < workers.len() && 0 <= f < workers[w].functions.len() && serves_request(
                    #[trigger] workers[w].functions[f],
                    parts[2],
                    parts[3],
                );
            &&& route_spec(project, workers, path, query) is Some <==> served
            &&& route_spec(project, workers, path, query) matches Some(found) ==> ({
                &&& 0 <= found.0 < workers.len()
                &&& exists|f: int|
                    0 <= f < workers[found.0].functions.len() && serves_request(
                        #[trigger] workers[found.0].functions[f],
                        parts[2],
                        parts[3],
                    )
                &&& parts.len() == 4 ==> found.1 == workers[found.0].base + "/invoke/"@ + parts[3]
                    + (match query {
                    Some(q) => "?"@ + q,
                    None => Seq::empty(),
                })
                &&& (workers[found.0].base + "/invoke/"@ + parts[3]).is_prefix_of(found.1)
            })
        }),
{
    let parts = split_spec(path, '/');
    if parts.len() >= 4 && parts[1] == project {
        serving_is_found(workers, parts[2], parts[3], 0);
        if let Some(found) = route_spec(project, workers, path, query) {
            let front = workers[found.0].base + "/invoke/"@ + parts[3];
            assert(front.is_prefix_of(found.1)) by {
                assert(found.1.take(front.len() as int) =~= front);
            }
            if parts.len() == 4 {
                assert(found.1 =~= front + (match query {
                    Some(q) => "?"@ + q,
                    None => Seq::empty(),
                }));
            }
        }
    }
}

/// Whether a function serves requests under a name in a region.
pub open spec fn serves_request(function: FunctionView, region: Seq<char>, name: Seq<char>) -> bool {
    function.name == name && function.regions.contains(region) && member(
        function.trigger,
        "httpsTrigger"@,
    ) is Some
}

proof fn serving_is_found(workers: Seq<WorkerView>, region: Seq<char>, name: Seq<char>, i: int)
    requires
        0 <= i <= workers.len(),
    ensures
        serving_worker(workers, region, name, i) is Some <==> exists|w: int, f: int|
            i <= w < workers.len() && 0 <= f < workers[w].functions.len() && serves_request(
                #[trigger] workers[w].functions[f],
                region,
                name,
            ),
        serving_worker(workers, region, name, i) matches Some(w) ==> i <= w < workers.len()
            && exists|f: int|
            0 <= f < workers[w].functions.len() && serves_request(
                #[trigger] workers[w].functions[f],
                region,
                name,
            ),
    decreases workers.len() - i,
{
    if i < workers.len() {
        serving_is_found(workers, region, name, i + 1);
        if exists|k: int|
            0 <= k < workers[i].functions.len() && crate::triggers::serves(
                #[trigger] workers[i].functions[k],
                region,
                name,
            ) {
            let k = choose|k: int|
                0 <= k < workers[i].functions.len() && crate::triggers::serves(
                    #[trigger] workers[i].functions[k],
                    region,
                    name,
                );
            assert(serves_request(workers[i].functions[k], region, name));
        } else {
            assert forall|w: int, f: int|
                i <= w < workers.len() && 0 <= f < workers[w].functions.len() && serves_request(
                    #[trigger] workers[w].functions[f],
                    region,
                    name,
                ) implies w > i by {
                if w == i {
                    assert(crate::triggers::serves(workers[i].functions[f], region, name));
                }
            }
        }
    }
}

} // verus!
