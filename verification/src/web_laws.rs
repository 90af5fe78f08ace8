//! What a browser is told over its channel, and what its requests ask for.
use crate::account_laws::{added, began};
use crate::document::DocumentView;
use crate::firestore::{commit_spec, BatchGetResultView, BatchGetView, StoreView};
use crate::json::{
    array_at, integer_json_spec, json_equal_spec, member, object1, with_member, JsonView,
};
use crate::listen::by_name_spec;
use crate::ordered::lookup;
use crate::status::StatusView;
use crate::text::{all_digits, decimal_reads_back, decimal_spec, digits_value};
use crate::value::Timestamp;
use crate::web_channel::{
    accept_spec, changed_messages, document_change_json, document_remove_json, ids_json,
    insert_target, push_all_spec, push_spec, refresh_initial_spec, remove_target,
    removed_messages, target_change_json, target_index, target_messages, unacknowledged,
    web_target_docs_spec, SessionView, StepView, WebTargetView,
};
use crate::web_form::{frame_spec, utf16_len_spec};
use crate::web_requests::{texts_among, writes_proto_spec};
use crate::web_service::{
    acknowledged_number, batch_get_json_of, channel_request_spec, handshake_json, post_step,
    process_spec, query_json_spec, received_json, rest_request_spec, RequestView, RestView,
    WebMethod,
};
use crate::web_values::{document_json_spec, time_json_spec};
use crate::writes::{DocumentsView, WriteView};
use vstd::prelude::*;

verus! {

proof fn keys_differ()
    ensures
        "document"@.len() == 8 && "document"@[0] == 'd',
        "targetIds"@.len() == 9,
        "removedTargetIds"@.len() == 16 && "removedTargetIds"@[0] == 'r',
        "readTime"@.len() == 8 && "readTime"@[0] == 'r',
        "targetChangeType"@.len() == 16 && "targetChangeType"@[0] == 't',
        "found"@.len() == 5,
        "missing"@.len() == 7,
{
    reveal_strlit("document");
    reveal_strlit("targetIds");
    reveal_strlit("removedTargetIds");
    reveal_strlit("readTime");
    reveal_strlit("targetChangeType");
    reveal_strlit("found");
    reveal_strlit("missing");
}

/// Whether JSON is a list of one number that is not negative.
pub open spec fn is_list_of(v: Option<JsonView>, id: i32) -> bool {
    v is Some && v->0 is Array && v->0->Array_0.len() == 1 && (id >= 0 ==> v->0->Array_0[0]
        == JsonView::Unsigned(id as u64))
}

/// The message of a changed document holds the document and its target, and
/// that of one that has left its name, its target and the time.
pub proof fn changes_are_told_to_browsers(
    doc: DocumentView,
    name: Seq<char>,
    id: i32,
    time: JsonView,
)
    ensures
        ({
            let change = member(document_change_json(doc, id), "documentChange"@);
            &&& change is Some
            &&& member(change->0, "document"@) == Some(document_json_spec(doc))
            &&& is_list_of(member(change->0, "targetIds"@), id)
            &&& member(change->0, "removedTargetIds"@) matches Some(JsonView::Array(none))
            &&& none.len() == 0
        }),
        ({
            let removal = member(document_remove_json(name, id, time), "documentRemove"@);
            &&& removal is Some
            &&& member(removal->0, "document"@) == Some(JsonView::Text(name))
            &&& is_list_of(member(removal->0, "removedTargetIds"@), id)
            &&& member(removal->0, "readTime"@) == Some(time)
        }),
{
    keys_differ();
    let shown = document_json_spec(doc);
    let one = ids_json(seq![id as int]);
    let none = ids_json(Seq::empty());
    let v0 = object1("document"@, shown);
    began("document"@, shown);
    added(v0, "targetIds"@, one);
    let v1 = with_member(v0, "targetIds"@, one);
    added(v1, "removedTargetIds"@, none);
    began("documentChange"@, with_member(v1, "removedTargetIds"@, none));
    let w0 = object1("document"@, JsonView::Text(name));
    began("document"@, JsonView::Text(name));
    added(w0, "removedTargetIds"@, one);
    let w1 = with_member(w0, "removedTargetIds"@, one);
    added(w1, "readTime"@, time);
    began("documentRemove"@, with_member(w1, "readTime"@, time));
    assert(one->Array_0[0] == integer_json_spec(id as int));
}

/// A message about a target tells what became of it, its number, and the time
/// where there is one.
pub proof fn targets_are_told_to_browsers(kind: Seq<char>, id: i32, time: Option<JsonView>)
    ensures
        ({
            let change = member(
                target_change_json(kind, seq![id as int], time),
                "targetChange"@,
            );
            &&& change is Some
            &&& member(change->0, "targetChangeType"@) == Some(JsonView::Text(kind))
            &&& is_list_of(member(change->0, "targetIds"@), id)
            &&& member(change->0, "readTime"@) == time
        }),
{
    keys_differ();
    let one = ids_json(seq![id as int]);
    let v0 = object1("targetChangeType"@, JsonView::Text(kind));
    began("targetChangeType"@, JsonView::Text(kind));
    added(v0, "targetIds"@, one);
    let v1 = with_member(v0, "targetIds"@, one);
    if time is Some {
        added(v1, "readTime"@, time->0);
        began("targetChange"@, with_member(v1, "readTime"@, time->0));
    } else {
        began("targetChange"@, v1);
    }
    assert(one->Array_0[0] == integer_json_spec(id as int));
}

proof fn changed_told(previous: DocumentsView, docs: Seq<DocumentView>, n: nat, id: i32, i: int)
    requires
        n <= docs.len(),
        0 <= i < n,
        !(lookup(previous, docs[i].name) is Some && json_equal_spec(
            document_json_spec(lookup(previous, docs[i].name)->0),
            document_json_spec(docs[i]),
        )),
    ensures
        changed_messages(previous, docs, n, id).contains(document_change_json(docs[i], id)),
    decreases n,
{
    let m = (n - 1) as nat;
    let before = changed_messages(previous, docs, m, id);
    let all = changed_messages(previous, docs, n, id);
    let wanted = document_change_json(docs[i], id);
    if i < m {
        changed_told(previous, docs, m, id, i);
        let k = choose|k: int| 0 <= k < before.len() && before[k] == wanted;
        assert(all[k] == wanted);
    } else {
        assert(all[before.len() as int] == wanted);
    }
}

proof fn removed_told(
    previous: DocumentsView,
    next: DocumentsView,
    n: nat,
    id: i32,
    time: JsonView,
    i: int,
)
    requires
        n <= previous.len(),
        0 <= i < n,
        lookup(next, previous[i].0) is None,
    ensures
        removed_messages(previous, next, n, id, time).contains(
            document_remove_json(previous[i].0, id, time),
        ),
    decreases n,
{
    let m = (n - 1) as nat;
    let before = removed_messages(previous, next, m, id, time);
    let all = removed_messages(previous, next, n, id, time);
    let wanted = document_remove_json(previous[i].0, id, time);
    if i < m {
        removed_told(previous, next, m, id, time, i);
        let k = choose|k: int| 0 <= k < before.len() && before[k] == wanted;
        assert(all[k] == wanted);
    } else {
        assert(all[before.len() as int] == wanted);
    }
}

/// A browser is told of every document of a target that is new or different,
/// and of every one that it knew and that has left.
pub proof fn browsers_are_told_what_changed(
    previous: DocumentsView,
    docs: Seq<DocumentView>,
    id: i32,
    time: JsonView,
    i: int,
    k: int,
)
    requires
        0 <= i < docs.len(),
        0 <= k < previous.len(),
    ensures
        !(lookup(previous, docs[i].name) is Some && json_equal_spec(
            document_json_spec(lookup(previous, docs[i].name)->0),
            document_json_spec(docs[i]),
        )) ==> target_messages(previous, docs, id, time).contains(
            document_change_json(docs[i], id),
        ),
        lookup(by_name_spec(docs), previous[k].0) is None ==> target_messages(
            previous,
            docs,
            id,
            time,
        ).contains(document_remove_json(previous[k].0, id, time)),
{
    let left = changed_messages(previous, docs, docs.len(), id);
    let right = removed_messages(previous, by_name_spec(docs), previous.len(), id, time);
    let all = target_messages(previous, docs, id, time);
    if !(lookup(previous, docs[i].name) is Some && json_equal_spec(
        document_json_spec(lookup(previous, docs[i].name)->0),
        document_json_spec(docs[i]),
    )) {
        changed_told(previous, docs, docs.len(), id, i);
        let wanted = document_change_json(docs[i], id);
        let j = choose|j: int| 0 <= j < left.len() && left[j] == wanted;
        assert(all[j] == wanted);
    }
    if lookup(by_name_spec(docs), previous[k].0) is None {
        removed_told(previous, by_name_spec(docs), previous.len(), id, time, k);
        let wanted = document_remove_json(previous[k].0, id, time);
        let j = choose|j: int| 0 <= j < right.len() && right[j] == wanted;
        assert(all[left.len() + j] == wanted);
    }
}

/// Messages are sent in their order under numbers that follow each other,
/// behind those that wait already.
pub proof fn messages_are_sent_in_order(s: SessionView, values: Seq<JsonView>, i: int)
    requires
        0 <= i < values.len(),
        s.seq + values.len() <= u64::MAX,
    ensures
        ({
            let after = push_all_spec(s, values);
            let sent = after.messages[s.messages.len() + i];
            &&& after.seq == s.seq + values.len()
            &&& after.messages.len() == s.messages.len() + values.len()
            &&& after.messages.take(s.messages.len() as int) == s.messages
            &&& sent.0 == s.seq + i + 1
            &&& sent.1 is Array && sent.1->Array_0.len() == 2
            &&& sent.1->Array_0[0] == JsonView::Unsigned(sent.0)
            &&& sent.1->Array_0[1] is Array && sent.1->Array_0[1]->Array_0 == seq![values[i]]
            &&& after.targets == s.targets
        }),
    decreases values.len(),
{
    let init = values.drop_last();
    let last = values.len() - 1;
    if last > 0 {
        let j: int = if i < last {
            i
        } else {
            0
        };
        messages_are_sent_in_order(s, init, j);
        let before = push_all_spec(s, init);
        let after = push_all_spec(s, values);
        assert(after == push_spec(before, values.last()));
        assert(after.messages.take(s.messages.len() as int) =~= before.messages.take(
            s.messages.len() as int,
        ));
        if i < last {
            assert(init[i] == values[i]);
            assert(after.messages[s.messages.len() + i] == before.messages[s.messages.len() + i]);
        }
    } else {
        assert(init.len() == 0);
        assert(push_all_spec(s, init) == s);
        let after = push_all_spec(s, values);
        assert(after == push_spec(s, values.last()));
        assert(after.messages.take(s.messages.len() as int) =~= s.messages);
    }
}

/// Acknowledging keeps exactly the messages with higher numbers.
pub proof fn unacknowledged_messages_wait(
    messages: Seq<(u64, JsonView)>,
    aid: u64,
    m: (u64, JsonView),
)
    ensures
        unacknowledged(messages, aid).contains(m) <==> messages.contains(m) && m.0 > aid,
    decreases messages.len(),
{
    if messages.len() > 0 {
        let init = messages.drop_last();
        let last = messages.len() - 1;
        unacknowledged_messages_wait(init, aid, m);
        let before = unacknowledged(init, aid);
        let all = unacknowledged(messages, aid);
        if messages.contains(m) {
            let k = choose|k: int| 0 <= k < messages.len() && messages[k] == m;
            if k < last {
                assert(init[k] == m);
            } else if m.0 > aid {
                assert(all[before.len() as int] == m);
            }
        }
        if init.contains(m) {
            let k = choose|k: int| 0 <= k < init.len() && init[k] == m;
            assert(messages[k] == m);
        }
        if before.contains(m) {
            let k = choose|k: int| 0 <= k < before.len() && before[k] == m;
            assert(all[k] == m);
        }
        if all.contains(m) {
            let k = choose|k: int| 0 <= k < all.len() && all[k] == m;
            if k < before.len() {
                assert(before[k] == m);
            } else {
                assert(messages[last] == m);
            }
        }
    }
}

proof fn pushed(s: Seq<(i32, WebTargetView)>, x: (i32, WebTargetView), y: (i32, WebTargetView))
    ensures
        s.push(x).contains(y) <==> s.contains(y) || x == y,
{
    if s.contains(y) {
        let k = choose|k: int| 0 <= k < s.len() && s[k] == y;
        assert(s.push(x)[k] == y);
    }
    assert(s.push(x)[s.len() as int] == x);
    if s.push(x).contains(y) {
        let k = choose|k: int| 0 <= k < s.push(x).len() && s.push(x)[k] == y;
        if k < s.len() {
            assert(s[k] == y);
        }
    }
}

/// A target that a browser adds is there, the others stay, and one that it
/// removes is gone.
pub proof fn targets_of_browsers_come_and_go(
    targets: Seq<(i32, WebTargetView)>,
    id: i32,
    target: WebTargetView,
    other: (i32, WebTargetView),
)
    ensures
        insert_target(targets, id, target).contains((id, target)),
        other.0 != id ==> (insert_target(targets, id, target).contains(other)
            <==> targets.contains(other)),
        remove_target(targets, id).contains(other) <==> targets.contains(other) && other.0 != id,
    decreases targets.len(),
{
    let new = (id, target);
    if targets.len() == 0 {
        pushed(targets, new, other);
        pushed(targets, new, new);
    } else {
        let init = targets.drop_last();
        let last = targets.last();
        assert(targets =~= init.push(last));
        targets_of_browsers_come_and_go(init, id, target, other);
        pushed(init, last, other);
        pushed(targets, new, other);
        pushed(targets, new, new);
        pushed(init, new, other);
        pushed(init, new, new);
        pushed(insert_target(init, id, target), last, other);
        pushed(insert_target(init, id, target), last, new);
        pushed(remove_target(init, id), last, other);
    }
}

/// A browser that adds a target is told so and gets its documents next; one
/// that removes a target is told so. On a stream of writes the first message
/// opens the stream on its database, and every later one commits its writes.
pub proof fn requests_of_browsers_are_taken(
    s: SessionView,
    sid: Seq<char>,
    message: JsonView,
    target: JsonView,
    n: u64,
)
    requires
        n <= i32::MAX,
    ensures
        member(message, "addTarget"@) == Some(target) && member(target, "targetId"@) == Some(
            JsonView::Unsigned(n),
        ) ==> {
            let (after, step) = accept_spec(s, "Listen"@, sid, message);
            &&& step == Ok::<StepView, StatusView>(StepView::Refresh(n as i32))
            &&& after.targets.contains(
                (n as i32, WebTargetView { spec: target, documents: Seq::empty() }),
            )
            &&& after.messages.len() == s.messages.len() + 1
        },
        member(message, "addTarget"@) is None && member(message, "removeTarget"@) == Some(
            JsonView::Unsigned(n),
        ) ==> {
            let (after, step) = accept_spec(s, "Listen"@, sid, message);
            &&& step is Ok && step->Ok_0 is Done
            &&& forall|k: int|
                0 <= k < after.targets.len() ==> (#[trigger] after.targets[k]).0 != n as i32
            &&& after.messages.len() == s.messages.len() + 1
        },
        !s.write_ready ==> {
            let (after, step) = accept_spec(s, "Write"@, sid, message);
            &&& step is Ok && step->Ok_0 is Done
            &&& after.write_ready
            &&& member(message, "database"@) matches Some(JsonView::Text(database))
                ==> after.database == database
            &&& after.targets == s.targets
        },
        s.write_ready ==> {
            let (after, step) = accept_spec(s, "Write"@, sid, message);
            &&& after == s
            &&& match writes_proto_spec(array_at(message, "writes"@), 0) {
                Ok(writes) => step == Ok::<StepView, StatusView>(
                    StepView::Commit(writes),
                ),
                Err(e) => step == Err::<StepView, StatusView>(e),
            }
        },
{
    reveal_strlit("Listen");
    reveal_strlit("Write");
    assert("Listen"@.len() == 6 && "Write"@.len() == 5);
    let fresh = WebTargetView { spec: target, documents: Seq::empty() };
    targets_of_browsers_come_and_go(s.targets, n as i32, fresh, (n as i32, fresh));
    let rest = remove_target(s.targets, n as i32);
    assert forall|k: int| 0 <= k < rest.len() implies (#[trigger] rest[k]).0 != n as i32 by {
        targets_of_browsers_come_and_go(s.targets, n as i32, fresh, rest[k]);
        assert(rest.contains(rest[k]));
    }
}

/// The writes of a browser change the store as a commit does, in the database
/// of its stream, and the browser is told of the commit. A refused commit
/// changes nothing, and a message that comes again is not processed again.
pub proof fn writes_of_browsers_are_committed(
    store: StoreView,
    s: SessionView,
    sid: Seq<char>,
    message: JsonView,
    writes: Seq<WriteView>,
    now: Timestamp,
    number: u128,
)
    requires
        s.write_ready,
        writes_proto_spec(array_at(message, "writes"@), 0) == Ok::<
            Seq<WriteView>,
            StatusView,
        >(writes),
    ensures
        ({
            let (after, told, changes, outcome) = process_spec(
                store,
                s,
                "Write"@,
                sid,
                message,
                now,
            );
            match commit_spec(store, s.database, writes, Seq::empty(), now) {
                Ok(done) => {
                    &&& after == done.0
                    &&& changes == done.2
                    &&& outcome is Ok
                    &&& told.messages.len() == s.messages.len() + 1
                },
                Err(e) => after == store && changes.len() == 0 && told == s && outcome == Err::<
                    (),
                    StatusView,
                >(e),
            }
        }),
        s.received.contains(number) ==> {
            let (after, told, changes) = post_step(store, s, "Write"@, sid, (number, message), now);
            after == store && changes.len() == 0 && told.messages == s.messages
        },
{
    reveal(post_step);
}

/// Text is framed by its length in units of sixteen bits, in decimal digits, a
/// line's end, and the text itself.
pub proof fn frames_tell_their_length(body: Seq<char>)
    ensures
        ({
            let head = decimal_spec(utf16_len_spec(body));
            &&& all_digits(head)
            &&& digits_value(head) == utf16_len_spec(body)
            &&& frame_spec(body) == head.push('\n') + body
        }),
        body.len() <= utf16_len_spec(body) <= 2 * body.len(),
        (forall|i: int| 0 <= i < body.len() ==> (#[trigger] body[i] as u32) < 0x10000)
            ==> utf16_len_spec(body) == body.len(),
    decreases body.len(),
{
    reveal_strlit("\n");
    decimal_reads_back(utf16_len_spec(body));
    assert(frame_spec(body) =~= decimal_spec(utf16_len_spec(body)).push('\n') + body);
    if body.len() > 0 {
        let rest = body.drop_first();
        frames_tell_their_length(rest);
        if forall|i: int| 0 <= i < body.len() ==> (#[trigger] body[i] as u32) < 0x10000 {
            assert forall|i: int| 0 <= i < rest.len() implies (#[trigger] rest[i] as u32)
                < 0x10000 by {
                assert(rest[i] == body[i + 1]);
            }
            assert((body[0] as u32) < 0x10000);
        }
    }
}

/// The request of a channel is told by its method and its parameters.
pub proof fn channel_requests_are_told(
    rpc: Seq<char>,
    sid: Seq<char>,
    n: nat,
    method: WebMethod,
)
    requires
        rpc == "Listen"@ || rpc == "Write"@,
        n <= u64::MAX,
    ensures
        channel_request_spec(WebMethod::Post, rpc, None, None, None, None) matches Ok(
            RequestView::Open,
        ),
        channel_request_spec(WebMethod::Post, rpc, None, Some(sid), None, None) matches Ok(
            RequestView::Send(id),
        ) && id == sid,
        channel_request_spec(
            WebMethod::Get,
            rpc,
            None,
            Some(sid),
            Some("rpc"@),
            Some(decimal_spec(n)),
        ) matches Ok(RequestView::Poll(id, aid)) && id == sid && aid == n,
        method != WebMethod::Options ==> (channel_request_spec(
            method,
            rpc,
            Some("terminate"@),
            Some(sid),
            None,
            None,
        ) matches Ok(RequestView::Terminate(id)) && id == Some(sid)),
        channel_request_spec(WebMethod::Get, rpc, None, None, None, None) is Err,
        channel_request_spec(WebMethod::Options, rpc, None, None, None, None) matches Ok(
            RequestView::Preflight,
        ),
{
    decimal_reads_back(n);
    let s = decimal_spec(n);
    if s.len() > 0 && s[0] == '+' {
        assert(false);
    }
    assert(acknowledged_number(Some(s)) == n);
}

/// The answer to a handshake carries the session's id, and the answer to
/// messages the last number that was given.
pub proof fn handshakes_carry_the_session(sid: Seq<char>, seq: u64)
    ensures
        handshake_json(sid) matches JsonView::Array(outer) && outer.len() == 1 && (
        outer[0] matches JsonView::Array(pair) && pair.len() == 2 && pair[0] == JsonView::Unsigned(
            0,
        ) && (pair[1] matches JsonView::Array(inner) && inner[0] == JsonView::Text("c"@) && inner[1]
            == JsonView::Text(sid))),
        received_json(seq) matches JsonView::Array(numbers) && numbers.len() == 3 && numbers[1]
            == JsonView::Unsigned(seq),
{
}

/// A document that was asked for is told with its contents, or as missing by
/// its name, and with the time of the read.
pub proof fn reads_are_told(
    doc: DocumentView,
    name: Seq<char>,
    found: BatchGetView,
    missing: BatchGetView,
)
    requires
        found.result == BatchGetResultView::Found(doc),
        missing.result == BatchGetResultView::Missing(name),
    ensures
        member(batch_get_json_of(found), "found"@) == Some(document_json_spec(doc)),
        member(batch_get_json_of(found), "readTime"@) == Some(
            time_json_spec(Some(found.read_time)),
        ),
        member(batch_get_json_of(missing), "missing"@) == Some(JsonView::Text(name)),
        member(batch_get_json_of(missing), "found"@) is None,
        member(batch_get_json_of(missing), "readTime"@) == Some(
            time_json_spec(Some(missing.read_time)),
        ),
{
    keys_differ();
    began("found"@, document_json_spec(doc));
    added(
        object1("found"@, document_json_spec(doc)),
        "readTime"@,
        time_json_spec(Some(found.read_time)),
    );
    began("missing"@, JsonView::Text(name));
    added(
        object1("missing"@, JsonView::Text(name)),
        "readTime"@,
        time_json_spec(Some(missing.read_time)),
    );
}

/// A query tells every document that it found, in order, each with the time;
/// one that found none tells the time alone.
pub proof fn found_documents_are_told(docs: Seq<DocumentView>, now: Timestamp, i: int)
    requires
        0 <= i < docs.len() || docs.len() == 0,
    ensures
        query_json_spec(docs, now) matches JsonView::Array(items) && if docs.len() == 0 {
            items.len() == 1 && member(items[0], "readTime"@) == Some(time_json_spec(Some(now)))
                && member(items[0], "document"@) is None
        } else {
            items.len() == docs.len() && member(items[i], "document"@) == Some(
                document_json_spec(docs[i]),
            ) && member(items[i], "readTime"@) == Some(time_json_spec(Some(now)))
        },
{
    keys_differ();
    let time = time_json_spec(Some(now));
    began("readTime"@, time);
    if docs.len() > 0 {
        began("document"@, document_json_spec(docs[i]));
        added(object1("document"@, document_json_spec(docs[i])), "readTime"@, time);
    }
}

/// A request is told by what its resource ends with: it commits the writes of
/// its body to the database before that, or reads the documents that it names.
/// Without a body, or with another end, it is refused.
pub proof fn rest_requests_are_told(database: Seq<char>, body: JsonView)
    ensures
        ({
            let resource = database + "/documents"@ + ":commit"@;
            match rest_request_spec(resource, Some(body)) {
                Ok(request) => request is Commit && request->Commit_0 == database
                    && writes_proto_spec(array_at(body, "writes"@), 0) == Ok::<
                    Seq<WriteView>,
                    StatusView,
                >(request->Commit_1),
                Err(e) => writes_proto_spec(array_at(body, "writes"@), 0) == Err::<
                    Seq<WriteView>,
                    StatusView,
                >(e),
            }
        }),
        rest_request_spec(database + "/documents"@ + ":batchGet"@, Some(body)) matches Ok(
            RestView::BatchGet(d, names),
        ) && d == database && names == texts_among(array_at(body, "documents"@)),
        rest_request_spec(database, None) is Err,
{
    reveal_strlit("/documents");
    reveal_strlit(":commit");
    reveal_strlit(":batchGet");
    let parent = database + "/documents"@;
    let a = parent + ":commit"@;
    let b = parent + ":batchGet"@;
    assert(":commit"@ =~= a.subrange(a.len() - 7, a.len() as int));
    assert(a.take(a.len() - 7) =~= parent);
    assert(":batchGet"@ =~= b.subrange(b.len() - 9, b.len() as int));
    assert(b.take(b.len() - 9) =~= parent);
    assert("/documents"@ =~= parent.subrange(parent.len() - 10, parent.len() as int));
    assert(parent.take(parent.len() - 10) =~= database);
    assert(b[b.len() - 1] == 't' && b[b.len() - 2] == 'e');
    assert(!":commit"@.is_suffix_of(b)) by {
        if ":commit"@.is_suffix_of(b) {
            assert(b.subrange(b.len() - 7, b.len() as int)[5] == ":commit"@[5]);
        }
    }
}

/// What a message that was sent holds.
pub open spec fn sent(message: (u64, JsonView)) -> JsonView {
    message.1->Array_0[1]->Array_0[0]
}

/// A browser that has added a target gets the messages about its documents,
/// then the message that the target is current, and then the time; and the
/// target knows the documents from then on.
pub proof fn first_documents_are_sent(
    documents: DocumentsView,
    s: SessionView,
    id: i32,
    now: Timestamp,
    docs: Seq<DocumentView>,
    i: int,
)
    requires
        target_index(s.targets, id) < s.targets.len(),
        s.targets[target_index(s.targets, id) as int].0 == id,
        web_target_docs_spec(
            documents,
            s.targets[target_index(s.targets, id) as int].1.spec,
        ) == Ok::<Seq<DocumentView>, StatusView>(docs),
        s.seq + docs.len() + 2 <= u64::MAX,
        0 <= i < docs.len(),
        s.targets[target_index(s.targets, id) as int].1.documents.len() == 0,
    ensures
        ({
            let k = target_index(s.targets, id) as int;
            let (after, outcome) = refresh_initial_spec(documents, s, id, now);
            let time = time_json_spec(Some(now));
            let told = target_messages(Seq::empty(), docs, id, time);
            let n = s.messages.len();
            &&& outcome is Ok
            &&& after.targets[k].0 == id
            &&& after.targets[k].1.spec == s.targets[k].1.spec
            &&& after.targets[k].1.documents == by_name_spec(docs)
            &&& after.messages.len() == n + told.len() + 2
            &&& told.contains(document_change_json(docs[i], id))
            &&& forall|j: int|
                #![trigger after.messages[n + j]]
                0 <= j < told.len() ==> sent(after.messages[n + j]) == told[j]
            &&& sent(after.messages[(n + told.len()) as int]) == target_change_json(
                "CURRENT"@,
                seq![id as int],
                Some(time),
            )
            &&& sent(after.messages[(n + told.len() + 1) as int]) == target_change_json(
                "NO_CHANGE"@,
                Seq::empty(),
                Some(time),
            )
        }),
{
    let k = target_index(s.targets, id) as int;
    let time = time_json_spec(Some(now));
    let target = s.targets[k].1;
    assert(target.documents =~= Seq::empty());
    let told = target_messages(Seq::empty(), docs, id, time);
    let next = WebTargetView { spec: target.spec, documents: by_name_spec(docs) };
    let moved = SessionView { targets: s.targets.update(k, (id, next)), ..s };
    changed_told(Seq::empty(), docs, docs.len(), id, i);
    let left = changed_messages(Seq::empty(), docs, docs.len(), id);
    let right = removed_messages(Seq::empty(), by_name_spec(docs), 0, id, time);
    assert(right.len() == 0);
    assert(told =~= left);
    changed_is_short(Seq::empty(), docs, docs.len(), id);
    let pushed_all = push_all_spec(moved, told);
    assert forall|j: int| #![trigger pushed_all.messages[s.messages.len() + j]] 0 <= j
        < told.len() implies sent(pushed_all.messages[s.messages.len() + j]) == told[j] by {
        messages_are_sent_in_order(moved, told, j);
    }
    messages_are_sent_in_order(moved, told, 0);
}

proof fn changed_is_short(previous: DocumentsView, docs: Seq<DocumentView>, n: nat, id: i32)
    requires
        n <= docs.len(),
    ensures
        changed_messages(previous, docs, n, id).len() <= n,
    decreases n,
{
    if n > 0 {
        changed_is_short(previous, docs, (n - 1) as nat, id);
    }
}

} // verus!
