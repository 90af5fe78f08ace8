//! What files of variables say, how events are delivered, and what functions
//! are handed.
use crate::account_laws::{added, began};
use crate::dotenv::{is_variable, line_spec, overlaid_values, overridden, LineView};
use crate::firestore::{child_name_spec, document_id_spec, outside_database};
use crate::json::{empty_object, member, object1, with_member, JsonView};
use crate::multipart::{
    find_spec, found_is_first, is_white_spec, skip_back, skip_front, trim_spec, white,
};
use crate::ordered::{keys_sorted, lookup, lookup_after_put, lookup_at, put_sorted};
use crate::outbox::{
    acknowledged, burst_spec, claimable_index, claimed, expendable_spec, failed, failure_json,
    finished, is_claimable, joined_errors, recovered, refused, status_json, taken, EventState,
    HubView, OutboxRow, QueueStep,
};
use crate::text::{after_prefix, decimal_spec, padded_spec, split_once_spec};
use crate::timestamps::{clamp_seconds, millis_at_spec};
use crate::triggers::{
    event_kind_spec, injected_spec, node_fits, repeated_name, reported_major, FunctionView,
};
use crate::workers::worker_arguments_spec;
use vstd::prelude::*;

verus! {

proof fn bare_ends(s: Seq<char>)
    requires
        s.len() > 0,
        !is_white_spec(s[0]),
        !is_white_spec(s.last()),
    ensures
        trim_spec(s) == s,
        skip_front(s, white()) == s,
        skip_back(s, white()) == s,
{
}

proof fn names_are_not_white(key: Seq<char>, i: int)
    requires
        is_variable(key),
        0 <= i < key.len(),
    ensures
        !is_white_spec(key[i]),
        key[i] != '=' && key[i] != '#' && key[i] != ' ',
{
    assert(crate::dotenv::is_variable_char(key[i]));
}

proof fn split_behind_name(key: Seq<char>, rest: Seq<char>)
    requires
        is_variable(key),
    ensures
        split_once_spec(key.push('=') + rest, '=') == Some((key, rest)),
{
    let line = key.push('=') + rest;
    let n = key.len() as int;
    assert(line[n] == '=');
    assert(line.contains('='));
    assert forall|i: int| 0 <= i < n implies line[i] != '=' by {
        names_are_not_white(key, i);
        assert(line[i] == key[i]);
    }
    line.index_of_first_ensures('=');
    let k = line.index_of_first('=').unwrap();
    assert(k == n);
    assert(line.take(n) =~= key);
    assert(line.skip(n + 1) =~= rest);
}

proof fn assignment_is_read(key: Seq<char>, rest: Seq<char>)
    requires
        is_variable(key),
        rest.len() > 0,
        !is_white_spec(rest.last()),
    ensures
        line_spec(key.push('=') + rest) == LineView::Assign(key, crate::dotenv::value_spec(rest)),
{
    let line = key.push('=') + rest;
    names_are_not_white(key, 0);
    assert(line[0] == key[0]);
    assert(line.last() == rest.last());
    bare_ends(line);
    names_are_not_white(key, key.len() - 1);
    bare_ends(key);
    reveal_strlit("export ");
    assert(after_prefix(line, "export "@) is None) by {
        if "export "@.is_prefix_of(line) {
            assert(line.subrange(0, 7)[6] == "export "@[6]);
            assert(line[6] == ' ');
            if key.len() > 6 {
                names_are_not_white(key, 6);
            } else {
                let n = key.len() as int;
                assert(line[n] == '=');
                assert(line.subrange(0, 7)[n] == "export "@[n]);
            }
        }
    }
    split_behind_name(key, rest);
}

/// A line that assigns a plain value to a name gives the name that value.
pub proof fn plain_values_are_read(key: Seq<char>, value: Seq<char>)
    requires
        is_variable(key),
        value.len() > 0,
        !is_white_spec(value[0]),
        !is_white_spec(value.last()),
        value[0] != '"' && value[0] != '\'',
        forall|i: int| 0 <= i < value.len() ==> #[trigger] value[i] != '#',
    ensures
        line_spec(key.push('=') + value) == LineView::Assign(key, value),
{
    assignment_is_read(key, value);
    bare_ends(value);
    reveal_strlit(" #");
    found_is_first(value, " #"@, 0);
    if let Some(k) = find_spec(value, " #"@, 0) {
        assert(value.subrange(k, k + 2)[1] == " #"@[1]);
        assert(value[k + 1] == '#');
    }
}

/// A line that assigns a value between quotation marks gives the name what
/// stands between them, whatever it is.
pub proof fn quoted_values_are_read(key: Seq<char>, value: Seq<char>)
    requires
        is_variable(key),
    ensures
        line_spec(key.push('=') + seq!['"'] + value + seq!['"']) == LineView::Assign(key, value),
        line_spec(key.push('=') + seq!['\''] + value + seq!['\'']) == LineView::Assign(key, value),
{
    let a = seq!['"'] + value + seq!['"'];
    assert(key.push('=') + seq!['"'] + value + seq!['"'] =~= key.push('=') + a);
    assignment_is_read(key, a);
    bare_ends(a);
    assert(a.subrange(1, a.len() - 1) =~= value);
    let b = seq!['\''] + value + seq!['\''];
    assert(key.push('=') + seq!['\''] + value + seq!['\''] =~= key.push('=') + b);
    assignment_is_read(key, b);
    bare_ends(b);
    assert(b.subrange(1, b.len() - 1) =~= value);
}

/// A comment says nothing, and a line without an equals sign is no assignment.
pub proof fn comments_say_nothing(text: Seq<char>)
    requires
        text.len() > 0,
        !is_white_spec(text.last()),
    ensures
        line_spec(seq!['#'] + text) is Blank,
        line_spec(Seq::empty()) is Blank,
        !is_white_spec(text[0]) && text[0] != '#' && !text.contains('=') && after_prefix(
            text,
            "export "@,
        ) is None ==> line_spec(text) is Malformed,
{
    let line = seq!['#'] + text;
    assert(line[0] == '#');
    assert(line.last() == text.last());
    bare_ends(line);
    if !is_white_spec(text[0]) {
        bare_ends(text);
    }
}

/// The environment overrides a variable that it sets and no other.
pub proof fn environments_override(
    values: Seq<(Seq<char>, Seq<char>)>,
    environment: Seq<(Seq<char>, Seq<char>)>,
    i: int,
)
    requires
        0 <= i < values.len(),
    ensures
        overridden(values, environment).len() == values.len(),
        overridden(values, environment)[i].0 == values[i].0,
        lookup(environment, values[i].0) matches Some(set) ==> overridden(values, environment)[i].1
            == set,
        lookup(environment, values[i].0) is None ==> overridden(values, environment)[i].1
            == values[i].1,
{
}

/// Variables that are put over others take their place, and the others stay.
pub proof fn later_values_override(
    values: Seq<(Seq<char>, Seq<char>)>,
    more: Seq<(Seq<char>, Seq<char>)>,
    n: nat,
    key: Seq<char>,
)
    requires
        keys_sorted(values),
        keys_sorted(more),
        n <= more.len(),
    ensures
        keys_sorted(overlaid_values(values, more, n)),
        (forall|i: int| 0 <= i < n ==> (#[trigger] more[i]).0 != key) ==> lookup(
            overlaid_values(values, more, n),
            key,
        ) == lookup(values, key),
        forall|i: int|
            0 <= i < n && (#[trigger] more[i]).0 == key ==> lookup(
                overlaid_values(values, more, n),
                key,
            ) == Some(more[i].1),
    decreases n,
{
    if n > 0 {
        let m = (n - 1) as nat;
        later_values_override(values, more, m, key);
        let before = overlaid_values(values, more, m);
        put_sorted(before, more[m as int].0, more[m as int].1);
        lookup_after_put(before, more[m as int].0, more[m as int].1, key);
        assert forall|i: int| 0 <= i < n && (#[trigger] more[i]).0 == key implies lookup(
            overlaid_values(values, more, n),
            key,
        ) == Some(more[i].1) by {
            if i < m && more[m as int].0 == key {
                lookup_at(more, i);
                lookup_at(more, m as int);
            }
        }
    }
}

/// The event that is delivered next is the first one whose time has come or
/// whose lease has run out. It is leased for five seconds, and its attempts are
/// counted.
pub proof fn due_events_are_delivered_in_turn(rows: Seq<OutboxRow>, now: i64, i: int)
    requires
        0 <= i <= rows.len(),
    ensures
        match claimable_index(rows, now, i) {
            Some(k) => {
                &&& i <= k < rows.len()
                &&& (rows[k].state == EventState::Pending && rows[k].available_at <= now) || (
                rows[k].state == EventState::InFlight && rows[k].lease_until is Some
                    && rows[k].lease_until->0 <= now)
                &&& forall|j: int| i <= j < k ==> !is_claimable(#[trigger] rows[j], now)
                &&& claimed(rows[k], now).id == rows[k].id
                &&& claimed(rows[k], now).state == EventState::InFlight
                &&& now <= i64::MAX - 5 ==> claimed(rows[k], now).lease_until == Some(
                    (now + 5) as i64,
                )
            },
            None => forall|j: int|
                i <= j < rows.len() ==> !is_claimable(#[trigger] rows[j], now),
        },
    decreases rows.len() - i,
{
    if i < rows.len() && !is_claimable(rows[i], now) {
        due_events_are_delivered_in_turn(rows, now, i + 1);
    }
}

/// An event that was delivered is done with; one whose delivery failed waits
/// for one second after the first attempt, two after the second, four after the
/// third and eight after the fourth, and has failed for good after the fifth.
pub proof fn failed_events_wait_longer(row: OutboxRow, now: i64)
    requires
        row.state == EventState::InFlight,
        now <= i64::MAX - 100,
    ensures
        acknowledged(row).state == EventState::Delivered && acknowledged(row).lease_until is None,
        recovered(row).state == EventState::Pending && recovered(row).available_at
            == row.available_at,
        row.attempts == 1 ==> failed(row, now).available_at == now + 1,
        row.attempts == 2 ==> failed(row, now).available_at == now + 2,
        row.attempts == 3 ==> failed(row, now).available_at == now + 4,
        row.attempts == 4 ==> failed(row, now).available_at == now + 8,
        row.attempts < 5 ==> failed(row, now).state == EventState::Pending && failed(
            row,
            now,
        ).lease_until is None,
        row.attempts >= 5 ==> failed(row, now).state == EventState::Failed,
{
}

/// Of the events that are done with, all but the newest thousand go.
pub proof fn newest_events_are_kept(ids: Seq<i64>, i: int)
    requires
        0 <= i < ids.len(),
    ensures
        expendable_spec(ids).len() == if ids.len() > 1000 {
            ids.len() - 1000
        } else {
            0
        },
        i < expendable_spec(ids).len() ==> expendable_spec(ids)[i] == ids[i],
{
}

/// What has failed is told with the event's number and the reason, and an
/// event's end is counted once, with a failure where there was one.
pub proof fn failures_are_told(h: HubView, id: u64, error: Seq<char>)
    requires
        h.pending > 0,
    ensures
        member(failure_json(Some(id), error), "eventId"@) == Some(JsonView::Unsigned(id)),
        member(failure_json(Some(id), error), "error"@) == Some(JsonView::Text(error)),
        member(failure_json(None, error), "eventId"@) == Some(JsonView::Null),
        finished(h, id, None).failures == h.failures,
        finished(h, id, Some(error)).failures == h.failures.push(failure_json(Some(id), error)),
        finished(h, id, None).pending == h.pending - 1,
        finished(h, id, None).completed == h.completed + 1,
        finished(h, id, Some(error)).completed == h.completed + 1,
        refused(h, id, error).failures == h.failures.push(failure_json(Some(id), error)),
        refused(h, id, error).pending == h.pending - 1,
        refused(h, id, error).completed == h.completed,
        taken(h).pending == h.pending + 1,
        taken(h).sequence == h.sequence + 1,
{
    reveal_strlit("eventId");
    reveal_strlit("error");
    assert("eventId"@.len() == 7 && "error"@.len() == 5);
    began("eventId"@, JsonView::Unsigned(id));
    began("eventId"@, JsonView::Null);
    added(object1("eventId"@, JsonView::Unsigned(id)), "error"@, JsonView::Text(error));
    added(object1("eventId"@, JsonView::Null), "error"@, JsonView::Text(error));
}

/// The status tells how many events wait and how many are done with, of both
/// kinds together, and every failure.
pub proof fn statuses_add_up(
    h: HubView,
    pending: u64,
    completed: u64,
    failures: Seq<JsonView>,
)
    requires
        h.pending + pending <= u64::MAX,
        h.completed + completed <= u64::MAX,
    ensures
        ({
            let v = status_json(h, pending, completed, failures);
            &&& member(v, "pending"@) matches Some(JsonView::Unsigned(n)) && n == h.pending
                + pending
            &&& member(v, "completed"@) matches Some(JsonView::Unsigned(n)) && n == h.completed
                + completed
            &&& member(v, "failures"@) == Some(JsonView::Array(h.failures + failures))
        }),
{
    reveal_strlit("pending");
    reveal_strlit("completed");
    reveal_strlit("failures");
    assert("pending"@.len() == 7 && "completed"@.len() == 9 && "failures"@.len() == 8);
    let p = JsonView::Unsigned((h.pending + pending) as u64);
    let c = JsonView::Unsigned((h.completed + completed) as u64);
    let v0 = object1("pending"@, p);
    began("pending"@, p);
    added(v0, "completed"@, c);
    added(with_member(v0, "completed"@, c), "failures"@, JsonView::Array(h.failures + failures));
}

/// A burst is at most thirty-two deliveries long, and ends where nothing is due.
pub proof fn bursts_end(burst: u32)
    requires
        burst < 32,
    ensures
        burst_spec(burst, false) == (0u32, QueueStep::Direct { pause: false }),
        burst == 31 ==> burst_spec(burst, true) == (0u32, QueueStep::Direct { pause: true }),
        burst < 31 ==> burst_spec(burst, true) == ((burst + 1) as u32, QueueStep::Durable),
{
}

/// No errors make no message, one error is the message, and of two both stand
/// in it.
pub proof fn errors_are_joined(a: Seq<char>, b: Seq<char>)
    ensures
        joined_errors(Seq::empty()) is None,
        joined_errors(seq![a]) == Some(a),
        joined_errors(seq![a, b]) == Some(a + "; "@ + b),
{
    assert(seq![a, b].drop_last() =~= seq![a]);
}

/// A change that makes a document is a creation, one that removes it a
/// deletion, and any other an update.
pub proof fn kinds_of_changes_are_told()
    ensures
        event_kind_spec(false, true) == "create"@,
        event_kind_spec(true, false) == "delete"@,
        event_kind_spec(true, true) == "update"@,
{
}

/// A message that is injected holds the encoded text of its data, its
/// attributes, an id made of its number, and the time; without data it is
/// refused.
pub proof fn injected_messages_hold_their_data(
    topic: Seq<char>,
    body: JsonView,
    id: u64,
    time: Seq<char>,
)
    ensures
        member(body, "data"@) is None ==> injected_spec(topic, body, id, time) is Err,
        topic.len() == 0 ==> injected_spec(topic, body, id, time) is Err,
        injected_spec(topic, body, id, time) matches Ok(v) ==> {
            &&& member(v, "data"@) == Some(
                JsonView::Text(
                    crate::encoding::base64_text(
                        vstd::utf8::encode_utf8(
                            crate::json::text_of_json(member(body, "data"@)->0),
                        ),
                    ),
                ),
            )
            &&& member(body, "attributes"@) is Some ==> member(v, "attributes"@) == member(
                body,
                "attributes"@,
            )
            &&& member(v, "messageId"@) == Some(JsonView::Text("rust-"@ + decimal_spec(id as nat)))
            &&& member(v, "publishTime"@) == Some(JsonView::Text(time))
        },
{
    reveal_strlit("data");
    reveal_strlit("attributes");
    reveal_strlit("messageId");
    reveal_strlit("publishTime");
    assert("data"@.len() == 4 && "attributes"@.len() == 10);
    assert("messageId"@.len() == 9 && "publishTime"@.len() == 11);
    if injected_spec(topic, body, id, time) is Ok {
        let data = JsonView::Text(
            crate::encoding::base64_text(
                vstd::utf8::encode_utf8(crate::json::text_of_json(member(body, "data"@)->0)),
            ),
        );
        let attributes = match member(body, "attributes"@) {
            Some(a) => a,
            None => empty_object(),
        };
        let name = JsonView::Text("rust-"@ + decimal_spec(id as nat));
        let v0 = object1("data"@, data);
        began("data"@, data);
        added(v0, "attributes"@, attributes);
        let v1 = with_member(v0, "attributes"@, attributes);
        added(v1, "messageId"@, name);
        added(with_member(v1, "messageId"@, name), "publishTime"@, JsonView::Text(time));
    }
}

/// A name that two functions have is found, and none is where every function
/// has its own.
pub proof fn repeated_names_are_found(
    names: Seq<Seq<char>>,
    functions: Seq<FunctionView>,
    i: int,
)
    requires
        0 <= i <= functions.len(),
    ensures
        match repeated_name(names, functions, i) {
            Some(name) => exists|k: int|
                i <= k < functions.len() && (#[trigger] functions[k]).name == name && (
                names.contains(name) || exists|j: int|
                    i <= j < k && (#[trigger] functions[j]).name == name),
            None => forall|k: int|
                i <= k < functions.len() ==> !names.contains((#[trigger] functions[k]).name),
        },
    decreases functions.len() - i,
{
    if i < functions.len() && !names.contains(functions[i].name) {
        let more = names.push(functions[i].name);
        repeated_names_are_found(more, functions, i + 1);
        match repeated_name(more, functions, i + 1) {
            Some(name) => {
                let k = choose|k: int|
                    i + 1 <= k < functions.len() && (#[trigger] functions[k]).name == name && (
                    more.contains(name) || exists|j: int|
                        i + 1 <= j < k && (#[trigger] functions[j]).name == name);
                assert(functions[k].name == name);
                if more.contains(name) && !names.contains(name) {
                    let m = choose|m: int| 0 <= m < more.len() && more[m] == name;
                    if m < names.len() {
                        assert(names[m] == name);
                    }
                    assert(functions[i].name == name);
                }
            },
            None => {
                assert forall|k: int| i <= k < functions.len() implies !names.contains(
                    (#[trigger] functions[k]).name,
                ) by {
                    if k > i && names.contains(functions[k].name) {
                        let m = choose|m: int|
                            0 <= m < names.len() && names[m] == functions[k].name;
                        assert(more[m] == functions[k].name);
                    }
                }
            },
        }
    }
}

/// Only the supported versions of Node fit.
pub proof fn supported_versions_fit(version: Seq<char>, runtime: Seq<char>)
    ensures
        node_fits(version, runtime) ==> reported_major(version) == "18"@ || reported_major(version)
            == "20"@ || reported_major(version) == "22"@,
        node_fits(version, "18"@) || node_fits(version, "nodejs18"@) ==> reported_major(version)
            == "18"@,
        node_fits(version, "20"@) || node_fits(version, "nodejs20"@) ==> reported_major(version)
            == "20"@,
        node_fits(version, "22"@) || node_fits(version, "nodejs22"@) ==> reported_major(version)
            == "22"@,
        reported_major(version) == "20"@ ==> node_fits(version, "nodejs20"@) && node_fits(
            version,
            "20"@,
        ),
        reported_major(version) == "22"@ ==> node_fits(version, "nodejs22"@) && node_fits(
            version,
            "22"@,
        ),
        reported_major(version) == "18"@ ==> node_fits(version, "nodejs18"@) && node_fits(
            version,
            "18"@,
        ),
{
    reveal_strlit("nodejs");
    reveal_strlit("18");
    reveal_strlit("20");
    reveal_strlit("22");
    reveal_strlit("nodejs18");
    reveal_strlit("nodejs20");
    reveal_strlit("nodejs22");
    reveal_with_fuel(crate::triggers::major_spec, 3);
    assert("nodejs18"@.skip(6) =~= "18"@);
    assert("nodejs20"@.skip(6) =~= "20"@);
    assert("nodejs22"@.skip(6) =~= "22"@);
    assert("nodejs"@ =~= "nodejs18"@.subrange(0, 6));
    assert("nodejs"@ =~= "nodejs20"@.subrange(0, 6));
    assert("nodejs"@ =~= "nodejs22"@.subrange(0, 6));
}

/// A worker is told its project, and its target and its manifest where it has
/// them, each behind the word for it.
pub proof fn workers_are_told_their_project(
    project: Seq<char>,
    target: Seq<char>,
    manifest: Seq<char>,
)
    ensures
        worker_arguments_spec(project, None, None) == seq!["--project"@, project],
        worker_arguments_spec(project, Some(target), None) == seq![
            "--project"@,
            project,
            "--target"@,
            target,
        ],
        worker_arguments_spec(project, None, Some(manifest)) == seq![
            "--project"@,
            project,
            "--manifest"@,
            manifest,
        ],
        worker_arguments_spec(project, Some(target), Some(manifest)) == seq![
            "--project"@,
            project,
            "--target"@,
            target,
            "--manifest"@,
            manifest,
        ],
{
    assert(worker_arguments_spec(project, Some(target), Some(manifest)) =~= seq![
        "--project"@,
        project,
        "--target"@,
        target,
        "--manifest"@,
        manifest,
    ]);
}

/// Times in milliseconds are exact as long as they fit.
pub proof fn milliseconds_are_counted(seconds: nat, nanos: nat)
    requires
        seconds < 1_000_000_000_000,
        nanos < 1_000_000_000,
    ensures
        millis_at_spec(seconds, nanos) * 1_000_000 <= seconds * 1_000_000_000 + nanos,
        seconds * 1_000_000_000 + nanos < (millis_at_spec(seconds, nanos) + 1) * 1_000_000,
        clamp_seconds(seconds) == seconds,
{
}

/// A new document stands below its parent and its collection, under the id that
/// was asked for or under one that counts upward.
pub proof fn new_documents_have_their_names(
    parent: Seq<char>,
    collection: Seq<char>,
    id: Seq<char>,
    counter: nat,
)
    requires
        parent.len() > 0,
        parent.last() != '/',
        id.len() > 0,
    ensures
        document_id_spec(id, counter) == id,
        child_name_spec(parent, collection, id) == parent + "/"@ + collection + "/"@ + id,
        document_id_spec(Seq::empty(), counter) == "auto-"@ + padded_spec(counter, 20),
        decimal_spec(counter).len() <= 20 ==> padded_spec(counter, 20).len() == 20,
{
}

/// Clearing a database forgets its transactions and no others.
pub proof fn cleared_databases_forget_their_transactions(
    transactions: Map<Seq<u8>, Seq<char>>,
    database: Seq<char>,
    token: Seq<u8>,
)
    requires
        transactions.dom().contains(token),
    ensures
        outside_database(transactions, database).dom().contains(token) <==> transactions[token]
            != database,
        transactions[token] != database ==> outside_database(transactions, database)[token]
            == transactions[token],
{
}

} // verus!
