//! Browser channels: the messages that a session holds until its client
//! acknowledges them, and the targets that it watches.
use crate::document::{Document, DocumentView};
use crate::encoding::{base64_encode, base64_text};
use crate::json::{
    array_at, as_integer_spec, as_text_spec, at, integer_json_spec, items_view, json_equal,
    json_equal_reflexive, json_equal_spec, member, object1, text_at, text_of_json, with_member,
    Json, JsonView,
};
use crate::listen::{by_name, by_name_spec, documents_by_name, named_documents};
use crate::ordered::{
    keys_sorted, lookup, lookup_after_put, lookup_at, put_sorted, OrderedMap,
};
use crate::query::{docs_result, docs_view, query_docs, query_docs_spec, query_finds_no_more};
use crate::status::{invalid, unit_result, Code, Status, StatusView};
use crate::text::{decimal, decimal_spec, same};
use crate::value::{values_view, Timestamp};
use crate::web_form::{frame, frame_spec};
use crate::web_requests::{
    query_proto, query_proto_spec, texts_among, texts_under, writes_proto, writes_proto_spec,
};
use crate::web_values::{
    document_json, document_json_spec, single, text_under, time_json, time_json_spec, value_json,
    values_json_spec,
};
use crate::writes::{results_view, writes_view, DocumentsView, Write, WriteResult, WriteResultView, WriteView};
use vstd::prelude::*;
use vstd::utf8::encode_utf8;

verus! {

/// A target that a channel watches, and the documents that its client knows.
pub struct WebTarget {
    pub spec: Json,
    pub documents: OrderedMap<Document>,
}

/// What a [`WebTarget`] stands for.
#[verifier::ext_equal]
pub struct WebTargetView {
    pub spec: JsonView,
    pub documents: DocumentsView,
}

impl View for WebTarget {
    type V = WebTargetView;

    open spec fn view(&self) -> WebTargetView {
        WebTargetView { spec: self.spec@, documents: self.documents@ }
    }
}

/// The state of a channel: its last message, the messages not acknowledged
/// yet, its targets by number, the requests it has received, whether its
/// stream of writes is open, and its database.
pub struct Session {
    pub seq: u64,
    pub messages: Vec<(u64, Json)>,
    pub targets: Vec<(i32, WebTarget)>,
    pub received: Vec<u128>,
    pub write_ready: bool,
    pub database: String,
}

/// What a [`Session`] stands for.
#[verifier::ext_equal]
pub struct SessionView {
    pub seq: nat,
    pub messages: Seq<(u64, JsonView)>,
    pub targets: Seq<(i32, WebTargetView)>,
    pub received: Set<u128>,
    pub write_ready: bool,
    pub database: Seq<char>,
}

/// The view of a list of messages.
pub open spec fn messages_view(messages: Seq<(u64, Json)>) -> Seq<(u64, JsonView)> {
    messages.map_values(|m: (u64, Json)| (m.0, m.1@))
}

/// The view of a list of targets.
pub open spec fn targets_view(targets: Seq<(i32, WebTarget)>) -> Seq<(i32, WebTargetView)> {
    targets.map_values(|t: (i32, WebTarget)| (t.0, t.1@))
}

impl View for Session {
    type V = SessionView;

    open spec fn view(&self) -> SessionView {
        SessionView {
            seq: self.seq as nat,
            messages: messages_view(self.messages@),
            targets: targets_view(self.targets@),
            received: self.received@.to_set(),
            write_ready: self.write_ready,
            database: self.database@,
        }
    }
}

/// A number and what is sent under it.
pub open spec fn envelope(seq: nat, value: JsonView) -> JsonView {
    JsonView::Array(seq![integer_json_spec(seq as int), JsonView::Array(seq![value])])
}

/// A session that has sent one more message.
pub open spec fn push_spec(s: SessionView, value: JsonView) -> SessionView {
    SessionView {
        seq: s.seq + 1,
        messages: s.messages.push(((s.seq + 1) as u64, envelope(s.seq + 1, value))),
        ..s
    }
}

/// A session that has sent several messages more.
pub open spec fn push_all_spec(s: SessionView, values: Seq<JsonView>) -> SessionView
    decreases values.len(),
{
    if values.len() == 0 {
        s
    } else {
        push_spec(push_all_spec(s, values.drop_last()), values.last())
    }
}

proof fn push_all_counts(s: SessionView, values: Seq<JsonView>)
    ensures
        push_all_spec(s, values).seq == s.seq + values.len(),
        push_all_spec(s, values).targets == s.targets,
        push_all_spec(s, values).received == s.received,
        push_all_spec(s, values).write_ready == s.write_ready,
        push_all_spec(s, values).database == s.database,
    decreases values.len(),
{
    if values.len() > 0 {
        push_all_counts(s, values.drop_last());
    }
}

/// The messages whose numbers are above `aid`.
pub open spec fn unacknowledged(messages: Seq<(u64, JsonView)>, aid: u64) -> Seq<(u64, JsonView)>
    decreases messages.len(),
{
    if messages.len() == 0 {
        Seq::empty()
    } else {
        let rest = unacknowledged(messages.drop_last(), aid);
        if messages.last().0 > aid {
            rest.push(messages.last())
        } else {
            rest
        }
    }
}

/// The contents of a list of messages.
pub open spec fn contents(messages: Seq<(u64, JsonView)>) -> Seq<JsonView> {
    messages.map_values(|m: (u64, JsonView)| m.1)
}

/// A session after its client has acknowledged the messages up to `aid`.
pub open spec fn acknowledged(s: SessionView, aid: u64) -> SessionView {
    SessionView { messages: unacknowledged(s.messages, aid), ..s }
}

/// What is sent of the messages that wait: all of them in one frame.
pub open spec fn waiting(s: SessionView) -> Option<Seq<char>> {
    if s.messages.len() == 0 {
        None
    } else {
        Some(frame_spec(text_of_json(JsonView::Array(contents(s.messages)))))
    }
}

/// Whether the messages of a session are numbered upward to its last one.
pub open spec fn numbered_upward(s: SessionView) -> bool {
    &&& forall|i: int, j: int|
        0 <= i < j < s.messages.len() ==> (#[trigger] s.messages[i]).0 < (#[trigger] s.messages[j]).0
    &&& forall|i: int| 0 <= i < s.messages.len() ==> (#[trigger] s.messages[i]).0 <= s.seq
}

proof fn unacknowledged_members(messages: Seq<(u64, JsonView)>, aid: u64, i: int)
    requires
        0 <= i < unacknowledged(messages, aid).len(),
    ensures
        unacknowledged(messages, aid)[i].0 > aid,
        exists|j: int|
            0 <= j < messages.len() && #[trigger] messages[j] == unacknowledged(messages, aid)[i],
    decreases messages.len(),
{
    let shorter = messages.drop_last();
    let rest = unacknowledged(shorter, aid);
    if i < rest.len() {
        unacknowledged_members(shorter, aid, i);
        let j = choose|j: int| 0 <= j < shorter.len() && #[trigger] shorter[j] == rest[i];
        assert(messages[j] == rest[i]);
    } else {
        assert(messages[messages.len() - 1] == unacknowledged(messages, aid)[i]);
    }
}

proof fn unacknowledged_upward(s: SessionView, n: nat, aid: u64)
    requires
        numbered_upward(s),
        n <= s.messages.len(),
    ensures
        ({
            let kept = unacknowledged(s.messages.take(n as int), aid);
            forall|i: int, j: int|
                0 <= i < j < kept.len() ==> (#[trigger] kept[i]).0 < (#[trigger] kept[j]).0
        }),
    decreases n,
{
    if n > 0 {
        unacknowledged_upward(s, (n - 1) as nat, aid);
        let all = s.messages.take(n as int);
        assert(all.drop_last() =~= s.messages.take(n - 1));
        let rest = unacknowledged(all.drop_last(), aid);
        let kept = unacknowledged(all, aid);
        assert forall|i: int, j: int| 0 <= i < j < kept.len() implies (#[trigger] kept[i]).0 < (
        #[trigger] kept[j]).0 by {
            if j == rest.len() {
                unacknowledged_members(all.drop_last(), aid, i);
                let k = choose|k: int|
                    0 <= k < all.drop_last().len() && #[trigger] all.drop_last()[k] == rest[i];
                assert(s.messages[k] == rest[i]);
                assert(s.messages[k].0 < s.messages[n - 1].0);
            }
        }
    }
}

/// Sending and acknowledging keep the messages numbered upward.
pub proof fn messages_stay_numbered(s: SessionView, value: JsonView, aid: u64)
    requires
        numbered_upward(s),
        s.seq < u64::MAX,
    ensures
        numbered_upward(push_spec(s, value)),
        numbered_upward(acknowledged(s, aid)),
{
    assert(s.messages.take(s.messages.len() as int) =~= s.messages);
    unacknowledged_upward(s, s.messages.len(), aid);
    let kept = acknowledged(s, aid);
    assert forall|i: int| 0 <= i < kept.messages.len() implies (#[trigger] kept.messages[i]).0
        <= kept.seq by {
        unacknowledged_members(s.messages, aid, i);
    }
}

proof fn all_unacknowledged(messages: Seq<(u64, JsonView)>, aid: u64)
    requires
        forall|i: int| 0 <= i < messages.len() ==> (#[trigger] messages[i]).0 > aid,
    ensures
        unacknowledged(messages, aid) == messages,
    decreases messages.len(),
{
    if messages.len() > 0 {
        let shorter = messages.drop_last();
        assert forall|i: int| 0 <= i < shorter.len() implies (#[trigger] shorter[i]).0 > aid by {
            assert(messages[i].0 > aid);
        }
        all_unacknowledged(shorter, aid);
        assert(messages[messages.len() - 1].0 > aid);
        assert(shorter.push(messages.last()) =~= messages);
    } else {
        assert(unacknowledged(messages, aid) =~= messages);
    }
}

/// A client that asks again with the same acknowledgement is sent the same
/// messages again.
pub proof fn messages_are_replayed(s: SessionView, aid: u64)
    ensures
        acknowledged(acknowledged(s, aid), aid) == acknowledged(s, aid),
        waiting(acknowledged(acknowledged(s, aid), aid)) == waiting(acknowledged(s, aid)),
{
    let kept = unacknowledged(s.messages, aid);
    assert forall|i: int| 0 <= i < kept.len() implies (#[trigger] kept[i]).0 > aid by {
        unacknowledged_members(s.messages, aid, i);
    }
    all_unacknowledged(kept, aid);
}

/// A client that has acknowledged the last message has none waiting.
pub proof fn acknowledging_the_last_empties(s: SessionView)
    requires
        numbered_upward(s),
        s.seq <= u64::MAX,
    ensures
        waiting(acknowledged(s, s.seq as u64)) is None,
{
    let kept = unacknowledged(s.messages, s.seq as u64);
    if kept.len() > 0 {
        unacknowledged_members(s.messages, s.seq as u64, 0);
        assert(false);
    }
}

/// A list of integers as JSON.
pub open spec fn ids_json(ids: Seq<int>) -> JsonView {
    JsonView::Array(ids.map_values(|id: int| integer_json_spec(id)))
}

/// A message about targets; the time stands in it where there is one.
pub open spec fn target_change_json(kind: Seq<char>, ids: Seq<int>, read_time: Option<JsonView>)
    -> JsonView {
    let change = with_member(
        object1("targetChangeType"@, JsonView::Text(kind)),
        "targetIds"@,
        ids_json(ids),
    );
    object1(
        "targetChange"@,
        match read_time {
            Some(time) => with_member(change, "readTime"@, time),
            None => change,
        },
    )
}

/// The message that a document of a target is new or different.
pub open spec fn document_change_json(doc: DocumentView, id: i32) -> JsonView {
    object1(
        "documentChange"@,
        with_member(
            with_member(
                object1("document"@, document_json_spec(doc)),
                "targetIds"@,
                ids_json(seq![id as int]),
            ),
            "removedTargetIds"@,
            ids_json(Seq::empty()),
        ),
    )
}

/// The message that a document has left a target.
pub open spec fn document_remove_json(name: Seq<char>, id: i32, read_time: JsonView) -> JsonView {
    object1(
        "documentRemove"@,
        with_member(
            with_member(
                object1("document"@, JsonView::Text(name)),
                "removedTargetIds"@,
                ids_json(seq![id as int]),
            ),
            "readTime"@,
            read_time,
        ),
    )
}

/// Messages about those of the first `n` documents that are new or different.
pub open spec fn changed_messages(
    previous: DocumentsView,
    docs: Seq<DocumentView>,
    n: nat,
    id: i32,
) -> Seq<JsonView>
    decreases n,
{
    if n == 0 || n > docs.len() {
        Seq::empty()
    } else {
        let before = changed_messages(previous, docs, (n - 1) as nat, id);
        let doc = docs[n - 1];
        if lookup(previous, doc.name) matches Some(old) && json_equal_spec(
            document_json_spec(old),
            document_json_spec(doc),
        ) {
            before
        } else {
            before.push(document_change_json(doc, id))
        }
    }
}

/// Messages about those of the first `n` known documents that have left.
pub open spec fn removed_messages(
    previous: DocumentsView,
    next: DocumentsView,
    n: nat,
    id: i32,
    read_time: JsonView,
) -> Seq<JsonView>
    decreases n,
{
    if n == 0 || n > previous.len() {
        Seq::empty()
    } else {
        let before = removed_messages(previous, next, (n - 1) as nat, id, read_time);
        if lookup(next, previous[n - 1].0) is None {
            before.push(document_remove_json(previous[n - 1].0, id, read_time))
        } else {
            before
        }
    }
}

/// What a client is told of a target whose documents are `docs` now.
pub open spec fn target_messages(
    previous: DocumentsView,
    docs: Seq<DocumentView>,
    id: i32,
    read_time: JsonView,
) -> Seq<JsonView> {
    changed_messages(previous, docs, docs.len(), id) + removed_messages(
        previous,
        by_name_spec(docs),
        previous.len(),
        id,
        read_time,
    )
}

proof fn filed_by_name(docs: Seq<DocumentView>, i: int)
    requires
        0 <= i < docs.len(),
        forall|j: int|
            0 <= j < docs.len() && (#[trigger] docs[j]).name == docs[i].name ==> docs[j] == docs[i],
    ensures
        lookup(by_name_spec(docs), docs[i].name) == Some(docs[i]),
    decreases docs.len(),
{
    let shorter = docs.drop_last();
    by_name_sorted(shorter);
    lookup_after_put(by_name_spec(shorter), docs.last().name, docs.last(), docs[i].name);
    assert(docs.last() == docs[docs.len() - 1]);
    if docs.last().name != docs[i].name {
        assert(shorter[i] == docs[i]);
        assert forall|j: int|
            0 <= j < shorter.len() && (#[trigger] shorter[j]).name == shorter[i].name implies shorter[j]
            == shorter[i] by {
            assert(docs[j] == shorter[j]);
        }
        filed_by_name(shorter, i);
    }
}

proof fn by_name_sorted(docs: Seq<DocumentView>)
    ensures
        keys_sorted(by_name_spec(docs)),
    decreases docs.len(),
{
    if docs.len() > 0 {
        by_name_sorted(docs.drop_last());
        put_sorted(by_name_spec(docs.drop_last()), docs.last().name, docs.last());
    }
}

proof fn nothing_changed(docs: Seq<DocumentView>, n: nat, id: i32)
    requires
        n <= docs.len(),
        forall|i: int, j: int|
            0 <= i < docs.len() && 0 <= j < docs.len() && (#[trigger] docs[i]).name == (
            #[trigger] docs[j]).name ==> docs[i] == docs[j],
    ensures
        changed_messages(by_name_spec(docs), docs, n, id).len() == 0,
    decreases n,
{
    if n > 0 {
        nothing_changed(docs, (n - 1) as nat, id);
        filed_by_name(docs, n - 1);
        json_equal_reflexive(document_json_spec(docs[n - 1]));
    }
}

proof fn nothing_removed(known: DocumentsView, n: nat, id: i32, read_time: JsonView)
    requires
        keys_sorted(known),
        n <= known.len(),
    ensures
        removed_messages(known, known, n, id, read_time).len() == 0,
    decreases n,
{
    if n > 0 {
        nothing_removed(known, (n - 1) as nat, id, read_time);
        lookup_at(known, n - 1);
    }
}

/// A client that knows the documents of a target is told nothing while they
/// stay as they are, whatever values they hold.
pub proof fn unchanged_target_is_silent(docs: Seq<DocumentView>, id: i32, read_time: JsonView)
    requires
        forall|i: int, j: int|
            0 <= i < docs.len() && 0 <= j < docs.len() && (#[trigger] docs[i]).name == (
            #[trigger] docs[j]).name ==> docs[i] == docs[j],
    ensures
        target_messages(by_name_spec(docs), docs, id, read_time).len() == 0,
{
    nothing_changed(docs, docs.len(), id);
    by_name_sorted(docs);
    nothing_removed(by_name_spec(docs), by_name_spec(docs).len(), id, read_time);
}

/// The documents of a target: those that its query finds, or those it names.
pub open spec fn web_target_docs_spec(documents: DocumentsView, spec: JsonView) -> Result<
    Seq<DocumentView>,
    StatusView,
> {
    match member(spec, "query"@) {
        Some(query) => match query_proto_spec(at(query, "structuredQuery"@)) {
            Err(e) => Err(e),
            Ok(q) => query_docs_spec(documents, text_at(query, "parent"@), q),
        },
        None => Ok(
            named_documents(
                documents,
                texts_among(array_at(at(spec, "documents"@), "documents"@)),
            ),
        ),
    }
}

/// Finds the documents of a target.
pub fn web_target_docs(documents: &OrderedMap<Document>, spec: &Json) -> (r: Result<
    Vec<Document>,
    Status,
>)
    ensures
        docs_result(r) == web_target_docs_spec(documents@, spec@),
{
    match spec.get("query") {
        Some(query) => {
            let parsed = match query.get("structuredQuery") {
                Some(q) => query_proto(q),
                None => query_proto(&Json::Null),
            };
            match parsed {
                Ok(q) => query_docs(documents, query.text("parent").as_str(), &q),
                Err(e) => Err(e),
            }
        },
        None => {
            let names = match spec.get("documents") {
                Some(inner) => texts_under(inner, "documents"),
                None => texts_under(&Json::Null, "documents"),
            };
            Ok(documents_by_name(documents, &names))
        },
    }
}

fn id_list(id: i64) -> (r: Json)
    ensures
        r@ == ids_json(seq![id as int]),
{
    let mut items: Vec<Json> = Vec::new();
    items.push(Json::of_integer(id));
    assert(items_view(items@) =~= seq![id as int].map_values(|x: int| integer_json_spec(x)));
    Json::array(items)
}

fn no_ids() -> (r: Json)
    ensures
        r@ == ids_json(Seq::empty()),
{
    let items: Vec<Json> = Vec::new();
    assert(items_view(items@) =~= Seq::<int>::empty().map_values(|x: int| integer_json_spec(x)));
    Json::array(items)
}

/// Writes down what a client is told of a target whose documents are `docs`
/// now.
pub fn write_target_messages(
    previous: &OrderedMap<Document>,
    docs: &Vec<Document>,
    next: &OrderedMap<Document>,
    id: i32,
    read_time: &Json,
) -> (r: Vec<Json>)
    requires
        next@ == by_name_spec(docs_view(docs@)),
    ensures
        items_view(r@) == target_messages(previous@, docs_view(docs@), id, read_time@),
{
    let ghost all = docs_view(docs@);
    let mut out: Vec<Json> = Vec::new();
    let mut i: usize = 0;
    assert(items_view(out@) =~= Seq::empty());
    while i < docs.len()
        invariant
            i <= docs@.len(),
            all == docs_view(docs@),
            items_view(out@) == changed_messages(previous@, all, i as nat, id),
        decreases docs.len() - i,
    {
        let doc = &docs[i];
        assert(all[i as int] == doc@);
        let written = document_json(doc);
        let known = match previous.get(doc.name.as_str()) {
            Some(old) => json_equal(&document_json(old), &written),
            None => false,
        };
        if !known {
            let ghost before = items_view(out@);
            let change = single(
                "documentChange",
                single("document", written).with("targetIds", id_list(id as i64)).with(
                    "removedTargetIds",
                    no_ids(),
                ),
            );
            out.push(change);
            assert(items_view(out@) =~= before.push(change@));
        }
        i += 1;
    }
    let ghost changed = items_view(out@);
    let mut k: usize = 0;
    assert(changed + Seq::<JsonView>::empty() =~= changed);
    while k < previous.len()
        invariant
            k <= previous@.len(),
            items_view(out@) == changed + removed_messages(
                previous@,
                next@,
                k as nat,
                id,
                read_time@,
            ),
        decreases previous@.len() - k,
    {
        let name = previous.key_at(k);
        if !next.contains(name) {
            let ghost before = items_view(out@);
            let removal = single(
                "documentRemove",
                single("document", Json::of_text(name)).with(
                    "removedTargetIds",
                    id_list(id as i64),
                ).with("readTime", read_time.duplicate()),
            );
            out.push(removal);
            assert(items_view(out@) =~= before.push(removal@));
            assert(before.push(removal@) =~= changed + removed_messages(
                previous@,
                next@,
                (k + 1) as nat,
                id,
                read_time@,
            ));
        }
        k += 1;
    }
    out
}

/// Where a target stands in a list; behind its end where it does not.
pub open spec fn target_index(targets: Seq<(i32, WebTargetView)>, id: i32) -> nat
    decreases targets.len(),
{
    if targets.len() == 0 {
        0
    } else {
        let k = target_index(targets.drop_last(), id);
        if k < targets.len() - 1 || targets.last().0 == id {
            k
        } else {
            targets.len()
        }
    }
}

/// A list in the order of its numbers with one more target, in place of one
/// with the same number.
pub open spec fn insert_target(
    targets: Seq<(i32, WebTargetView)>,
    id: i32,
    target: WebTargetView,
) -> Seq<(i32, WebTargetView)>
    decreases targets.len(),
{
    if targets.len() == 0 || targets.last().0 < id {
        targets.push((id, target))
    } else if targets.last().0 == id {
        targets.drop_last().push((id, target))
    } else {
        insert_target(targets.drop_last(), id, target).push(targets.last())
    }
}

/// A list without a target.
pub open spec fn remove_target(targets: Seq<(i32, WebTargetView)>, id: i32) -> Seq<
    (i32, WebTargetView),
>
    decreases targets.len(),
{
    if targets.len() == 0 {
        Seq::empty()
    } else {
        let rest = remove_target(targets.drop_last(), id);
        if targets.last().0 == id {
            rest
        } else {
            rest.push(targets.last())
        }
    }
}

/// A session that has compared the target at `i` with the documents that it
/// has now, and whether there was anything to tell.
pub open spec fn refresh_target(
    documents: DocumentsView,
    s: SessionView,
    i: int,
    read_time: JsonView,
) -> Result<(SessionView, bool), StatusView> {
    let (id, target) = s.targets[i];
    match web_target_docs_spec(documents, target.spec) {
        Err(e) => Err(e),
        Ok(docs) => {
            let messages = target_messages(target.documents, docs, id, read_time);
            let next = WebTargetView { spec: target.spec, documents: by_name_spec(docs) };
            Ok(
                (
                    push_all_spec(
                        SessionView { targets: s.targets.update(i, (id, next)), ..s },
                        messages,
                    ),
                    messages.len() > 0,
                ),
            )
        },
    }
}

/// A session that has compared its targets from `i` on; `Ok` tells whether
/// there was anything to tell, an error which target could not be read.
pub open spec fn refresh_targets(
    documents: DocumentsView,
    s: SessionView,
    i: int,
    changed: bool,
    read_time: JsonView,
) -> (SessionView, Result<bool, StatusView>)
    decreases s.targets.len() - i,
{
    if i < 0 || i >= s.targets.len() {
        (s, Ok(changed))
    } else {
        match refresh_target(documents, s, i, read_time) {
            Err(e) => (s, Err(e)),
            Ok(next) => if next.0.targets.len() == s.targets.len() {
                refresh_targets(documents, next.0, i + 1, changed || next.1, read_time)
            } else {
                (s, Ok(changed))
            },
        }
    }
}

/// A session that has compared all its targets with their documents. Where
/// there was anything to tell, the time is told behind it.
pub open spec fn refresh_spec(documents: DocumentsView, s: SessionView, now: Timestamp) -> (
    SessionView,
    Result<(), StatusView>,
) {
    let read_time = time_json_spec(Some(now));
    match refresh_targets(documents, s, 0, false, read_time) {
        (after, Err(e)) => (after, Err(e)),
        (after, Ok(changed)) => (
            if changed {
                push_spec(
                    after,
                    target_change_json("NO_CHANGE"@, Seq::empty(), Some(read_time)),
                )
            } else {
                after
            },
            Ok(()),
        ),
    }
}

/// A session that has sent the first documents of a target.
pub open spec fn refresh_initial_spec(
    documents: DocumentsView,
    s: SessionView,
    id: i32,
    now: Timestamp,
) -> (SessionView, Result<(), StatusView>) {
    let read_time = time_json_spec(Some(now));
    match refresh_target(documents, s, target_index(s.targets, id) as int, read_time) {
        Err(e) => (s, Err(e)),
        Ok(next) => (
            push_spec(
                push_spec(
                    next.0,
                    target_change_json("CURRENT"@, seq![id as int], Some(read_time)),
                ),
                target_change_json("NO_CHANGE"@, Seq::empty(), Some(read_time)),
            ),
            Ok(()),
        ),
    }
}

proof fn refresh_target_counts(documents: DocumentsView, s: SessionView, i: int, read_time: JsonView)
    requires
        0 <= i < s.targets.len(),
    ensures
        refresh_target(documents, s, i, read_time) matches Ok(next) ==> next.0.seq >= s.seq
            && next.0.targets.len() == s.targets.len(),
{
    let (id, target) = s.targets[i];
    if web_target_docs_spec(documents, target.spec) is Ok {
        let docs = web_target_docs_spec(documents, target.spec)->Ok_0;
        let messages = target_messages(target.documents, docs, id, read_time);
        let next = WebTargetView { spec: target.spec, documents: by_name_spec(docs) };
        push_all_counts(SessionView { targets: s.targets.update(i, (id, next)), ..s }, messages);
    }
}

proof fn refresh_targets_counts(
    documents: DocumentsView,
    s: SessionView,
    i: int,
    changed: bool,
    read_time: JsonView,
)
    ensures
        refresh_targets(documents, s, i, changed, read_time).0.seq >= s.seq,
    decreases s.targets.len() - i,
{
    if 0 <= i < s.targets.len() {
        refresh_target_counts(documents, s, i, read_time);
        if let Ok(next) = refresh_target(documents, s, i, read_time) {
            refresh_targets_counts(documents, next.0, i + 1, changed || next.1, read_time);
        }
    }
}

/// How many documents a target names.
pub open spec fn named_count(spec: JsonView) -> nat {
    array_at(at(spec, "documents"@), "documents"@).len()
}

/// How many documents the first `n` targets may have to tell of: each may find
/// every document and lose every one that it knew.
pub open spec fn targets_bound(documents: nat, targets: Seq<(i32, WebTargetView)>, n: nat) -> nat
    decreases n,
{
    if n == 0 || n > targets.len() {
        0
    } else {
        let target = targets[n - 1].1;
        targets_bound(documents, targets, (n - 1) as nat) + documents + named_count(target.spec)
            + target.documents.len()
    }
}

proof fn texts_count(items: Seq<JsonView>)
    ensures
        texts_among(items).len() <= items.len(),
    decreases items.len(),
{
    if items.len() > 0 {
        texts_count(items.drop_last());
    }
}

proof fn named_documents_count(documents: DocumentsView, names: Seq<Seq<char>>)
    ensures
        named_documents(documents, names).len() <= names.len(),
    decreases names.len(),
{
    if names.len() > 0 {
        named_documents_count(documents, names.drop_last());
    }
}

proof fn target_docs_count(documents: DocumentsView, spec: JsonView)
    ensures
        web_target_docs_spec(documents, spec) matches Ok(docs) ==> docs.len() <= documents.len()
            + named_count(spec),
{
    match member(spec, "query"@) {
        Some(query) => {
            if let Ok(q) = query_proto_spec(at(query, "structuredQuery"@)) {
                query_finds_no_more(documents, text_at(query, "parent"@), q);
            }
        },
        None => {
            let names = texts_among(array_at(at(spec, "documents"@), "documents"@));
            texts_count(array_at(at(spec, "documents"@), "documents"@));
            named_documents_count(documents, names);
        },
    }
}

proof fn changed_count(previous: DocumentsView, docs: Seq<DocumentView>, n: nat, id: i32)
    ensures
        changed_messages(previous, docs, n, id).len() <= docs.len(),
        n <= docs.len() ==> changed_messages(previous, docs, n, id).len() <= n,
    decreases n,
{
    if 0 < n <= docs.len() {
        changed_count(previous, docs, (n - 1) as nat, id);
    }
}

proof fn removed_count(
    previous: DocumentsView,
    next: DocumentsView,
    n: nat,
    id: i32,
    read_time: JsonView,
)
    ensures
        n <= previous.len() ==> removed_messages(previous, next, n, id, read_time).len() <= n,
    decreases n,
{
    if 0 < n <= previous.len() {
        removed_count(previous, next, (n - 1) as nat, id, read_time);
    }
}

proof fn refresh_target_bound(documents: DocumentsView, s: SessionView, i: int, read_time: JsonView)
    requires
        0 <= i < s.targets.len(),
    ensures
        refresh_target(documents, s, i, read_time) matches Ok(next) ==> {
            &&& next.0.seq <= s.seq + documents.len() + named_count(s.targets[i].1.spec)
                + s.targets[i].1.documents.len()
            &&& next.0.targets.len() == s.targets.len()
            &&& forall|j: int|
                0 <= j < s.targets.len() && j != i ==> #[trigger] next.0.targets[j] == s.targets[j]
        },
{
    let (id, target) = s.targets[i];
    if let Ok(docs) = web_target_docs_spec(documents, target.spec) {
        let messages = target_messages(target.documents, docs, id, read_time);
        let next = WebTargetView { spec: target.spec, documents: by_name_spec(docs) };
        push_all_counts(SessionView { targets: s.targets.update(i, (id, next)), ..s }, messages);
        target_docs_count(documents, target.spec);
        changed_count(target.documents, docs, docs.len(), id);
        removed_count(
            target.documents,
            by_name_spec(docs),
            target.documents.len(),
            id,
            read_time,
        );
    }
}

proof fn targets_bound_grows(documents: nat, targets: Seq<(i32, WebTargetView)>, n: nat, m: nat)
    requires
        n <= m <= targets.len(),
    ensures
        targets_bound(documents, targets, n) <= targets_bound(documents, targets, m),
    decreases m,
{
    if n < m {
        targets_bound_grows(documents, targets, n, (m - 1) as nat);
    }
}

proof fn targets_bound_difference(
    documents: nat,
    a: Seq<(i32, WebTargetView)>,
    b: Seq<(i32, WebTargetView)>,
    n: nat,
    m: nat,
)
    requires
        n <= m <= a.len(),
        a.len() == b.len(),
        forall|j: int| n <= j < a.len() ==> #[trigger] a[j] == b[j],
    ensures
        targets_bound(documents, a, m) - targets_bound(documents, a, n) == targets_bound(
            documents,
            b,
            m,
        ) - targets_bound(documents, b, n),
    decreases m,
{
    if n < m {
        targets_bound_difference(documents, a, b, n, (m - 1) as nat);
        assert(a[m - 1] == b[m - 1]);
    }
}

proof fn refresh_targets_bound(
    documents: DocumentsView,
    s: SessionView,
    i: nat,
    changed: bool,
    read_time: JsonView,
)
    requires
        i <= s.targets.len(),
    ensures
        refresh_targets(documents, s, i as int, changed, read_time).0.seq <= s.seq + targets_bound(
            documents.len(),
            s.targets,
            s.targets.len(),
        ) - targets_bound(documents.len(), s.targets, i),
    decreases s.targets.len() - i,
{
    let n = documents.len();
    let all = s.targets.len();
    targets_bound_grows(n, s.targets, i, all);
    if i < all {
        refresh_target_bound(documents, s, i as int, read_time);
        if let Ok(next) = refresh_target(documents, s, i as int, read_time) {
            refresh_targets_bound(documents, next.0, (i + 1) as nat, changed || next.1, read_time);
            targets_bound_difference(n, s.targets, next.0.targets, (i + 1) as nat, all);
        }
    }
}

/// Comparing the targets with their documents takes no more numbers than the
/// targets may have documents to tell of, and one.
pub proof fn refresh_is_bounded(documents: DocumentsView, s: SessionView, now: Timestamp)
    ensures
        refresh_spec(documents, s, now).0.seq <= s.seq + targets_bound(
            documents.len(),
            s.targets,
            s.targets.len(),
        ) + 1,
{
    refresh_targets_bound(documents, s, 0, false, time_json_spec(Some(now)));
}

proof fn target_within_bound(documents: nat, targets: Seq<(i32, WebTargetView)>, i: int, n: nat)
    requires
        0 <= i < n <= targets.len(),
    ensures
        documents + named_count(targets[i].1.spec) + targets[i].1.documents.len() <= targets_bound(
            documents,
            targets,
            n,
        ),
    decreases n,
{
    if i < n - 1 {
        target_within_bound(documents, targets, i, (n - 1) as nat);
    }
}

proof fn inserted_bound(
    documents: nat,
    targets: Seq<(i32, WebTargetView)>,
    id: i32,
    target: WebTargetView,
)
    ensures
        targets_bound(
            documents,
            insert_target(targets, id, target),
            insert_target(targets, id, target).len(),
        ) <= targets_bound(documents, targets, targets.len()) + documents + named_count(target.spec)
            + target.documents.len(),
    decreases targets.len(),
{
    let out = insert_target(targets, id, target);
    let n = targets.len();
    if n == 0 || targets.last().0 < id {
        bound_of_prefix(documents, targets, out, n);
    } else {
        let init = targets.drop_last();
        bound_of_prefix(documents, init, targets, (n - 1) as nat);
        if targets.last().0 == id {
            bound_of_prefix(documents, init, out, (n - 1) as nat);
        } else {
            inserted_bound(documents, init, id, target);
            let inner = insert_target(init, id, target);
            bound_of_prefix(documents, inner, out, inner.len());
        }
    }
}

proof fn bound_of_prefix(
    documents: nat,
    a: Seq<(i32, WebTargetView)>,
    b: Seq<(i32, WebTargetView)>,
    n: nat,
)
    requires
        n <= a.len(),
        n <= b.len(),
        forall|j: int| 0 <= j < n ==> #[trigger] a[j] == b[j],
    ensures
        targets_bound(documents, a, n) == targets_bound(documents, b, n),
    decreases n,
{
    if n > 0 {
        bound_of_prefix(documents, a, b, (n - 1) as nat);
        assert(a[n - 1] == b[n - 1]);
    }
}

/// Sending the documents of a target that was added takes no more numbers than
/// all targets, with the new one, may have documents to tell of, and two.
pub proof fn adding_is_bounded(
    documents: DocumentsView,
    s: SessionView,
    id: i32,
    spec: JsonView,
    now: Timestamp,
)
    ensures
        ({
            let target = WebTargetView { spec, documents: Seq::empty() };
            let added = SessionView { targets: insert_target(s.targets, id, target), ..s };
            refresh_initial_spec(documents, added, id, now).0.seq <= s.seq + targets_bound(
                documents.len(),
                s.targets,
                s.targets.len(),
            ) + documents.len() + named_count(spec) + 2
        }),
{
    let target = WebTargetView { spec, documents: Seq::empty() };
    let list = insert_target(s.targets, id, target);
    let added = SessionView { targets: list, ..s };
    added_target_is_found(s.targets, id, target);
    let i = target_index(list, id) as int;
    refresh_target_bound(documents, added, i, time_json_spec(Some(now)));
    target_within_bound(documents.len(), list, i, list.len());
    inserted_bound(documents.len(), s.targets, id, target);
}

/// The JSON of what a write answers.
pub open spec fn write_result_json(result: WriteResultView) -> JsonView {
    with_member(
        object1("updateTime"@, time_json_spec(result.update_time)),
        "transformResults"@,
        JsonView::Array(values_json_spec(result.transform_results)),
    )
}

/// The JSON of what a commit answers.
pub open spec fn commit_json_spec(results: Seq<WriteResultView>, commit_time: Timestamp) -> JsonView {
    with_member(
        object1(
            "writeResults"@,
            JsonView::Array(results.map_values(|r: WriteResultView| write_result_json(r))),
        ),
        "commitTime"@,
        time_json_spec(Some(commit_time)),
    )
}

/// Writes what a commit answers as JSON.
pub fn commit_json(results: &Vec<WriteResult>, commit_time: &Timestamp) -> (r: Json)
    ensures
        r@ == commit_json_spec(results_view(results@), *commit_time),
{
    let ghost all = results_view(results@);
    let mut items: Vec<Json> = Vec::new();
    let mut i: usize = 0;
    while i < results.len()
        invariant
            i <= results@.len(),
            all == results_view(results@),
            items@.len() == i,
            forall|j: int| 0 <= j < i ==> (#[trigger] items@[j])@ == write_result_json(all[j]),
        decreases results.len() - i,
    {
        assert(all[i as int] == results@[i as int]@);
        let mut transformed: Vec<Json> = Vec::new();
        let values = &results[i].transform_results;
        let mut k: usize = 0;
        while k < values.len()
            invariant
                k <= values@.len(),
                transformed@.len() == k,
                forall|j: int|
                    0 <= j < k ==> (#[trigger] transformed@[j])@ == values_json_spec(
                        values_view(values@),
                    )[j],
            decreases values.len() - k,
        {
            transformed.push(value_json(&values[k]));
            k += 1;
        }
        assert(items_view(transformed@) =~= values_json_spec(values_view(values@)));
        items.push(
            single("updateTime", time_json(results[i].update_time)).with(
                "transformResults",
                Json::array(transformed),
            ),
        );
        i += 1;
    }
    assert(items_view(items@) =~= all.map_values(|r: WriteResultView| write_result_json(r)));
    single("writeResults", Json::array(items)).with("commitTime", time_json(Some(*commit_time)))
}

/// The name of a status in JSON.
pub open spec fn status_name_spec(code: Code) -> Seq<char> {
    match code {
        Code::NotFound => "NOT_FOUND"@,
        Code::AlreadyExists => "ALREADY_EXISTS"@,
        Code::FailedPrecondition => "FAILED_PRECONDITION"@,
        Code::Unimplemented => "UNIMPLEMENTED"@,
        Code::InvalidArgument => "INVALID_ARGUMENT"@,
        _ => "INTERNAL"@,
    }
}

/// The JSON of a refusal.
pub open spec fn error_json_spec(error: StatusView) -> JsonView {
    object1(
        "error"@,
        with_member(
            with_member(
                object1("code"@, integer_json_spec(error.code.number_spec() as int)),
                "status"@,
                JsonView::Text(status_name_spec(error.code)),
            ),
            "message"@,
            JsonView::Text(error.message),
        ),
    )
}

/// Writes a refusal as JSON.
pub fn error_json(error: &Status) -> (r: Json)
    ensures
        r@ == error_json_spec(error@),
{
    let name = match error.code {
        Code::NotFound => "NOT_FOUND",
        Code::AlreadyExists => "ALREADY_EXISTS",
        Code::FailedPrecondition => "FAILED_PRECONDITION",
        Code::Unimplemented => "UNIMPLEMENTED",
        Code::InvalidArgument => "INVALID_ARGUMENT",
        _ => "INTERNAL",
    };
    single(
        "error",
        single("code", Json::of_integer(error.code.number() as i64)).with(
            "status",
            Json::of_text(name),
        ).with("message", Json::of_text(error.message.as_str())),
    )
}

/// What is left to do of a request: nothing, to commit writes, or to send the
/// first documents of a target.
pub enum WebStep {
    Done,
    Commit(Vec<Write>),
    Refresh(i32),
}

/// What a [`WebStep`] stands for.
pub enum StepView {
    Done,
    Commit(Seq<WriteView>),
    Refresh(i32),
}

impl View for WebStep {
    type V = StepView;

    open spec fn view(&self) -> StepView {
        match self {
            WebStep::Done => StepView::Done,
            WebStep::Commit(writes) => StepView::Commit(writes_view(writes@)),
            WebStep::Refresh(id) => StepView::Refresh(*id),
        }
    }
}

/// The message that opens a stream of writes.
pub open spec fn stream_opened(sid: Seq<char>) -> JsonView {
    with_member(
        object1("streamId"@, JsonView::Text(sid)),
        "streamToken"@,
        JsonView::Text(base64_text(encode_utf8("0"@))),
    )
}

/// The message that answers a commit on a stream of writes.
pub open spec fn stream_committed(
    seq: nat,
    sid: Seq<char>,
    results: Seq<WriteResultView>,
    commit_time: Timestamp,
) -> JsonView {
    with_member(
        with_member(
            commit_json_spec(results, commit_time),
            "streamId"@,
            JsonView::Text(sid),
        ),
        "streamToken"@,
        JsonView::Text(base64_text(encode_utf8(decimal_spec(seq + 1)))),
    )
}

/// A session that has taken a request, and what is left to do of it. The
/// first request of a stream of writes opens it.
pub open spec fn accept_spec(s: SessionView, rpc: Seq<char>, sid: Seq<char>, message: JsonView) -> (
    SessionView,
    Result<StepView, StatusView>,
) {
    if rpc == "Write"@ {
        if !s.write_ready {
            let opened = SessionView {
                write_ready: true,
                database: match as_text_spec(at(message, "database"@)) {
                    Some(database) => database,
                    None => s.database,
                },
                ..s
            };
            (push_spec(opened, stream_opened(sid)), Ok(StepView::Done))
        } else {
            match writes_proto_spec(array_at(message, "writes"@), 0) {
                Err(e) => (s, Err(e)),
                Ok(writes) => (s, Ok(StepView::Commit(writes))),
            }
        }
    } else if member(message, "addTarget"@) is Some {
        let target = member(message, "addTarget"@)->0;
        match as_integer_spec(at(target, "targetId"@)) {
            None => (s, Err(invalid("targetId required"@))),
            Some(n) => {
                let id = n as i32;
                let added = SessionView {
                    targets: insert_target(
                        s.targets,
                        id,
                        WebTargetView { spec: target, documents: Seq::empty() },
                    ),
                    ..s
                };
                (
                    push_spec(added, target_change_json("ADD"@, seq![id as int], None)),
                    Ok(StepView::Refresh(id)),
                )
            },
        }
    } else if as_integer_spec(at(message, "removeTarget"@)) is Some {
        let n = as_integer_spec(at(message, "removeTarget"@))->0;
        let removed = SessionView { targets: remove_target(s.targets, n as i32), ..s };
        (
            push_spec(removed, target_change_json("REMOVE"@, seq![n as int], None)),
            Ok(StepView::Done),
        )
    } else {
        (s, Ok(StepView::Done))
    }
}

fn put_target(targets: &mut Vec<(i32, WebTarget)>, id: i32, target: WebTarget)
    ensures
        targets_view(final(targets)@) == insert_target(targets_view(old(targets)@), id, target@),
{
    let ghost all = old(targets)@;
    let ghost views = targets_view(all);
    let mut k: usize = targets.len();
    assert(all.take(k as int) =~= all);
    assert(targets_view(all.skip(k as int)) =~= Seq::empty());
    assert(insert_target(views, id, target@) =~= insert_target(
        targets_view(all.take(k as int)),
        id,
        target@,
    ) + targets_view(all.skip(k as int)));
    while k > 0 && targets[k - 1].0 > id
        invariant
            k <= all.len(),
            targets@ == all,
            views == targets_view(all),
            insert_target(views, id, target@) == insert_target(
                targets_view(all.take(k as int)),
                id,
                target@,
            ) + targets_view(all.skip(k as int)),
        decreases k,
    {
        proof {
            let front = targets_view(all.take(k as int));
            assert(front.drop_last() =~= targets_view(all.take(k - 1)));
            assert(front.last().0 == all[k - 1].0);
            let inner = insert_target(front.drop_last(), id, target@);
            assert(inner.push(front.last()) + targets_view(all.skip(k as int)) =~= inner
                + targets_view(all.skip(k - 1)));
        }
        k -= 1;
    }
    proof {
        let front = targets_view(all.take(k as int));
        if k > 0 {
            assert(front.last() == (all[k - 1].0, all[k - 1].1@));
            if all[k - 1].0 == id {
                assert(front.drop_last().push((id, target@)) + targets_view(all.skip(k as int))
                    =~= targets_view(all.update(k - 1, (id, target))));
            } else {
                assert(front.push((id, target@)) + targets_view(all.skip(k as int))
                    =~= targets_view(all.insert(k as int, (id, target))));
            }
        } else {
            assert(front.push((id, target@)) + targets_view(all.skip(k as int)) =~= targets_view(
                all.insert(k as int, (id, target)),
            ));
        }
    }
    if k > 0 && targets[k - 1].0 == id {
        targets.set(k - 1, (id, target));
    } else {
        targets.insert(k, (id, target));
    }
}

fn drop_target(targets: &mut Vec<(i32, WebTarget)>, id: i32)
    ensures
        targets_view(final(targets)@) == remove_target(targets_view(old(targets)@), id),
{
    let mut taken: Vec<(i32, WebTarget)> = Vec::new();
    std::mem::swap(targets, &mut taken);
    let ghost all = targets_view(taken@);
    let mut kept: Vec<(i32, WebTarget)> = Vec::new();
    assert(targets_view(kept@) =~= Seq::empty());
    assert(all.take(0) =~= Seq::empty());
    for entry in it: taken
        invariant
            it.seq() == taken@,
            all == targets_view(taken@),
            targets_view(kept@) == remove_target(all.take(it.index() as int), id),
    {
        let ghost i = it.index() as int;
        assert(all.take(i + 1).drop_last() =~= all.take(i));
        assert(all.take(i + 1).last() == (entry.0, entry.1@));
        if entry.0 != id {
            let ghost before = targets_view(kept@);
            kept.push(entry);
            assert(targets_view(kept@) =~= before.push((entry.0, entry.1@)));
        }
    }
    assert(all.take(all.len() as int) =~= all);
    *targets = kept;
}

proof fn target_index_found(targets: Seq<(i32, WebTargetView)>, id: i32, i: int)
    requires
        0 <= i < targets.len(),
        targets[i].0 == id,
        forall|j: int| 0 <= j < i ==> (#[trigger] targets[j]).0 != id,
    ensures
        target_index(targets, id) == i,
    decreases targets.len(),
{
    if i < targets.len() - 1 {
        assert forall|j: int| 0 <= j < i implies (#[trigger] targets.drop_last()[j]).0 != id by {
            assert(targets[j].0 != id);
        }
        target_index_found(targets.drop_last(), id, i);
    } else {
        assert forall|j: int| 0 <= j < targets.drop_last().len() implies (
        #[trigger] targets.drop_last()[j]).0 != id by {
            assert(targets[j].0 != id);
        }
        target_index_missing(targets.drop_last(), id);
    }
}

proof fn target_index_missing(targets: Seq<(i32, WebTargetView)>, id: i32)
    requires
        forall|j: int| 0 <= j < targets.len() ==> (#[trigger] targets[j]).0 != id,
    ensures
        target_index(targets, id) == targets.len(),
    decreases targets.len(),
{
    if targets.len() > 0 {
        assert forall|j: int| 0 <= j < targets.drop_last().len() implies (
        #[trigger] targets.drop_last()[j]).0 != id by {
            assert(targets[j].0 != id);
        }
        target_index_missing(targets.drop_last(), id);
        assert(targets[targets.len() - 1].0 != id);
    }
}

proof fn inserted_target_stands(targets: Seq<(i32, WebTargetView)>, id: i32, target: WebTargetView)
    ensures
        exists|i: int|
            0 <= i < insert_target(targets, id, target).len() && (#[trigger] insert_target(
                targets,
                id,
                target,
            )[i]).0 == id,
    decreases targets.len(),
{
    let out = insert_target(targets, id, target);
    if targets.len() == 0 || targets.last().0 < id {
        assert(out[targets.len() as int].0 == id);
    } else if targets.last().0 == id {
        assert(out[targets.len() - 1].0 == id);
    } else {
        inserted_target_stands(targets.drop_last(), id, target);
        let inner = insert_target(targets.drop_last(), id, target);
        let i = choose|i: int| 0 <= i < inner.len() && (#[trigger] inner[i]).0 == id;
        assert(out[i].0 == id);
    }
}

/// A target that was added stands in the list.
pub proof fn added_target_is_found(targets: Seq<(i32, WebTargetView)>, id: i32, target: WebTargetView)
    ensures
        target_index(insert_target(targets, id, target), id) < insert_target(
            targets,
            id,
            target,
        ).len(),
{
    inserted_target_stands(targets, id, target);
    index_of_present(insert_target(targets, id, target), id);
}

proof fn index_of_present(targets: Seq<(i32, WebTargetView)>, id: i32)
    requires
        exists|i: int| 0 <= i < targets.len() && (#[trigger] targets[i]).0 == id,
    ensures
        target_index(targets, id) < targets.len(),
        targets[target_index(targets, id) as int].0 == id,
    decreases targets.len(),
{
    let i = choose|i: int| 0 <= i < targets.len() && (#[trigger] targets[i]).0 == id;
    let shorter = targets.drop_last();
    if exists|j: int| 0 <= j < shorter.len() && (#[trigger] shorter[j]).0 == id {
        index_of_present(shorter, id);
        assert(shorter[target_index(shorter, id) as int] == targets[target_index(shorter, id) as int]);
    } else {
        assert(forall|j: int| 0 <= j < shorter.len() ==> (#[trigger] shorter[j]).0 != id);
        if i < shorter.len() {
            assert(shorter[i].0 == id);
        }
        target_index_missing(shorter, id);
    }
}

/// Counts the documents that a target names.
pub fn count_named(spec: &Json) -> (r: usize)
    ensures
        r == named_count(spec@),
{
    match spec.get("documents") {
        Some(documents) => match documents.items("documents") {
            Some(items) => {
                assert(items_view(items@).len() == items@.len());
                items.len()
            },
            None => 0,
        },
        None => 0,
    }
}

impl Session {
    /// A session without messages or targets.
    pub fn new(database: &str) -> (r: Session)
        ensures
            r@ == (SessionView {
                seq: 0,
                messages: Seq::empty(),
                targets: Seq::empty(),
                received: Set::empty(),
                write_ready: false,
                database: database@,
            }),
    {
        let r = Session {
            seq: 0,
            messages: Vec::new(),
            targets: Vec::new(),
            received: Vec::new(),
            write_ready: false,
            database: database.to_owned(),
        };
        assert(r@.messages =~= Seq::empty());
        assert(r@.targets =~= Seq::empty());
        assert(r@.received =~= Set::empty());
        r
    }

    /// Sends a message.
    pub fn push(&mut self, value: Json)
        requires
            old(self).seq < u64::MAX,
        ensures
            final(self)@ == push_spec(old(self)@, value@),
    {
        self.seq = self.seq + 1;
        let mut inner: Vec<Json> = Vec::new();
        inner.push(value);
        assert(items_view(inner@) =~= seq![value@]);
        let mut outer: Vec<Json> = Vec::new();
        outer.push(Json::Unsigned(self.seq));
        outer.push(Json::array(inner));
        assert(items_view(outer@) =~= seq![
            JsonView::Unsigned(self.seq),
            JsonView::Array(seq![value@]),
        ]);
        let message = Json::array(outer);
        self.messages.push((self.seq, message));
        assert(self@.messages =~= push_spec(old(self)@, value@).messages);
        assert(self@ =~= push_spec(old(self)@, value@));
    }

    /// Sends several messages.
    pub fn push_all(&mut self, values: Vec<Json>)
        requires
            old(self).seq + values@.len() <= u64::MAX,
        ensures
            final(self)@ == push_all_spec(old(self)@, items_view(values@)),
    {
        let ghost all = items_view(values@);
        assert(all.take(0) =~= Seq::empty());
        for value in it: values
            invariant
                it.seq() == values@,
                all == items_view(values@),
                old(self).seq + values@.len() <= u64::MAX,
                self.seq == old(self).seq + it.index(),
                self@ == push_all_spec(old(self)@, all.take(it.index() as int)),
        {
            let ghost i = it.index() as int;
            assert(all.take(i + 1).drop_last() =~= all.take(i));
            assert(all.take(i + 1).last() == value@);
            self.push(value);
        }
        assert(all.take(all.len() as int) =~= all);
    }

    /// Forgets the messages up to `aid` and frames those that wait.
    pub fn queued(&mut self, aid: u64) -> (r: Option<String>)
        ensures
            final(self)@ == acknowledged(old(self)@, aid),
            crate::text::opt_text(r) == waiting(acknowledged(old(self)@, aid)),
    {
        let mut taken: Vec<(u64, Json)> = Vec::new();
        std::mem::swap(&mut self.messages, &mut taken);
        let ghost all = messages_view(taken@);
        let mut kept: Vec<(u64, Json)> = Vec::new();
        let mut bodies: Vec<Json> = Vec::new();
        assert(messages_view(kept@) =~= Seq::empty());
        assert(items_view(bodies@) =~= contents(messages_view(kept@)));
        assert(all.take(0) =~= Seq::empty());
        for message in it: taken
            invariant
                it.seq() == taken@,
                all == messages_view(taken@),
                messages_view(kept@) == unacknowledged(all.take(it.index() as int), aid),
                items_view(bodies@) == contents(messages_view(kept@)),
                kept@.len() == bodies@.len(),
        {
            let ghost i = it.index() as int;
            assert(all.take(i + 1).drop_last() =~= all.take(i));
            assert(all.take(i + 1).last() == (message.0, message.1@));
            if message.0 > aid {
                let ghost before = messages_view(kept@);
                let ghost written = items_view(bodies@);
                bodies.push(message.1.duplicate());
                kept.push(message);
                assert(messages_view(kept@) =~= before.push((message.0, message.1@)));
                assert(items_view(bodies@) =~= written.push(message.1@));
                assert(contents(messages_view(kept@)) =~= contents(before).push(message.1@));
            }
        }
        assert(all.take(all.len() as int) =~= all);
        self.messages = kept;
        assert(self@ =~= acknowledged(old(self)@, aid));
        if bodies.len() == 0 {
            None
        } else {
            Some(frame(&Json::array(bodies)))
        }
    }

    /// Notes the number of a request; false where it was received before.
    pub fn receive(&mut self, id: u128) -> (r: bool)
        ensures
            r == !old(self)@.received.contains(id),
            final(self)@ == (SessionView {
                received: old(self)@.received.insert(id),
                ..old(self)@
            }),
    {
        let mut i: usize = 0;
        while i < self.received.len()
            invariant
                i <= self.received@.len(),
                *self == *old(self),
                forall|j: int| 0 <= j < i ==> self.received@[j] != id,
            decreases self.received.len() - i,
        {
            if self.received[i] == id {
                assert(self.received@.to_set().contains(id));
                assert(self@.received =~= old(self)@.received.insert(id));
                return false;
            }
            i += 1;
        }
        let ghost before = self.received@;
        self.received.push(id);
        proof {
            assert(!before.to_set().contains(id));
            assert forall|x: u128| #[trigger]
                self.received@.to_set().contains(x) == before.to_set().insert(id).contains(x) by {
                if before.contains(x) {
                    let k = choose|k: int| 0 <= k < before.len() && before[k] == x;
                    assert(self.received@[k] == x);
                }
                if x == id {
                    assert(self.received@[before.len() as int] == x);
                }
            }
            assert(self.received@.to_set() =~= before.to_set().insert(id));
        }
        true
    }

    fn refresh_at(&mut self, documents: &OrderedMap<Document>, i: usize, read_time: &Json) -> (r:
        Result<bool, Status>)
        requires
            i < old(self).targets@.len(),
            refresh_target(documents@, old(self)@, i as int, read_time@) matches Ok(next)
                ==> next.0.seq <= u64::MAX,
        ensures
            match refresh_target(documents@, old(self)@, i as int, read_time@) {
                Ok(next) => r == Ok::<bool, Status>(next.1) && final(self)@ == next.0,
                Err(e) => r is Err && r->Err_0@ == e && final(self)@ == old(self)@,
            },
    {
        let ghost before = self@;
        assert(before.targets[i as int] == (self.targets@[i as int].0, self.targets@[i as int].1@));
        let id: i32 = self.targets[i].0;
        let docs = match web_target_docs(documents, &self.targets[i].1.spec) {
            Ok(docs) => docs,
            Err(e) => {
                return Err(e);
            },
        };
        let ghost found = docs_view(docs@);
        let mut copies: Vec<Document> = Vec::new();
        let mut k: usize = 0;
        while k < docs.len()
            invariant
                k <= docs@.len(),
                copies@.len() == k,
                forall|j: int| 0 <= j < k ==> (#[trigger] copies@[j])@ == docs@[j]@,
            decreases docs.len() - k,
        {
            copies.push(crate::ordered::Duplicate::duplicate(&docs[k]));
            k += 1;
        }
        assert(docs_view(copies@) =~= found);
        let next = by_name(copies);
        let messages = write_target_messages(
            &self.targets[i].1.documents,
            &docs,
            &next,
            id,
            read_time,
        );
        let spec = self.targets[i].1.spec.duplicate();
        let target = WebTarget { spec, documents: next };
        let ghost list = self.targets@;
        self.targets.set(i, (id, target));
        let ghost middle = SessionView {
            targets: before.targets.update(i as int, (id, target@)),
            ..before
        };
        proof {
            assert(targets_view(self.targets@) =~= before.targets.update(i as int, (id, target@)));
            assert(self@ =~= middle);
            push_all_counts(middle, items_view(messages@));
        }
        let changed = messages.len() > 0;
        self.push_all(messages);
        Ok(changed)
    }

    /// How many numbers are left for messages behind those that the targets may
    /// need for so many documents; none where those may run out.
    pub fn room(&self, documents: usize) -> (r: Option<u64>)
        ensures
            ({
                let used = self.seq + targets_bound(
                    documents as nat,
                    self@.targets,
                    self@.targets.len(),
                );
                match r {
                    Some(left) => used + left == u64::MAX,
                    None => used > u64::MAX,
                }
            }),
    {
        let ghost all = self@.targets;
        let mut left: u64 = u64::MAX - self.seq;
        let mut i: usize = 0;
        while i < self.targets.len()
            invariant
                i <= self.targets@.len(),
                all == self@.targets,
                all.len() == self.targets@.len(),
                self.seq + targets_bound(documents as nat, all, i as nat) + left == u64::MAX,
            decreases self.targets.len() - i,
        {
            let target = &self.targets[i].1;
            assert(all[i as int].1 == target@);
            let need: u128 = documents as u128 + count_named(&target.spec) as u128
                + target.documents.len() as u128;
            if need > left as u128 {
                proof {
                    targets_bound_grows(documents as nat, all, (i + 1) as nat, all.len());
                }
                return None;
            }
            left = left - need as u64;
            i += 1;
        }
        Some(left)
    }

    /// Compares every target with the documents that it has now and tells the
    /// client what is different.
    pub fn refresh(&mut self, documents: &OrderedMap<Document>, now: &Timestamp) -> (r: Result<
        (),
        Status,
    >)
        requires
            refresh_spec(documents@, old(self)@, *now).0.seq <= u64::MAX,
        ensures
            refresh_spec(documents@, old(self)@, *now) == (final(self)@, unit_result(r)),
    {
        let read_time = time_json(Some(*now));
        let ghost start = self@;
        let ghost goal = refresh_targets(documents@, start, 0, false, read_time@);
        let mut changed = false;
        let mut i: usize = 0;
        while i < self.targets.len()
            invariant
                start == old(self)@,
                i <= self.targets@.len(),
                read_time@ == time_json_spec(Some(*now)),
                goal == refresh_targets(documents@, start, 0, false, read_time@),
                goal == refresh_targets(documents@, self@, i as int, changed, read_time@),
                refresh_spec(documents@, start, *now).0.seq <= u64::MAX,
            decreases self.targets@.len() - i,
        {
            proof {
                refresh_target_counts(documents@, self@, i as int, read_time@);
                if let Ok(next) = refresh_target(documents@, self@, i as int, read_time@) {
                    refresh_targets_counts(
                        documents@,
                        next.0,
                        i + 1,
                        changed || next.1,
                        read_time@,
                    );
                }
            }
            let ghost count = self.targets@.len();
            match self.refresh_at(documents, i, &read_time) {
                Ok(told) => {
                    assert(self@.targets.len() == self.targets@.len());
                    changed = changed || told;
                },
                Err(e) => {
                    return Err(e);
                },
            }
            i += 1;
        }
        if changed {
            self.push(
                single(
                    "targetChange",
                    single("targetChangeType", Json::of_text("NO_CHANGE")).with(
                        "targetIds",
                        no_ids(),
                    ).with("readTime", read_time),
                ),
            );
        }
        Ok(())
    }

    /// Sends the first documents of a target.
    pub fn refresh_initial(&mut self, documents: &OrderedMap<Document>, id: i32, now: &Timestamp)
        -> (r: Result<(), Status>)
        requires
            target_index(old(self)@.targets, id) < old(self)@.targets.len(),
            refresh_initial_spec(documents@, old(self)@, id, *now).0.seq <= u64::MAX,
        ensures
            refresh_initial_spec(documents@, old(self)@, id, *now) == (
                final(self)@,
                unit_result(r),
            ),
    {
        let read_time = time_json(Some(*now));
        let ghost targets = self@.targets;
        let mut i: usize = 0;
        while i < self.targets.len() && self.targets[i].0 != id
            invariant
                i <= self.targets@.len(),
                *self == *old(self),
                targets == self@.targets,
                forall|j: int| 0 <= j < i ==> (#[trigger] targets[j]).0 != id,
            decreases self.targets@.len() - i,
        {
            assert(targets[i as int].0 == self.targets@[i as int].0);
            i += 1;
        }
        proof {
            if i == self.targets@.len() {
                target_index_missing(targets, id);
            }
            assert(targets[i as int].0 == self.targets@[i as int].0);
            target_index_found(targets, id, i as int);
        }
        match self.refresh_at(documents, i, &read_time) {
            Ok(_) => {},
            Err(e) => {
                return Err(e);
            },
        }
        self.push(
            single(
                "targetChange",
                single("targetChangeType", Json::of_text("CURRENT")).with(
                    "targetIds",
                    id_list(id as i64),
                ).with("readTime", read_time.duplicate()),
            ),
        );
        self.push(
            single(
                "targetChange",
                single("targetChangeType", Json::of_text("NO_CHANGE")).with(
                    "targetIds",
                    no_ids(),
                ).with("readTime", read_time),
            ),
        );
        Ok(())
    }

    /// Takes a request and says what is left to do of it.
    pub fn accept(&mut self, rpc: &str, sid: &str, message: &Json) -> (r: Result<WebStep, Status>)
        requires
            old(self).seq < u64::MAX,
        ensures
            ({
                let (after, outcome) = accept_spec(old(self)@, rpc@, sid@, message@);
                &&& final(self)@ == after
                &&& match outcome {
                    Ok(step) => r is Ok && r->Ok_0@ == step,
                    Err(e) => r is Err && r->Err_0@ == e,
                }
            }),
    {
        let ghost start = self@;
        if same(rpc, "Write") {
            if !self.write_ready {
                self.write_ready = true;
                if let Some(database) = text_under(message, "database") {
                    self.database = database;
                }
                assert(self@ =~= SessionView {
                    write_ready: true,
                    database: match as_text_spec(at(message@, "database"@)) {
                        Some(database) => database,
                        None => start.database,
                    },
                    ..start
                });
                self.push(
                    single("streamId", Json::of_text(sid)).with(
                        "streamToken",
                        Json::Text(base64_encode("0".as_bytes())),
                    ),
                );
                return Ok(WebStep::Done);
            }
            return match writes_proto(message) {
                Ok(writes) => Ok(WebStep::Commit(writes)),
                Err(e) => Err(e),
            };
        }
        if let Some(target) = message.get("addTarget") {
            let n: i64 = match target.integer_at("targetId") {
                Some(n) => n,
                None => {
                    return Err(Status::invalid_argument("targetId required"));
                },
            };
            let id: i32 = #[verifier::truncate] (n as i32);
            let added = WebTarget { spec: target.duplicate(), documents: OrderedMap::new() };
            put_target(&mut self.targets, id, added);
            assert(self@ =~= SessionView {
                targets: insert_target(
                    start.targets,
                    id,
                    WebTargetView { spec: target@, documents: Seq::empty() },
                ),
                ..start
            });
            self.push(
                single(
                    "targetChange",
                    single("targetChangeType", Json::of_text("ADD")).with(
                        "targetIds",
                        id_list(id as i64),
                    ),
                ),
            );
            return Ok(WebStep::Refresh(id));
        }
        if let Some(n) = message.integer_at("removeTarget") {
            let id: i32 = #[verifier::truncate] (n as i32);
            drop_target(&mut self.targets, id);
            assert(self@ =~= SessionView { targets: remove_target(start.targets, id), ..start });
            self.push(
                single(
                    "targetChange",
                    single("targetChangeType", Json::of_text("REMOVE")).with(
                        "targetIds",
                        id_list(n),
                    ),
                ),
            );
        }
        Ok(WebStep::Done)
    }

    /// Tells the client what a commit on its stream of writes answered.
    pub fn committed(&mut self, sid: &str, results: &Vec<WriteResult>, commit_time: &Timestamp)
        requires
            old(self).seq < u64::MAX,
        ensures
            final(self)@ == push_spec(
                old(self)@,
                stream_committed(old(self)@.seq, sid@, results_view(results@), *commit_time),
            ),
    {
        let token = decimal(self.seq + 1);
        self.push(
            commit_json(results, commit_time).with("streamId", Json::of_text(sid)).with(
                "streamToken",
                Json::Text(base64_encode(token.as_str().as_bytes())),
            ),
        );
    }
}

} // verus!
