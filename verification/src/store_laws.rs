//! What reads of the store show of what was written, and which events a change
//! is worth.
use crate::changes::{
    change_events, document_changed_spec, document_events, events_of_new, events_of_old,
    same_value_spec, ChangeView,
};
use crate::document::DocumentView;
use crate::firestore::{
    batch_get_spec, create_document_spec, run_query_spec, BatchGetResultView, CreateView, StoreView,
};
use crate::names::is_document_name;
use crate::ordered::{keys_sorted, lookup, lookup_after_put, lookup_at, lookup_found};
use crate::status::Code;
use crate::value::Timestamp;
use crate::writes::{apply_write_spec, batch_spec, DocumentsView, WriteView};
use vstd::prelude::*;

verus! {

/// A document that is created under a name of its own is found under the
/// parent, the collection and that name, with the fields that were given and
/// the time of its creation; one that is there already is left alone.
pub proof fn created_documents_are_read_back(
    store: StoreView,
    request: CreateView,
    now: Timestamp,
    other: Seq<char>,
)
    requires
        keys_sorted(store.documents),
        request.document is Some,
        request.parent.len() > 0,
        request.parent.last() != '/',
        request.collection_id.len() > 0,
        request.document_id.len() > 0,
        is_document_name(
            request.parent + "/"@ + request.collection_id + "/"@ + request.document_id,
        ),
    ensures
        ({
            let name = request.parent + "/"@ + request.collection_id + "/"@ + request.document_id;
            let (after, answer) = create_document_spec(store, request, now);
            &&& after.transactions == store.transactions
            &&& after.next_id == store.next_id
            &&& other != name ==> lookup(after.documents, other) == lookup(store.documents, other)
            &&& lookup(store.documents, name) is Some ==> after == store && (answer matches Err(e)
                && e.code == Code::AlreadyExists)
            &&& lookup(store.documents, name) is None ==> ({
                &&& answer matches Ok(doc)
                &&& lookup(after.documents, name) == Some(doc)
                &&& doc.name == name
                &&& doc.fields == request.document->0.fields
                &&& doc.create_time == Some(now)
                &&& doc.update_time == Some(now)
            })
        }),
{
    let name = request.parent + "/"@ + request.collection_id + "/"@ + request.document_id;
    let (after, answer) = create_document_spec(store, request, now);
    if lookup(store.documents, name) is None {
        lookup_after_put(store.documents, name, answer->Ok_0, other);
    }
}

/// A document that is created without a name gets one that rises with every
/// such request: its number is one more than the last.
pub proof fn automatic_names_are_counted(store: StoreView, request: CreateView, now: Timestamp)
    requires
        request.document is Some,
        request.parent.len() > 0,
        request.collection_id.len() > 0,
        request.document_id.len() == 0,
    ensures
        create_document_spec(store, request, now).0.next_id == store.next_id + 1,
{
}

/// A request for a new document without a document, a parent or a collection is
/// refused as an invalid argument and changes nothing.
pub proof fn incomplete_creations_are_refused(
    store: StoreView,
    request: CreateView,
    now: Timestamp,
)
    requires
        request.document is None || request.parent.len() == 0 || request.collection_id.len() == 0,
    ensures
        create_document_spec(store, request, now).0 == store,
        create_document_spec(store, request, now).1 matches Err(e) && e.code
            == Code::InvalidArgument,
{
}

/// A batch read answers every name in turn: with the document where there is
/// one and with the name where there is none; and the first answer carries the
/// token of a new transaction.
pub proof fn batch_reads_answer_every_name(
    documents: DocumentsView,
    names: Seq<Seq<char>>,
    token: Option<Seq<u8>>,
    now: Timestamp,
    i: int,
)
    requires
        0 <= i < names.len(),
    ensures
        ({
            let answers = batch_get_spec(documents, names, token, now);
            &&& answers.len() == names.len()
            &&& answers[i].read_time == now
            &&& lookup(documents, names[i]) matches Some(doc) ==> answers[i].result
                == BatchGetResultView::Found(doc)
            &&& lookup(documents, names[i]) is None ==> answers[i].result
                == BatchGetResultView::Missing(names[i])
            &&& i == 0 && token is Some ==> answers[i].transaction == token->0
            &&& i > 0 || token is None ==> answers[i].transaction.len() == 0
        }),
{
}

/// A query is answered with its results in turn; one without results has one
/// answer that ends it. The first answer carries the token of a new transaction.
pub proof fn queries_answer_every_result(
    docs: Seq<DocumentView>,
    token: Option<Seq<u8>>,
    now: Timestamp,
    i: int,
)
    ensures
        ({
            let answers = run_query_spec(docs, token, now);
            &&& answers.len() == (if docs.len() == 0 { 1 } else { docs.len() })
            &&& docs.len() == 0 ==> answers[0].document is None && answers[0].done
            &&& 0 <= i < docs.len() ==> answers[i].document == Some(docs[i]) && !answers[i].done
            &&& 0 <= i < answers.len() ==> answers[i].read_time == now
            &&& token is Some ==> answers[0].transaction == token->0
            &&& 0 < i < answers.len() || (i == 0 && token is None)
                ==> answers[i].transaction.len() == 0
        }),
{
}

/// Each write of a batch is answered on its own: one that can be applied as it
/// is alone, with the status of success; another with why it was refused, and
/// without a change.
pub proof fn batches_answer_each_write(
    documents: DocumentsView,
    writes: Seq<WriteView>,
    last: WriteView,
    now: Timestamp,
)
    ensures
        ({
            let before = batch_spec(documents, writes, now);
            let after = batch_spec(documents, writes.push(last), now);
            let n = before.statuses.len() as int;
            &&& after.results.len() == before.results.len() + 1
            &&& after.statuses.len() == n + 1
            &&& after.results.drop_last() == before.results
            &&& after.statuses.drop_last() == before.statuses
            &&& match apply_write_spec(before.documents, last, now) {
                Ok(done) => after.documents == done.0 && after.results.last() == done.1
                    && after.statuses[n].code == 0,
                Err(e) => after.documents == before.documents && after.results.last().update_time
                    is None && after.statuses[n].code != 0 && after.statuses[n].message
                    == e.message,
            }
        }),
{
    assert(writes.push(last).drop_last() =~= writes);
    let before = batch_spec(documents, writes, now);
    let after = batch_spec(documents, writes.push(last), now);
    assert(after.results.drop_last() =~= before.results);
    assert(after.statuses.drop_last() =~= before.statuses);
}

proof fn old_events(before: DocumentsView, after: DocumentsView, n: nat, c: ChangeView)
    requires
        n <= before.len(),
    ensures
        events_of_old(before, after, n).contains(c) <==> exists|k: int|
            0 <= k < n && c == (ChangeView {
                before: Some((#[trigger] before[k]).1),
                after: lookup(after, before[k].0),
            }) && document_changed_spec(c.before, c.after),
    decreases n,
{
    let all = events_of_old(before, after, n);
    if n > 0 {
        let m = (n - 1) as nat;
        old_events(before, after, m, c);
        let some = events_of_old(before, after, m);
        let more = change_events(Some(before[n - 1].1), lookup(after, before[n - 1].0));
        if all.contains(c) {
            let i = choose|i: int| 0 <= i < all.len() && all[i] == c;
            if i < some.len() {
                assert(some[i] == c);
                assert(some.contains(c));
                let k = choose|k: int|
                    0 <= k < m && c == (ChangeView {
                        before: Some((#[trigger] before[k]).1),
                        after: lookup(after, before[k].0),
                    }) && document_changed_spec(c.before, c.after);
                assert(before[k].1 == before[k].1);
            } else {
                assert(more[i - some.len()] == c);
                assert(before[n - 1].1 == before[n - 1].1);
            }
        }
        if exists|k: int|
            0 <= k < n && c == (ChangeView {
                before: Some((#[trigger] before[k]).1),
                after: lookup(after, before[k].0),
            }) && document_changed_spec(c.before, c.after) {
            let k = choose|k: int|
                0 <= k < n && c == (ChangeView {
                    before: Some((#[trigger] before[k]).1),
                    after: lookup(after, before[k].0),
                }) && document_changed_spec(c.before, c.after);
            if k < m {
                assert(some.contains(c));
                let i = choose|i: int| 0 <= i < some.len() && some[i] == c;
                assert(all[i] == c);
            } else {
                assert(more[0] == c);
                assert(all[some.len() as int] == c);
            }
        }
    }
}

proof fn new_events(before: DocumentsView, after: DocumentsView, n: nat, c: ChangeView)
    requires
        n <= after.len(),
    ensures
        events_of_new(before, after, n).contains(c) <==> exists|k: int|
            0 <= k < n && c == (ChangeView { before: None, after: Some((#[trigger] after[k]).1) })
                && lookup(before, after[k].0) is None,
    decreases n,
{
    let all = events_of_new(before, after, n);
    if n > 0 {
        let m = (n - 1) as nat;
        new_events(before, after, m, c);
        let some = events_of_new(before, after, m);
        let last = ChangeView { before: None, after: Some(after[n - 1].1) };
        if all.contains(c) {
            let i = choose|i: int| 0 <= i < all.len() && all[i] == c;
            if i < some.len() {
                assert(some[i] == c);
                assert(some.contains(c));
                let k = choose|k: int|
                    0 <= k < m && c == (ChangeView {
                        before: None,
                        after: Some((#[trigger] after[k]).1),
                    }) && lookup(before, after[k].0) is None;
                assert(after[k].1 == after[k].1);
            } else {
                assert(after[n - 1].1 == after[n - 1].1);
            }
        }
        if exists|k: int|
            0 <= k < n && c == (ChangeView { before: None, after: Some((#[trigger] after[k]).1) })
                && lookup(before, after[k].0) is None {
            let k = choose|k: int|
                0 <= k < n && c == (ChangeView {
                    before: None,
                    after: Some((#[trigger] after[k]).1),
                }) && lookup(before, after[k].0) is None;
            if k < m {
                assert(some.contains(c));
                let i = choose|i: int| 0 <= i < some.len() && some[i] == c;
                assert(all[i] == c);
            } else {
                assert(all[all.len() - 1] == c);
            }
        }
    }
}

/// Whether a change made a difference to the fields of a document, or made or
/// removed it.
pub open spec fn differs(c: ChangeView) -> bool {
    document_changed_spec(c.before, c.after)
}

/// The events between two states are those of the documents that differ, each
/// with what was stored under its name before and after.
pub proof fn events_tell_what_changed(
    before: DocumentsView,
    after: DocumentsView,
    name: Seq<char>,
    c: ChangeView,
)
    requires
        keys_sorted(before),
        keys_sorted(after),
    ensures
        ({
            let events = document_events(before, after);
            let change = ChangeView { before: lookup(before, name), after: lookup(after, name) };
            &&& differs(change) ==> events.contains(change)
            &&& events.contains(c) ==> differs(c) && exists|n: Seq<char>|
                c.before == #[trigger] lookup(before, n) && c.after == lookup(after, n)
        }),
{
    let events = document_events(before, after);
    let change = ChangeView { before: lookup(before, name), after: lookup(after, name) };
    let (first, second) = (
        events_of_old(before, after, before.len()),
        events_of_new(before, after, after.len()),
    );
    old_events(before, after, before.len(), change);
    new_events(before, after, after.len(), change);
    old_events(before, after, before.len(), c);
    new_events(before, after, after.len(), c);
    lookup_found(before, name);
    lookup_found(after, name);
    if differs(change) {
        if lookup(before, name) is Some {
            let k = choose|k: int|
                0 <= k < before.len() && #[trigger] before[k] == (name, lookup(before, name)->0);
            assert(change == (ChangeView {
                before: Some(before[k].1),
                after: lookup(after, before[k].0),
            }));
            assert(first.contains(change));
            let i = choose|i: int| 0 <= i < first.len() && first[i] == change;
            assert(events[i] == change);
        } else {
            let k = choose|k: int|
                0 <= k < after.len() && #[trigger] after[k] == (name, lookup(after, name)->0);
            assert(change == (ChangeView { before: None, after: Some(after[k].1) }));
            assert(second.contains(change));
            let i = choose|i: int| 0 <= i < second.len() && second[i] == change;
            assert(events[first.len() + i] == change);
        }
    }
    if events.contains(c) {
        let i = choose|i: int| 0 <= i < events.len() && events[i] == c;
        if i < first.len() {
            assert(first[i] == c);
            assert(first.contains(c));
            let k = choose|k: int|
                0 <= k < before.len() && c == (ChangeView {
                    before: Some((#[trigger] before[k]).1),
                    after: lookup(after, before[k].0),
                }) && document_changed_spec(c.before, c.after);
            lookup_at(before, k);
            assert(c.before == lookup(before, before[k].0));
        } else {
            assert(second[i - first.len()] == c);
            assert(second.contains(c));
            let k = choose|k: int|
                0 <= k < after.len() && c == (ChangeView {
                    before: None,
                    after: Some((#[trigger] after[k]).1),
                }) && lookup(before, after[k].0) is None;
            lookup_at(after, k);
            assert(c.before == lookup(before, after[k].0));
        }
    }
}

/// Making and removing a document differ, and so does giving a field another
/// integer, another text, or a field more or less.
pub proof fn changes_differ(a: DocumentView, b: DocumentView, i: int)
    requires
        0 <= i < a.fields.len(),
    ensures
        differs(ChangeView { before: None, after: Some(b) }),
        differs(ChangeView { before: Some(a), after: None }),
        !differs(ChangeView { before: None, after: None }),
        a.fields.len() != b.fields.len() || lookup(b.fields, a.fields[i].0) is None
            ==> differs(ChangeView { before: Some(a), after: Some(b) }),
        a.fields[i].1 is Integer && lookup(b.fields, a.fields[i].0) != Some(a.fields[i].1)
            ==> differs(ChangeView { before: Some(a), after: Some(b) }),
        a.fields[i].1 is Text && lookup(b.fields, a.fields[i].0) != Some(a.fields[i].1)
            ==> differs(ChangeView { before: Some(a), after: Some(b) }),
        a.fields[i].1 is Boolean && lookup(b.fields, a.fields[i].0) != Some(a.fields[i].1)
            ==> differs(ChangeView { before: Some(a), after: Some(b) }),
{
    reveal_with_fuel(same_value_spec, 2);
    if !differs(ChangeView { before: Some(a), after: Some(b) }) {
        assert(lookup(b.fields, a.fields[i].0) matches Some(other) && same_value_spec(
            a.fields[i].1,
            other,
        ));
    }
}

} // verus!
