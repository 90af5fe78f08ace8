//! What a client that listens to documents is told.
use crate::changes::same_document_spec;
use crate::document::DocumentView;
use crate::listen::{
    add_target_spec, additions, by_name_spec, changed_spec, emission, ids_rise, named_documents,
    removals, target_change, target_docs_spec, told, with_target, without_target, ListenView,
    TargetView, WatchedView,
};
use crate::ordered::{keys_sorted, lookup, lookup_after_put, lookup_at, put_sorted};
use crate::status::StatusView;
use crate::value::Timestamp;
use crate::writes::DocumentsView;
use vstd::prelude::*;

verus! {

/// The documents of a target that names some are those of the names that are
/// there.
pub proof fn named_targets_hold_their_documents(
    documents: DocumentsView,
    names: Seq<Seq<char>>,
    doc: DocumentView,
)
    ensures
        target_docs_spec(documents, TargetView::Documents(names)) is Ok,
        target_docs_spec(documents, TargetView::Documents(names))->Ok_0.contains(doc)
            <==> exists|i: int|
            0 <= i < names.len() && lookup(documents, #[trigger] names[i]) == Some(doc),
    decreases names.len(),
{
    let all = named_documents(documents, names);
    if names.len() > 0 {
        let init = names.drop_last();
        let last = names.len() - 1;
        named_targets_hold_their_documents(documents, init, doc);
        let before = named_documents(documents, init);
        assert(target_docs_spec(documents, TargetView::Documents(init))->Ok_0 == before);
        if before.contains(doc) {
            let k = choose|k: int| 0 <= k < before.len() && before[k] == doc;
            assert(all[k] == doc);
            let i = choose|i: int|
                0 <= i < init.len() && lookup(documents, #[trigger] init[i]) == Some(doc);
            assert(lookup(documents, names[i]) == Some(doc));
        }
        if lookup(documents, names[last]) == Some(doc) {
            assert(all[before.len() as int] == doc);
        }
        if exists|i: int|
            0 <= i < names.len() && lookup(documents, #[trigger] names[i]) == Some(doc) {
            let i = choose|i: int|
                0 <= i < names.len() && lookup(documents, #[trigger] names[i]) == Some(doc);
            if i < last {
                assert(init[i] == names[i]);
            }
        }
        if all.contains(doc) {
            let k = choose|k: int| 0 <= k < all.len() && all[k] == doc;
            if k < before.len() {
                assert(before[k] == doc);
            } else {
                assert(lookup(documents, names[last]) == Some(doc));
            }
        }
    }
}

/// Documents are filed under their names: a name is found where a document has
/// it, and what is found is one that does.
pub proof fn documents_are_filed_by_name(docs: Seq<DocumentView>, name: Seq<char>)
    ensures
        keys_sorted(by_name_spec(docs)),
        match lookup(by_name_spec(docs), name) {
            Some(doc) => doc.name == name && docs.contains(doc),
            None => forall|i: int| 0 <= i < docs.len() ==> (#[trigger] docs[i]).name != name,
        },
    decreases docs.len(),
{
    if docs.len() > 0 {
        let init = docs.drop_last();
        let last = docs.len() - 1;
        documents_are_filed_by_name(init, name);
        put_sorted(by_name_spec(init), docs.last().name, docs.last());
        lookup_after_put(by_name_spec(init), docs.last().name, docs.last(), name);
        match lookup(by_name_spec(docs), name) {
            Some(doc) => {
                if docs[last].name == name {
                    assert(docs[last] == doc);
                } else {
                    let k = choose|k: int| 0 <= k < init.len() && init[k] == doc;
                    assert(docs[k] == doc);
                }
            },
            None => {
                assert forall|i: int| 0 <= i < docs.len() implies (#[trigger] docs[i]).name
                    != name by {
                    if i < last {
                        assert(init[i] == docs[i]);
                    }
                }
            },
        }
    }
}

proof fn removal_told(
    previous: DocumentsView,
    current: DocumentsView,
    n: nat,
    id: i32,
    now: Timestamp,
    m: ListenView,
)
    requires
        n <= previous.len(),
    ensures
        removals(previous, current, n, id, now).contains(m) <==> exists|k: int|
            0 <= k < n && lookup(current, (#[trigger] previous[k]).0) is None && m == (
            ListenView::DocumentRemove { document: previous[k].0, target_id: id, read_time: now }),
    decreases n,
{
    if n > 0 {
        let p = (n - 1) as nat;
        removal_told(previous, current, p, id, now, m);
        let before = removals(previous, current, p, id, now);
        let all = removals(previous, current, n, id, now);
        if before.contains(m) {
            let k = choose|k: int| 0 <= k < before.len() && before[k] == m;
            assert(all[k] == m);
        }
        if lookup(current, previous[p as int].0) is None {
            assert(all[before.len() as int] == (ListenView::DocumentRemove {
                document: previous[p as int].0,
                target_id: id,
                read_time: now,
            }));
        }
        if all.contains(m) {
            let k = choose|k: int| 0 <= k < all.len() && all[k] == m;
            if k < before.len() {
                assert(before[k] == m);
            }
        }
    }
}

proof fn addition_told(
    previous: DocumentsView,
    current: DocumentsView,
    n: nat,
    id: i32,
    m: ListenView,
)
    requires
        n <= current.len(),
    ensures
        additions(previous, current, n, id).contains(m) <==> exists|k: int|
            0 <= k < n && !(lookup(previous, (#[trigger] current[k]).0) is Some
                && same_document_spec(lookup(previous, current[k].0)->0, current[k].1)) && m == (
            ListenView::DocumentChange { document: current[k].1, target_id: id }),
    decreases n,
{
    if n > 0 {
        let p = (n - 1) as nat;
        addition_told(previous, current, p, id, m);
        let before = additions(previous, current, p, id);
        let all = additions(previous, current, n, id);
        if before.contains(m) {
            let k = choose|k: int| 0 <= k < before.len() && before[k] == m;
            assert(all[k] == m);
        }
        if !(lookup(previous, current[p as int].0) is Some && same_document_spec(
            lookup(previous, current[p as int].0)->0,
            current[p as int].1,
        )) {
            assert(all[before.len() as int] == (ListenView::DocumentChange {
                document: current[p as int].1,
                target_id: id,
            }));
        }
        if all.contains(m) {
            let k = choose|k: int| 0 <= k < all.len() && all[k] == m;
            if k < before.len() {
                assert(before[k] == m);
            }
        }
    }
}

/// A client is told of a removal exactly for the documents that it knew and
/// that are gone, and of a change exactly for those that are new or different.
/// The first time it is then told that the target is current. The last message
/// tells the time.
pub proof fn clients_are_told_what_changed(
    previous: DocumentsView,
    current: DocumentsView,
    id: i32,
    initial: bool,
    now: Timestamp,
    name: Seq<char>,
    doc: DocumentView,
)
    requires
        keys_sorted(previous),
        keys_sorted(current),
        forall|i: int| 0 <= i < current.len() ==> (#[trigger] current[i]).1.name == current[i].0,
    ensures
        ({
            let messages = emission(previous, current, id, initial, now);
            let gone = ListenView::DocumentRemove { document: name, target_id: id, read_time: now };
            let changed = ListenView::DocumentChange { document: doc, target_id: id };
            let current_now = ListenView::TargetChange {
                kind: 3,
                target_ids: seq![id],
                read_time: None,
            };
            &&& messages.contains(gone) <==> lookup(previous, name) is Some && lookup(current, name)
                is None
            &&& messages.contains(changed) <==> lookup(current, doc.name) == Some(doc) && !(lookup(
                previous,
                doc.name,
            ) is Some && same_document_spec(lookup(previous, doc.name)->0, doc))
            &&& messages.contains(current_now) <==> initial
            &&& messages.len() > 0
            &&& messages.last() == (ListenView::TargetChange {
                kind: 0,
                target_ids: Seq::empty(),
                read_time: Some(now),
            })
        }),
{
    let gone = ListenView::DocumentRemove { document: name, target_id: id, read_time: now };
    let changed = ListenView::DocumentChange { document: doc, target_id: id };
    let current_now = target_change(3, seq![id], None);
    let last = target_change(0, Seq::empty(), Some(now));
    let left = removals(previous, current, previous.len(), id, now);
    let right = additions(previous, current, current.len(), id);
    let changes = left + right;
    let announced = if initial {
        changes.push(current_now)
    } else {
        changes
    };
    let messages = emission(previous, current, id, initial, now);
    assert(messages == announced.push(last));
    assert forall|m: ListenView| #[trigger] messages.contains(m) <==> left.contains(m)
        || right.contains(m) || (initial && m == current_now) || m == last by {
        if left.contains(m) {
            let k = choose|k: int| 0 <= k < left.len() && left[k] == m;
            assert(messages[k] == m);
        }
        if right.contains(m) {
            let k = choose|k: int| 0 <= k < right.len() && right[k] == m;
            assert(messages[left.len() + k] == m);
        }
        if initial {
            assert(messages[changes.len() as int] == current_now);
        }
        assert(messages[announced.len() as int] == last);
        if messages.contains(m) {
            let k = choose|k: int| 0 <= k < messages.len() && messages[k] == m;
            if k < left.len() {
                assert(left[k] == m);
            } else if k < changes.len() {
                assert(right[k - left.len()] == m);
            }
        }
    }
    removal_told(previous, current, previous.len(), id, now, gone);
    removal_told(previous, current, previous.len(), id, now, changed);
    removal_told(previous, current, previous.len(), id, now, current_now);
    addition_told(previous, current, current.len(), id, gone);
    addition_told(previous, current, current.len(), id, changed);
    addition_told(previous, current, current.len(), id, current_now);
    if lookup(previous, name) is Some {
        crate::ordered::lookup_found(previous, name);
    }
    if lookup(current, doc.name) is Some {
        crate::ordered::lookup_found(current, doc.name);
    }
    assert forall|k: int| 0 <= k < previous.len() implies lookup(
        previous,
        (#[trigger] previous[k]).0,
    ) == Some(previous[k].1) by {
        lookup_at(previous, k);
    }
    assert forall|k: int| 0 <= k < current.len() implies lookup(current, (#[trigger] current[k]).0)
        == Some(current[k].1) by {
        lookup_at(current, k);
    }
    assert(seq![id].len() == 1);
    assert(current_now != last) by {
        assert(Seq::<i32>::empty().len() == 0);
    }
}

/// A target that is added is there with what it asks for, every other target
/// stays, and one that is removed is gone.
pub proof fn targets_come_and_go(targets: Seq<WatchedView>, added: WatchedView, other: WatchedView)
    requires
        ids_rise(targets),
    ensures
        with_target(targets, added).contains(added),
        other.id != added.id ==> (with_target(targets, added).contains(other) <==> targets.contains(
            other,
        )),
        without_target(targets, added.id).contains(other) <==> targets.contains(other) && other.id
            != added.id,
    decreases targets.len(),
{
    if targets.len() == 0 {
        assert(targets.push(added)[0] == added);
        if targets.push(added).contains(other) {
            let k = choose|k: int|
                0 <= k < targets.push(added).len() && targets.push(added)[k] == other;
            assert(k == 0);
        }
    } else {
        let init = targets.drop_last();
        let last = targets.len() - 1;
        assert(ids_rise(init)) by {
            assert forall|i: int, j: int| 0 <= i < j < init.len() implies (#[trigger] init[i]).id
                < (#[trigger] init[j]).id by {
                assert(init[i] == targets[i] && init[j] == targets[j]);
            }
        }
        targets_come_and_go(init, added, other);
        let all = with_target(targets, added);
        let rest = without_target(targets, added.id);
        pushed(init, targets[last], other);
        assert(targets =~= init.push(targets[last]));
        pushed(targets, added, other);
        pushed(targets, added, added);
        pushed(init, added, other);
        pushed(init, added, added);
        pushed(with_target(init, added), targets[last], other);
        pushed(with_target(init, added), targets[last], added);
        pushed(without_target(init, added.id), targets[last], other);
    }
}

proof fn pushed(s: Seq<WatchedView>, x: WatchedView, y: WatchedView)
    ensures
        s.push(x).contains(y) <==> s.contains(y) || x == y,
{
    if s.contains(y) {
        let k = choose|k: int| 0 <= k < s.len() && s[k] == y;
        assert(s.push(x)[k] == y);
    }
    assert(s.push(x)[s.len() as int] == x);
    if s.push(x).contains(y) {
        let k = choose|k: int| 0 <= k < s.push(x).len() && s.push(x)[k] == y;
        if k < s.len() {
            assert(s[k] == y);
        }
    }
}

/// A client that adds a target is told first that it was added, and then of
/// every document of the target.
pub proof fn new_targets_are_told_in_full(
    targets: Seq<WatchedView>,
    id: i32,
    target: TargetView,
    documents: DocumentsView,
    now: Timestamp,
    docs: Seq<DocumentView>,
)
    requires
        target_docs_spec(documents, target) == Ok::<Seq<DocumentView>, StatusView>(
            docs,
        ),
        ids_rise(targets),
    ensures
        ({
            let step = add_target_spec(targets, id, target, documents, now);
            &&& step.error is None
            &&& step.messages.len() > 0
            &&& step.messages[0] == (ListenView::TargetChange {
                kind: 1,
                target_ids: seq![id],
                read_time: None,
            })
            &&& exists|i: int|
                0 <= i < step.targets.len() && (#[trigger] step.targets[i]).id == id
                    && step.targets[i].target == target && step.targets[i].previous == by_name_spec(
                    docs,
                )
            &&& forall|d: DocumentView|
                #![trigger lookup(by_name_spec(docs), d.name)]
                lookup(by_name_spec(docs), d.name) == Some(d) ==> step.messages.contains(
                    ListenView::DocumentChange { document: d, target_id: id },
                )
        }),
{
    let step = add_target_spec(targets, id, target, documents, now);
    let added = WatchedView { id, target, previous: by_name_spec(docs) };
    targets_come_and_go(targets, added, added);
    let at = choose|i: int| 0 <= i < step.targets.len() && step.targets[i] == added;
    assert(step.targets[at].id == id);
    let current = by_name_spec(docs);
    documents_are_filed_by_name(docs, Seq::empty());
    assert forall|i: int| 0 <= i < current.len() implies (#[trigger] current[i]).1.name
        == current[i].0 by {
        documents_are_filed_by_name(docs, current[i].0);
        lookup_at(current, i);
    }
    let told_now = emission(Seq::empty(), current, id, true, now);
    let front = seq![target_change(1, seq![id], None)];
    assert(step.messages == front + told_now);
    assert forall|d: DocumentView|
        #![trigger lookup(by_name_spec(docs), d.name)]
        lookup(by_name_spec(docs), d.name) == Some(d) implies step.messages.contains(
        ListenView::DocumentChange { document: d, target_id: id },
    ) by {
        assert(keys_sorted(Seq::<(Seq<char>, DocumentView)>::empty()));
        clients_are_told_what_changed(Seq::empty(), current, id, true, now, d.name, d);
        let m = ListenView::DocumentChange { document: d, target_id: id };
        assert(lookup(Seq::<(Seq<char>, DocumentView)>::empty(), d.name) is None);
        let k = choose|k: int| 0 <= k < told_now.len() && told_now[k] == m;
        assert(step.messages[1 + k] == m);
    }
}

proof fn told_in_turn(
    targets: Seq<WatchedView>,
    documents: DocumentsView,
    now: Timestamp,
    n: nat,
    i: int,
)
    requires
        n <= targets.len(),
        0 <= i < targets.len(),
        changed_spec(targets, documents, now, n).error is None,
    ensures
        changed_spec(targets, documents, now, n).targets.len() == targets.len(),
        i >= n ==> changed_spec(targets, documents, now, n).targets[i] == targets[i],
        i < n ==> {
            let after = changed_spec(targets, documents, now, n);
            &&& told(targets[i], documents, now) is Ok
            &&& after.targets[i] == told(targets[i], documents, now)->Ok_0.0
            &&& forall|m: ListenView|
                told(targets[i], documents, now)->Ok_0.1.contains(m)
                    ==> #[trigger] after.messages.contains(m)
        },
    decreases n,
{
    if n > 0 {
        let p = (n - 1) as nat;
        told_in_turn(targets, documents, now, p, i);
        let before = changed_spec(targets, documents, now, p);
        let after = changed_spec(targets, documents, now, n);
        let pair = told(targets[p as int], documents, now)->Ok_0;
        assert(after.messages == before.messages + pair.1);
        assert forall|m: ListenView|
            before.messages.contains(m) || pair.1.contains(m) implies #[trigger] after.messages.contains(
            m,
        ) by {
            if before.messages.contains(m) {
                let k = choose|k: int| 0 <= k < before.messages.len() && before.messages[k] == m;
                assert(after.messages[k] == m);
            } else {
                let k = choose|k: int| 0 <= k < pair.1.len() && pair.1[k] == m;
                assert(after.messages[before.messages.len() + k] == m);
            }
        }
        if i < p {
            let mine = told(targets[i], documents, now)->Ok_0.1;
            assert forall|m: ListenView| mine.contains(m) implies #[trigger] after.messages.contains(
                m,
            ) by {
                assert(before.messages.contains(m));
            }
        }
    }
}

/// After a change every target is told of what became of its documents, and
/// knows them from then on: one that is gone is told as removed, and one that
/// is new or different as changed.
pub proof fn every_target_is_told(
    targets: Seq<WatchedView>,
    documents: DocumentsView,
    now: Timestamp,
    i: int,
    docs: Seq<DocumentView>,
    name: Seq<char>,
    doc: DocumentView,
)
    requires
        0 <= i < targets.len(),
        changed_spec(targets, documents, now, targets.len()).error is None,
        target_docs_spec(documents, targets[i].target) == Ok::<Seq<DocumentView>, StatusView>(docs),
        keys_sorted(targets[i].previous),
    ensures
        ({
            let after = changed_spec(targets, documents, now, targets.len());
            let known = targets[i].previous;
            let id = targets[i].id;
            &&& after.targets[i].id == id
            &&& after.targets[i].target == targets[i].target
            &&& after.targets[i].previous == by_name_spec(docs)
            &&& lookup(known, name) is Some && lookup(by_name_spec(docs), name) is None
                ==> after.messages.contains(
                ListenView::DocumentRemove { document: name, target_id: id, read_time: now },
            )
            &&& lookup(by_name_spec(docs), doc.name) == Some(doc) && !(lookup(known, doc.name)
                is Some && same_document_spec(lookup(known, doc.name)->0, doc))
                ==> after.messages.contains(
                ListenView::DocumentChange { document: doc, target_id: id },
            )
        }),
{
    told_in_turn(targets, documents, now, targets.len(), i);
    let current = by_name_spec(docs);
    documents_are_filed_by_name(docs, name);
    assert forall|k: int| 0 <= k < current.len() implies (#[trigger] current[k]).1.name
        == current[k].0 by {
        documents_are_filed_by_name(docs, current[k].0);
        lookup_at(current, k);
    }
    let old = targets[i];
    clients_are_told_what_changed(old.previous, current, old.id, false, now, name, doc);
    let after = changed_spec(targets, documents, now, targets.len());
    reveal(told);
    let mine = told(old, documents, now)->Ok_0.1;
    assert(mine == emission(old.previous, current, old.id, false, now));
    let gone = ListenView::DocumentRemove { document: name, target_id: old.id, read_time: now };
    let changed = ListenView::DocumentChange { document: doc, target_id: old.id };
    assert(mine.contains(gone) ==> after.messages.contains(gone));
    assert(mine.contains(changed) ==> after.messages.contains(changed));
}

} // verus!
