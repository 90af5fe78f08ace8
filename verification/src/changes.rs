//! What changed between two states of a database, for triggers.
use crate::document::{opt_document, Document, DocumentView};
use crate::double::{same_number, same_number_spec};
use crate::ordered::{lookup, Duplicate, OrderedMap};
use crate::text::same;
use crate::value::{
    array_view, bytes_equal, fields_value_view, fields_view, get_field, values_view, FieldsView,
    Timestamp, FieldValue, ValueView,
};
use crate::writes::DocumentsView;
use vstd::prelude::*;

verus! {

/// Whether two values are the same: of one kind and equal, doubles as numbers,
/// named values regardless of order.
pub open spec fn same_value_spec(a: ValueView, b: ValueView) -> bool
    decreases a,
{
    match (a, b) {
        (ValueView::Double(x), ValueView::Double(y)) => same_number_spec(x, y),
        (ValueView::GeoPoint(x1, x2), ValueView::GeoPoint(y1, y2)) => same_number_spec(x1, y1)
            && same_number_spec(x2, y2),
        (ValueView::Array(x), ValueView::Array(y)) => x.len() == y.len() && forall|i: int|
            0 <= i < x.len() ==> same_value_spec(#[trigger] x[i], y[i]),
        (ValueView::Fields(x), ValueView::Fields(y)) => x.len() == y.len() && forall|i: int|
            0 <= i < x.len() ==> (lookup(y, (#[trigger] x[i]).0) matches Some(other)
                && same_value_spec(x[i].1, other)),
        (ValueView::Array(_), _) | (ValueView::Fields(_), _) => false,
        _ => a == b,
    }
}

/// Whether two lists of named values are the same.
pub open spec fn same_fields_spec(a: FieldsView, b: FieldsView) -> bool {
    same_value_spec(ValueView::Fields(a), ValueView::Fields(b))
}

/// Whether two values are the same.
pub fn same_value(a: &FieldValue, b: &FieldValue) -> (r: bool)
    ensures
        r == same_value_spec(a@, b@),
    decreases a,
{
    match (a, b) {
        (FieldValue::Unset, FieldValue::Unset) => true,
        (FieldValue::Null, FieldValue::Null) => true,
        (FieldValue::Boolean(x), FieldValue::Boolean(y)) => *x == *y,
        (FieldValue::Integer(x), FieldValue::Integer(y)) => *x == *y,
        (FieldValue::Double(x), FieldValue::Double(y)) => same_number(*x, *y),
        (FieldValue::Timestamp(x), FieldValue::Timestamp(y)) => x.seconds == y.seconds && x.nanos == y.nanos,
        (FieldValue::Text(x), FieldValue::Text(y)) => same(x.as_str(), y.as_str()),
        (FieldValue::Bytes(x), FieldValue::Bytes(y)) => bytes_equal(x, y),
        (FieldValue::Reference(x), FieldValue::Reference(y)) => same(x.as_str(), y.as_str()),
        (FieldValue::GeoPoint(x1, x2), FieldValue::GeoPoint(y1, y2)) => same_number(*x1, *y1) && same_number(
            *x2,
            *y2,
        ),
        (FieldValue::Array(x), FieldValue::Array(y)) => {
            proof {
                array_view(*x);
                array_view(*y);
            }
            same_lists(x, y)
        },
        (FieldValue::Fields(x), FieldValue::Fields(y)) => {
            proof {
                fields_value_view(*x);
                fields_value_view(*y);
            }
            same_fields(x, y)
        },
        _ => false,
    }
}

fn same_lists(a: &Vec<FieldValue>, b: &Vec<FieldValue>) -> (r: bool)
    ensures
        r == same_value_spec(
            ValueView::Array(values_view(a@)),
            ValueView::Array(values_view(b@)),
        ),
    decreases a,
{
    if a.len() != b.len() {
        return false;
    }
    let ghost x = values_view(a@);
    let ghost y = values_view(b@);
    let mut i: usize = 0;
    while i < a.len()
        invariant
            i <= a.len() == b.len(),
            x == values_view(a@),
            y == values_view(b@),
            forall|j: int| 0 <= j < i ==> same_value_spec(#[trigger] x[j], y[j]),
        decreases a.len() - i,
    {
        assert(decreases_to!(*a => a@[i as int]));
        if !same_value(&a[i], &b[i]) {
            assert(!same_value_spec(x[i as int], y[i as int]));
            return false;
        }
        i += 1;
    }
    true
}

/// Whether two lists of named values are the same.
pub fn same_fields(a: &Vec<(String, FieldValue)>, b: &Vec<(String, FieldValue)>) -> (r: bool)
    ensures
        r == same_fields_spec(fields_view(a@), fields_view(b@)),
    decreases a,
{
    if a.len() != b.len() {
        return false;
    }
    let ghost x = fields_view(a@);
    let ghost y = fields_view(b@);
    let mut i: usize = 0;
    while i < a.len()
        invariant
            i <= a.len() == b.len(),
            x == fields_view(a@),
            y == fields_view(b@),
            forall|j: int|
                0 <= j < i ==> (lookup(y, (#[trigger] x[j]).0) matches Some(other)
                    && same_value_spec(x[j].1, other)),
        decreases a.len() - i,
    {
        assert(decreases_to!(*a => a@[i as int]));
        assert(x[i as int] == (a@[i as int].0@, a@[i as int].1@));
        match get_field(b, a[i].0.as_str()) {
            Some(other) => {
                if !same_value(&a[i].1, other) {
                    return false;
                }
            },
            None => {
                return false;
            },
        }
        i += 1;
    }
    true
}

fn same_time(a: Option<Timestamp>, b: Option<Timestamp>) -> (r: bool)
    ensures
        r == (a == b),
{
    match (a, b) {
        (Some(x), Some(y)) => x.seconds == y.seconds && x.nanos == y.nanos,
        (None, None) => true,
        _ => false,
    }
}

/// Whether two documents are the same, times included.
pub open spec fn same_document_spec(a: DocumentView, b: DocumentView) -> bool {
    a.name == b.name && same_fields_spec(a.fields, b.fields) && a.create_time == b.create_time
        && a.update_time == b.update_time
}

/// Whether two documents are the same, times included.
pub fn same_document(a: &Document, b: &Document) -> (r: bool)
    ensures
        r == same_document_spec(a@, b@),
{
    same(a.name.as_str(), b.name.as_str()) && same_fields(&a.fields, &b.fields) && same_time(
        a.create_time,
        b.create_time,
    ) && same_time(a.update_time, b.update_time)
}

/// A change of a document: what it was and what it is.
#[derive(PartialEq, Debug)]
pub struct DocumentChange {
    pub before: Option<Document>,
    pub after: Option<Document>,
}

/// What a [`DocumentChange`] stands for.
#[verifier::ext_equal]
pub struct ChangeView {
    pub before: Option<DocumentView>,
    pub after: Option<DocumentView>,
}

pub open spec fn opt_owned(doc: Option<Document>) -> Option<DocumentView> {
    match doc {
        Some(d) => Some(d@),
        None => None,
    }
}

impl View for DocumentChange {
    type V = ChangeView;

    open spec fn view(&self) -> ChangeView {
        ChangeView { before: opt_owned(self.before), after: opt_owned(self.after) }
    }
}

/// Whether a change is worth an event: a write that only moves the times and
/// the removal of a missing document are not.
pub open spec fn document_changed_spec(
    before: Option<DocumentView>,
    after: Option<DocumentView>,
) -> bool {
    match (before, after) {
        (Some(a), Some(b)) => !same_fields_spec(a.fields, b.fields),
        (None, None) => false,
        _ => true,
    }
}

/// Whether a change is worth an event.
pub fn document_changed(before: Option<&Document>, after: Option<&Document>) -> (r: bool)
    ensures
        r == document_changed_spec(opt_document(before), opt_document(after)),
{
    match (before, after) {
        (Some(a), Some(b)) => !same_fields(&a.fields, &b.fields),
        (None, None) => false,
        _ => true,
    }
}

/// Copies a document that may be missing.
pub(crate) fn copy_document(doc: Option<&Document>) -> (r: Option<Document>)
    ensures
        opt_owned(r) == opt_document(doc),
{
    match doc {
        Some(d) => Some(d.duplicate()),
        None => None,
    }
}

/// The event of one change, where it is worth one.
pub open spec fn change_events(
    before: Option<DocumentView>,
    after: Option<DocumentView>,
) -> Seq<ChangeView> {
    if document_changed_spec(before, after) {
        seq![ChangeView { before, after }]
    } else {
        Seq::empty()
    }
}

/// The event of one change, where it is worth one.
pub fn document_outbox_record(before: Option<&Document>, after: Option<&Document>) -> (r: Option<
    DocumentChange,
>)
    ensures
        match r {
            Some(change) => change_events(opt_document(before), opt_document(after)) == seq![
                change@,
            ],
            None => change_events(opt_document(before), opt_document(after)) == Seq::<
                ChangeView,
            >::empty(),
        },
{
    if document_changed(before, after) {
        Some(DocumentChange { before: copy_document(before), after: copy_document(after) })
    } else {
        None
    }
}

/// The events of the first `n` documents that were there before.
pub open spec fn events_of_old(before: DocumentsView, after: DocumentsView, n: nat) -> Seq<
    ChangeView,
>
    decreases n,
{
    if n == 0 || n > before.len() {
        Seq::empty()
    } else {
        events_of_old(before, after, (n - 1) as nat) + change_events(
            Some(before[n - 1].1),
            lookup(after, before[n - 1].0),
        )
    }
}

/// The events of those of the first `n` documents that were not there before.
pub open spec fn events_of_new(before: DocumentsView, after: DocumentsView, n: nat) -> Seq<
    ChangeView,
>
    decreases n,
{
    if n == 0 || n > after.len() {
        Seq::empty()
    } else {
        let rest = events_of_new(before, after, (n - 1) as nat);
        if lookup(before, after[n - 1].0) is None {
            rest.push(ChangeView { before: None, after: Some(after[n - 1].1) })
        } else {
            rest
        }
    }
}

/// The events between two states: first those of the documents that were
/// there, then those of the new ones, each in the order of the names.
pub open spec fn document_events(before: DocumentsView, after: DocumentsView) -> Seq<ChangeView> {
    events_of_old(before, after, before.len()) + events_of_new(before, after, after.len())
}

/// The views of a list of changes.
pub open spec fn changes_view(changes: Seq<DocumentChange>) -> Seq<ChangeView> {
    changes.map_values(|c: DocumentChange| c@)
}

/// The events between two states of the documents.
pub fn document_outbox_records(before: &OrderedMap<Document>, after: &OrderedMap<Document>) -> (r:
    Vec<DocumentChange>)
    ensures
        changes_view(r@) == document_events(before@, after@),
{
    let mut records: Vec<DocumentChange> = Vec::new();
    let mut i: usize = 0;
    assert(changes_view(records@) =~= Seq::empty());
    while i < before.len()
        invariant
            i <= before@.len(),
            changes_view(records@) == events_of_old(before@, after@, i as nat),
        decreases before@.len() - i,
    {
        let ghost so_far = changes_view(records@);
        match document_outbox_record(Some(before.value_at(i)), after.get(before.key_at(i))) {
            Some(change) => {
                records.push(change);
                assert(changes_view(records@) =~= so_far + seq![change@]);
            },
            None => {
                assert(so_far + Seq::<ChangeView>::empty() =~= so_far);
            },
        }
        i += 1;
    }
    let ghost old_events = changes_view(records@);
    let mut j: usize = 0;
    assert(old_events + Seq::<ChangeView>::empty() =~= old_events);
    while j < after.len()
        invariant
            j <= after@.len(),
            old_events == events_of_old(before@, after@, before@.len()),
            changes_view(records@) == old_events + events_of_new(before@, after@, j as nat),
        decreases after@.len() - j,
    {
        if !before.contains(after.key_at(j)) {
            let ghost so_far = changes_view(records@);
            let change = DocumentChange {
                before: None,
                after: Some(after.value_at(j).duplicate()),
            };
            records.push(change);
            assert(changes_view(records@) =~= so_far.push(change@));
            assert(changes_view(records@) =~= old_events + events_of_new(
                before@,
                after@,
                (j + 1) as nat,
            ));
        }
        j += 1;
    }
    records
}

/// The events between two states, where a runtime listens for them.
pub fn documents_changed(
    listening: bool,
    before: &OrderedMap<Document>,
    after: &OrderedMap<Document>,
) -> (r: Vec<DocumentChange>)
    ensures
        changes_view(r@) == if listening {
            document_events(before@, after@)
        } else {
            Seq::empty()
        },
{
    if listening {
        document_outbox_records(before, after)
    } else {
        let none: Vec<DocumentChange> = Vec::new();
        assert(changes_view(none@) =~= Seq::empty());
        none
    }
}

/// A value without a not-a-number is the same as itself.
pub open spec fn all_numbers(v: ValueView) -> bool
    decreases v,
{
    match v {
        ValueView::Double(x) => same_number_spec(x, x),
        ValueView::GeoPoint(x, y) => same_number_spec(x, x) && same_number_spec(y, y),
        ValueView::Array(items) => forall|i: int|
            0 <= i < items.len() ==> all_numbers(#[trigger] items[i]),
        ValueView::Fields(fields) => forall|i: int|
            0 <= i < fields.len() ==> all_numbers((#[trigger] fields[i]).1),
        _ => true,
    }
}

/// Rewriting fields that hold no not-a-number with the same fields makes no
/// event, whatever happens to the times.
pub proof fn rewriting_makes_no_event(before: DocumentView, after: DocumentView)
    requires
        before.fields == after.fields,
        crate::document::fields_well_ordered(before.fields),
        all_numbers(ValueView::Fields(before.fields)),
    ensures
        !document_changed_spec(Some(before), Some(after)),
{
    same_as_itself(ValueView::Fields(before.fields));
}

proof fn same_as_itself(v: ValueView)
    requires
        crate::document::well_ordered(v),
        all_numbers(v),
    ensures
        same_value_spec(v, v),
    decreases v,
{
    match v {
        ValueView::Array(items) => {
            assert forall|i: int| 0 <= i < items.len() implies same_value_spec(
                #[trigger] items[i],
                items[i],
            ) by {
                same_as_itself(items[i]);
            }
        },
        ValueView::Fields(fields) => {
            assert forall|i: int| 0 <= i < fields.len() implies (lookup(
                fields,
                (#[trigger] fields[i]).0,
            ) matches Some(other) && same_value_spec(fields[i].1, other)) by {
                crate::ordered::lookup_at(fields, i);
                same_as_itself(fields[i].1);
            }
        },
        _ => {},
    }
}

} // verus!
