//! What a committed write leaves in the documents that are read afterwards.
use crate::document::{copy_paths, nested_get_spec, DocumentView};
use crate::firestore::{commit_spec, StoreView};
use crate::operator_laws::{is_plain_name, plain_names_are_paths};
use crate::ordered::{keys_sorted, lookup, lookup_after_put, lookup_after_without, put_sorted};
use crate::query_laws::{copied_names, plain_lists_are_paths};
use crate::status::Code;
use crate::value::{transform_value_equal_spec, FieldsView, Timestamp, ValueView};
use crate::writes::{
    append_missing_spec, apply_transforms_spec, apply_write_spec, apply_writes_spec, has_equal,
    transform_step, updated_document, DocumentsView, OperationView, Precondition, TransformView,
    WriteResultView, WriteView,
};
use vstd::prelude::*;

verus! {

/// An integer kept within the bounds of the integers that a field can hold.
pub open spec fn bounded(n: int) -> int {
    if n < -0x8000_0000_0000_0000 {
        -0x8000_0000_0000_0000
    } else if n > 0x7fff_ffff_ffff_ffff {
        0x7fff_ffff_ffff_ffff
    } else {
        n
    }
}

/// Whether `after` is what an increment by an integer makes of a field: that
/// integer where there was no number, and the sum where there was an integer.
pub open spec fn is_incremented(before: Option<ValueView>, n: i64, after: ValueView) -> bool {
    match before {
        Some(ValueView::Integer(m)) => after matches ValueView::Integer(sum) && sum == bounded(
            m + n,
        ),
        Some(ValueView::Double(_)) => after is Double,
        _ => after == ValueView::Integer(n),
    }
}

/// Whether the list `after` is `before` followed by what it lacked of the
/// elements, each once.
pub open spec fn is_united(
    before: Seq<ValueView>,
    elements: Seq<ValueView>,
    after: Seq<ValueView>,
) -> bool {
    &&& before.len() <= after.len()
    &&& forall|i: int| 0 <= i < before.len() ==> #[trigger] after[i] == before[i]
    &&& forall|i: int|
        0 <= i < elements.len() ==> has_equal(after, #[trigger] elements[i])
    &&& forall|i: int|
        before.len() <= i < after.len() ==> elements.contains(#[trigger] after[i])
    &&& forall|i: int, j: int|
        before.len() <= j < after.len() && 0 <= i < j ==> !transform_value_equal_spec(
            #[trigger] after[i],
            #[trigger] after[j],
        )
}

/// Whether a transform may make `after` of a field.
pub open spec fn is_transformed(
    before: Option<ValueView>,
    transform: TransformView,
    now: Timestamp,
    after: ValueView,
) -> bool {
    match transform {
        TransformView::Increment(ValueView::Integer(n)) => is_incremented(before, n, after),
        TransformView::Increment(ValueView::Double(d)) => after is Double && (before is None || !(
        before->0 is Integer || before->0 is Double) ==> after == ValueView::Double(d)),
        TransformView::Increment(_) => false,
        TransformView::AppendMissingElements(elements) => after matches ValueView::Array(list)
            && match before {
            Some(ValueView::Array(items)) => is_united(items, elements, list),
            _ => is_united(Seq::empty(), elements, list),
        },
        TransformView::SetToServerValue(n) => n == 1 && after == ValueView::Timestamp(now),
        _ => false,
    }
}

proof fn appending_unites(before: Seq<ValueView>, elements: Seq<ValueView>)
    requires
        forall|i: int|
            0 <= i < elements.len() ==> transform_value_equal_spec(
                #[trigger] elements[i],
                elements[i],
            ),
    ensures
        is_united(before, elements, append_missing_spec(before, elements)),
    decreases elements.len(),
{
    if elements.len() > 0 {
        let init = elements.drop_last();
        let last = elements.last();
        assert forall|i: int| 0 <= i < init.len() implies transform_value_equal_spec(
            #[trigger] init[i],
            init[i],
        ) by {
            assert(init[i] == elements[i]);
        }
        appending_unites(before, init);
        let mid = append_missing_spec(before, init);
        let after = append_missing_spec(before, elements);
        assert(elements[elements.len() - 1] == last);
        assert forall|i: int| 0 <= i < elements.len() implies has_equal(
            after,
            #[trigger] elements[i],
        ) by {
            if i < init.len() {
                assert(has_equal(mid, init[i]));
                let k = choose|k: int|
                    0 <= k < mid.len() && transform_value_equal_spec(#[trigger] mid[k], init[i]);
                assert(after[k] == mid[k]);
            } else if !has_equal(mid, last) {
                assert(after[after.len() - 1] == last);
                assert(transform_value_equal_spec(elements[i], elements[i]));
            }
        }
        assert forall|i: int| before.len() <= i < after.len() implies elements.contains(
            #[trigger] after[i],
        ) by {
            if i < mid.len() {
                assert(after[i] == mid[i]);
                let k = choose|k: int| 0 <= k < init.len() && init[k] == mid[i];
                assert(elements[k] == mid[i]);
            }
        }
        assert forall|i: int, j: int| before.len() <= j < after.len() && 0 <= i < j implies
            !transform_value_equal_spec(#[trigger] after[i], #[trigger] after[j]) by {
            if j < mid.len() {
                assert(after[i] == mid[i] && after[j] == mid[j]);
            } else {
                assert(after[i] == mid[i]);
            }
        }
    }
}

/// Equality of list elements: integers, texts, truth values, times, bytes and
/// references are equal to themselves alone, and values of different kinds are
/// never equal, integers and doubles apart.
pub proof fn elements_are_equal_to_themselves(
    a: ValueView,
    m: i64,
    n: i64,
    s: Seq<char>,
    t: Seq<char>,
    x: Seq<u8>,
    y: Seq<u8>,
)
    ensures
        transform_value_equal_spec(ValueView::Integer(m), ValueView::Integer(n)) == (m == n),
        transform_value_equal_spec(ValueView::Text(s), ValueView::Text(t)) == (s == t),
        transform_value_equal_spec(ValueView::Reference(s), ValueView::Reference(t)) == (s == t),
        transform_value_equal_spec(ValueView::Bytes(x), ValueView::Bytes(y)) == (x == y),
        transform_value_equal_spec(a, ValueView::Text(t)) ==> a is Text,
        transform_value_equal_spec(a, ValueView::Integer(n)) ==> a is Integer || a is Double,
        transform_value_equal_spec(a, ValueView::Null) == (a is Null),
        transform_value_equal_spec(a, ValueView::Boolean(true)) == (a == ValueView::Boolean(true)),
        transform_value_equal_spec(a, ValueView::Boolean(false)) == (a == ValueView::Boolean(
            false,
        )),
{
}

/// Whether the transforms name different fields by plain names.
pub open spec fn name_fields(transforms: Seq<(Seq<char>, TransformView)>) -> bool {
    &&& forall|i: int| 0 <= i < transforms.len() ==> is_plain_name((#[trigger] transforms[i]).0)
    &&& forall|i: int, j: int|
        0 <= i < j < transforms.len() ==> (#[trigger] transforms[i]).0 != (
        #[trigger] transforms[j]).0
}

/// Whether the elements to unite are each equal to themselves.
pub open spec fn elements_are_equal(transforms: Seq<(Seq<char>, TransformView)>) -> bool {
    forall|i: int, j: int|
        0 <= i < transforms.len() && ((#[trigger] transforms[i]).1 matches
            TransformView::AppendMissingElements(elements) && 0 <= j < elements.len())
            ==> transform_value_equal_spec(
            #[trigger] transforms[i].1->AppendMissingElements_0[j],
            transforms[i].1->AppendMissingElements_0[j],
        )
}

/// Whether a field is none of those that the transforms name.
pub open spec fn is_untouched(transforms: Seq<(Seq<char>, TransformView)>, name: Seq<char>) -> bool {
    forall|i: int| 0 <= i < transforms.len() ==> (#[trigger] transforms[i]).0 != name
}

proof fn transforms_leave(
    fields: FieldsView,
    transforms: Seq<(Seq<char>, TransformView)>,
    now: Timestamp,
    name: Seq<char>,
)
    requires
        keys_sorted(fields),
        name_fields(transforms),
        elements_are_equal(transforms),
        apply_transforms_spec(fields, transforms, now) is Ok,
    ensures
        ({
            let (after, results) = apply_transforms_spec(fields, transforms, now)->Ok_0;
            &&& keys_sorted(after)
            &&& results.len() == transforms.len()
            &&& is_untouched(transforms, name) ==> lookup(after, name) == lookup(fields, name)
            &&& forall|i: int|
                0 <= i < transforms.len() ==> lookup(after, (#[trigger] transforms[i]).0) == Some(
                    results[i],
                ) && is_transformed(
                    lookup(fields, transforms[i].0),
                    transforms[i].1,
                    now,
                    results[i],
                )
        }),
    decreases transforms.len(),
{
    if transforms.len() > 0 {
        let init = transforms.drop_last();
        let last = transforms.last();
        assert(last == transforms[transforms.len() - 1]);
        assert forall|i: int| 0 <= i < init.len() implies is_plain_name(
            (#[trigger] init[i]).0,
        ) by {
            assert(init[i] == transforms[i]);
        }
        assert forall|i: int, j: int| 0 <= i < j < init.len() implies (#[trigger] init[i]).0 != (
        #[trigger] init[j]).0 by {
            assert(init[i] == transforms[i] && init[j] == transforms[j]);
        }
        assert(elements_are_equal(init)) by {
            assert forall|i: int, j: int|
                0 <= i < init.len() && ((#[trigger] init[i]).1 matches
                    TransformView::AppendMissingElements(elements) && 0 <= j < elements.len())
                implies transform_value_equal_spec(
                #[trigger] init[i].1->AppendMissingElements_0[j],
                init[i].1->AppendMissingElements_0[j],
            ) by {
                assert(init[i] == transforms[i]);
                assert(transform_value_equal_spec(
                    transforms[i].1->AppendMissingElements_0[j],
                    transforms[i].1->AppendMissingElements_0[j],
                ));
            }
        }
        transforms_leave(fields, init, now, name);
        transforms_leave(fields, init, now, last.0);
        let (mid, some) = apply_transforms_spec(fields, init, now)->Ok_0;
        let (after, results) = apply_transforms_spec(fields, transforms, now)->Ok_0;
        plain_names_are_paths(last.0);
        let value = results[results.len() - 1];
        assert(seq![last.0][0] == last.0);
        assert(nested_get_spec(mid, seq![last.0]) == lookup(mid, last.0));
        assert(after == crate::ordered::put(mid, last.0, value));
        put_sorted(mid, last.0, value);
        lookup_after_put(mid, last.0, value, name);
        assert(is_untouched(init, last.0)) by {
            assert forall|i: int| 0 <= i < init.len() implies (#[trigger] init[i]).0 != last.0 by {
                assert(init[i] == transforms[i]);
            }
        }
        if is_untouched(transforms, name) {
            assert(is_untouched(init, name)) by {
                assert forall|i: int| 0 <= i < init.len() implies (#[trigger] init[i]).0
                    != name by {
                    assert(init[i] == transforms[i]);
                }
            }
        }
        if let TransformView::AppendMissingElements(elements) = last.1 {
            assert forall|j: int| 0 <= j < elements.len() implies transform_value_equal_spec(
                #[trigger] elements[j],
                elements[j],
            ) by {
                assert(transform_value_equal_spec(
                    transforms[transforms.len() - 1].1->AppendMissingElements_0[j],
                    transforms[transforms.len() - 1].1->AppendMissingElements_0[j],
                ));
            }
            match lookup(mid, last.0) {
                Some(ValueView::Array(items)) => appending_unites(items, elements),
                _ => appending_unites(Seq::empty(), elements),
            }
        }
        assert(is_transformed(lookup(fields, last.0), last.1, now, value));
        assert forall|i: int| 0 <= i < transforms.len() implies lookup(
            after,
            (#[trigger] transforms[i]).0,
        ) == Some(results[i]) && is_transformed(
            lookup(fields, transforms[i].0),
            transforms[i].1,
            now,
            results[i],
        ) by {
            if i < init.len() {
                assert(init[i] == transforms[i]);
                lookup_after_put(mid, last.0, value, init[i].0);
                assert(results[i] == some[i]);
            }
        }
    }
}

/// The field of a document that an update starts its transforms from: that of
/// the update itself without a mask or where the mask names it, and that of the
/// stored document otherwise.
pub open spec fn field_before(
    existing: Option<DocumentView>,
    incoming: DocumentView,
    mask: Option<Seq<Seq<char>>>,
    name: Seq<char>,
) -> Option<ValueView> {
    if mask is None || mask->0.contains(name) {
        lookup(incoming.fields, name)
    } else {
        match existing {
            Some(doc) => lookup(doc.fields, name),
            None => None,
        }
    }
}

/// Whether a mask, where there is one, has plain names alone.
pub open spec fn is_plain_mask(mask: Option<Seq<Seq<char>>>) -> bool {
    mask matches Some(paths) ==> forall|i: int|
        0 <= i < paths.len() ==> is_plain_name(#[trigger] paths[i])
}

/// An update of a document is read back under its name: the fields that it has
/// transforms for hold what the transforms make of them, which the answer tells
/// too; the fields of the mask are those of the update, or all fields are where
/// there is no mask; and every other field is as it was. The document is dated
/// to the write, and its creation to the first one.
pub proof fn updates_are_read_back(
    documents: DocumentsView,
    write: WriteView,
    now: Timestamp,
    document: DocumentView,
    name: Seq<char>,
)
    requires
        keys_sorted(documents),
        write.operation == OperationView::Update(document),
        apply_write_spec(documents, write, now) is Ok,
        keys_sorted(document.fields),
        lookup(documents, document.name) matches Some(doc) ==> keys_sorted(doc.fields),
        is_plain_mask(write.update_mask),
        name_fields(write.update_transforms),
        elements_are_equal(write.update_transforms),
    ensures
        ({
            let (after, result) = apply_write_spec(documents, write, now)->Ok_0;
            let existing = lookup(documents, document.name);
            let transforms = write.update_transforms;
            &&& result.update_time == Some(now)
            &&& result.transform_results.len() == transforms.len()
            &&& lookup(after, document.name) matches Some(doc)
            &&& doc.name == document.name
            &&& doc.update_time == Some(now)
            &&& doc.create_time == (match existing {
                Some(old) => match old.create_time {
                    Some(time) => Some(time),
                    None => Some(now),
                },
                None => Some(now),
            })
            &&& is_untouched(transforms, name) ==> lookup(doc.fields, name) == field_before(
                existing,
                document,
                write.update_mask,
                name,
            )
            &&& forall|i: int|
                0 <= i < transforms.len() ==> lookup(doc.fields, (#[trigger] transforms[i]).0)
                    == Some(result.transform_results[i]) && is_transformed(
                    field_before(existing, document, write.update_mask, transforms[i].0),
                    transforms[i].1,
                    now,
                    result.transform_results[i],
                )
        }),
{
    let existing = lookup(documents, document.name);
    let transforms = write.update_transforms;
    let pair = updated_document(existing, document, write, now)->Ok_0;
    lookup_after_put(documents, document.name, pair.0, document.name);
    let base = match existing {
        Some(doc) => doc.fields,
        None => Seq::empty(),
    };
    let merged = match write.update_mask {
        None => document.fields,
        Some(paths) => {
            plain_lists_are_paths(paths);
            copied_names(base, document.fields, paths, name);
            copy_paths(base, document.fields, paths.map_values(|p: Seq<char>| seq![p]))
        },
    };
    crate::ordered::lower_bound_properties(Seq::<(Seq<char>, ValueView)>::empty(), name);
    assert(apply_transforms_spec(merged, transforms, now) is Ok);
    transforms_leave(merged, transforms, now, name);
    assert forall|i: int| 0 <= i < transforms.len() implies lookup(
        merged,
        (#[trigger] transforms[i]).0,
    ) == field_before(existing, document, write.update_mask, transforms[i].0) by {
        crate::ordered::lower_bound_properties(
            Seq::<(Seq<char>, ValueView)>::empty(),
            transforms[i].0,
        );
        if write.update_mask is Some {
            copied_names(base, document.fields, write.update_mask->0, transforms[i].0);
        }
    }
}

/// An increment by an integer is read back as that integer where the field was
/// missing or held no number, and as the sum where it held an integer, kept
/// within the bounds of the integers.
pub proof fn increments_are_read_back(
    documents: DocumentsView,
    write: WriteView,
    now: Timestamp,
    document: DocumentView,
    name: Seq<char>,
    n: i64,
)
    requires
        keys_sorted(documents),
        write.operation == OperationView::Update(document),
        apply_write_spec(documents, write, now) is Ok,
        keys_sorted(document.fields),
        lookup(documents, document.name) matches Some(doc) ==> keys_sorted(doc.fields),
        is_plain_mask(write.update_mask),
        is_plain_name(name),
        write.update_transforms == seq![(name, TransformView::Increment(ValueView::Integer(n)))],
    ensures
        ({
            let (after, result) = apply_write_spec(documents, write, now)->Ok_0;
            let before = field_before(
                lookup(documents, document.name),
                document,
                write.update_mask,
                name,
            );
            &&& lookup(after, document.name) matches Some(doc)
            &&& lookup(doc.fields, name) matches Some(value)
            &&& result.transform_results == seq![value]
            &&& before is None ==> value == ValueView::Integer(n)
            &&& before matches Some(ValueView::Integer(m)) ==> (value matches ValueView::Integer(
                sum,
            ) && sum == bounded(m + n))
            &&& before is Some && !(before->0 is Integer) && !(before->0 is Double) ==> value
                == ValueView::Integer(n)
        }),
{
    updates_are_read_back(documents, write, now, document, name);
    let (after, result) = apply_write_spec(documents, write, now)->Ok_0;
    assert(write.update_transforms[0].0 == name);
    assert(result.transform_results =~= seq![result.transform_results[0]]);
}

/// An increment of a number is never refused for its operand, and one by
/// anything else is refused as an invalid argument.
pub proof fn increments_take_numbers(
    fields: FieldsView,
    name: Seq<char>,
    operand: ValueView,
    now: Timestamp,
)
    requires
        is_plain_name(name),
    ensures
        match transform_step(fields, (name, TransformView::Increment(operand)), now) {
            Ok(_) => operand is Integer || operand is Double,
            Err(e) => !(operand is Integer || operand is Double) && e.code == Code::InvalidArgument,
        },
{
    plain_names_are_paths(name);
}

/// A deleted document is not found, and its deletion is dated.
pub proof fn deletions_are_read_back(
    documents: DocumentsView,
    write: WriteView,
    now: Timestamp,
    name: Seq<char>,
)
    requires
        keys_sorted(documents),
        write.operation == OperationView::Delete(name),
        apply_write_spec(documents, write, now) is Ok,
    ensures
        lookup(apply_write_spec(documents, write, now)->Ok_0.0, name) is None,
        apply_write_spec(documents, write, now)->Ok_0.1.update_time == Some(now),
{
    lookup_after_without(documents, name, name);
}

/// The name that a write is for, where it is an update or a deletion.
pub open spec fn target(write: WriteView) -> Option<Seq<char>> {
    match write.operation {
        OperationView::Update(document) => Some(document.name),
        OperationView::Delete(name) => Some(name),
        _ => None,
    }
}

/// A write is refused as failing its precondition exactly where the document is
/// not as demanded: there, missing, or last changed at the given time.
pub proof fn preconditions_are_checked(
    documents: DocumentsView,
    write: WriteView,
    now: Timestamp,
    name: Seq<char>,
)
    requires
        target(write) == Some(name),
        crate::names::is_document_name(name),
    ensures
        ({
            let existing = lookup(documents, name);
            let met = match write.current_document {
                Precondition::Any => true,
                Precondition::Exists(true) => existing is Some,
                Precondition::Exists(false) => existing is None,
                Precondition::UpdateTime(time) => existing is Some && existing->0.update_time
                    == Some(time),
            };
            let outcome = apply_write_spec(documents, write, now);
            &&& !met ==> (outcome matches Err(e) && e.code == Code::FailedPrecondition)
            &&& met && write.operation is Delete ==> outcome is Ok
            &&& met && write.operation is Update && write.update_mask is None
                && write.update_transforms.len() == 0 ==> outcome is Ok
        }),
{
}

/// A commit of several writes is what committing all but the last and then the
/// last one makes, and answers each of them; a commit of none changes nothing.
pub proof fn commits_apply_their_writes_in_turn(
    store: StoreView,
    database: Seq<char>,
    writes: Seq<WriteView>,
    last: WriteView,
    now: Timestamp,
)
    ensures
        ({
            let none = Seq::<u8>::empty();
            let first = commit_spec(store, database, writes, none, now);
            let all = commit_spec(store, database, writes.push(last), none, now);
            &&& first is Err ==> all is Err
            &&& first is Ok ==> ({
                let rest = commit_spec(first->Ok_0.0, database, seq![last], none, now);
                &&& (all is Ok) == (rest is Ok)
                &&& rest is Ok ==> all->Ok_0.0 == rest->Ok_0.0 && all->Ok_0.1 == first->Ok_0.1
                    + rest->Ok_0.1
            })
        }),
        commit_spec(store, database, Seq::empty(), Seq::empty(), now) matches Ok(after)
            && after.0 == store && after.1.len() == 0,
{
    assert(writes.push(last).drop_last() =~= writes);
    let first = commit_spec(store, database, writes, Seq::empty(), now);
    if first is Ok {
        let mid = first->Ok_0.0;
        assert(seq![last].drop_last() =~= Seq::empty());
        reveal_with_fuel(apply_writes_spec, 2);
        match apply_write_spec(mid.documents, last, now) {
            Ok(after) => {
                assert(first->Ok_0.1.push(after.1) =~= first->Ok_0.1 + seq![after.1]);
                assert(Seq::<WriteResultView>::empty().push(after.1) =~= seq![after.1]);
            },
            Err(e) => {},
        }
    }
}

/// A commit of one write leaves and answers what the write does, and spends the
/// transaction that it was made in.
pub proof fn commits_store_their_writes(
    store: StoreView,
    database: Seq<char>,
    write: WriteView,
    transaction: Seq<u8>,
    now: Timestamp,
)
    ensures
        ({
            let done = commit_spec(store, database, seq![write], transaction, now);
            let alone = apply_write_spec(store.documents, write, now);
            let open = transaction.len() == 0 || (store.transactions.dom().contains(transaction)
                && store.transactions[transaction] == database);
            &&& (done is Ok) == (open && alone is Ok)
            &&& done matches Ok(after) ==> after.0.documents == alone->Ok_0.0 && after.1 == seq![
                alone->Ok_0.1,
            ] && after.0.next_id == store.next_id
            &&& done is Ok && transaction.len() > 0
                ==> !done->Ok_0.0.transactions.dom().contains(transaction)
            &&& !open ==> (done matches Err(e) && e.code == Code::InvalidArgument)
        }),
{
    assert(seq![write].drop_last() =~= Seq::empty());
    reveal_with_fuel(apply_writes_spec, 2);
    if apply_write_spec(store.documents, write, now) is Ok {
        let after = apply_write_spec(store.documents, write, now)->Ok_0;
        assert(Seq::<WriteResultView>::empty().push(after.1) =~= seq![after.1]);
    }
}

} // verus!
