//! What requests in JSON ask for: the writes, the filters and the queries that
//! they stand for, told by what these do.
use crate::document::DocumentView;
use crate::json::{array_at, member, text_at, JsonView};
use crate::operator_laws::{
    composite_filters_join, integers_compare_as_integers, is_no_number, list_has,
    list_operators_look_for_equals, meets, unary_operators_look_for_their_values,
};
use crate::query::{
    field_operator_spec, filter_matches_spec, unary_operator_spec, CursorView, FilterView,
};
use crate::status::StatusView;
use crate::text::{decimal_reads_back, decimal_spec};
use crate::value::{Timestamp, ValueView};
use crate::web_requests::{
    field_operator_number_spec, filter_proto_spec, filters_proto_spec, from_spec, orders_proto_spec,
    precondition_spec, query_proto_spec, selected_spec, texts_among, transform_proto_spec,
    transforms_proto_spec, unary_operator_number_spec, write_proto_spec, writes_proto_spec,
};
use crate::web_values::{document_proto_spec, timestamp_spec, value_proto_spec, values_proto_spec};
use crate::writes::{OperationView, Precondition, TransformView, WriteView};
use vstd::prelude::*;

verus! {

proof fn field_operator_names_differ()
    ensures
        "OPERATOR_UNSPECIFIED"@.len() == 20,
        "LESS_THAN"@.len() == 9 && "LESS_THAN"@[0] == 'L',
        "LESS_THAN_OR_EQUAL"@.len() == 18 && "LESS_THAN_OR_EQUAL"@[0] == 'L',
        "GREATER_THAN"@.len() == 12,
        "GREATER_THAN_OR_EQUAL"@.len() == 21,
        "EQUAL"@.len() == 5,
        "NOT_EQUAL"@.len() == 9 && "NOT_EQUAL"@[0] == 'N',
        "ARRAY_CONTAINS"@.len() == 14,
        "IN"@.len() == 2,
        "ARRAY_CONTAINS_ANY"@.len() == 18 && "ARRAY_CONTAINS_ANY"@[0] == 'A',
        "NOT_IN"@.len() == 6,
{
    reveal_strlit("OPERATOR_UNSPECIFIED");
    reveal_strlit("LESS_THAN");
    reveal_strlit("LESS_THAN_OR_EQUAL");
    reveal_strlit("GREATER_THAN");
    reveal_strlit("GREATER_THAN_OR_EQUAL");
    reveal_strlit("EQUAL");
    reveal_strlit("NOT_EQUAL");
    reveal_strlit("ARRAY_CONTAINS");
    reveal_strlit("IN");
    reveal_strlit("ARRAY_CONTAINS_ANY");
    reveal_strlit("NOT_IN");
}

/// What the operator of a name comes to between a value and an operand; nothing
/// where the name is none of an operator.
pub open spec fn named_operator(name: Seq<char>, a: ValueView, b: ValueView) -> Option<bool> {
    match field_operator_number_spec(name) {
        Some(op) => field_operator_spec(op, a, b),
        None => None,
    }
}

/// The operators of filters do to integers what their names say.
pub proof fn names_of_operators_say_what_they_do(a: i64, b: i64)
    ensures
        ({
            let (x, y) = (ValueView::Integer(a), ValueView::Integer(b));
            &&& named_operator("LESS_THAN"@, x, y) == Some(a < b)
            &&& named_operator("LESS_THAN_OR_EQUAL"@, x, y) == Some(a <= b)
            &&& named_operator("GREATER_THAN"@, x, y) == Some(a > b)
            &&& named_operator("GREATER_THAN_OR_EQUAL"@, x, y) == Some(a >= b)
            &&& named_operator("EQUAL"@, x, y) == Some(a == b)
            &&& named_operator("NOT_EQUAL"@, x, y) == Some(a != b)
        }),
{
    field_operator_names_differ();
    integers_compare_as_integers(a, b);
}

/// The operators on lists look where their names say: `ARRAY_CONTAINS` for the
/// operand in the value, `IN` for the value in the operand.
pub proof fn names_of_list_operators_say_what_they_do(list: Seq<ValueView>, v: ValueView)
    ensures
        named_operator("ARRAY_CONTAINS"@, ValueView::Array(list), v) == Some(list_has(list, v)),
        named_operator("IN"@, v, ValueView::Array(list)) == Some(list_has(list, v)),
        named_operator("OPERATOR_UNSPECIFIED"@, v, v) is None,
        field_operator_number_spec("ARRAY_CONTAINS_ANY"@) == Some(9i32),
        field_operator_number_spec("NOT_IN"@) == Some(10i32),
{
    field_operator_names_differ();
    list_operators_look_for_equals(ValueView::Array(list), v);
    list_operators_look_for_equals(v, ValueView::Array(list));
}

/// The operators without an operand look for what their names say.
pub proof fn names_of_unary_operators_say_what_they_do(v: ValueView)
    ensures
        ({
            let named = |name: Seq<char>|
                match unary_operator_number_spec(name) {
                    Some(op) => unary_operator_spec(op, v),
                    None => None,
                };
            &&& named("IS_NAN"@) == Some(is_no_number(v))
            &&& named("IS_NOT_NAN"@) == Some(!is_no_number(v))
            &&& named("IS_NULL"@) == Some(v is Null || v is Unset)
            &&& named("IS_NOT_NULL"@) == Some(!(v is Null || v is Unset))
            &&& named("OPERATOR_UNSPECIFIED"@) is None
        }),
{
    reveal_strlit("OPERATOR_UNSPECIFIED");
    reveal_strlit("IS_NAN");
    reveal_strlit("IS_NULL");
    reveal_strlit("IS_NOT_NAN");
    reveal_strlit("IS_NOT_NULL");
    assert("OPERATOR_UNSPECIFIED"@.len() == 20);
    assert("IS_NAN"@.len() == 6 && "IS_NULL"@.len() == 7);
    assert("IS_NOT_NAN"@.len() == 10 && "IS_NOT_NULL"@.len() == 11);
    unary_operators_look_for_their_values(v);
}

/// A filter on a field is read with its path, its operator and its operand, and
/// a filter without an operand with its path and its operator. A filter with
/// another operator is refused.
pub proof fn filters_on_fields_are_read(v: JsonView, f: JsonView, g: JsonView, operand: ValueView)
    requires
        member(v, "fieldFilter"@) == Some(f),
        member(f, "field"@) == Some(g),
        member(f, "value"@) is Some,
        value_proto_spec(member(f, "value"@)->0) == Ok::<ValueView, StatusView>(operand),
    ensures
        match field_operator_number_spec(text_at(f, "op"@)) {
            Some(number) => filter_proto_spec(v) matches Ok(FilterView::Field { field, op, value })
                && field == Some(text_at(g, "fieldPath"@)) && op == number && value == Some(
                operand,
            ),
            None => filter_proto_spec(v) is Err,
        },
{
}

/// A filter without an operand is read with its path and its operator.
pub proof fn unary_filters_are_read(v: JsonView, f: JsonView, g: JsonView)
    requires
        member(v, "fieldFilter"@) is None,
        member(v, "compositeFilter"@) is None,
        member(v, "unaryFilter"@) == Some(f),
        member(f, "field"@) == Some(g),
    ensures
        match unary_operator_number_spec(text_at(f, "op"@)) {
            Some(number) => filter_proto_spec(v) matches Ok(FilterView::Unary { op, field }) && field
                == Some(text_at(g, "fieldPath"@)) && op == number,
            None => filter_proto_spec(v) is Err,
        },
{
}

proof fn filters_in_turn(items: Seq<JsonView>, i: nat)
    requires
        i <= items.len(),
    ensures
        match filters_proto_spec(items, i) {
            Ok(filters) => {
                &&& filters.len() == items.len() - i
                &&& forall|k: int|
                    0 <= k < filters.len() ==> filter_proto_spec(items[i + k]) == Ok::<
                        FilterView,
                        StatusView,
                    >(#[trigger] filters[k])
            },
            Err(_) => exists|k: int|
                i <= k < items.len() && filter_proto_spec(#[trigger] items[k]) is Err,
        },
    decreases items.len() - i,
{
    if i < items.len() {
        filters_in_turn(items, i + 1);
        match filters_proto_spec(items, i) {
            Ok(filters) => {
                let rest = filters_proto_spec(items, i + 1)->Ok_0;
                assert forall|k: int| 0 <= k < filters.len() implies filter_proto_spec(items[i + k])
                    == Ok::<FilterView, StatusView>(#[trigger] filters[k]) by {
                    if k > 0 {
                        assert(filters[k] == rest[k - 1]);
                    }
                }
            },
            Err(_) => {
                if filter_proto_spec(items[i as int]) is Ok {
                    let k = choose|k: int|
                        i + 1 <= k < items.len() && filter_proto_spec(#[trigger] items[k]) is Err;
                    assert(filter_proto_spec(items[k]) is Err);
                }
            },
        }
    }
}

/// A filter that joins others with `AND` holds of a document where each of them
/// holds, and one with `OR` where one of them does.
pub proof fn joined_filters_are_read(doc: DocumentView, v: JsonView, f: JsonView)
    requires
        member(v, "fieldFilter"@) is None,
        member(v, "compositeFilter"@) == Some(f),
        forall|i: int|
            0 <= i < array_at(f, "filters"@).len() ==> (filter_proto_spec(
                #[trigger] array_at(f, "filters"@)[i],
            ) matches Ok(filter) && filter_matches_spec(doc, filter) is Ok),
    ensures
        ({
            let items = array_at(f, "filters"@);
            &&& text_at(f, "op"@) == "AND"@ ==> (filter_proto_spec(v) matches Ok(filter) && (meets(
                doc,
                filter,
            ) <==> forall|i: int|
                0 <= i < items.len() ==> meets(doc, filter_proto_spec(#[trigger] items[i])->Ok_0)))
            &&& text_at(f, "op"@) == "OR"@ ==> (filter_proto_spec(v) matches Ok(filter) && (meets(
                doc,
                filter,
            ) <==> exists|i: int|
                0 <= i < items.len() && meets(doc, filter_proto_spec(#[trigger] items[i])->Ok_0)))
        }),
{
    reveal_strlit("OPERATOR_UNSPECIFIED");
    reveal_strlit("AND");
    reveal_strlit("OR");
    assert("OPERATOR_UNSPECIFIED"@.len() == 20 && "AND"@.len() == 3 && "OR"@.len() == 2);
    let items = array_at(f, "filters"@);
    filters_in_turn(items, 0);
    let filters = if items.len() == 0 {
        Seq::empty()
    } else {
        filters_proto_spec(items, 0)->Ok_0
    };
    assert(filters.len() == items.len());
    assert forall|i: int| 0 <= i < items.len() implies filter_proto_spec(#[trigger] items[i])
        == Ok::<FilterView, StatusView>(filters[i]) by {
        assert(filters[i] == filters[i]);
    }
    composite_filters_join(doc, filters);
    assert(forall|i: int| 0 <= i < filters.len() ==> #[trigger] filters[i] == filter_proto_spec(
        items[i],
    )->Ok_0);
    if text_at(f, "op"@) == "AND"@ {
        if forall|i: int|
            0 <= i < items.len() ==> meets(doc, filter_proto_spec(#[trigger] items[i])->Ok_0) {
            assert forall|i: int| 0 <= i < filters.len() implies meets(
                doc,
                #[trigger] filters[i],
            ) by {
                assert(meets(doc, filter_proto_spec(items[i])->Ok_0));
            }
        }
    }
    if text_at(f, "op"@) == "OR"@ {
        if exists|i: int|
            0 <= i < items.len() && meets(doc, filter_proto_spec(#[trigger] items[i])->Ok_0) {
            let i = choose|i: int|
                0 <= i < items.len() && meets(doc, filter_proto_spec(#[trigger] items[i])->Ok_0);
            assert(meets(doc, filters[i]));
        }
        if exists|i: int| 0 <= i < filters.len() && meets(doc, #[trigger] filters[i]) {
            let i = choose|i: int| 0 <= i < filters.len() && meets(doc, #[trigger] filters[i]);
            assert(meets(doc, filter_proto_spec(items[i])->Ok_0));
        }
    }
}

proof fn transforms_in_turn(items: Seq<JsonView>, i: nat)
    requires
        i <= items.len(),
    ensures
        match transforms_proto_spec(items, i) {
            Ok(transforms) => {
                &&& transforms.len() == items.len() - i
                &&& forall|k: int|
                    0 <= k < transforms.len() ==> transform_proto_spec(items[i + k]) == Ok::<
                        (Seq<char>, TransformView),
                        StatusView,
                    >(#[trigger] transforms[k])
            },
            Err(_) => exists|k: int|
                i <= k < items.len() && transform_proto_spec(#[trigger] items[k]) is Err,
        },
    decreases items.len() - i,
{
    if i < items.len() {
        transforms_in_turn(items, i + 1);
        match transforms_proto_spec(items, i) {
            Ok(transforms) => {
                let rest = transforms_proto_spec(items, i + 1)->Ok_0;
                assert forall|k: int| 0 <= k < transforms.len() implies transform_proto_spec(
                    items[i + k],
                ) == Ok::<(Seq<char>, TransformView), StatusView>(#[trigger] transforms[k]) by {
                    if k > 0 {
                        assert(transforms[k] == rest[k - 1]);
                    }
                }
            },
            Err(_) => {
                if transform_proto_spec(items[i as int]) is Ok {
                    let k = choose|k: int|
                        i + 1 <= k < items.len() && transform_proto_spec(#[trigger] items[k])
                            is Err;
                    assert(transform_proto_spec(items[k]) is Err);
                }
            },
        }
    }
}

/// A transform is read by the one key that it has, with its path and what
/// stands under the key.
pub proof fn transforms_are_read(v: JsonView, x: ValueView, list: Seq<ValueView>)
    ensures
        ({
            let keys = |key: Seq<char>| member(v, key) is Some;
            let one = |key: Seq<char>|
                keys(key) && value_proto_spec(member(v, key)->0) == Ok::<ValueView, StatusView>(x);
            let many = |key: Seq<char>|
                keys(key) && values_proto_spec(array_at(member(v, key)->0, "values"@), 0) == Ok::<
                    Seq<ValueView>,
                    StatusView,
                >(list);
            let path = text_at(v, "fieldPath"@);
            let none_before = !keys("setToServerValue"@);
            &&& keys("setToServerValue"@) ==> transform_proto_spec(v) == Ok::<_, StatusView>(
                (path, TransformView::SetToServerValue(1)),
            )
            &&& none_before && one("increment"@) ==> transform_proto_spec(v) == Ok::<_, StatusView>(
                (path, TransformView::Increment(x)),
            )
            &&& none_before && !keys("increment"@) && one("maximum"@) ==> transform_proto_spec(v)
                == Ok::<_, StatusView>((path, TransformView::Maximum(x)))
            &&& none_before && !keys("increment"@) && !keys("maximum"@) && one("minimum"@)
                ==> transform_proto_spec(v) == Ok::<_, StatusView>(
                (path, TransformView::Minimum(x)),
            )
            &&& none_before && !keys("increment"@) && !keys("maximum"@) && !keys("minimum"@)
                && many("appendMissingElements"@) ==> transform_proto_spec(v) == Ok::<
                _,
                StatusView,
            >((path, TransformView::AppendMissingElements(list)))
            &&& none_before && !keys("increment"@) && !keys("maximum"@) && !keys("minimum"@)
                && !keys("appendMissingElements"@) && many("removeAllFromArray"@)
                ==> transform_proto_spec(v) == Ok::<_, StatusView>(
                (path, TransformView::RemoveAllFromArray(list)),
            )
            &&& none_before && !keys("increment"@) && !keys("maximum"@) && !keys("minimum"@)
                && !keys("appendMissingElements"@) && !keys("removeAllFromArray"@)
                ==> transform_proto_spec(v) is Err
        }),
{
}

/// Whether the transforms of a write are those of its JSON, in turn.
pub open spec fn reads_transforms(write: WriteView, v: JsonView) -> bool {
    let items = array_at(v, "updateTransforms"@);
    &&& write.update_transforms.len() == items.len()
    &&& forall|k: int|
        0 <= k < items.len() ==> transform_proto_spec(items[k]) == Ok::<
            (Seq<char>, TransformView),
            StatusView,
        >(#[trigger] write.update_transforms[k])
}

/// A write is read with what it writes: an updated document with the name and
/// the fields under `update`, or the name of a deleted one under `delete`. It
/// keeps the paths of its mask, where it has one, its transforms and what must
/// hold of the current document.
pub proof fn writes_are_read(v: JsonView)
    ensures
        match write_proto_spec(v) {
            Ok(write) => {
                &&& member(v, "update"@) matches Some(doc) ==> (write.operation matches OperationView::Update(
                    written,
                ) && document_proto_spec(doc) == Ok::<DocumentView, StatusView>(written)
                    && written.name == text_at(doc, "name"@))
                &&& member(v, "update"@) is None && member(v, "delete"@) is Some && member(
                    v,
                    "delete"@,
                )->0 is Text ==> write.operation == OperationView::Delete(
                    member(v, "delete"@)->0->Text_0,
                )
                &&& member(v, "updateMask"@) is Some <==> write.update_mask is Some
                &&& member(v, "updateMask"@) matches Some(mask) ==> write.update_mask->0
                    == texts_among(array_at(mask, "fieldPaths"@))
                &&& reads_transforms(write, v)
                &&& precondition_spec(v) == Ok::<Precondition, StatusView>(write.current_document)
            },
            Err(_) => {
                ||| member(v, "update"@) matches Some(doc) && document_proto_spec(doc) is Err
                ||| member(v, "update"@) is None
                ||| precondition_spec(v) is Err
                ||| exists|k: int|
                    0 <= k < array_at(v, "updateTransforms"@).len() && transform_proto_spec(
                        #[trigger] array_at(v, "updateTransforms"@)[k],
                    ) is Err
            },
        },
{
    transforms_in_turn(array_at(v, "updateTransforms"@), 0);
}

/// What must hold of the current document is read from `currentDocument`: that
/// it exists or not, or the time of its last update; nothing where there is no
/// such key.
pub proof fn preconditions_are_read(v: JsonView)
    ensures
        member(v, "currentDocument"@) is None ==> precondition_spec(v) == Ok::<
            Precondition,
            StatusView,
        >(Precondition::Any),
        member(v, "currentDocument"@) matches Some(c) ==> (member(c, "exists"@) matches Some(
            JsonView::Bool(b),
        ) ==> precondition_spec(v) == Ok::<Precondition, StatusView>(Precondition::Exists(b))),
        member(v, "currentDocument"@) matches Some(c) ==> (member(c, "exists"@) is None ==> match member(
            c,
            "updateTime"@,
        ) {
            Some(time) => match timestamp_spec(time) {
                Ok(t) => precondition_spec(v) == Ok::<Precondition, StatusView>(
                    Precondition::UpdateTime(t),
                ),
                Err(_) => precondition_spec(v) is Err,
            },
            None => precondition_spec(v) is Err,
        }),
{
}

proof fn all_texts_are_kept(items: Seq<JsonView>)
    requires
        forall|i: int| 0 <= i < items.len() ==> (#[trigger] items[i]) is Text,
    ensures
        texts_among(items).len() == items.len(),
        forall|i: int|
            0 <= i < items.len() ==> items[i] == JsonView::Text(#[trigger] texts_among(items)[i]),
    decreases items.len(),
{
    if items.len() > 0 {
        let init = items.drop_last();
        assert forall|i: int| 0 <= i < init.len() implies (#[trigger] init[i]) is Text by {
            assert(items[i] is Text);
        }
        all_texts_are_kept(init);
        assert(items[items.len() - 1] is Text);
        let all = texts_among(items);
        assert forall|i: int| 0 <= i < items.len() implies items[i] == JsonView::Text(
            #[trigger] all[i],
        ) by {
            if i < init.len() {
                assert(all[i] == texts_among(init)[i]);
                assert(init[i] == items[i]);
            }
        }
    }
}

/// The mask of a write holds the paths in their order.
pub proof fn masks_hold_their_paths(items: Seq<JsonView>, i: int)
    requires
        forall|k: int| 0 <= k < items.len() ==> (#[trigger] items[k]) is Text,
        0 <= i < items.len(),
    ensures
        texts_among(items).len() == items.len(),
        items[i] == JsonView::Text(texts_among(items)[i]),
{
    all_texts_are_kept(items);
    let _ = texts_among(items)[i];
}

/// The writes of a request are read one by one, in their order, and refused
/// where one of them is.
pub proof fn writes_are_read_in_turn(items: Seq<JsonView>, i: nat)
    requires
        i <= items.len(),
    ensures
        match writes_proto_spec(items, i) {
            Ok(writes) => {
                &&& writes.len() == items.len() - i
                &&& forall|k: int|
                    0 <= k < writes.len() ==> write_proto_spec(items[i + k]) == Ok::<
                        WriteView,
                        StatusView,
                    >(#[trigger] writes[k])
            },
            Err(_) => exists|k: int|
                i <= k < items.len() && write_proto_spec(#[trigger] items[k]) is Err,
        },
    decreases items.len() - i,
{
    if i < items.len() {
        writes_are_read_in_turn(items, i + 1);
        match writes_proto_spec(items, i) {
            Ok(writes) => {
                let rest = writes_proto_spec(items, i + 1)->Ok_0;
                assert forall|k: int| 0 <= k < writes.len() implies write_proto_spec(items[i + k])
                    == Ok::<WriteView, StatusView>(#[trigger] writes[k]) by {
                    if k > 0 {
                        assert(writes[k] == rest[k - 1]);
                    }
                }
            },
            Err(_) => {
                if write_proto_spec(items[i as int]) is Ok {
                    let k = choose|k: int|
                        i + 1 <= k < items.len() && write_proto_spec(#[trigger] items[k]) is Err;
                    assert(write_proto_spec(items[k]) is Err);
                }
            },
        }
    }
}

/// Whether a cursor is the one of JSON: its values and on which side of the
/// equal ones it stands.
pub open spec fn reads_cursor(cursor: Option<CursorView>, v: Option<JsonView>)
    -> bool {
    match v {
        None => cursor is None,
        Some(c) => {
            &&& cursor is Some
            &&& values_proto_spec(array_at(c, "values"@), 0) == Ok::<Seq<ValueView>, StatusView>(
                cursor->0.values,
            )
            &&& cursor->0.before <==> member(c, "before"@) == Some(JsonView::Bool(true))
        },
    }
}

proof fn orders_in_turn(items: Seq<JsonView>, i: nat)
    requires
        i <= items.len(),
    ensures
        orders_proto_spec(items, i) matches Ok(orders) ==> {
            &&& orders.len() == items.len() - i
            &&& forall|k: int|
                #![trigger orders[k]]
                0 <= k < orders.len() ==> {
                    &&& member(items[i + k], "field"@) matches Some(f) ==> orders[k].field == Some(
                        text_at(f, "fieldPath"@),
                    )
                    &&& text_at(items[i + k], "direction"@) == "ASCENDING"@ ==> orders[k].direction
                        == 1
                    &&& text_at(items[i + k], "direction"@) == "DESCENDING"@ ==> orders[k].direction
                        == 2
                }
        },
    decreases items.len() - i,
{
    reveal_strlit("DIRECTION_UNSPECIFIED");
    reveal_strlit("ASCENDING");
    reveal_strlit("DESCENDING");
    assert("DIRECTION_UNSPECIFIED"@.len() == 21);
    assert("ASCENDING"@.len() == 9 && "DESCENDING"@.len() == 10);
    if i < items.len() {
        orders_in_turn(items, i + 1);
        if let Ok(orders) = orders_proto_spec(items, i) {
            let rest = orders_proto_spec(items, i + 1)->Ok_0;
            assert(orders.len() == rest.len() + 1);
            assert forall|k: int|
                #![trigger orders[k]]
                0 <= k < orders.len() implies {
                &&& member(items[i + k], "field"@) matches Some(f) ==> orders[k].field == Some(
                    text_at(f, "fieldPath"@),
                )
                &&& text_at(items[i + k], "direction"@) == "ASCENDING"@ ==> orders[k].direction == 1
                &&& text_at(items[i + k], "direction"@) == "DESCENDING"@ ==> orders[k].direction
                    == 2
            } by {
                if k > 0 {
                    assert(orders[k] == rest[k - 1]);
                }
            }
        }
    }
}

/// A query is read with its collections, its filter, its orders in their order,
/// its cursors, its offset, its limit and the fields that it selects.
pub proof fn queries_are_read(v: JsonView)
    ensures
        query_proto_spec(v) matches Ok(query) ==> {
            let from = array_at(v, "from"@);
            let orders = array_at(v, "orderBy"@);
            &&& query.from.len() == from.len()
            &&& forall|i: int|
                #![trigger query.from[i]]
                0 <= i < from.len() ==> query.from[i].0 == text_at(from[i], "collectionId"@) && (
                query.from[i].1 <==> member(from[i], "allDescendants"@) == Some(
                    JsonView::Bool(true),
                ))
            &&& member(v, "where"@) is None ==> query.filter is None
            &&& member(v, "where"@) matches Some(f) ==> query.filter is Some && filter_proto_spec(f)
                == Ok::<FilterView, StatusView>(query.filter->0)
            &&& query.order_by.len() == orders.len()
            &&& forall|k: int|
                #![trigger query.order_by[k]]
                0 <= k < orders.len() ==> {
                    &&& member(orders[k], "field"@) matches Some(f) ==> query.order_by[k].field
                        == Some(text_at(f, "fieldPath"@))
                    &&& text_at(orders[k], "direction"@) == "ASCENDING"@
                        ==> query.order_by[k].direction == 1
                    &&& text_at(orders[k], "direction"@) == "DESCENDING"@
                        ==> query.order_by[k].direction == 2
                }
            &&& reads_cursor(query.start_at, member(v, "startAt"@))
            &&& reads_cursor(query.end_at, member(v, "endAt"@))
            &&& member(v, "offset"@) matches Some(JsonView::Unsigned(n)) ==> (n <= i32::MAX
                ==> query.offset == n)
            &&& member(v, "offset"@) is None ==> query.offset == 0
            &&& member(v, "limit"@) matches Some(JsonView::Unsigned(n)) ==> (n <= i32::MAX
                ==> query.limit is Some && query.limit->0 == n)
            &&& member(v, "limit"@) is None ==> query.limit is None
            &&& member(v, "select"@) is None ==> query.select is None
            &&& member(v, "select"@) matches Some(s) ==> {
                let fields = array_at(s, "fields"@);
                &&& query.select is Some
                &&& query.select->0.len() == fields.len()
                &&& forall|i: int|
                    #![trigger query.select->0[i]]
                    0 <= i < fields.len() ==> query.select->0[i] == text_at(fields[i], "fieldPath"@)
            }
        },
{
    orders_in_turn(array_at(v, "orderBy"@), 0);
    if let Ok(query) = query_proto_spec(v) {
        let from = array_at(v, "from"@);
        assert(query.from =~= from_spec(from));
        if let Some(s) = member(v, "select"@) {
            assert(query.select->0 =~= selected_spec(array_at(s, "fields"@)));
        }
    }
}

/// An integer is read from a number or from its digits, and a time from its
/// seconds and nanoseconds; a text and a truth value stand for themselves.
pub proof fn plain_values_are_read(v: JsonView, n: u64, nanos: u64, time: JsonView)
    requires
        n <= i64::MAX,
        nanos <= i32::MAX,
        member(v, "nullValue"@) is None,
    ensures
        member(v, "booleanValue"@) is None && (member(v, "integerValue"@) == Some(
            JsonView::Unsigned(n),
        ) || member(v, "integerValue"@) == Some(JsonView::Text(decimal_spec(n as nat))))
            ==> value_proto_spec(v) == Ok::<ValueView, StatusView>(ValueView::Integer(n as i64)),
        member(v, "booleanValue"@) == Some(JsonView::Bool(true)) ==> value_proto_spec(v) == Ok::<
            ValueView,
            StatusView,
        >(ValueView::Boolean(true)),
        member(v, "booleanValue"@) == Some(JsonView::Bool(false)) ==> value_proto_spec(v) == Ok::<
            ValueView,
            StatusView,
        >(ValueView::Boolean(false)),
        time is Object && member(time, "seconds"@) == Some(JsonView::Unsigned(n)) && member(
            time,
            "nanos"@,
        ) == Some(JsonView::Unsigned(nanos)) ==> timestamp_spec(time) == Ok::<Timestamp, StatusView>(
            Timestamp { seconds: n as i64, nanos: nanos as i32 },
        ),
        time is Object && member(time, "seconds"@) is None ==> timestamp_spec(time) is Err,
{
    decimal_reads_back(n as nat);
    let s = decimal_spec(n as nat);
    if s.len() > 0 && (s[0] == '+' || s[0] == '-') {
        assert(false);
    }
}

} // verus!
