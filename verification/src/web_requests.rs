//! Firestore writes and queries read from the JSON of the REST interface.
use crate::json::{
    array_at, as_bool_spec, as_integer_spec, as_text_spec, at, items_view, member, text_at, Json,
    JsonView,
};
use crate::query::{
    composite_view, filters_view, CollectionSelector, Cursor, CursorView, Filter, FilterView, Order,
    OrderView, QueryView, StructuredQuery,
};
use crate::status::{invalid, result_view, Status, StatusView};
use crate::text::{same, texts};
use crate::value::{values_view, FieldValue, ValueView};
use crate::web_values::{
    array_is_smaller, document_proto, document_proto_spec, member_is_smaller, text_under, timestamp,
    timestamp_spec, value_proto, value_proto_spec, values_proto, values_proto_spec,
};
use crate::writes::{
    transforms_view, writes_view, FieldTransform, Operation, OperationView, Precondition, Transform,
    TransformView, Write, WriteView, REQUEST_TIME,
};
use vstd::prelude::*;

verus! {

/// The texts among the items of an array, in order.
pub open spec fn texts_among(items: Seq<JsonView>) -> Seq<Seq<char>>
    decreases items.len(),
{
    if items.len() == 0 {
        Seq::empty()
    } else {
        let rest = texts_among(items.drop_last());
        match as_text_spec(items.last()) {
            Some(text) => rest.push(text),
            None => rest,
        }
    }
}

/// The texts of the array under a key.
pub fn texts_under(v: &Json, key: &str) -> (r: Vec<String>)
    ensures
        texts(r@) == texts_among(array_at(v@, key@)),
{
    let mut out: Vec<String> = Vec::new();
    assert(texts(out@) =~= Seq::empty());
    if let Some(items) = v.items(key) {
        let ghost all = items_view(items@);
        let mut i: usize = 0;
        assert(all.take(0) =~= Seq::empty());
        while i < items.len()
            invariant
                i <= items.len(),
                all == items_view(items@),
                texts(out@) == texts_among(all.take(i as int)),
            decreases items.len() - i,
        {
            assert(all.take(i + 1).drop_last() =~= all.take(i as int));
            assert(all.take(i + 1).last() == items@[i as int]@);
            if let Some(text) = items[i].as_text() {
                let ghost before = texts(out@);
                out.push(text.to_owned());
                assert(texts(out@) =~= before.push(text@));
            }
            i += 1;
        }
        assert(all.take(items.len() as int) =~= all);
    }
    out
}

/// The text under a key of the member under another.
pub fn text_within(v: &Json, outer: &str, inner: &str) -> (r: String)
    ensures
        r@ == text_at(at(v@, outer@), inner@),
{
    match v.get(outer) {
        Some(found) => found.text(inner),
        None => Json::Null.text(inner),
    }
}

fn value_under(v: &Json, key: &str) -> (r: Result<FieldValue, Status>)
    ensures
        match r {
            Ok(value) => value_proto_spec(at(v@, key@)) == Ok::<_, StatusView>(value@),
            Err(e) => value_proto_spec(at(v@, key@)) == Err::<ValueView, _>(e@),
        },
{
    match v.get(key) {
        Some(found) => value_proto(found),
        None => value_proto(&Json::Null),
    }
}

fn values_under(v: &Json, key: &str) -> (r: Result<Vec<FieldValue>, Status>)
    ensures
        match r {
            Ok(values) => values_proto_spec(array_at(v@, key@), 0) == Ok::<_, StatusView>(
                values_view(values@),
            ),
            Err(e) => values_proto_spec(array_at(v@, key@), 0) == Err::<Seq<ValueView>, _>(e@),
        },
{
    match v.items(key) {
        Some(items) => values_proto(items),
        None => {
            let none: Vec<Json> = Vec::new();
            assert(items_view(none@) =~= Seq::empty());
            values_proto(&none)
        },
    }
}

pub open spec fn transform_type_spec(v: JsonView) -> Result<TransformView, StatusView> {
    if member(v, "setToServerValue"@) is Some {
        Ok(TransformView::SetToServerValue(REQUEST_TIME))
    } else if member(v, "increment"@) is Some {
        match value_proto_spec(at(v, "increment"@)) {
            Ok(x) => Ok(TransformView::Increment(x)),
            Err(e) => Err(e),
        }
    } else if member(v, "maximum"@) is Some {
        match value_proto_spec(at(v, "maximum"@)) {
            Ok(x) => Ok(TransformView::Maximum(x)),
            Err(e) => Err(e),
        }
    } else if member(v, "minimum"@) is Some {
        match value_proto_spec(at(v, "minimum"@)) {
            Ok(x) => Ok(TransformView::Minimum(x)),
            Err(e) => Err(e),
        }
    } else if member(v, "appendMissingElements"@) is Some {
        match values_proto_spec(array_at(at(v, "appendMissingElements"@), "values"@), 0) {
            Ok(x) => Ok(TransformView::AppendMissingElements(x)),
            Err(e) => Err(e),
        }
    } else if member(v, "removeAllFromArray"@) is Some {
        match values_proto_spec(array_at(at(v, "removeAllFromArray"@), "values"@), 0) {
            Ok(x) => Ok(TransformView::RemoveAllFromArray(x)),
            Err(e) => Err(e),
        }
    } else {
        Err(invalid("unknown transform"@))
    }
}

/// The field transform that JSON stands for.
pub open spec fn transform_proto_spec(v: JsonView) -> Result<
    (Seq<char>, TransformView),
    StatusView,
> {
    match transform_type_spec(v) {
        Ok(t) => Ok((text_at(v, "fieldPath"@), t)),
        Err(e) => Err(e),
    }
}

fn transform_type(v: &Json) -> (r: Result<Transform, Status>)
    ensures
        match r {
            Ok(t) => transform_type_spec(v@) == Ok::<_, StatusView>(
                (FieldTransform { field_path: arbitrary(), transform: t })@.1,
            ),
            Err(e) => transform_type_spec(v@) == Err::<TransformView, _>(e@),
        },
{
    if v.get("setToServerValue").is_some() {
        return Ok(Transform::SetToServerValue(REQUEST_TIME));
    }
    if let Some(x) = v.get("increment") {
        return match value_proto(x) {
            Ok(value) => Ok(Transform::Increment(value)),
            Err(e) => Err(e),
        };
    }
    if let Some(x) = v.get("maximum") {
        return match value_proto(x) {
            Ok(value) => Ok(Transform::Maximum(value)),
            Err(e) => Err(e),
        };
    }
    if let Some(x) = v.get("minimum") {
        return match value_proto(x) {
            Ok(value) => Ok(Transform::Minimum(value)),
            Err(e) => Err(e),
        };
    }
    if let Some(x) = v.get("appendMissingElements") {
        return match values_under(x, "values") {
            Ok(values) => Ok(Transform::AppendMissingElements(values)),
            Err(e) => Err(e),
        };
    }
    if let Some(x) = v.get("removeAllFromArray") {
        return match values_under(x, "values") {
            Ok(values) => Ok(Transform::RemoveAllFromArray(values)),
            Err(e) => Err(e),
        };
    }
    Err(Status::invalid_argument("unknown transform"))
}

/// Reads a field transform from JSON.
pub fn transform_proto(v: &Json) -> (r: Result<FieldTransform, Status>)
    ensures
        result_view(r) == transform_proto_spec(v@),
{
    match transform_type(v) {
        Ok(transform) => Ok(FieldTransform { field_path: v.text("fieldPath"), transform }),
        Err(e) => Err(e),
    }
}

/// The field transforms that the items from `i` on stand for, or the first
/// error.
pub open spec fn transforms_proto_spec(items: Seq<JsonView>, i: nat) -> Result<
    Seq<(Seq<char>, TransformView)>,
    StatusView,
>
    decreases items.len() - i,
{
    if i >= items.len() {
        Ok(Seq::empty())
    } else {
        match transform_proto_spec(items[i as int]) {
            Err(e) => Err(e),
            Ok(first) => match transforms_proto_spec(items, i + 1) {
                Err(e) => Err(e),
                Ok(rest) => Ok(seq![first] + rest),
            },
        }
    }
}

fn transforms_under(v: &Json, key: &str) -> (r: Result<Vec<FieldTransform>, Status>)
    ensures
        match r {
            Ok(list) => transforms_proto_spec(array_at(v@, key@), 0) == Ok::<_, StatusView>(
                transforms_view(list@),
            ),
            Err(e) => transforms_proto_spec(array_at(v@, key@), 0) == Err::<
                Seq<(Seq<char>, TransformView)>,
                _,
            >(e@),
        },
{
    let mut list: Vec<FieldTransform> = Vec::new();
    assert(transforms_view(list@) =~= Seq::empty());
    if let Some(items) = v.items(key) {
        let ghost all = items_view(items@);
        let mut i: usize = 0;
        assert(forall|rest: Seq<(Seq<char>, TransformView)>|
            Seq::<(Seq<char>, TransformView)>::empty() + rest =~= rest);
        while i < items.len()
            invariant
                i <= items.len(),
                all == items_view(items@),
                all == array_at(v@, key@),
                transforms_proto_spec(all, 0) == match transforms_proto_spec(all, i as nat) {
                    Ok(rest) => Ok(transforms_view(list@) + rest),
                    Err(e) => Err(e),
                },
            decreases items.len() - i,
        {
            match transform_proto(&items[i]) {
                Ok(value) => {
                    let ghost before = transforms_view(list@);
                    list.push(value);
                    assert(transforms_view(list@) =~= before.push(value@));
                    assert(forall|rest: Seq<(Seq<char>, TransformView)>|
                        #![trigger transforms_view(list@) + rest]
                        before + (seq![value@] + rest) =~= transforms_view(list@) + rest);
                },
                Err(e) => {
                    return Err(e);
                },
            }
            i += 1;
        }
        assert(transforms_view(list@) + Seq::<(Seq<char>, TransformView)>::empty()
            =~= transforms_view(list@));
    }
    Ok(list)
}

/// The operation of a write.
pub open spec fn operation_spec(v: JsonView) -> Result<OperationView, StatusView> {
    if member(v, "update"@) is Some {
        match document_proto_spec(at(v, "update"@)) {
            Ok(doc) => Ok(OperationView::Update(doc)),
            Err(e) => Err(e),
        }
    } else if as_text_spec(at(v, "delete"@)) is Some {
        Ok(OperationView::Delete(as_text_spec(at(v, "delete"@))->0))
    } else if member(v, "transform"@) is Some {
        match transforms_proto_spec(array_at(at(v, "transform"@), "fieldTransforms"@), 0) {
            Ok(_) => Ok(OperationView::Transform(text_at(at(v, "transform"@), "document"@))),
            Err(e) => Err(e),
        }
    } else {
        Err(invalid("write operation required"@))
    }
}

/// The precondition of a write.
pub open spec fn precondition_spec(v: JsonView) -> Result<Precondition, StatusView> {
    match member(v, "currentDocument"@) {
        None => Ok(Precondition::Any),
        Some(c) => match as_bool_spec(at(c, "exists"@)) {
            Some(b) => Ok(Precondition::Exists(b)),
            None => match timestamp_spec(at(c, "updateTime"@)) {
                Ok(t) => Ok(Precondition::UpdateTime(t)),
                Err(e) => Err(e),
            },
        },
    }
}

/// The write that JSON stands for.
pub open spec fn write_proto_spec(v: JsonView) -> Result<WriteView, StatusView> {
    match operation_spec(v) {
        Err(e) => Err(e),
        Ok(operation) => match precondition_spec(v) {
            Err(e) => Err(e),
            Ok(current_document) => match transforms_proto_spec(
                array_at(v, "updateTransforms"@),
                0,
            ) {
                Err(e) => Err(e),
                Ok(update_transforms) => Ok(
                    WriteView {
                        operation,
                        current_document,
                        update_mask: match member(v, "updateMask"@) {
                            Some(mask) => Some(texts_among(array_at(mask, "fieldPaths"@))),
                            None => None,
                        },
                        update_transforms,
                    },
                ),
            },
        },
    }
}

fn operation(v: &Json) -> (r: Result<Operation, Status>)
    ensures
        match r {
            Ok(op) => operation_spec(v@) == Ok::<_, StatusView>(
                match op {
                    Operation::Unset => OperationView::Unset,
                    Operation::Update(doc) => OperationView::Update(doc@),
                    Operation::Delete(name) => OperationView::Delete(name@),
                    Operation::Transform(name) => OperationView::Transform(name@),
                },
            ),
            Err(e) => operation_spec(v@) == Err::<OperationView, _>(e@),
        },
{
    if let Some(doc) = v.get("update") {
        return match document_proto(doc) {
            Ok(document) => Ok(Operation::Update(document)),
            Err(e) => Err(e),
        };
    }
    if let Some(name) = text_under(v, "delete") {
        return Ok(Operation::Delete(name));
    }
    if let Some(t) = v.get("transform") {
        return match transforms_under(t, "fieldTransforms") {
            Ok(_) => Ok(Operation::Transform(t.text("document"))),
            Err(e) => Err(e),
        };
    }
    Err(Status::invalid_argument("write operation required"))
}

fn precondition(v: &Json) -> (r: Result<Precondition, Status>)
    ensures
        match r {
            Ok(c) => precondition_spec(v@) == Ok::<_, StatusView>(c),
            Err(e) => precondition_spec(v@) == Err::<Precondition, _>(e@),
        },
{
    match v.get("currentDocument") {
        None => Ok(Precondition::Any),
        Some(c) => match c.bool_at("exists") {
            Some(b) => Ok(Precondition::Exists(b)),
            None => {
                let time = match c.get("updateTime") {
                    Some(t) => timestamp(t),
                    None => timestamp(&Json::Null),
                };
                match time {
                    Ok(t) => Ok(Precondition::UpdateTime(t)),
                    Err(e) => Err(e),
                }
            },
        },
    }
}

/// Reads a write from JSON.
pub fn write_proto(v: &Json) -> (r: Result<Write, Status>)
    ensures
        result_view(r) == write_proto_spec(v@),
{
    let operation = match operation(v) {
        Ok(operation) => operation,
        Err(e) => {
            return Err(e);
        },
    };
    let current_document = match precondition(v) {
        Ok(condition) => condition,
        Err(e) => {
            return Err(e);
        },
    };
    let update_transforms = match transforms_under(v, "updateTransforms") {
        Ok(list) => list,
        Err(e) => {
            return Err(e);
        },
    };
    let update_mask = match v.get("updateMask") {
        Some(mask) => Some(texts_under(mask, "fieldPaths")),
        None => None,
    };
    Ok(Write { operation, update_mask, current_document, update_transforms })
}

/// The writes that the items from `i` on stand for, or the first error.
pub open spec fn writes_proto_spec(items: Seq<JsonView>, i: nat) -> Result<
    Seq<WriteView>,
    StatusView,
>
    decreases items.len() - i,
{
    if i >= items.len() {
        Ok(Seq::empty())
    } else {
        match write_proto_spec(items[i as int]) {
            Err(e) => Err(e),
            Ok(first) => match writes_proto_spec(items, i + 1) {
                Err(e) => Err(e),
                Ok(rest) => Ok(seq![first] + rest),
            },
        }
    }
}

/// Reads the writes of a commit from JSON.
pub fn writes_proto(v: &Json) -> (r: Result<Vec<Write>, Status>)
    ensures
        match r {
            Ok(list) => writes_proto_spec(array_at(v@, "writes"@), 0) == Ok::<_, StatusView>(
                writes_view(list@),
            ),
            Err(e) => writes_proto_spec(array_at(v@, "writes"@), 0) == Err::<Seq<WriteView>, _>(e@),
        },
{
    let mut list: Vec<Write> = Vec::new();
    assert(writes_view(list@) =~= Seq::empty());
    if let Some(items) = v.items("writes") {
        let ghost all = items_view(items@);
        let mut i: usize = 0;
        assert(forall|rest: Seq<WriteView>| Seq::<WriteView>::empty() + rest =~= rest);
        while i < items.len()
            invariant
                i <= items.len(),
                all == items_view(items@),
                all == array_at(v@, "writes"@),
                writes_proto_spec(all, 0) == match writes_proto_spec(all, i as nat) {
                    Ok(rest) => Ok(writes_view(list@) + rest),
                    Err(e) => Err(e),
                },
            decreases items.len() - i,
        {
            match write_proto(&items[i]) {
                Ok(value) => {
                    let ghost before = writes_view(list@);
                    list.push(value);
                    assert(writes_view(list@) =~= before.push(value@));
                    assert(forall|rest: Seq<WriteView>|
                        #![trigger writes_view(list@) + rest]
                        before + (seq![value@] + rest) =~= writes_view(list@) + rest);
                },
                Err(e) => {
                    return Err(e);
                },
            }
            i += 1;
        }
        assert(writes_view(list@) + Seq::<WriteView>::empty() =~= writes_view(list@));
    }
    Ok(list)
}

/// The number of a field filter's operator.
pub open spec fn field_operator_number_spec(name: Seq<char>) -> Option<i32> {
    if name == "OPERATOR_UNSPECIFIED"@ {
        Some(0)
    } else if name == "LESS_THAN"@ {
        Some(1)
    } else if name == "LESS_THAN_OR_EQUAL"@ {
        Some(2)
    } else if name == "GREATER_THAN"@ {
        Some(3)
    } else if name == "GREATER_THAN_OR_EQUAL"@ {
        Some(4)
    } else if name == "EQUAL"@ {
        Some(5)
    } else if name == "NOT_EQUAL"@ {
        Some(6)
    } else if name == "ARRAY_CONTAINS"@ {
        Some(7)
    } else if name == "IN"@ {
        Some(8)
    } else if name == "ARRAY_CONTAINS_ANY"@ {
        Some(9)
    } else if name == "NOT_IN"@ {
        Some(10)
    } else {
        None
    }
}

fn field_operator_number(name: &str) -> (r: Option<i32>)
    ensures
        r == field_operator_number_spec(name@),
{
    if same(name, "OPERATOR_UNSPECIFIED") {
        Some(0)
    } else if same(name, "LESS_THAN") {
        Some(1)
    } else if same(name, "LESS_THAN_OR_EQUAL") {
        Some(2)
    } else if same(name, "GREATER_THAN") {
        Some(3)
    } else if same(name, "GREATER_THAN_OR_EQUAL") {
        Some(4)
    } else if same(name, "EQUAL") {
        Some(5)
    } else if same(name, "NOT_EQUAL") {
        Some(6)
    } else if same(name, "ARRAY_CONTAINS") {
        Some(7)
    } else if same(name, "IN") {
        Some(8)
    } else if same(name, "ARRAY_CONTAINS_ANY") {
        Some(9)
    } else if same(name, "NOT_IN") {
        Some(10)
    } else {
        None
    }
}

/// The number of a composite filter's operator.
pub open spec fn composite_operator_number_spec(name: Seq<char>) -> Option<i32> {
    if name == "OPERATOR_UNSPECIFIED"@ {
        Some(0)
    } else if name == "AND"@ {
        Some(1)
    } else if name == "OR"@ {
        Some(2)
    } else {
        None
    }
}

fn composite_operator_number(name: &str) -> (r: Option<i32>)
    ensures
        r == composite_operator_number_spec(name@),
{
    if same(name, "OPERATOR_UNSPECIFIED") {
        Some(0)
    } else if same(name, "AND") {
        Some(1)
    } else if same(name, "OR") {
        Some(2)
    } else {
        None
    }
}

/// The number of a unary filter's operator.
pub open spec fn unary_operator_number_spec(name: Seq<char>) -> Option<i32> {
    if name == "OPERATOR_UNSPECIFIED"@ {
        Some(0)
    } else if name == "IS_NAN"@ {
        Some(2)
    } else if name == "IS_NULL"@ {
        Some(3)
    } else if name == "IS_NOT_NAN"@ {
        Some(4)
    } else if name == "IS_NOT_NULL"@ {
        Some(5)
    } else {
        None
    }
}

fn unary_operator_number(name: &str) -> (r: Option<i32>)
    ensures
        r == unary_operator_number_spec(name@),
{
    if same(name, "OPERATOR_UNSPECIFIED") {
        Some(0)
    } else if same(name, "IS_NAN") {
        Some(2)
    } else if same(name, "IS_NULL") {
        Some(3)
    } else if same(name, "IS_NOT_NAN") {
        Some(4)
    } else if same(name, "IS_NOT_NULL") {
        Some(5)
    } else {
        None
    }
}

/// The number of an order's direction.
pub open spec fn direction_number_spec(name: Seq<char>) -> Option<i32> {
    if name == "DIRECTION_UNSPECIFIED"@ {
        Some(0)
    } else if name == "ASCENDING"@ {
        Some(1)
    } else if name == "DESCENDING"@ {
        Some(2)
    } else {
        None
    }
}

fn direction_number(name: &str) -> (r: Option<i32>)
    ensures
        r == direction_number_spec(name@),
{
    if same(name, "DIRECTION_UNSPECIFIED") {
        Some(0)
    } else if same(name, "ASCENDING") {
        Some(1)
    } else if same(name, "DESCENDING") {
        Some(2)
    } else {
        None
    }
}

/// The path of the field under a key.
pub open spec fn field_at(v: JsonView) -> Seq<char> {
    text_at(at(v, "field"@), "fieldPath"@)
}

/// The filter that JSON stands for.
pub open spec fn filter_proto_spec(v: JsonView) -> Result<FilterView, StatusView>
    decreases v, 1nat, 0nat,
{
    if member(v, "fieldFilter"@) is Some {
        let f = at(v, "fieldFilter"@);
        match field_operator_number_spec(text_at(f, "op"@)) {
            None => Err(invalid("invalid field operator"@)),
            Some(op) => match value_proto_spec(at(f, "value"@)) {
                Err(e) => Err(e),
                Ok(value) => Ok(
                    FilterView::Field { field: Some(field_at(f)), op, value: Some(value) },
                ),
            },
        }
    } else if member(v, "compositeFilter"@) is Some {
        let f = at(v, "compositeFilter"@);
        let items = array_at(f, "filters"@);
        proof {
            member_is_smaller(v, "compositeFilter"@);
            if items.len() > 0 {
                array_is_smaller(f, "filters"@);
            }
        }
        match composite_operator_number_spec(text_at(f, "op"@)) {
            None => Err(invalid("invalid composite operator"@)),
            Some(op) => if items.len() == 0 {
                Ok(FilterView::Composite { op, filters: Seq::empty() })
            } else {
                match filters_proto_spec(items, 0) {
                    Err(e) => Err(e),
                    Ok(filters) => Ok(FilterView::Composite { op, filters }),
                }
            },
        }
    } else if member(v, "unaryFilter"@) is Some {
        let f = at(v, "unaryFilter"@);
        match unary_operator_number_spec(text_at(f, "op"@)) {
            None => Err(invalid("invalid unary operator"@)),
            Some(op) => Ok(FilterView::Unary { op, field: Some(field_at(f)) }),
        }
    } else {
        Err(invalid("unknown filter"@))
    }
}

/// The filters that the items from `i` on stand for, or the first error.
pub open spec fn filters_proto_spec(items: Seq<JsonView>, i: nat) -> Result<
    Seq<FilterView>,
    StatusView,
>
    decreases items, 0nat, items.len() - i,
{
    if i >= items.len() {
        Ok(Seq::empty())
    } else {
        match filter_proto_spec(items[i as int]) {
            Err(e) => Err(e),
            Ok(first) => match filters_proto_spec(items, i + 1) {
                Err(e) => Err(e),
                Ok(rest) => Ok(seq![first] + rest),
            },
        }
    }
}

fn filters_proto(items: &Vec<Json>) -> (r: Result<Vec<Filter>, Status>)
    ensures
        match r {
            Ok(list) => filters_proto_spec(items_view(items@), 0) == Ok::<_, StatusView>(
                filters_view(list@),
            ),
            Err(e) => filters_proto_spec(items_view(items@), 0) == Err::<Seq<FilterView>, _>(e@),
        },
    decreases items,
{
    let ghost all = items_view(items@);
    let mut list: Vec<Filter> = Vec::new();
    let mut i: usize = 0;
    assert(filters_view(list@) =~= Seq::empty());
    assert(forall|rest: Seq<FilterView>| Seq::<FilterView>::empty() + rest =~= rest);
    while i < items.len()
        invariant
            i <= items.len(),
            all == items_view(items@),
            filters_proto_spec(all, 0) == match filters_proto_spec(all, i as nat) {
                Ok(rest) => Ok(filters_view(list@) + rest),
                Err(e) => Err(e),
            },
        decreases items.len() - i,
    {
        assert(decreases_to!(*items => items@[i as int]));
        match filter_proto(&items[i]) {
            Ok(value) => {
                let ghost before = filters_view(list@);
                list.push(value);
                assert(filters_view(list@) =~= before.push(value@));
                assert(forall|rest: Seq<FilterView>|
                    #![trigger filters_view(list@) + rest]
                    before + (seq![value@] + rest) =~= filters_view(list@) + rest);
            },
            Err(e) => {
                return Err(e);
            },
        }
        i += 1;
    }
    assert(filters_view(list@) + Seq::<FilterView>::empty() =~= filters_view(list@));
    Ok(list)
}

/// Reads a filter from JSON.
pub fn filter_proto(v: &Json) -> (r: Result<Filter, Status>)
    ensures
        match r {
            Ok(filter) => filter_proto_spec(v@) == Ok::<_, StatusView>(filter@),
            Err(e) => filter_proto_spec(v@) == Err::<FilterView, _>(e@),
        },
    decreases v,
{
    if let Some(f) = v.get("fieldFilter") {
        let op: i32 = match field_operator_number(f.text("op").as_str()) {
            Some(op) => op,
            None => {
                return Err(Status::invalid_argument("invalid field operator"));
            },
        };
        return match value_under(f, "value") {
            Ok(value) => Ok(
                Filter::Field {
                    field: Some(text_within(f, "field", "fieldPath")),
                    op,
                    value: Some(value),
                },
            ),
            Err(e) => Err(e),
        };
    }
    if let Some(f) = v.get("compositeFilter") {
        let op: i32 = match composite_operator_number(f.text("op").as_str()) {
            Some(op) => op,
            None => {
                return Err(Status::invalid_argument("invalid composite operator"));
            },
        };
        return match f.items("filters") {
            Some(items) => match filters_proto(items) {
                Ok(filters) => {
                    proof {
                        composite_view(op, filters);
                        if items@.len() == 0 {
                            assert(filters_view(filters@) =~= Seq::empty());
                        }
                    }
                    Ok(Filter::Composite { op, filters })
                },
                Err(e) => Err(e),
            },
            None => {
                let filters: Vec<Filter> = Vec::new();
                proof {
                    composite_view(op, filters);
                    assert(filters_view(filters@) =~= Seq::empty());
                }
                Ok(Filter::Composite { op, filters })
            },
        };
    }
    if let Some(f) = v.get("unaryFilter") {
        return match unary_operator_number(f.text("op").as_str()) {
            Some(op) => Ok(
                Filter::Unary { op, field: Some(text_within(f, "field", "fieldPath")) },
            ),
            None => Err(Status::invalid_argument("invalid unary operator")),
        };
    }
    Err(Status::invalid_argument("unknown filter"))
}

/// The orders that the items from `i` on stand for, or the first error.
pub open spec fn orders_proto_spec(items: Seq<JsonView>, i: nat) -> Result<
    Seq<OrderView>,
    StatusView,
>
    decreases items.len() - i,
{
    if i >= items.len() {
        Ok(Seq::empty())
    } else {
        match direction_number_spec(text_at(items[i as int], "direction"@)) {
            None => Err(invalid("invalid order direction"@)),
            Some(direction) => match orders_proto_spec(items, i + 1) {
                Err(e) => Err(e),
                Ok(rest) => Ok(
                    seq![OrderView { field: Some(field_at(items[i as int])), direction }] + rest,
                ),
            },
        }
    }
}

pub open spec fn order_views(orders: Seq<Order>) -> Seq<OrderView> {
    orders.map_values(|o: Order| o@)
}

fn orders_under(v: &Json, key: &str) -> (r: Result<Vec<Order>, Status>)
    ensures
        match r {
            Ok(list) => orders_proto_spec(array_at(v@, key@), 0) == Ok::<_, StatusView>(
                order_views(list@),
            ),
            Err(e) => orders_proto_spec(array_at(v@, key@), 0) == Err::<Seq<OrderView>, _>(e@),
        },
{
    let mut list: Vec<Order> = Vec::new();
    assert(order_views(list@) =~= Seq::empty());
    if let Some(items) = v.items(key) {
        let ghost all = items_view(items@);
        let mut i: usize = 0;
        assert(forall|rest: Seq<OrderView>| Seq::<OrderView>::empty() + rest =~= rest);
        while i < items.len()
            invariant
                i <= items.len(),
                all == items_view(items@),
                all == array_at(v@, key@),
                orders_proto_spec(all, 0) == match orders_proto_spec(all, i as nat) {
                    Ok(rest) => Ok(order_views(list@) + rest),
                    Err(e) => Err(e),
                },
            decreases items.len() - i,
        {
            let item = &items[i];
            let direction: i32 = match direction_number(item.text("direction").as_str()) {
                Some(direction) => direction,
                None => {
                    return Err(Status::invalid_argument("invalid order direction"));
                },
            };
            let order = Order { field: Some(text_within(item, "field", "fieldPath")), direction };
            let ghost before = order_views(list@);
            list.push(order);
            assert(order_views(list@) =~= before.push(order@));
            assert(forall|rest: Seq<OrderView>|
                #![trigger order_views(list@) + rest]
                before + (seq![order@] + rest) =~= order_views(list@) + rest);
            i += 1;
        }
        assert(order_views(list@) + Seq::<OrderView>::empty() =~= order_views(list@));
    }
    Ok(list)
}

/// The cursor under a key, if there is one.
pub open spec fn cursor_spec(v: JsonView, key: Seq<char>) -> Result<
    Option<CursorView>,
    StatusView,
> {
    match member(v, key) {
        None => Ok(None),
        Some(c) => match values_proto_spec(array_at(c, "values"@), 0) {
            Err(e) => Err(e),
            Ok(values) => Ok(
                Some(CursorView { values, before: as_bool_spec(at(c, "before"@)) == Some(true) }),
            ),
        },
    }
}

fn cursor_under(v: &Json, key: &str) -> (r: Result<Option<Cursor>, Status>)
    ensures
        match r {
            Ok(cursor) => cursor_spec(v@, key@) == Ok::<_, StatusView>(
                crate::query::opt_cursor(cursor),
            ),
            Err(e) => cursor_spec(v@, key@) == Err::<Option<CursorView>, _>(e@),
        },
{
    match v.get(key) {
        None => Ok(None),
        Some(c) => match values_under(c, "values") {
            Ok(values) => {
                let before = match c.bool_at("before") {
                    Some(b) => b,
                    None => false,
                };
                Ok(Some(Cursor { values, before }))
            },
            Err(e) => Err(e),
        },
    }
}

/// The limit of a query: a number, or an object that wraps one.
pub open spec fn limit_spec(v: JsonView) -> Option<i32> {
    match member(v, "limit"@) {
        None => None,
        Some(n) => match as_integer_spec(n) {
            Some(limit) => Some(limit as i32),
            None => match as_integer_spec(at(n, "value"@)) {
                Some(limit) => Some(limit as i32),
                None => None,
            },
        },
    }
}

fn limit(v: &Json) -> (r: Option<i32>)
    ensures
        r == limit_spec(v@),
{
    match v.get("limit") {
        None => None,
        Some(n) => match n.as_integer() {
            Some(limit) => Some(#[verifier::truncate] (limit as i32)),
            None => match n.integer_at("value") {
                Some(limit) => Some(#[verifier::truncate] (limit as i32)),
                None => None,
            },
        },
    }
}

/// The paths of the fields that a query selects.
pub open spec fn selected_spec(items: Seq<JsonView>) -> Seq<Seq<char>> {
    items.map_values(|item: JsonView| text_at(item, "fieldPath"@))
}

fn selected(v: &Json) -> (r: Vec<String>)
    ensures
        texts(r@) == selected_spec(array_at(v@, "fields"@)),
{
    let mut out: Vec<String> = Vec::new();
    if let Some(items) = v.items("fields") {
        let mut i: usize = 0;
        while i < items.len()
            invariant
                i <= items.len(),
                out@.len() == i,
                forall|j: int|
                    0 <= j < i ==> (#[trigger] out@[j])@ == text_at(items@[j]@, "fieldPath"@),
            decreases items.len() - i,
        {
            out.push(items[i].text("fieldPath"));
            i += 1;
        }
    }
    assert(texts(out@) =~= selected_spec(array_at(v@, "fields"@)));
    out
}

/// The collections that a query reads.
pub open spec fn from_spec(items: Seq<JsonView>) -> Seq<(Seq<char>, bool)> {
    items.map_values(
        |item: JsonView|
            (
                text_at(item, "collectionId"@),
                as_bool_spec(at(item, "allDescendants"@)) == Some(true),
            ),
    )
}

fn collections(v: &Json) -> (r: Vec<CollectionSelector>)
    ensures
        r@.map_values(|c: CollectionSelector| (c.collection_id@, c.all_descendants)) == from_spec(
            array_at(v@, "from"@),
        ),
{
    let mut out: Vec<CollectionSelector> = Vec::new();
    if let Some(items) = v.items("from") {
        let mut i: usize = 0;
        while i < items.len()
            invariant
                i <= items.len(),
                out@.len() == i,
                forall|j: int|
                    0 <= j < i ==> (#[trigger] out@[j]).collection_id@ == text_at(
                        items@[j]@,
                        "collectionId"@,
                    ) && out@[j].all_descendants == (as_bool_spec(
                        at(items@[j]@, "allDescendants"@),
                    ) == Some(true)),
            decreases items.len() - i,
        {
            let all_descendants = match items[i].bool_at("allDescendants") {
                Some(b) => b,
                None => false,
            };
            out.push(
                CollectionSelector { collection_id: items[i].text("collectionId"), all_descendants },
            );
            i += 1;
        }
    }
    assert(out@.map_values(|c: CollectionSelector| (c.collection_id@, c.all_descendants))
        =~= from_spec(array_at(v@, "from"@)));
    out
}

/// The query that JSON stands for.
pub open spec fn query_proto_spec(v: JsonView) -> Result<QueryView, StatusView> {
    match where_spec(v) {
        Err(e) => Err(e),
        Ok(filter) => match orders_proto_spec(array_at(v, "orderBy"@), 0) {
            Err(e) => Err(e),
            Ok(order_by) => match cursor_spec(v, "startAt"@) {
                Err(e) => Err(e),
                Ok(start_at) => match cursor_spec(v, "endAt"@) {
                    Err(e) => Err(e),
                    Ok(end_at) => Ok(
                        QueryView {
                            select: match member(v, "select"@) {
                                Some(s) => Some(selected_spec(array_at(s, "fields"@))),
                                None => None,
                            },
                            from: from_spec(array_at(v, "from"@)),
                            filter,
                            order_by,
                            start_at,
                            end_at,
                            offset: match as_integer_spec(at(v, "offset"@)) {
                                Some(n) => n as i32,
                                None => 0,
                            },
                            limit: limit_spec(v),
                        },
                    ),
                },
            },
        },
    }
}

/// The filter of a query, if it has one.
pub open spec fn where_spec(v: JsonView) -> Result<Option<FilterView>, StatusView> {
    match member(v, "where"@) {
        None => Ok(None),
        Some(f) => match filter_proto_spec(f) {
            Ok(filter) => Ok(Some(filter)),
            Err(e) => Err(e),
        },
    }
}

/// Reads a query from JSON.
pub fn query_proto(v: &Json) -> (r: Result<StructuredQuery, Status>)
    ensures
        result_view(r) == query_proto_spec(v@),
{
    let filter = match v.get("where") {
        None => None,
        Some(f) => match filter_proto(f) {
            Ok(filter) => Some(filter),
            Err(e) => {
                return Err(e);
            },
        },
    };
    let order_by = match orders_under(v, "orderBy") {
        Ok(list) => list,
        Err(e) => {
            return Err(e);
        },
    };
    let start_at = match cursor_under(v, "startAt") {
        Ok(cursor) => cursor,
        Err(e) => {
            return Err(e);
        },
    };
    let end_at = match cursor_under(v, "endAt") {
        Ok(cursor) => cursor,
        Err(e) => {
            return Err(e);
        },
    };
    let select = match v.get("select") {
        Some(s) => Some(selected(s)),
        None => None,
    };
    let offset: i32 = match v.integer_at("offset") {
        Some(n) => #[verifier::truncate] (n as i32),
        None => 0,
    };
    Ok(
        StructuredQuery {
            select,
            from: collections(v),
            filter,
            order_by,
            start_at,
            end_at,
            offset,
            limit: limit(v),
        },
    )
}

} // verus!
