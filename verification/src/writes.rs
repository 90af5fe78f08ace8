//! Firestore writes: preconditions, field transforms and commits.
use crate::document::{
    merge_document, merge_document_spec, nested_get, nested_get_spec, nested_set, nested_set_spec,
    opt_document, Document, DocumentView,
};
use crate::double::{double_of_integer, double_of_integer_spec, sum, sum_spec};
use crate::field_path::{field_path, field_path_spec};
use crate::names::{
    database_document_prefix, database_document_prefix_spec, database_from_resource,
    database_from_resource_spec, validate_document_name, validate_document_name_spec,
};
use crate::ordered::{
    keys_sorted, lookup, lookup_after_put, lookup_after_without, lower_bound,
    lower_bound_properties, put, put_sorted, without,
    without_sorted, Duplicate, OrderedMap,
};
use crate::status::{invalid, status_view, unit_result, Code, Status, StatusView};
use crate::text::{cat, same, texts};
use crate::value::{
    array_view, fields_view, opt_value, opt_value_ref, transform_value_equal,
    transform_value_equal_spec, values_view, FieldsView, Timestamp, FieldValue, ValueView,
};
use vstd::prelude::*;

verus! {

/// What must hold of a document before a write may touch it.
#[derive(Clone, Copy, PartialEq, Eq, Debug, Structural)]
pub enum Precondition {
    Any,
    Exists(bool),
    UpdateTime(Timestamp),
}

pub open spec fn check_precondition_spec(
    existing: Option<DocumentView>,
    condition: Precondition,
) -> Result<(), StatusView> {
    match condition {
        Precondition::Any => Ok(()),
        Precondition::Exists(expected) => if expected == existing is Some {
            Ok(())
        } else {
            Err(status_view(Code::FailedPrecondition, "document existence precondition failed"@))
        },
        Precondition::UpdateTime(expected) => if existing is Some && existing->0.update_time == Some(
            expected,
        ) {
            Ok(())
        } else {
            Err(status_view(Code::FailedPrecondition, "document update_time precondition failed"@))
        },
    }
}

/// Checks what a write demands of the document it touches.
pub fn check_precondition(existing: Option<&Document>, condition: Precondition) -> (r: Result<
    (),
    Status,
>)
    ensures
        unit_result(r) == check_precondition_spec(opt_document(existing), condition),
{
    match condition {
        Precondition::Any => Ok(()),
        Precondition::Exists(expected) => if expected == existing.is_some() {
            Ok(())
        } else {
            Err(Status::new(Code::FailedPrecondition, "document existence precondition failed"))
        },
        Precondition::UpdateTime(expected) => {
            let held = match existing {
                Some(doc) => match doc.update_time {
                    Some(time) => time.seconds == expected.seconds && time.nanos == expected.nanos,
                    None => false,
                },
                None => false,
            };
            if held {
                Ok(())
            } else {
                Err(
                    Status::new(
                        Code::FailedPrecondition,
                        "document update_time precondition failed",
                    ),
                )
            }
        },
    }
}

/// The sum that an increment leaves; a field that is missing or holds no
/// number takes the operand.
pub open spec fn numeric_increment_spec(current: Option<ValueView>, operand: ValueView) -> Result<
    ValueView,
    StatusView,
> {
    match operand {
        ValueView::Unset => Err(invalid("increment operand is required"@)),
        ValueView::Integer(b) => match current {
            Some(ValueView::Integer(a)) => Ok(
                ValueView::Integer(
                    if a + b > i64::MAX {
                        i64::MAX
                    } else if a + b < i64::MIN {
                        i64::MIN
                    } else {
                        (a + b) as i64
                    },
                ),
            ),
            Some(ValueView::Double(a)) => Ok(ValueView::Double(sum_spec(a, double_of_integer_spec(b)))),
            _ => Ok(operand),
        },
        ValueView::Double(b) => match current {
            Some(ValueView::Integer(a)) => Ok(ValueView::Double(sum_spec(double_of_integer_spec(a), b))),
            Some(ValueView::Double(a)) => Ok(ValueView::Double(sum_spec(a, b))),
            _ => Ok(operand),
        },
        _ => Err(invalid("increment operand must be numeric"@)),
    }
}

fn saturating_sum(a: i64, b: i64) -> (r: i64)
    ensures
        r == if a + b > i64::MAX {
            i64::MAX
        } else if a + b < i64::MIN {
            i64::MIN
        } else {
            (a + b) as i64
        },
{
    let exact: i128 = a as i128 + b as i128;
    if exact > i64::MAX as i128 {
        i64::MAX
    } else if exact < i64::MIN as i128 {
        i64::MIN
    } else {
        exact as i64
    }
}

/// The view of a value or of the error that stands for it.
pub open spec fn value_result(r: Result<FieldValue, Status>) -> Result<ValueView, StatusView> {
    match r {
        Ok(v) => Ok(v@),
        Err(e) => Err(e@),
    }
}

/// Adds a number to what a field holds.
pub fn numeric_increment(current: Option<&FieldValue>, operand: &FieldValue) -> (r: Result<FieldValue, Status>)
    ensures
        value_result(r) == numeric_increment_spec(opt_value_ref(current), operand@),
{
    match operand {
        FieldValue::Unset => Err(Status::invalid_argument("increment operand is required")),
        FieldValue::Integer(b) => match current {
            Some(FieldValue::Integer(a)) => Ok(FieldValue::Integer(saturating_sum(*a, *b))),
            Some(FieldValue::Double(a)) => Ok(FieldValue::Double(sum(*a, double_of_integer(*b)))),
            _ => Ok(FieldValue::Integer(*b)),
        },
        FieldValue::Double(b) => match current {
            Some(FieldValue::Integer(a)) => Ok(FieldValue::Double(sum(double_of_integer(*a), *b))),
            Some(FieldValue::Double(a)) => Ok(FieldValue::Double(sum(*a, *b))),
            _ => Ok(FieldValue::Double(*b)),
        },
        _ => Err(Status::invalid_argument("increment operand must be numeric")),
    }
}

/// What a transform does to a field.
#[derive(PartialEq, Debug)]
pub enum Transform {
    Unset,
    SetToServerValue(i32),
    Increment(FieldValue),
    Maximum(FieldValue),
    Minimum(FieldValue),
    AppendMissingElements(Vec<FieldValue>),
    RemoveAllFromArray(Vec<FieldValue>),
}

/// The server value that stands for the time of the request.
pub const REQUEST_TIME: i32 = 1;

/// A transform of one field.
#[derive(PartialEq, Debug)]
pub struct FieldTransform {
    pub field_path: String,
    pub transform: Transform,
}

/// What a [`Transform`] stands for.
pub enum TransformView {
    Unset,
    SetToServerValue(i32),
    Increment(ValueView),
    Maximum(ValueView),
    Minimum(ValueView),
    AppendMissingElements(Seq<ValueView>),
    RemoveAllFromArray(Seq<ValueView>),
}

impl View for FieldTransform {
    type V = (Seq<char>, TransformView);

    open spec fn view(&self) -> (Seq<char>, TransformView) {
        (
            self.field_path@,
            match self.transform {
                Transform::Unset => TransformView::Unset,
                Transform::SetToServerValue(n) => TransformView::SetToServerValue(n),
                Transform::Increment(v) => TransformView::Increment(v@),
                Transform::Maximum(v) => TransformView::Maximum(v@),
                Transform::Minimum(v) => TransformView::Minimum(v@),
                Transform::AppendMissingElements(v) => TransformView::AppendMissingElements(
                    values_view(v@),
                ),
                Transform::RemoveAllFromArray(v) => TransformView::RemoveAllFromArray(
                    values_view(v@),
                ),
            },
        )
    }
}

/// Whether a value equal to `candidate` is among `values`.
pub open spec fn has_equal(values: Seq<ValueView>, candidate: ValueView) -> bool {
    exists|i: int| 0 <= i < values.len() && transform_value_equal_spec(#[trigger] values[i], candidate)
}

/// The values followed by those elements that are not yet among them.
pub open spec fn append_missing_spec(
    values: Seq<ValueView>,
    elements: Seq<ValueView>,
) -> Seq<ValueView>
    decreases elements.len(),
{
    if elements.len() == 0 {
        values
    } else {
        let before = append_missing_spec(values, elements.drop_last());
        if has_equal(before, elements.last()) {
            before
        } else {
            before.push(elements.last())
        }
    }
}

/// The value that a transform leaves in a field that holds `current`.
pub open spec fn transform_result_spec(
    current: Option<ValueView>,
    transform: TransformView,
    request_time: Timestamp,
) -> Result<ValueView, StatusView> {
    match transform {
        TransformView::Increment(operand) => numeric_increment_spec(current, operand),
        TransformView::AppendMissingElements(elements) => {
            let values = match current {
                Some(ValueView::Array(items)) => items,
                _ => Seq::empty(),
            };
            Ok(ValueView::Array(append_missing_spec(values, elements)))
        },
        TransformView::SetToServerValue(n) => if n == REQUEST_TIME {
            Ok(ValueView::Timestamp(request_time))
        } else {
            Err(
                status_view(
                    Code::Unimplemented,
                    "requested field transform is not implemented"@,
                ),
            )
        },
        _ => Err(
            status_view(Code::Unimplemented, "requested field transform is not implemented"@),
        ),
    }
}

/// Whether a transform is one that the store applies.
pub open spec fn transform_supported(transform: TransformView) -> bool {
    match transform {
        TransformView::Increment(_) | TransformView::AppendMissingElements(_) => true,
        TransformView::SetToServerValue(n) => n == REQUEST_TIME,
        _ => false,
    }
}

/// The fields and the results after one more transform.
pub open spec fn transform_step(
    fields: FieldsView,
    transform: (Seq<char>, TransformView),
    request_time: Timestamp,
) -> Result<(FieldsView, ValueView), StatusView> {
    if !transform_supported(transform.1) {
        Err(status_view(Code::Unimplemented, "requested field transform is not implemented"@))
    } else {
        match field_path_spec(transform.0) {
            Err(e) => Err(e),
            Ok(path) => match transform_result_spec(
                nested_get_spec(fields, path),
                transform.1,
                request_time,
            ) {
                Err(e) => Err(e),
                Ok(value) => Ok((nested_set_spec(fields, path, Some(value)), value)),
            },
        }
    }
}

/// The fields after all transforms, one after the other, with the value that
/// each left; or the error of the first that fails.
pub open spec fn apply_transforms_spec(
    fields: FieldsView,
    transforms: Seq<(Seq<char>, TransformView)>,
    request_time: Timestamp,
) -> Result<(FieldsView, Seq<ValueView>), StatusView>
    decreases transforms.len(),
{
    if transforms.len() == 0 {
        Ok((fields, Seq::empty()))
    } else {
        match apply_transforms_spec(fields, transforms.drop_last(), request_time) {
            Err(e) => Err(e),
            Ok(before) => match transform_step(before.0, transforms.last(), request_time) {
                Err(e) => Err(e),
                Ok(after) => Ok((after.0, before.1.push(after.1))),
            },
        }
    }
}

/// Appends the elements that are not yet among the values.
pub fn append_missing(values: &mut Vec<FieldValue>, elements: &Vec<FieldValue>)
    ensures
        values_view(final(values)@) == append_missing_spec(
            values_view(old(values)@),
            values_view(elements@),
        ),
{
    let ghost start = values_view(values@);
    let ghost all = values_view(elements@);
    let mut i: usize = 0;
    assert(all.take(0) =~= Seq::empty());
    while i < elements.len()
        invariant
            i <= elements.len(),
            all == values_view(elements@),
            values_view(values@) == append_missing_spec(start, all.take(i as int)),
        decreases elements.len() - i,
    {
        assert(all.take(i + 1).drop_last() =~= all.take(i as int));
        let ghost here = values_view(values@);
        let mut known = false;
        let mut j: usize = 0;
        while j < values.len() && !known
            invariant
                i < elements.len(),
                j <= values.len(),
                all == values_view(elements@),
                here == values_view(values@),
                !known ==> forall|k: int|
                    0 <= k < j ==> !transform_value_equal_spec(#[trigger] here[k], all[i as int]),
                known ==> has_equal(here, all[i as int]),
            decreases values.len() - j, (if known { 0int } else { 1int }),
        {
            if transform_value_equal(&values[j], &elements[i]) {
                assert(transform_value_equal_spec(here[j as int], all[i as int]));
                known = true;
            } else {
                assert(here[j as int] == values@[j as int]@);
                j += 1;
            }
        }
        if !known {
            let candidate = elements[i].duplicate();
            values.push(candidate);
            assert(values_view(values@) =~= here.push(all[i as int]));
        }
        i += 1;
    }
    assert(all.take(i as int) =~= all);
}

proof fn apply_transforms_stuck(
    fields: FieldsView,
    transforms: Seq<(Seq<char>, TransformView)>,
    request_time: Timestamp,
    i: int,
)
    requires
        0 <= i <= transforms.len(),
        apply_transforms_spec(fields, transforms.take(i), request_time) is Err,
    ensures
        apply_transforms_spec(fields, transforms, request_time) == apply_transforms_spec(
            fields,
            transforms.take(i),
            request_time,
        ),
    decreases transforms.len() - i,
{
    if i < transforms.len() {
        assert(transforms.take(i + 1).drop_last() =~= transforms.take(i));
        apply_transforms_stuck(fields, transforms, request_time, i + 1);
    } else {
        assert(transforms.take(i) =~= transforms);
    }
}

/// The views of a list of transforms.
pub open spec fn transforms_view(transforms: Seq<FieldTransform>) -> Seq<
    (Seq<char>, TransformView),
> {
    transforms.map_values(|t: FieldTransform| t@)
}

fn transform_result(current: Option<FieldValue>, transform: &FieldTransform, request_time: &Timestamp) -> (r:
    Result<FieldValue, Status>)
    ensures
        value_result(r) == transform_result_spec(opt_value(current), transform@.1, *request_time),
{
    match &transform.transform {
        Transform::Increment(operand) => numeric_increment(current.as_ref(), operand),
        Transform::AppendMissingElements(elements) => {
            let mut values: Vec<FieldValue> = Vec::new();
            assert(values_view(values@) =~= Seq::empty());
            match current {
                Some(FieldValue::Array(items)) => {
                    proof {
                        array_view(items);
                    }
                    values = items;
                },
                _ => {},
            }
            append_missing(&mut values, elements);
            proof {
                array_view(values);
            }
            Ok(FieldValue::Array(values))
        },
        Transform::SetToServerValue(n) => if *n == REQUEST_TIME {
            Ok(FieldValue::Timestamp(*request_time))
        } else {
            Err(Status::new(Code::Unimplemented, "requested field transform is not implemented"))
        },
        _ => Err(Status::new(Code::Unimplemented, "requested field transform is not implemented")),
    }
}

/// Applies transforms to fields, one after the other.
pub fn apply_update_transforms(
    fields: &mut Vec<(String, FieldValue)>,
    transforms: &Vec<FieldTransform>,
    request_time: &Timestamp,
) -> (r: Result<Vec<FieldValue>, Status>)
    ensures
        match r {
            Ok(results) => apply_transforms_spec(
                fields_view(old(fields)@),
                transforms_view(transforms@),
                *request_time,
            ) == Ok::<_, StatusView>((fields_view(final(fields)@), values_view(results@))),
            Err(e) => apply_transforms_spec(
                fields_view(old(fields)@),
                transforms_view(transforms@),
                *request_time,
            ) == Err::<(FieldsView, Seq<ValueView>), _>(e@),
        },
{
    let ghost start = fields_view(fields@);
    let ghost all = transforms_view(transforms@);
    let mut results: Vec<FieldValue> = Vec::new();
    let mut i: usize = 0;
    assert(all.take(0) =~= Seq::empty());
    assert(values_view(results@) =~= Seq::empty());
    while i < transforms.len()
        invariant
            i <= transforms.len(),
            all == transforms_view(transforms@),
            start == fields_view(old(fields)@),
            apply_transforms_spec(start, all.take(i as int), *request_time) == Ok::<_, StatusView>(
                (fields_view(fields@), values_view(results@)),
            ),
        decreases transforms.len() - i,
    {
        assert(all.take(i + 1).drop_last() =~= all.take(i as int));
        assert(all.take(i + 1).last() == transforms@[i as int]@);
        let supported = match &transforms[i].transform {
            Transform::Increment(_) | Transform::AppendMissingElements(_) => true,
            Transform::SetToServerValue(n) => *n == REQUEST_TIME,
            _ => false,
        };
        if !supported {
            proof {
                apply_transforms_stuck(start, all, *request_time, i + 1);
            }
            return Err(
                Status::new(Code::Unimplemented, "requested field transform is not implemented"),
            );
        }
        let path = match field_path(transforms[i].field_path.as_str()) {
            Ok(path) => path,
            Err(e) => {
                proof {
                    apply_transforms_stuck(start, all, *request_time, i + 1);
                }
                return Err(e);
            },
        };
        let current = match nested_get(fields, &path) {
            Some(value) => Some(value.duplicate()),
            None => None,
        };
        match transform_result(current, &transforms[i], request_time) {
            Ok(value) => {
                let ghost before = values_view(results@);
                let copy = value.duplicate();
                nested_set(fields, &path, Some(copy));
                results.push(value);
                assert(values_view(results@) =~= before.push(value@));
            },
            Err(e) => {
                proof {
                    apply_transforms_stuck(start, all, *request_time, i + 1);
                }
                return Err(e);
            },
        }
        i += 1;
    }
    assert(all.take(i as int) =~= all);
    Ok(results)
}

/// What a write does.
#[derive(PartialEq, Debug)]
pub enum Operation {
    Unset,
    Update(Document),
    Delete(String),
    Transform(String),
}

/// A write: its operation, the paths that an update is limited to, what must
/// hold before it, and the transforms that follow an update.
#[derive(PartialEq, Debug)]
pub struct Write {
    pub operation: Operation,
    pub update_mask: Option<Vec<String>>,
    pub current_document: Precondition,
    pub update_transforms: Vec<FieldTransform>,
}

/// What an [`Operation`] stands for.
pub enum OperationView {
    Unset,
    Update(DocumentView),
    Delete(Seq<char>),
    Transform(Seq<char>),
}

/// What a [`Write`] stands for.
pub struct WriteView {
    pub operation: OperationView,
    pub update_mask: Option<Seq<Seq<char>>>,
    pub current_document: Precondition,
    pub update_transforms: Seq<(Seq<char>, TransformView)>,
}

impl View for Write {
    type V = WriteView;

    open spec fn view(&self) -> WriteView {
        WriteView {
            operation: match self.operation {
                Operation::Unset => OperationView::Unset,
                Operation::Update(doc) => OperationView::Update(doc@),
                Operation::Delete(name) => OperationView::Delete(name@),
                Operation::Transform(name) => OperationView::Transform(name@),
            },
            update_mask: match self.update_mask {
                Some(paths) => Some(texts(paths@)),
                None => None,
            },
            current_document: self.current_document,
            update_transforms: transforms_view(self.update_transforms@),
        }
    }
}

/// What a write answers.
#[derive(PartialEq, Debug)]
pub struct WriteResult {
    pub update_time: Option<Timestamp>,
    pub transform_results: Vec<FieldValue>,
}

/// What a [`WriteResult`] stands for.
#[verifier::ext_equal]
pub struct WriteResultView {
    pub update_time: Option<Timestamp>,
    pub transform_results: Seq<ValueView>,
}

impl View for WriteResult {
    type V = WriteResultView;

    open spec fn view(&self) -> WriteResultView {
        WriteResultView {
            update_time: self.update_time,
            transform_results: values_view(self.transform_results@),
        }
    }
}

/// Documents by name.
pub type DocumentsView = Seq<(Seq<char>, DocumentView)>;

/// The document that an update leaves in place of `existing`, with the results
/// of its transforms.
pub open spec fn updated_document(
    existing: Option<DocumentView>,
    document: DocumentView,
    write: WriteView,
    write_time: Timestamp,
) -> Result<(DocumentView, Seq<ValueView>), StatusView> {
    match merge_document_spec(existing, document, write.update_mask) {
        Err(e) => Err(e),
        Ok(merged) => match apply_transforms_spec(
            merged.fields,
            write.update_transforms,
            write_time,
        ) {
            Err(e) => Err(e),
            Ok(pair) => Ok(
                (
                    DocumentView {
                        name: merged.name,
                        fields: pair.0,
                        create_time: match existing {
                            Some(doc) => match doc.create_time {
                                Some(time) => Some(time),
                                None => Some(write_time),
                            },
                            None => Some(write_time),
                        },
                        update_time: Some(write_time),
                    },
                    pair.1,
                ),
            ),
        },
    }
}

/// The documents after a write and what it answers, or why it was refused.
pub open spec fn apply_write_spec(
    documents: DocumentsView,
    write: WriteView,
    write_time: Timestamp,
) -> Result<(DocumentsView, WriteResultView), StatusView> {
    match write.operation {
        OperationView::Update(document) => match validate_document_name_spec(document.name) {
            Err(e) => Err(e),
            Ok(_) => {
                let existing = lookup(documents, document.name);
                match check_precondition_spec(existing, write.current_document) {
                    Err(e) => Err(e),
                    Ok(_) => match updated_document(existing, document, write, write_time) {
                        Err(e) => Err(e),
                        Ok(pair) => Ok(
                            (
                                put(documents, document.name, pair.0),
                                WriteResultView {
                                    update_time: Some(write_time),
                                    transform_results: pair.1,
                                },
                            ),
                        ),
                    },
                }
            },
        },
        OperationView::Delete(name) => match validate_document_name_spec(name) {
            Err(e) => Err(e),
            Ok(_) => match check_precondition_spec(
                lookup(documents, name),
                write.current_document,
            ) {
                Err(e) => Err(e),
                Ok(_) => Ok(
                    (
                        without(documents, name),
                        WriteResultView {
                            update_time: Some(write_time),
                            transform_results: Seq::empty(),
                        },
                    ),
                ),
            },
        },
        OperationView::Transform(_) => Err(
            status_view(Code::Unimplemented, "document transforms are not implemented"@),
        ),
        OperationView::Unset => Err(invalid("write operation is required"@)),
    }
}

/// Applies a write. A refused write changes nothing.
pub fn apply_write(
    documents: &mut OrderedMap<Document>,
    request: Write,
    write_time: &Timestamp,
) -> (r: Result<WriteResult, Status>)
    ensures
        match r {
            Ok(result) => apply_write_spec(old(documents)@, request@, *write_time) == Ok::<
                _,
                StatusView,
            >((final(documents)@, result@)),
            Err(e) => apply_write_spec(old(documents)@, request@, *write_time) == Err::<
                (DocumentsView, WriteResultView),
                _,
            >(e@) && final(documents)@ == old(documents)@,
        },
{
    let Write { operation, update_mask, current_document, update_transforms } = request;
    match operation {
        Operation::Update(document) => {
            match validate_document_name(document.name.as_str()) {
                Ok(()) => {},
                Err(e) => {
                    return Err(e);
                },
            }
            let name = document.name.clone();
            let existing = documents.get(name.as_str());
            match check_precondition(existing, current_document) {
                Ok(()) => {},
                Err(e) => {
                    return Err(e);
                },
            }
            let create_time = match existing {
                Some(doc) => match doc.create_time {
                    Some(time) => Some(time),
                    None => Some(*write_time),
                },
                None => Some(*write_time),
            };
            let mask = match &update_mask {
                Some(paths) => Some(paths),
                None => None,
            };
            let mut merged = match merge_document(existing, document, mask) {
                Ok(merged) => merged,
                Err(e) => {
                    return Err(e);
                },
            };
            let transform_results = match apply_update_transforms(
                &mut merged.fields,
                &update_transforms,
                write_time,
            ) {
                Ok(results) => results,
                Err(e) => {
                    return Err(e);
                },
            };
            merged.create_time = create_time;
            merged.update_time = Some(*write_time);
            documents.insert(name.as_str(), merged);
            Ok(WriteResult { update_time: Some(*write_time), transform_results })
        },
        Operation::Delete(name) => {
            match validate_document_name(name.as_str()) {
                Ok(()) => {},
                Err(e) => {
                    return Err(e);
                },
            }
            match check_precondition(documents.get(name.as_str()), current_document) {
                Ok(()) => {},
                Err(e) => {
                    return Err(e);
                },
            }
            let _removed = documents.remove(name.as_str());
            let result = WriteResult {
                update_time: Some(*write_time),
                transform_results: Vec::new(),
            };
            assert(values_view(result.transform_results@) =~= Seq::empty());
            Ok(result)
        },
        Operation::Transform(_) => Err(
            Status::new(Code::Unimplemented, "document transforms are not implemented"),
        ),
        Operation::Unset => Err(Status::invalid_argument("write operation is required")),
    }
}

/// The document that a write touches.
pub open spec fn write_name_spec(write: WriteView) -> Result<Seq<char>, StatusView> {
    match write.operation {
        OperationView::Update(document) => Ok(document.name),
        OperationView::Delete(name) => Ok(name),
        OperationView::Transform(name) => Ok(name),
        OperationView::Unset => Err(invalid("write operation is required"@)),
    }
}

/// The name of the document that a write touches.
pub fn write_name(write: &Write) -> (r: Result<&str, Status>)
    ensures
        match r {
            Ok(name) => write_name_spec(write@) == Ok::<_, StatusView>(name@),
            Err(e) => write_name_spec(write@) == Err::<Seq<char>, _>(e@),
        },
{
    match &write.operation {
        Operation::Update(document) => Ok(document.name.as_str()),
        Operation::Delete(name) => Ok(name.as_str()),
        Operation::Transform(name) => Ok(name.as_str()),
        Operation::Unset => Err(Status::invalid_argument("write operation is required")),
    }
}

/// The views of a list of writes.
pub open spec fn writes_view(writes: Seq<Write>) -> Seq<WriteView> {
    writes.map_values(|w: Write| w@)
}

/// Whether one write may be committed to `database`.
pub open spec fn write_in_database(database: Seq<char>, write: WriteView) -> Result<
    (),
    StatusView,
> {
    match write_name_spec(write) {
        Err(e) => Err(e),
        Ok(name) => match validate_document_name_spec(name) {
            Err(e) => Err(e),
            Ok(_) => match database_from_resource_spec(name) {
                Err(e) => Err(e),
                Ok(found) => if found == database {
                    Ok(())
                } else {
                    Err(
                        invalid(
                            "write document does not belong to requested database: "@ + name,
                        ),
                    )
                },
            },
        },
    }
}

/// The first thing wrong with committing the writes to `database`.
pub open spec fn validate_writes_database_spec(
    database: Seq<char>,
    writes: Seq<WriteView>,
) -> Result<(), StatusView>
    decreases writes.len(),
{
    if writes.len() == 0 {
        match database_document_prefix_spec(database) {
            Err(e) => Err(e),
            Ok(_) => Ok(()),
        }
    } else {
        match validate_writes_database_spec(database, writes.drop_last()) {
            Err(e) => Err(e),
            Ok(_) => write_in_database(database, writes.last()),
        }
    }
}

proof fn validate_writes_stuck(database: Seq<char>, writes: Seq<WriteView>, i: int)
    requires
        0 <= i <= writes.len(),
        validate_writes_database_spec(database, writes.take(i)) is Err,
    ensures
        validate_writes_database_spec(database, writes) == validate_writes_database_spec(
            database,
            writes.take(i),
        ),
    decreases writes.len() - i,
{
    if i < writes.len() {
        assert(writes.take(i + 1).drop_last() =~= writes.take(i));
        validate_writes_stuck(database, writes, i + 1);
    } else {
        assert(writes.take(i) =~= writes);
    }
}

/// Refuses writes that do not all belong to `database`.
pub fn validate_writes_database(database: &str, writes: &Vec<Write>) -> (r: Result<(), Status>)
    ensures
        unit_result(r) == validate_writes_database_spec(database@, writes_view(writes@)),
{
    let ghost all = writes_view(writes@);
    assert(all.take(0) =~= Seq::empty());
    match database_document_prefix(database) {
        Ok(_) => {},
        Err(e) => {
            proof {
                validate_writes_stuck(database@, all, 0);
            }
            return Err(e);
        },
    }
    let mut i: usize = 0;
    while i < writes.len()
        invariant
            i <= writes.len(),
            all == writes_view(writes@),
            validate_writes_database_spec(database@, all.take(i as int)) == Ok::<(), StatusView>(
                (),
            ),
        decreases writes.len() - i,
    {
        proof {
            assert(all.take(i + 1).drop_last() =~= all.take(i as int));
            assert(all.take(i + 1).last() == writes@[i as int]@);
            if write_in_database(database@, writes@[i as int]@) is Err {
                validate_writes_stuck(database@, all, i + 1);
            }
        }
        let name = match write_name(&writes[i]) {
            Ok(name) => name,
            Err(e) => {
                return Err(e);
            },
        };
        match validate_document_name(name) {
            Ok(()) => {},
            Err(e) => {
                return Err(e);
            },
        }
        let found = match database_from_resource(name) {
            Ok(found) => found,
            Err(e) => {
                return Err(e);
            },
        };
        if !same(found.as_str(), database) {
            return Err(
                Status::invalid_argument(
                    cat("write document does not belong to requested database: ", name).as_str(),
                ),
            );
        }
        i += 1;
    }
    assert(all.take(i as int) =~= all);
    Ok(())
}

/// The documents after all writes, one after the other, and what they answer;
/// or why the first one that fails was refused.
pub open spec fn apply_writes_spec(
    documents: DocumentsView,
    writes: Seq<WriteView>,
    write_time: Timestamp,
) -> Result<(DocumentsView, Seq<WriteResultView>), StatusView>
    decreases writes.len(),
{
    if writes.len() == 0 {
        Ok((documents, Seq::empty()))
    } else {
        match apply_writes_spec(documents, writes.drop_last(), write_time) {
            Err(e) => Err(e),
            Ok(before) => match apply_write_spec(before.0, writes.last(), write_time) {
                Err(e) => Err(e),
                Ok(after) => Ok((after.0, before.1.push(after.1))),
            },
        }
    }
}

proof fn apply_writes_stuck(
    documents: DocumentsView,
    writes: Seq<WriteView>,
    write_time: Timestamp,
    i: int,
)
    requires
        0 <= i <= writes.len(),
        apply_writes_spec(documents, writes.take(i), write_time) is Err,
    ensures
        apply_writes_spec(documents, writes, write_time) == apply_writes_spec(
            documents,
            writes.take(i),
            write_time,
        ),
    decreases writes.len() - i,
{
    if i < writes.len() {
        assert(writes.take(i + 1).drop_last() =~= writes.take(i));
        apply_writes_stuck(documents, writes, write_time, i + 1);
    } else {
        assert(writes.take(i) =~= writes);
    }
}

/// The views of a list of write results.
pub open spec fn results_view(results: Seq<WriteResult>) -> Seq<WriteResultView> {
    results.map_values(|r: WriteResult| r@)
}

/// Applies all writes to a copy of the documents, or none.
pub fn apply_writes(
    documents: &OrderedMap<Document>,
    writes: Vec<Write>,
    write_time: &Timestamp,
) -> (r: Result<(OrderedMap<Document>, Vec<WriteResult>), Status>)
    ensures
        match r {
            Ok(pair) => apply_writes_spec(documents@, writes_view(writes@), *write_time) == Ok::<
                _,
                StatusView,
            >((pair.0@, results_view(pair.1@))),
            Err(e) => apply_writes_spec(documents@, writes_view(writes@), *write_time) == Err::<
                (DocumentsView, Seq<WriteResultView>),
                _,
            >(e@),
        },
{
    let ghost all = writes_view(writes@);
    let mut pending = documents.duplicate();
    let mut results: Vec<WriteResult> = Vec::new();
    assert(results_view(results@) =~= Seq::empty());
    assert(all.take(0) =~= Seq::empty());
    for write in it: writes
        invariant
            all == writes_view(it.seq()),
            it.seq() == writes@,
            apply_writes_spec(documents@, all.take(it.index() as int), *write_time) == Ok::<
                _,
                StatusView,
            >((pending@, results_view(results@))),
    {
        let ghost i = it.index() as int;
        proof {
            assert(all.take(i + 1).drop_last() =~= all.take(i));
            assert(all.take(i + 1).last() == write@);
        }
        match apply_write(&mut pending, write, write_time) {
            Ok(result) => {
                let ghost before = results_view(results@);
                results.push(result);
                assert(results_view(results@) =~= before.push(result@));
            },
            Err(e) => {
                proof {
                    apply_writes_stuck(documents@, all, *write_time, i + 1);
                }
                return Err(e);
            },
        }
    }
    assert(all.take(all.len() as int) =~= all);
    Ok((pending, results))
}

/// The status of one write of a batch.
#[derive(PartialEq, Eq, Debug)]
pub struct RpcStatus {
    pub code: i32,
    pub message: String,
}

/// What an [`RpcStatus`] stands for.
#[verifier::ext_equal]
pub struct RpcStatusView {
    pub code: i32,
    pub message: Seq<char>,
}

impl View for RpcStatus {
    type V = RpcStatusView;

    open spec fn view(&self) -> RpcStatusView {
        RpcStatusView { code: self.code, message: self.message@ }
    }
}

pub open spec fn status_proto_spec(status: StatusView) -> RpcStatusView {
    RpcStatusView { code: status.code.number_spec(), message: status.message }
}

/// Why a write of a batch was refused, as the batch answers it.
pub fn status_proto(status: &Status) -> (r: RpcStatus)
    ensures
        r@ == status_proto_spec(status@),
{
    RpcStatus { code: status.code.number(), message: status.message.clone() }
}

/// What a batch of writes leaves and answers.
#[verifier::ext_equal]
pub struct BatchView {
    pub documents: DocumentsView,
    pub results: Seq<WriteResultView>,
    pub statuses: Seq<RpcStatusView>,
}

pub open spec fn empty_result() -> WriteResultView {
    WriteResultView { update_time: None, transform_results: Seq::empty() }
}

pub open spec fn ok_status() -> RpcStatusView {
    RpcStatusView { code: 0, message: Seq::empty() }
}

/// Each write on its own: a refused one changes nothing and leaves the others
/// alone.
pub open spec fn batch_spec(
    documents: DocumentsView,
    writes: Seq<WriteView>,
    write_time: Timestamp,
) -> BatchView
    decreases writes.len(),
{
    if writes.len() == 0 {
        BatchView { documents, results: Seq::empty(), statuses: Seq::empty() }
    } else {
        let before = batch_spec(documents, writes.drop_last(), write_time);
        match apply_write_spec(before.documents, writes.last(), write_time) {
            Ok(after) => BatchView {
                documents: after.0,
                results: before.results.push(after.1),
                statuses: before.statuses.push(ok_status()),
            },
            Err(e) => BatchView {
                documents: before.documents,
                results: before.results.push(empty_result()),
                statuses: before.statuses.push(status_proto_spec(e)),
            },
        }
    }
}

/// The views of a list of statuses.
pub open spec fn statuses_view(statuses: Seq<RpcStatus>) -> Seq<RpcStatusView> {
    statuses.map_values(|r: RpcStatus| r@)
}

/// Applies each write that can be applied.
pub fn apply_batch(
    documents: &mut OrderedMap<Document>,
    writes: Vec<Write>,
    write_time: &Timestamp,
) -> (r: (Vec<WriteResult>, Vec<RpcStatus>))
    ensures
        batch_spec(old(documents)@, writes_view(writes@), *write_time) == (BatchView {
            documents: final(documents)@,
            results: results_view(r.0@),
            statuses: statuses_view(r.1@),
        }),
{
    let ghost all = writes_view(writes@);
    let ghost start = documents@;
    let mut results: Vec<WriteResult> = Vec::new();
    let mut statuses: Vec<RpcStatus> = Vec::new();
    assert(results_view(results@) =~= Seq::empty());
    assert(statuses_view(statuses@) =~= Seq::empty());
    assert(all.take(0) =~= Seq::empty());
    for write in it: writes
        invariant
            all == writes_view(it.seq()),
            it.seq() == writes@,
            batch_spec(start, all.take(it.index() as int), *write_time) == (BatchView {
                documents: documents@,
                results: results_view(results@),
                statuses: statuses_view(statuses@),
            }),
    {
        let ghost i = it.index() as int;
        let ghost results_before = results_view(results@);
        let ghost statuses_before = statuses_view(statuses@);
        proof {
            assert(all.take(i + 1).drop_last() =~= all.take(i));
            assert(all.take(i + 1).last() == write@);
        }
        match apply_write(documents, write, write_time) {
            Ok(result) => {
                results.push(result);
                let status = RpcStatus { code: 0, message: String::new() };
                assert(status@ =~= ok_status());
                statuses.push(status);
                assert(results_view(results@) =~= results_before.push(result@));
                assert(statuses_view(statuses@) =~= statuses_before.push(status@));
            },
            Err(e) => {
                let result = WriteResult { update_time: None, transform_results: Vec::new() };
                assert(values_view(result.transform_results@) =~= Seq::empty());
                assert(result@ =~= empty_result());
                let status = status_proto(&e);
                results.push(result);
                statuses.push(status);
                assert(results_view(results@) =~= results_before.push(result@));
                assert(statuses_view(statuses@) =~= statuses_before.push(status@));
            },
        }
    }
    assert(all.take(all.len() as int) =~= all);
    (results, statuses)
}

/// Whether every document is stored under its own name, in order.
pub open spec fn stored_by_name(documents: DocumentsView) -> bool {
    keys_sorted(documents) && forall|i: int|
        0 <= i < documents.len() ==> (#[trigger] documents[i]).1.name == documents[i].0
}

proof fn put_stored_by_name(documents: DocumentsView, document: DocumentView)
    requires
        stored_by_name(documents),
    ensures
        stored_by_name(put(documents, document.name, document)),
{
    put_sorted(documents, document.name, document);
    lower_bound_properties(documents, document.name);
    let b = lower_bound(documents, document.name);
    let after = put(documents, document.name, document);
    assert forall|i: int| 0 <= i < after.len() implies (#[trigger] after[i]).1.name
        == after[i].0 by {
        if i != b {
            let k = if after.len() == documents.len() || i < b { i } else { i - 1 };
            assert(after[i] == documents[k]);
        }
    }
}

proof fn without_stored_by_name(documents: DocumentsView, name: Seq<char>)
    requires
        stored_by_name(documents),
    ensures
        stored_by_name(without(documents, name)),
{
    without_sorted(documents, name);
    lower_bound_properties(documents, name);
    let b = lower_bound(documents, name);
    let after = without(documents, name);
    assert forall|i: int| 0 <= i < after.len() implies (#[trigger] after[i]).1.name
        == after[i].0 by {
        let k = if after.len() == documents.len() || i < b { i } else { i + 1 };
        assert(after[i] == documents[k]);
    }
}

/// A write keeps every document under its own name, in order.
pub proof fn write_keeps_names(documents: DocumentsView, write: WriteView, write_time: Timestamp)
    requires
        stored_by_name(documents),
        apply_write_spec(documents, write, write_time) is Ok,
    ensures
        stored_by_name(apply_write_spec(documents, write, write_time)->Ok_0.0),
{
    match write.operation {
        OperationView::Update(document) => {
            let existing = lookup(documents, document.name);
            let pair = updated_document(existing, document, write, write_time)->Ok_0;
            put_stored_by_name(documents, pair.0);
        },
        OperationView::Delete(name) => without_stored_by_name(documents, name),
        _ => {},
    }
}

/// A write touches no document but the one that it names.
pub proof fn write_touches_one_document(
    documents: DocumentsView,
    write: WriteView,
    write_time: Timestamp,
    other: Seq<char>,
)
    requires
        keys_sorted(documents),
        apply_write_spec(documents, write, write_time) is Ok,
        write_name_spec(write) != Ok::<Seq<char>, StatusView>(other),
    ensures
        lookup(apply_write_spec(documents, write, write_time)->Ok_0.0, other) == lookup(
            documents,
            other,
        ),
{
    match write.operation {
        OperationView::Update(document) => {
            let existing = lookup(documents, document.name);
            let pair = updated_document(existing, document, write, write_time)->Ok_0;
            lookup_after_put(documents, document.name, pair.0, other);
        },
        OperationView::Delete(name) => lookup_after_without(documents, name, other),
        _ => {},
    }
}

/// A document that an update wrote is read back as written, with the creation
/// time that it had before; a deleted one is gone.
pub proof fn write_reads_back(documents: DocumentsView, write: WriteView, write_time: Timestamp)
    requires
        keys_sorted(documents),
        apply_write_spec(documents, write, write_time) is Ok,
    ensures
        match write.operation {
            OperationView::Update(document) => lookup(
                apply_write_spec(documents, write, write_time)->Ok_0.0,
                document.name,
            ) == Some(
                updated_document(
                    lookup(documents, document.name),
                    document,
                    write,
                    write_time,
                )->Ok_0.0,
            ),
            OperationView::Delete(name) => lookup(
                apply_write_spec(documents, write, write_time)->Ok_0.0,
                name,
            ) is None,
            _ => false,
        },
{
    match write.operation {
        OperationView::Update(document) => {
            let existing = lookup(documents, document.name);
            let pair = updated_document(existing, document, write, write_time)->Ok_0;
            lookup_after_put(documents, document.name, pair.0, document.name);
        },
        OperationView::Delete(name) => lookup_after_without(documents, name, name),
        _ => {},
    }
}

/// A commit keeps every document under its own name, in order, and answers
/// every write.
pub proof fn commit_keeps_names(
    documents: DocumentsView,
    writes: Seq<WriteView>,
    write_time: Timestamp,
)
    requires
        stored_by_name(documents),
        apply_writes_spec(documents, writes, write_time) is Ok,
    ensures
        stored_by_name(apply_writes_spec(documents, writes, write_time)->Ok_0.0),
        apply_writes_spec(documents, writes, write_time)->Ok_0.1.len() == writes.len(),
    decreases writes.len(),
{
    if writes.len() > 0 {
        commit_keeps_names(documents, writes.drop_last(), write_time);
        let before = apply_writes_spec(documents, writes.drop_last(), write_time)->Ok_0;
        write_keeps_names(before.0, writes.last(), write_time);
    }
}

/// A commit touches no document that none of its writes names.
pub proof fn commit_touches_named_documents(
    documents: DocumentsView,
    writes: Seq<WriteView>,
    write_time: Timestamp,
    other: Seq<char>,
)
    requires
        stored_by_name(documents),
        apply_writes_spec(documents, writes, write_time) is Ok,
        forall|i: int|
            0 <= i < writes.len() ==> write_name_spec(#[trigger] writes[i]) != Ok::<
                Seq<char>,
                StatusView,
            >(other),
    ensures
        lookup(apply_writes_spec(documents, writes, write_time)->Ok_0.0, other) == lookup(
            documents,
            other,
        ),
    decreases writes.len(),
{
    if writes.len() > 0 {
        let init = writes.drop_last();
        assert forall|i: int| 0 <= i < init.len() implies write_name_spec(#[trigger] init[i])
            != Ok::<Seq<char>, StatusView>(other) by {
            assert(init[i] == writes[i]);
        }
        commit_touches_named_documents(documents, init, write_time, other);
        commit_keeps_names(documents, init, write_time);
        let before = apply_writes_spec(documents, init, write_time)->Ok_0;
        assert(writes.last() == writes[writes.len() - 1]);
        write_touches_one_document(before.0, writes.last(), write_time, other);
    }
}

/// A batch keeps every document under its own name, in order, and answers
/// every write with a result and a status.
pub proof fn batch_keeps_names(
    documents: DocumentsView,
    writes: Seq<WriteView>,
    write_time: Timestamp,
)
    requires
        stored_by_name(documents),
    ensures
        stored_by_name(batch_spec(documents, writes, write_time).documents),
        batch_spec(documents, writes, write_time).results.len() == writes.len(),
        batch_spec(documents, writes, write_time).statuses.len() == writes.len(),
    decreases writes.len(),
{
    if writes.len() > 0 {
        batch_keeps_names(documents, writes.drop_last(), write_time);
        let before = batch_spec(documents, writes.drop_last(), write_time);
        if apply_write_spec(before.documents, writes.last(), write_time) is Ok {
            write_keeps_names(before.documents, writes.last(), write_time);
        }
    }
}

/// Writes that a commit accepts leave and answer the same in a batch.
pub proof fn batch_agrees_with_commit(
    documents: DocumentsView,
    writes: Seq<WriteView>,
    write_time: Timestamp,
)
    requires
        apply_writes_spec(documents, writes, write_time) is Ok,
    ensures
        batch_spec(documents, writes, write_time).documents == apply_writes_spec(
            documents,
            writes,
            write_time,
        )->Ok_0.0,
        batch_spec(documents, writes, write_time).results == apply_writes_spec(
            documents,
            writes,
            write_time,
        )->Ok_0.1,
    decreases writes.len(),
{
    if writes.len() > 0 {
        batch_agrees_with_commit(documents, writes.drop_last(), write_time);
    }
}

} // verus!
