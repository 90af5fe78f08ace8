//! Firestore documents: nested fields, update masks and field transforms.
use crate::field_path::{field_path, field_path_spec};
use crate::ordered::{
    find_slot, keys_sorted, lookup, lookup_after_put, lookup_after_without, lower_bound,
    lower_bound_properties, lower_bound_unique, put,
    put_sorted, without, without_sorted, Duplicate,
};
use crate::status::{invalid, Status, StatusView};
use crate::text::{same, texts};
use crate::value::{
    copy_fields, fields_value_view, fields_view, get_field, opt_value, opt_value_ref, put_field,
    remove_field, FieldsView, Timestamp, FieldValue, ValueView,
};
use vstd::prelude::*;

verus! {

/// A document: its full resource name, its fields in the order of their names
/// and the times of its creation and of its last change.
#[derive(PartialEq, Debug)]
pub struct Document {
    pub name: String,
    pub fields: Vec<(String, FieldValue)>,
    pub create_time: Option<Timestamp>,
    pub update_time: Option<Timestamp>,
}

/// What a [`Document`] stands for.
#[verifier::ext_equal]
pub struct DocumentView {
    pub name: Seq<char>,
    pub fields: FieldsView,
    pub create_time: Option<Timestamp>,
    pub update_time: Option<Timestamp>,
}

impl View for Document {
    type V = DocumentView;

    open spec fn view(&self) -> DocumentView {
        DocumentView {
            name: self.name@,
            fields: fields_view(self.fields@),
            create_time: self.create_time,
            update_time: self.update_time,
        }
    }
}

impl Duplicate for Document {
    fn duplicate(&self) -> (r: Self) {
        Document {
            name: self.name.clone(),
            fields: copy_fields(&self.fields),
            create_time: self.create_time,
            update_time: self.update_time,
        }
    }
}

/// The value at the end of a path of names.
pub open spec fn nested_get_spec(fields: FieldsView, parts: Seq<Seq<char>>) -> Option<ValueView>
    decreases parts.len(),
{
    if parts.len() == 0 {
        None
    } else {
        match lookup(fields, parts[0]) {
            None => None,
            Some(value) => if parts.len() == 1 {
                Some(value)
            } else {
                match value {
                    ValueView::Fields(inner) => nested_get_spec(inner, parts.drop_first()),
                    _ => None,
                }
            },
        }
    }
}

/// The fields after storing a value at the end of a path of names, or after
/// removing what stands there. Storing replaces what is in the way by named
/// values; removing leaves it alone.
pub open spec fn nested_set_spec(
    fields: FieldsView,
    parts: Seq<Seq<char>>,
    value: Option<ValueView>,
) -> FieldsView
    decreases parts.len(),
{
    if parts.len() == 0 {
        fields
    } else if parts.len() == 1 {
        match value {
            Some(v) => put(fields, parts[0], v),
            None => without(fields, parts[0]),
        }
    } else {
        match lookup(fields, parts[0]) {
            Some(ValueView::Fields(inner)) => put(
                fields,
                parts[0],
                ValueView::Fields(nested_set_spec(inner, parts.drop_first(), value)),
            ),
            _ => if value is None {
                fields
            } else {
                put(
                    fields,
                    parts[0],
                    ValueView::Fields(nested_set_spec(Seq::empty(), parts.drop_first(), value)),
                )
            },
        }
    }
}

fn nested_get_from<'a>(fields: &'a Vec<(String, FieldValue)>, parts: &Vec<String>, i: usize) -> (r:
    Option<&'a FieldValue>)
    requires
        i < parts@.len(),
    ensures
        opt_value_ref(r) == nested_get_spec(fields_view(fields@), texts(parts@).skip(i as int)),
    decreases parts@.len() - i,
{
    let ghost rest = texts(parts@).skip(i as int);
    assert(rest[0] == parts@[i as int]@);
    match get_field(fields, parts[i].as_str()) {
        None => None,
        Some(value) => {
            if parts.len() - i == 1 {
                return Some(value);
            }
            match value {
                FieldValue::Fields(inner) => {
                    proof {
                        fields_value_view(*inner);
                        assert(rest.drop_first() =~= texts(parts@).skip(i + 1));
                    }
                    nested_get_from(inner, parts, i + 1)
                },
                _ => None,
            }
        },
    }
}

/// Finds the value at the end of a path of names.
pub fn nested_get<'a>(fields: &'a Vec<(String, FieldValue)>, parts: &Vec<String>) -> (r: Option<
    &'a FieldValue,
>)
    requires
        parts@.len() > 0,
    ensures
        opt_value_ref(r) == nested_get_spec(fields_view(fields@), texts(parts@)),
{
    assert(texts(parts@).skip(0) =~= texts(parts@));
    nested_get_from(fields, parts, 0)
}

fn nested_set_from(
    fields: &mut Vec<(String, FieldValue)>,
    parts: &Vec<String>,
    i: usize,
    value: Option<FieldValue>,
)
    requires
        i < parts@.len(),
    ensures
        fields_view(final(fields)@) == nested_set_spec(
            fields_view(old(fields)@),
            texts(parts@).skip(i as int),
            opt_value(value),
        ),
    decreases parts@.len() - i,
{
    let ghost rest = texts(parts@).skip(i as int);
    assert(rest[0] == parts@[i as int]@);
    if parts.len() - i == 1 {
        match value {
            Some(v) => put_field(fields, parts[i].as_str(), v),
            None => remove_field(fields, parts[i].as_str()),
        }
        return ;
    }
    let ghost before = fields_view(fields@);
    assert(rest.drop_first() =~= texts(parts@).skip(i + 1));
    let key = parts[i].as_str();
    let (at, found) = find_slot(fields, key);
    proof {
        lower_bound_unique(before, key@, at as int);
    }
    let mut inner: Vec<(String, FieldValue)> = Vec::new();
    assert(fields_view(inner@) =~= Seq::empty());
    if found {
        let is_map = match &fields[at].1 {
            FieldValue::Fields(_) => true,
            _ => false,
        };
        if is_map {
            let (_, old_value) = fields.remove(at);
            assert(fields_view(fields@) =~= before.remove(at as int));
            proof {
                fields_value_view(old_value->Fields_0);
            }
            match old_value {
                FieldValue::Fields(m) => {
                    inner = m;
                },
                _ => {},
            }
            nested_set_from(&mut inner, parts, i + 1, value);
            let ghost new_inner = fields_view(inner@);
            let new_value = FieldValue::Fields(inner);
            proof {
                fields_value_view(inner);
            }
            fields.insert(at, (key.to_owned(), new_value));
            assert(fields_view(fields@) =~= before.update(
                at as int,
                (key@, ValueView::Fields(new_inner)),
            ));
            return ;
        }
    }
    if value.is_none() {
        return ;
    }
    nested_set_from(&mut inner, parts, i + 1, value);
    let new_value = FieldValue::Fields(inner);
    proof {
        fields_value_view(inner);
    }
    put_field(fields, key, new_value);
}

/// Stores a value at the end of a path of names, or removes what stands there.
pub fn nested_set(fields: &mut Vec<(String, FieldValue)>, parts: &Vec<String>, value: Option<FieldValue>)
    requires
        parts@.len() > 0,
    ensures
        fields_view(final(fields)@) == nested_set_spec(
            fields_view(old(fields)@),
            texts(parts@),
            opt_value(value),
        ),
{
    assert(texts(parts@).skip(0) =~= texts(parts@));
    nested_set_from(fields, parts, 0, value);
}

/// Whether the names of all named values, however deep, stand in order.
pub open spec fn well_ordered(value: ValueView) -> bool
    decreases value,
{
    match value {
        ValueView::Array(items) => forall|i: int|
            0 <= i < items.len() ==> well_ordered(#[trigger] items[i]),
        ValueView::Fields(fields) => keys_sorted(fields) && forall|i: int|
            0 <= i < fields.len() ==> well_ordered((#[trigger] fields[i]).1),
        _ => true,
    }
}

pub open spec fn fields_well_ordered(fields: FieldsView) -> bool {
    well_ordered(ValueView::Fields(fields))
}

proof fn put_well_ordered(fields: FieldsView, key: Seq<char>, value: ValueView)
    requires
        fields_well_ordered(fields),
        well_ordered(value),
    ensures
        fields_well_ordered(put(fields, key, value)),
{
    put_sorted(fields, key, value);
    lower_bound_properties(fields, key);
    let after = put(fields, key, value);
    let b = lower_bound(fields, key);
    assert forall|i: int| 0 <= i < after.len() implies well_ordered((#[trigger] after[i]).1) by {
        if i != b {
            let k = if after.len() == fields.len() || i < b { i } else { i - 1 };
            assert(after[i] == fields[k]);
        }
    }
}

proof fn lookup_well_ordered(fields: FieldsView, key: Seq<char>)
    requires
        fields_well_ordered(fields),
        lookup(fields, key) is Some,
    ensures
        well_ordered(lookup(fields, key)->0),
{
    lower_bound_properties(fields, key);
    assert(fields[lower_bound(fields, key)].1 == lookup(fields, key)->0);
}

/// Storing or removing a nested value keeps all names in order.
pub proof fn nested_set_well_ordered(
    fields: FieldsView,
    parts: Seq<Seq<char>>,
    value: Option<ValueView>,
)
    requires
        fields_well_ordered(fields),
        value matches Some(v) ==> well_ordered(v),
    ensures
        fields_well_ordered(nested_set_spec(fields, parts, value)),
    decreases parts.len(),
{
    if parts.len() == 1 {
        match value {
            Some(v) => put_well_ordered(fields, parts[0], v),
            None => {
                without_sorted(fields, parts[0]);
                lower_bound_properties(fields, parts[0]);
                let b = lower_bound(fields, parts[0]);
                let after = without(fields, parts[0]);
                assert forall|i: int| 0 <= i < after.len() implies well_ordered(
                    (#[trigger] after[i]).1,
                ) by {
                    let k = if after.len() == fields.len() || i < b { i } else { i + 1 };
                    assert(after[i] == fields[k]);
                }
            },
        }
    } else if parts.len() > 1 {
        let rest = parts.drop_first();
        match lookup(fields, parts[0]) {
            Some(ValueView::Fields(inner)) => {
                lookup_well_ordered(fields, parts[0]);
                nested_set_well_ordered(inner, rest, value);
                put_well_ordered(
                    fields,
                    parts[0],
                    ValueView::Fields(nested_set_spec(inner, rest, value)),
                );
            },
            _ => {
                if value is Some {
                    assert(fields_well_ordered(Seq::empty()));
                    nested_set_well_ordered(Seq::empty(), rest, value);
                    put_well_ordered(
                        fields,
                        parts[0],
                        ValueView::Fields(nested_set_spec(Seq::empty(), rest, value)),
                    );
                }
            },
        }
    }
}

/// A value that was stored at a path is found there, and after removing the
/// value at a path none is found there.
pub proof fn nested_get_after_set(
    fields: FieldsView,
    parts: Seq<Seq<char>>,
    value: Option<ValueView>,
)
    requires
        fields_well_ordered(fields),
        parts.len() > 0,
    ensures
        nested_get_spec(nested_set_spec(fields, parts, value), parts) == value,
    decreases parts.len(),
{
    let key = parts[0];
    if parts.len() == 1 {
        match value {
            Some(v) => lookup_after_put(fields, key, v, key),
            None => lookup_after_without(fields, key, key),
        }
    } else {
        let rest = parts.drop_first();
        match lookup(fields, key) {
            Some(ValueView::Fields(inner)) => {
                lookup_well_ordered(fields, key);
                nested_get_after_set(inner, rest, value);
                lookup_after_put(
                    fields,
                    key,
                    ValueView::Fields(nested_set_spec(inner, rest, value)),
                    key,
                );
            },
            _ => {
                if value is Some {
                    assert(fields_well_ordered(Seq::empty()));
                    nested_get_after_set(Seq::empty(), rest, value);
                    lookup_after_put(
                        fields,
                        key,
                        ValueView::Fields(nested_set_spec(Seq::empty(), rest, value)),
                        key,
                    );
                }
            },
        }
    }
}

/// Two paths overlap when one begins with the other.
pub open spec fn overlap(a: Seq<Seq<char>>, b: Seq<Seq<char>>) -> bool {
    a.is_prefix_of(b) || b.is_prefix_of(a)
}

/// Storing or removing the value at a path leaves every value alone whose path
/// does not overlap it.
pub proof fn nested_set_frame(
    fields: FieldsView,
    parts: Seq<Seq<char>>,
    value: Option<ValueView>,
    other: Seq<Seq<char>>,
)
    requires
        fields_well_ordered(fields),
        parts.len() > 0,
        other.len() > 0,
        !overlap(parts, other),
    ensures
        nested_get_spec(nested_set_spec(fields, parts, value), other) == nested_get_spec(
            fields,
            other,
        ),
    decreases parts.len(),
{
    let key = parts[0];
    if parts.len() == 1 {
        if other[0] == key {
            assert(parts =~= other.take(1));
            assert(parts.is_prefix_of(other));
        }
        match value {
            Some(v) => lookup_after_put(fields, key, v, other[0]),
            None => lookup_after_without(fields, key, other[0]),
        }
    } else {
        let rest = parts.drop_first();
        let inner = match lookup(fields, key) {
            Some(ValueView::Fields(m)) => m,
            _ => Seq::empty(),
        };
        let stored = ValueView::Fields(nested_set_spec(inner, rest, value));
        lookup_after_put(fields, key, stored, other[0]);
        if other[0] == key {
            if other.len() == 1 {
                assert(other =~= parts.take(1));
                assert(other.is_prefix_of(parts));
            }
            let tail = other.drop_first();
            if rest.is_prefix_of(tail) {
                assert(parts =~= other.take(parts.len() as int)) by {
                    assert forall|i: int| 0 <= i < parts.len() implies parts[i] == other[i] by {
                        if i > 0 {
                            assert(rest[i - 1] == tail.take(rest.len() as int)[i - 1]);
                        }
                    }
                }
            }
            if tail.is_prefix_of(rest) {
                assert(other =~= parts.take(other.len() as int)) by {
                    assert forall|i: int| 0 <= i < other.len() implies other[i] == parts[i] by {
                        if i > 0 {
                            assert(tail[i - 1] == rest.take(tail.len() as int)[i - 1]);
                        }
                    }
                }
            }
            match lookup(fields, key) {
                Some(ValueView::Fields(m)) => {
                    lookup_well_ordered(fields, key);
                    nested_set_frame(m, rest, value, tail);
                },
                _ => {
                    if value is Some {
                        assert(fields_well_ordered(Seq::empty()));
                        nested_set_frame(Seq::empty(), rest, value, tail);
                        lower_bound_properties(Seq::<(Seq<char>, ValueView)>::empty(), tail[0]);
                    }
                },
            }
        }
    }
}

/// The value of a field of a document; `__name__` is the document's own name.
pub open spec fn field_value_spec(doc: DocumentView, path: Seq<char>) -> Option<ValueView> {
    if path == "__name__"@ {
        Some(ValueView::Reference(doc.name))
    } else {
        match field_path_spec(path) {
            Ok(parts) => nested_get_spec(doc.fields, parts),
            Err(_) => None,
        }
    }
}

/// Finds the value of a field of a document.
pub fn field_value(doc: &Document, path: &str) -> (r: Option<FieldValue>)
    ensures
        opt_value(r) == field_value_spec(doc@, path@),
{
    if same(path, "__name__") {
        return Some(FieldValue::Reference(doc.name.clone()));
    }
    match field_path(path) {
        Ok(parts) => match nested_get(&doc.fields, &parts) {
            Some(value) => Some(value.duplicate()),
            None => None,
        },
        Err(_) => None,
    }
}

/// The names of each path, or the error of the first one that has none.
pub open spec fn field_paths_spec(paths: Seq<Seq<char>>) -> Result<
    Seq<Seq<Seq<char>>>,
    StatusView,
>
    decreases paths.len(),
{
    if paths.len() == 0 {
        Ok(Seq::empty())
    } else {
        match field_paths_spec(paths.drop_last()) {
            Err(e) => Err(e),
            Ok(before) => match field_path_spec(paths.last()) {
                Err(e) => Err(e),
                Ok(parts) => Ok(before.push(parts)),
            },
        }
    }
}

/// What a list of paths stands for.
pub open spec fn paths_view(paths: Seq<Vec<String>>) -> Seq<Seq<Seq<char>>> {
    paths.map_values(|p: Vec<String>| texts(p@))
}

proof fn field_paths_stuck(paths: Seq<Seq<char>>, i: int)
    requires
        0 <= i <= paths.len(),
        field_paths_spec(paths.take(i)) is Err,
    ensures
        field_paths_spec(paths) == field_paths_spec(paths.take(i)),
    decreases paths.len() - i,
{
    if i < paths.len() {
        assert(paths.take(i + 1).drop_last() =~= paths.take(i));
        field_paths_stuck(paths, i + 1);
    } else {
        assert(paths.take(i) =~= paths);
    }
}

/// Splits each path into its names.
pub fn field_paths(paths: &Vec<String>) -> (r: Result<Vec<Vec<String>>, Status>)
    ensures
        match r {
            Ok(all) => field_paths_spec(texts(paths@)) == Ok::<_, StatusView>(paths_view(all@)),
            Err(e) => field_paths_spec(texts(paths@)) == Err::<Seq<Seq<Seq<char>>>, _>(e@),
        },
        r matches Ok(all) ==> forall|i: int| 0 <= i < all@.len() ==> (#[trigger] all@[i])@.len() > 0,
{
    let mut all: Vec<Vec<String>> = Vec::new();
    let mut i: usize = 0;
    let ghost views = texts(paths@);
    assert(paths_view(all@) =~= Seq::empty());
    while i < paths.len()
        invariant
            i <= paths.len(),
            views == texts(paths@),
            field_paths_spec(views.take(i as int)) == Ok::<_, StatusView>(paths_view(all@)),
            forall|j: int| 0 <= j < all@.len() ==> (#[trigger] all@[j])@.len() > 0,
        decreases paths.len() - i,
    {
        assert(views.take(i + 1).drop_last() =~= views.take(i as int));
        assert(views.take(i + 1).last() == paths@[i as int]@);
        match field_path(paths[i].as_str()) {
            Ok(parts) => {
                let ghost before = paths_view(all@);
                all.push(parts);
                assert(paths_view(all@) =~= before.push(texts(parts@)));
            },
            Err(e) => {
                proof {
                    field_paths_stuck(views, i + 1);
                }
                return Err(e);
            },
        }
        i += 1;
    }
    assert(views.take(i as int) =~= views);
    Ok(all)
}

/// Whether two of the paths overlap.
pub open spec fn any_overlap(paths: Seq<Seq<Seq<char>>>) -> bool {
    exists|i: int, j: int| 0 <= i < j < paths.len() && overlap(#[trigger] paths[i], #[trigger] paths[j])
}

/// Whether the list of names `a` begins with `b`.
fn begins_with(a: &Vec<String>, b: &Vec<String>) -> (r: bool)
    ensures
        r == texts(b@).is_prefix_of(texts(a@)),
{
    let ghost x = texts(a@);
    let ghost y = texts(b@);
    if b.len() > a.len() {
        return false;
    }
    let mut i: usize = 0;
    while i < b.len()
        invariant
            i <= b.len() <= a.len(),
            x == texts(a@),
            y == texts(b@),
            forall|j: int| 0 <= j < i ==> y[j] == x[j],
        decreases b.len() - i,
    {
        if !same(a[i].as_str(), b[i].as_str()) {
            assert(x.take(y.len() as int)[i as int] != y[i as int]);
            return false;
        }
        assert(y[i as int] == x[i as int]);
        i += 1;
    }
    assert(x.take(y.len() as int) =~= y);
    true
}

fn find_overlap(paths: &Vec<Vec<String>>) -> (r: bool)
    ensures
        r == any_overlap(paths_view(paths@)),
{
    let ghost views = paths_view(paths@);
    let mut i: usize = 0;
    while i < paths.len()
        invariant
            i <= paths.len(),
            views == paths_view(paths@),
            forall|p: int, q: int|
                0 <= p < i && p < q < views.len() ==> !overlap(#[trigger] views[p], #[trigger] views[q]),
        decreases paths.len() - i,
    {
        let mut j: usize = i + 1;
        while j < paths.len()
            invariant
                i < j <= paths.len(),
                views == paths_view(paths@),
                forall|q: int| i < q < j ==> !overlap(views[i as int], #[trigger] views[q]),
            decreases paths.len() - j,
        {
            if begins_with(&paths[i], &paths[j]) || begins_with(&paths[j], &paths[i]) {
                assert(overlap(views[i as int], views[j as int]));
                return true;
            }
            j += 1;
        }
        i += 1;
    }
    false
}

/// The fields after copying the values at `paths` from `incoming`, removing
/// those that `incoming` does not have.
pub open spec fn copy_paths(
    fields: FieldsView,
    incoming: FieldsView,
    paths: Seq<Seq<Seq<char>>>,
) -> FieldsView
    decreases paths.len(),
{
    if paths.len() == 0 {
        fields
    } else {
        nested_set_spec(
            copy_paths(fields, incoming, paths.drop_last()),
            paths.last(),
            nested_get_spec(incoming, paths.last()),
        )
    }
}

/// The document that an update leaves: the whole of `incoming` without a mask;
/// with one, the existing fields with the masked paths taken from `incoming`.
pub open spec fn merge_document_spec(
    existing: Option<DocumentView>,
    incoming: DocumentView,
    mask: Option<Seq<Seq<char>>>,
) -> Result<DocumentView, StatusView> {
    match mask {
        None => Ok(incoming),
        Some(paths) => match field_paths_spec(paths) {
            Err(e) => Err(e),
            Ok(parsed) => if any_overlap(parsed) {
                Err(invalid("overlapping update mask paths"@))
            } else {
                let base = match existing {
                    Some(doc) => doc.fields,
                    None => Seq::empty(),
                };
                Ok(DocumentView { fields: copy_paths(base, incoming.fields, parsed), ..incoming })
            },
        },
    }
}

/// The view of a list of paths that may be missing.
pub open spec fn mask_view(mask: Option<&Vec<String>>) -> Option<Seq<Seq<char>>> {
    match mask {
        Some(paths) => Some(texts(paths@)),
        None => None,
    }
}

/// The view of a document that may be missing.
pub open spec fn opt_document(doc: Option<&Document>) -> Option<DocumentView> {
    match doc {
        Some(d) => Some(d@),
        None => None,
    }
}

/// Merges an update into a document.
pub fn merge_document(
    existing: Option<&Document>,
    incoming: Document,
    mask: Option<&Vec<String>>,
) -> (r: Result<Document, Status>)
    ensures
        match r {
            Ok(doc) => merge_document_spec(opt_document(existing), incoming@, mask_view(mask))
                == Ok::<_, StatusView>(doc@),
            Err(e) => merge_document_spec(opt_document(existing), incoming@, mask_view(mask))
                == Err::<DocumentView, _>(e@),
        },
{
    match mask {
        None => Ok(incoming),
        Some(mask_paths) => {
            let paths = match field_paths(mask_paths) {
                Ok(paths) => paths,
                Err(e) => {
                    return Err(e);
                },
            };
            if find_overlap(&paths) {
                return Err(Status::invalid_argument("overlapping update mask paths"));
            }
            let mut fields: Vec<(String, FieldValue)> = match existing {
                Some(doc) => copy_fields(&doc.fields),
                None => Vec::new(),
            };
            let ghost base = fields_view(fields@);
            let ghost views = paths_view(paths@);
            let ghost source = fields_view(incoming.fields@);
            assert(existing is None ==> base =~= Seq::empty());
            let mut i: usize = 0;
            assert(views.take(0) =~= Seq::empty());
            while i < paths.len()
                invariant
                    i <= paths.len(),
                    views == paths_view(paths@),
                    source == fields_view(incoming.fields@),
                    forall|j: int| 0 <= j < paths@.len() ==> (#[trigger] paths@[j])@.len() > 0,
                    fields_view(fields@) == copy_paths(base, source, views.take(i as int)),
                decreases paths.len() - i,
            {
                assert(views.take(i + 1).drop_last() =~= views.take(i as int));
                let found = match nested_get(&incoming.fields, &paths[i]) {
                    Some(value) => Some(value.duplicate()),
                    None => None,
                };
                nested_set(&mut fields, &paths[i], found);
                i += 1;
            }
            assert(views.take(i as int) =~= views);
            Ok(
                Document {
                    name: incoming.name,
                    fields,
                    create_time: incoming.create_time,
                    update_time: incoming.update_time,
                },
            )
        },
    }
}

proof fn nested_get_well_ordered(fields: FieldsView, parts: Seq<Seq<char>>)
    requires
        fields_well_ordered(fields),
        nested_get_spec(fields, parts) is Some,
    ensures
        well_ordered(nested_get_spec(fields, parts)->0),
    decreases parts.len(),
{
    lookup_well_ordered(fields, parts[0]);
    if parts.len() > 1 {
        nested_get_well_ordered(
            lookup(fields, parts[0])->0->Fields_0,
            parts.drop_first(),
        );
    }
}

/// Copying paths keeps all names in order.
pub proof fn copy_paths_well_ordered(
    fields: FieldsView,
    incoming: FieldsView,
    paths: Seq<Seq<Seq<char>>>,
)
    requires
        fields_well_ordered(fields),
        fields_well_ordered(incoming),
    ensures
        fields_well_ordered(copy_paths(fields, incoming, paths)),
    decreases paths.len(),
{
    if paths.len() > 0 {
        copy_paths_well_ordered(fields, incoming, paths.drop_last());
        if nested_get_spec(incoming, paths.last()) is Some {
            nested_get_well_ordered(incoming, paths.last());
        }
        nested_set_well_ordered(
            copy_paths(fields, incoming, paths.drop_last()),
            paths.last(),
            nested_get_spec(incoming, paths.last()),
        );
    }
}

/// After a masked update every masked path reads as in the incoming document,
/// missing values included.
pub proof fn masked_path_reads_incoming(
    fields: FieldsView,
    incoming: FieldsView,
    paths: Seq<Seq<Seq<char>>>,
    i: int,
)
    requires
        fields_well_ordered(fields),
        fields_well_ordered(incoming),
        forall|k: int| 0 <= k < paths.len() ==> (#[trigger] paths[k]).len() > 0,
        !any_overlap(paths),
        0 <= i < paths.len(),
    ensures
        nested_get_spec(copy_paths(fields, incoming, paths), paths[i]) == nested_get_spec(
            incoming,
            paths[i],
        ),
    decreases paths.len(),
{
    let before = paths.drop_last();
    let mid = copy_paths(fields, incoming, before);
    copy_paths_well_ordered(fields, incoming, before);
    if i == paths.len() - 1 {
        nested_get_after_set(mid, paths[i], nested_get_spec(incoming, paths[i]));
    } else {
        assert(!overlap(paths[i], paths[paths.len() - 1]));
        assert(!any_overlap(before)) by {
            assert forall|p: int, q: int| 0 <= p < q < before.len() implies !overlap(
                #[trigger] before[p],
                #[trigger] before[q],
            ) by {
                assert(before[p] == paths[p] && before[q] == paths[q]);
            }
        }
        assert forall|k: int| 0 <= k < before.len() implies (#[trigger] before[k]).len() > 0 by {
            assert(before[k] == paths[k]);
        }
        masked_path_reads_incoming(fields, incoming, before, i);
        nested_set_frame(
            mid,
            paths.last(),
            nested_get_spec(incoming, paths.last()),
            paths[i],
        );
    }
}

/// After a masked update every path that overlaps no masked one reads as
/// before.
pub proof fn unmasked_path_is_kept(
    fields: FieldsView,
    incoming: FieldsView,
    paths: Seq<Seq<Seq<char>>>,
    other: Seq<Seq<char>>,
)
    requires
        fields_well_ordered(fields),
        fields_well_ordered(incoming),
        other.len() > 0,
        forall|k: int|
            0 <= k < paths.len() ==> (#[trigger] paths[k]).len() > 0 && !overlap(paths[k], other),
    ensures
        nested_get_spec(copy_paths(fields, incoming, paths), other) == nested_get_spec(
            fields,
            other,
        ),
    decreases paths.len(),
{
    if paths.len() > 0 {
        let before = paths.drop_last();
        assert forall|k: int| 0 <= k < before.len() implies (#[trigger] before[k]).len() > 0
            && !overlap(before[k], other) by {
            assert(before[k] == paths[k]);
        }
        unmasked_path_is_kept(fields, incoming, before, other);
        copy_paths_well_ordered(fields, incoming, before);
        assert(paths.last() == paths[paths.len() - 1]);
        nested_set_frame(
            copy_paths(fields, incoming, before),
            paths.last(),
            nested_get_spec(incoming, paths.last()),
            other,
        );
    }
}

} // verus!
