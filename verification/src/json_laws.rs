//! What the JSON of values and documents says, member by member.
use crate::document::DocumentView;
use crate::double::{INFINITY, SIGN};
use crate::encoding::base64_text;
use crate::json::{empty_object, member, object1, with_member, JsonView};
use crate::ordered::{keys_sorted, lookup_after_put, lower_bound_properties, put_sorted};
use crate::status::StatusView;
use crate::text::signed_decimal_spec;
use crate::value::{FieldsView, ValueView};
use crate::web_values::{
    document_json_spec, document_proto_spec, fields_json_spec, has_json, is_quiet,
    quiet_values_stay, value_json_spec, value_proto_spec, value_reads_back, values_json_spec,
    time_json_spec, time_text,
};
use vstd::prelude::*;

verus! {

/// Whether a JSON value is an object with its members in order.
pub open spec fn is_object(v: JsonView) -> bool {
    v matches JsonView::Object(members) && keys_sorted(members)
}

/// An object of no member is one, and has none.
pub proof fn nothing_is_in_an_empty_object(key: Seq<char>)
    ensures
        is_object(empty_object()),
        member(empty_object(), key) is None,
{
    lower_bound_properties(Seq::<(Seq<char>, JsonView)>::empty(), key);
}

/// An object with one more member has that member, and the others as before.
pub proof fn members_are_added(v: JsonView, key: Seq<char>, value: JsonView, other: Seq<char>)
    requires
        is_object(v),
    ensures
        is_object(with_member(v, key, value)),
        member(with_member(v, key, value), key) == Some(value),
        other != key ==> member(with_member(v, key, value), other) == member(v, other),
{
    put_sorted(v->Object_0, key, value);
    lookup_after_put(v->Object_0, key, value, other);
}

/// An object of one member has that one alone.
pub proof fn one_member_is_alone(key: Seq<char>, value: JsonView, other: Seq<char>)
    ensures
        is_object(object1(key, value)),
        member(object1(key, value), key) == Some(value),
        other != key ==> member(object1(key, value), other) is None,
{
    nothing_is_in_an_empty_object(other);
    members_are_added(empty_object(), key, value, other);
}

/// The JSON of a value holds it under the name of its kind: truth values as
/// such, integers as decimal text, texts and references as text, bytes as
/// base64, times as text, lists and maps by the JSON of what is in them.
pub proof fn values_are_written_by_kind(
    b: bool,
    n: i64,
    s: Seq<char>,
    bytes: Seq<u8>,
    seconds: i64,
    nanos: i32,
)
    ensures
        member(value_json_spec(ValueView::Null), "nullValue"@) == Some(JsonView::Null),
        member(value_json_spec(ValueView::Boolean(b)), "booleanValue"@) == Some(JsonView::Bool(b)),
        member(value_json_spec(ValueView::Integer(n)), "integerValue"@) == Some(
            JsonView::Text(signed_decimal_spec(n as int)),
        ),
        member(value_json_spec(ValueView::Text(s)), "stringValue"@) == Some(JsonView::Text(s)),
        member(value_json_spec(ValueView::Reference(s)), "referenceValue"@) == Some(
            JsonView::Text(s),
        ),
        member(value_json_spec(ValueView::Bytes(bytes)), "bytesValue"@) == Some(
            JsonView::Text(base64_text(bytes)),
        ),
        member(
            value_json_spec(
                ValueView::Timestamp(crate::value::Timestamp { seconds, nanos }),
            ),
            "timestampValue"@,
        ) == Some(JsonView::Text(time_text(seconds, nanos))),
{
    one_member_is_alone("nullValue"@, JsonView::Null, "nullValue"@);
    one_member_is_alone("booleanValue"@, JsonView::Bool(b), "booleanValue"@);
    one_member_is_alone(
        "integerValue"@,
        JsonView::Text(signed_decimal_spec(n as int)),
        "integerValue"@,
    );
    one_member_is_alone("stringValue"@, JsonView::Text(s), "stringValue"@);
    one_member_is_alone("referenceValue"@, JsonView::Text(s), "referenceValue"@);
    one_member_is_alone("bytesValue"@, JsonView::Text(base64_text(bytes)), "bytesValue"@);
    one_member_is_alone(
        "timestampValue"@,
        JsonView::Text(time_text(seconds, nanos)),
        "timestampValue"@,
    );
}

/// The JSON of a double is the number itself, or its name where it is infinite
/// or no number.
pub proof fn doubles_are_written(bits: u64)
    ensures
        member(value_json_spec(ValueView::Double(bits)), "doubleValue"@) == Some(
            if bits == INFINITY {
                JsonView::Text("Infinity"@)
            } else if bits == SIGN + INFINITY {
                JsonView::Text("-Infinity"@)
            } else if INFINITY < bits < SIGN || bits > SIGN + INFINITY {
                JsonView::Text("NaN"@)
            } else {
                JsonView::Float(bits)
            },
        ),
{
    let v = value_json_spec(ValueView::Double(bits));
    one_member_is_alone("doubleValue"@, crate::web_values::double_json(bits), "doubleValue"@);
}

/// Whether JSON lists the fields: in their order, each under its name with the
/// JSON of its value.
pub open spec fn lists_fields(v: JsonView, fields: FieldsView) -> bool {
    &&& v matches JsonView::Object(members)
    &&& members.len() == fields.len()
    &&& forall|i: int|
        0 <= i < fields.len() ==> (#[trigger] members[i]).0 == fields[i].0 && members[i].1
            == value_json_spec(fields[i].1)
}

/// The JSON of a list has the JSON of each item in turn, and that of a map the
/// JSON of each field.
pub proof fn lists_and_maps_are_written(items: Seq<ValueView>, fields: FieldsView, i: int)
    ensures
        member(value_json_spec(ValueView::Array(items)), "arrayValue"@) matches Some(outer)
            && member(outer, "values"@) matches Some(JsonView::Array(list)) && list.len()
            == items.len() && (0 <= i < items.len() ==> list[i] == value_json_spec(items[i])),
        member(value_json_spec(ValueView::Fields(fields)), "mapValue"@) matches Some(outer)
            && member(outer, "fields"@) matches Some(inner) && lists_fields(inner, fields),
{
    let list = JsonView::Array(values_json_spec(items));
    one_member_is_alone("values"@, list, "values"@);
    one_member_is_alone("arrayValue"@, object1("values"@, list), "arrayValue"@);
    let map = JsonView::Object(fields_json_spec(fields));
    one_member_is_alone("fields"@, map, "fields"@);
    one_member_is_alone("mapValue"@, object1("fields"@, map), "mapValue"@);
}

/// The keys of a document's JSON are different.
proof fn document_keys_differ()
    ensures
        "name"@ != "fields"@,
        "name"@ != "createTime"@,
        "name"@ != "updateTime"@,
        "fields"@ != "createTime"@,
        "fields"@ != "updateTime"@,
        "createTime"@ != "updateTime"@,
{
    reveal_strlit("name");
    reveal_strlit("fields");
    reveal_strlit("createTime");
    reveal_strlit("updateTime");
    assert("name"@[0] == 'n' && "fields"@[0] == 'f');
    assert("createTime"@[0] == 'c' && "updateTime"@[0] == 'u');
}

/// Whether JSON tells a document: its name, its fields and its times.
pub open spec fn tells_document(v: JsonView, doc: DocumentView) -> bool {
    &&& member(v, "name"@) == Some(JsonView::Text(doc.name))
    &&& member(v, "fields"@) matches Some(fields)
    &&& lists_fields(fields, doc.fields)
    &&& member(v, "createTime"@) == Some(
        match doc.create_time {
            Some(t) => JsonView::Text(time_text(t.seconds, t.nanos)),
            None => JsonView::Null,
        },
    )
    &&& member(v, "updateTime"@) == Some(
        match doc.update_time {
            Some(t) => JsonView::Text(time_text(t.seconds, t.nanos)),
            None => JsonView::Null,
        },
    )
}

/// The JSON of a document tells it, and reads back to its name and its fields
/// where JSON can carry them.
pub proof fn documents_are_written(doc: DocumentView)
    ensures
        tells_document(document_json_spec(doc), doc),
        has_json(ValueView::Fields(doc.fields)) && is_quiet(ValueView::Fields(doc.fields))
            ==> document_proto_spec(document_json_spec(doc)) == Ok::<DocumentView, StatusView>(
            DocumentView {
                name: doc.name,
                fields: doc.fields,
                create_time: None,
                update_time: None,
            },
        ),
{
    document_keys_differ();
    let fields = JsonView::Object(fields_json_spec(doc.fields));
    let created = time_json_spec(doc.create_time);
    let updated = time_json_spec(doc.update_time);
    let a = object1("name"@, JsonView::Text(doc.name));
    let b = with_member(a, "fields"@, fields);
    let c = with_member(b, "createTime"@, created);
    let d = with_member(c, "updateTime"@, updated);
    assert(d == document_json_spec(doc));
    one_member_is_alone("name"@, JsonView::Text(doc.name), "name"@);
    members_are_added(a, "fields"@, fields, "name"@);
    members_are_added(b, "createTime"@, created, "name"@);
    members_are_added(b, "createTime"@, created, "fields"@);
    members_are_added(c, "updateTime"@, updated, "name"@);
    members_are_added(c, "updateTime"@, updated, "fields"@);
    members_are_added(c, "updateTime"@, updated, "createTime"@);
    let all = ValueView::Fields(doc.fields);
    if has_json(all) && is_quiet(all) {
        value_reads_back(all);
        quiet_values_stay(all);
        lists_and_maps_are_written(Seq::empty(), doc.fields, 0);
        let outer = object1("fields"@, fields);
        map_is_read(outer, fields);
    }
}

/// Reading the JSON of a map reads its fields.
proof fn map_is_read(outer: JsonView, fields: JsonView)
    requires
        outer == object1("fields"@, fields),
        fields is Object,
    ensures
        value_proto_spec(object1("mapValue"@, outer)) == (match
        crate::web_values::fields_proto_spec(fields->Object_0, 0) {
            Ok(found) => Ok(ValueView::Fields(found)),
            Err(e) => Err(e),
        }),
{
    reveal_strlit("nullValue");
    reveal_strlit("booleanValue");
    reveal_strlit("integerValue");
    reveal_strlit("doubleValue");
    reveal_strlit("timestampValue");
    reveal_strlit("stringValue");
    reveal_strlit("referenceValue");
    reveal_strlit("bytesValue");
    reveal_strlit("geoPointValue");
    reveal_strlit("arrayValue");
    reveal_strlit("mapValue");
    one_member_is_alone("mapValue"@, outer, "nullValue"@);
    one_member_is_alone("mapValue"@, outer, "booleanValue"@);
    one_member_is_alone("mapValue"@, outer, "integerValue"@);
    one_member_is_alone("mapValue"@, outer, "doubleValue"@);
    one_member_is_alone("mapValue"@, outer, "timestampValue"@);
    one_member_is_alone("mapValue"@, outer, "stringValue"@);
    one_member_is_alone("mapValue"@, outer, "referenceValue"@);
    one_member_is_alone("mapValue"@, outer, "bytesValue"@);
    one_member_is_alone("mapValue"@, outer, "geoPointValue"@);
    one_member_is_alone("mapValue"@, outer, "arrayValue"@);
    one_member_is_alone("fields"@, fields, "fields"@);
}

} // verus!
