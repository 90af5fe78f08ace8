//! Firestore values, documents, writes and queries as the JSON of the REST
//! interface.
use crate::document::{Document, DocumentView};
use crate::double::{is_infinite, is_nan, is_nan_spec, INFINITY, QUIET_NAN};
use crate::encoding::{base64_bytes, base64_decode, base64_encode, base64_text};
use crate::json::{
    array_at, as_bool_spec, as_double_spec, as_integer_spec, as_text_spec, at, items_view,
    json_object_view, member, members_view, object1, text_at, with_member, Json, JsonView,
    MembersView,
};
use crate::ordered::{lower_bound, lower_bound_properties};
use crate::status::{invalid, Status, StatusView};
use crate::text::{
    parse_signed, parse_signed_spec, same, signed_decimal, signed_decimal_spec, signed_reads_back,
};
use crate::value::{
    array_view, fields_value_view, fields_view, values_view, FieldValue, FieldsView, Timestamp,
    ValueView,
};
use vstd::prelude::*;

verus! {

/// The RFC 3339 text that `prost_types::Timestamp` displays as.
pub uninterp spec fn time_text(seconds: i64, nanos: i32) -> Seq<char>;

/// The seconds and nanoseconds that `prost_types::Timestamp` parses from a
/// text, if it is a timestamp.
pub uninterp spec fn time_of_text(text: Seq<char>) -> Option<(i64, i32)>;

/// Whether a timestamp lies in the years 1 to 9999 and its nanoseconds within
/// its second.
pub open spec fn is_calendar_time(t: Timestamp) -> bool {
    -62_135_596_800 <= t.seconds <= 253_402_300_799 && 0 <= t.nanos < 1_000_000_000
}

/// Writes a timestamp with the `Display` of `prost_types::Timestamp`. For a
/// time of the years 1 to 9999 the same type parses the text back to it.
#[verifier::external_body]
pub(crate) fn write_time(t: &Timestamp) -> (r: String)
    ensures
        r@ == time_text(t.seconds, t.nanos),
        is_calendar_time(*t) ==> time_of_text(r@) == Some((t.seconds, t.nanos)),
{
    prost_types::Timestamp { seconds: t.seconds, nanos: t.nanos }.to_string()
}

/// Reads a timestamp with the `FromStr` of `prost_types::Timestamp`.
#[verifier::external_body]
pub(crate) fn read_time(text: &str) -> (r: Option<Timestamp>)
    ensures
        match r {
            Some(t) => time_of_text(text@) == Some((t.seconds, t.nanos)),
            None => time_of_text(text@) is None,
        },
{
    match text.parse::<prost_types::Timestamp>() {
        Ok(t) => Some(Timestamp { seconds: t.seconds, nanos: t.nanos }),
        Err(_) => None,
    }
}

/// A member of an object is smaller than the object.
pub proof fn member_is_smaller(v: JsonView, key: Seq<char>)
    requires
        member(v, key) is Some,
    ensures
        decreases_to!(v => member(v, key)->0),
{
    let members = v->Object_0;
    lower_bound_properties(members, key);
    assert(decreases_to!(members => members[lower_bound(members, key)]));
}

/// The items of the array under a key are smaller than the object.
pub proof fn array_is_smaller(v: JsonView, key: Seq<char>)
    requires
        array_at(v, key).len() > 0,
    ensures
        decreases_to!(v => array_at(v, key)),
{
    member_is_smaller(v, key);
}

/// A timestamp in JSON: its text, or its seconds and nanoseconds.
pub open spec fn timestamp_spec(v: JsonView) -> Result<Timestamp, StatusView> {
    match as_text_spec(v) {
        Some(text) => match time_of_text(text) {
            Some(pair) => Ok(Timestamp { seconds: pair.0, nanos: pair.1 }),
            None => Err(invalid("invalid timestamp"@)),
        },
        None => match integer_or_text(at(v, "seconds"@)) {
            Some(seconds) => Ok(
                Timestamp {
                    seconds: seconds as i64,
                    nanos: match as_integer_spec(at(v, "nanos"@)) {
                        Some(n) => n as i32,
                        None => 0,
                    },
                },
            ),
            None => Err(invalid("invalid timestamp"@)),
        },
    }
}

/// A 64-bit integer in JSON: a number, or its text.
pub open spec fn integer_or_text(v: JsonView) -> Option<int> {
    match as_integer_spec(v) {
        Some(n) => Some(n as int),
        None => match as_text_spec(v) {
            Some(s) => parse_signed_spec(s),
            None => None,
        },
    }
}

/// A double in JSON: a number, or the name of one that JSON cannot write.
pub open spec fn double_or_text(v: JsonView) -> Option<u64> {
    match as_double_spec(v) {
        Some(bits) => Some(bits),
        None => match as_text_spec(v) {
            Some(s) => if s == "NaN"@ {
                Some(QUIET_NAN)
            } else if s == "Infinity"@ {
                Some(INFINITY)
            } else if s == "-Infinity"@ {
                Some(0xfff0_0000_0000_0000)
            } else {
                None
            },
            None => None,
        },
    }
}

/// A double under a key, zero where there is none.
pub open spec fn double_at(v: JsonView, key: Seq<char>) -> u64 {
    match as_double_spec(at(v, key)) {
        Some(bits) => bits,
        None => 0,
    }
}

/// The value that JSON stands for.
pub open spec fn value_proto_spec(v: JsonView) -> Result<ValueView, StatusView>
    decreases v, 1nat, 0nat,
{
    if member(v, "nullValue"@) is Some {
        Ok(ValueView::Null)
    } else if as_bool_spec(at(v, "booleanValue"@)) is Some {
        Ok(ValueView::Boolean(as_bool_spec(at(v, "booleanValue"@))->0))
    } else if member(v, "integerValue"@) is Some {
        match integer_or_text(member(v, "integerValue"@)->0) {
            Some(n) => Ok(ValueView::Integer(n as i64)),
            None => Err(invalid("invalid integer"@)),
        }
    } else if member(v, "doubleValue"@) is Some {
        match double_or_text(member(v, "doubleValue"@)->0) {
            Some(bits) => Ok(ValueView::Double(bits)),
            None => Err(invalid("invalid double"@)),
        }
    } else if member(v, "timestampValue"@) is Some {
        match timestamp_spec(member(v, "timestampValue"@)->0) {
            Ok(t) => Ok(ValueView::Timestamp(t)),
            Err(e) => Err(e),
        }
    } else if as_text_spec(at(v, "stringValue"@)) is Some {
        Ok(ValueView::Text(as_text_spec(at(v, "stringValue"@))->0))
    } else if as_text_spec(at(v, "referenceValue"@)) is Some {
        Ok(ValueView::Reference(as_text_spec(at(v, "referenceValue"@))->0))
    } else if as_text_spec(at(v, "bytesValue"@)) is Some {
        match base64_bytes(as_text_spec(at(v, "bytesValue"@))->0) {
            Some(bytes) => Ok(ValueView::Bytes(bytes)),
            None => Err(invalid("invalid base64"@)),
        }
    } else if member(v, "geoPointValue"@) is Some {
        let point = member(v, "geoPointValue"@)->0;
        Ok(ValueView::GeoPoint(double_at(point, "latitude"@), double_at(point, "longitude"@)))
    } else if member(v, "arrayValue"@) is Some {
        let array = member(v, "arrayValue"@)->0;
        let items = array_at(array, "values"@);
        proof {
            member_is_smaller(v, "arrayValue"@);
            if items.len() > 0 {
                array_is_smaller(array, "values"@);
            }
        }
        if items.len() == 0 {
            Ok(ValueView::Array(Seq::empty()))
        } else {
            match values_proto_spec(items, 0) {
                Ok(values) => Ok(ValueView::Array(values)),
                Err(e) => Err(e),
            }
        }
    } else if member(v, "mapValue"@) is Some {
        let map = member(v, "mapValue"@)->0;
        proof {
            member_is_smaller(v, "mapValue"@);
            if member(map, "fields"@) is Some {
                member_is_smaller(map, "fields"@);
            }
        }
        match at(map, "fields"@) {
            JsonView::Object(members) => match fields_proto_spec(members, 0) {
                Ok(fields) => Ok(ValueView::Fields(fields)),
                Err(e) => Err(e),
            },
            _ => Ok(ValueView::Fields(Seq::empty())),
        }
    } else {
        Err(invalid("unknown Firestore value"@))
    }
}

/// The values that the items from `i` on stand for, or the first error.
pub open spec fn values_proto_spec(items: Seq<JsonView>, i: nat) -> Result<
    Seq<ValueView>,
    StatusView,
>
    decreases items, 0nat, items.len() - i,
{
    if i >= items.len() {
        Ok(Seq::empty())
    } else {
        match value_proto_spec(items[i as int]) {
            Err(e) => Err(e),
            Ok(first) => match values_proto_spec(items, i + 1) {
                Err(e) => Err(e),
                Ok(rest) => Ok(seq![first] + rest),
            },
        }
    }
}

/// The named values that the members from `i` on stand for, or the first
/// error.
pub open spec fn fields_proto_spec(members: MembersView, i: nat) -> Result<FieldsView, StatusView>
    decreases members, 0nat, members.len() - i,
{
    if i >= members.len() {
        Ok(Seq::empty())
    } else {
        match value_proto_spec(members[i as int].1) {
            Err(e) => Err(e),
            Ok(first) => match fields_proto_spec(members, i + 1) {
                Err(e) => Err(e),
                Ok(rest) => Ok(seq![(members[i as int].0, first)] + rest),
            },
        }
    }
}

/// A double as JSON: a number where JSON can write it, else null.
pub open spec fn number_json(bits: u64) -> JsonView {
    if is_nan_spec(bits) || is_infinite(bits) {
        JsonView::Null
    } else {
        JsonView::Float(bits)
    }
}

/// A double as JSON, by name where JSON cannot write it.
pub open spec fn double_json(bits: u64) -> JsonView {
    if is_nan_spec(bits) {
        JsonView::Text("NaN"@)
    } else if bits == INFINITY {
        JsonView::Text("Infinity"@)
    } else if is_infinite(bits) {
        JsonView::Text("-Infinity"@)
    } else {
        JsonView::Float(bits)
    }
}

/// A timestamp as JSON, null where there is none.
pub open spec fn time_json_spec(t: Option<Timestamp>) -> JsonView {
    match t {
        Some(time) => JsonView::Text(time_text(time.seconds, time.nanos)),
        None => JsonView::Null,
    }
}

/// The JSON of a value.
pub open spec fn value_json_spec(v: ValueView) -> JsonView
    decreases v,
{
    match v {
        ValueView::Unset | ValueView::Null => object1("nullValue"@, JsonView::Null),
        ValueView::Boolean(b) => object1("booleanValue"@, JsonView::Bool(b)),
        ValueView::Integer(i) => object1(
            "integerValue"@,
            JsonView::Text(signed_decimal_spec(i as int)),
        ),
        ValueView::Double(d) => object1("doubleValue"@, double_json(d)),
        ValueView::Timestamp(t) => object1("timestampValue"@, time_json_spec(Some(t))),
        ValueView::Text(s) => object1("stringValue"@, JsonView::Text(s)),
        ValueView::Reference(s) => object1("referenceValue"@, JsonView::Text(s)),
        ValueView::Bytes(b) => object1("bytesValue"@, JsonView::Text(base64_text(b))),
        ValueView::GeoPoint(latitude, longitude) => object1(
            "geoPointValue"@,
            with_member(
                object1("latitude"@, number_json(latitude)),
                "longitude"@,
                number_json(longitude),
            ),
        ),
        ValueView::Array(items) => object1(
            "arrayValue"@,
            object1(
                "values"@,
                JsonView::Array(values_json_spec(items)),
            ),
        ),
        ValueView::Fields(fields) => object1(
            "mapValue"@,
            object1(
                "fields"@,
                JsonView::Object(fields_json_spec(fields)),
            ),
        ),
    }
}

fn integer_value(v: &Json) -> (r: Option<i64>)
    ensures
        match r {
            Some(n) => integer_or_text(v@) == Some(n as int),
            None => integer_or_text(v@) is None,
        },
{
    match v.as_integer() {
        Some(n) => Some(n),
        None => match v.as_text() {
            Some(s) => parse_signed(s),
            None => None,
        },
    }
}

fn double_value(v: &Json) -> (r: Option<u64>)
    ensures
        r == double_or_text(v@),
{
    match v.as_double() {
        Some(bits) => Some(bits),
        None => match v.as_text() {
            Some(s) => if same(s, "NaN") {
                Some(QUIET_NAN)
            } else if same(s, "Infinity") {
                Some(INFINITY)
            } else if same(s, "-Infinity") {
                Some(0xfff0_0000_0000_0000)
            } else {
                None
            },
            None => None,
        },
    }
}

fn double_under(v: &Json, key: &str) -> (r: u64)
    ensures
        r == double_at(v@, key@),
{
    match v.get(key) {
        Some(inner) => match inner.as_double() {
            Some(bits) => bits,
            None => 0,
        },
        None => 0,
    }
}

/// Reads a timestamp from JSON.
pub fn timestamp(v: &Json) -> (r: Result<Timestamp, Status>)
    ensures
        match r {
            Ok(t) => timestamp_spec(v@) == Ok::<_, StatusView>(t),
            Err(e) => timestamp_spec(v@) == Err::<Timestamp, _>(e@),
        },
{
    match v.as_text() {
        Some(text) => match read_time(text) {
            Some(t) => Ok(t),
            None => Err(Status::invalid_argument("invalid timestamp")),
        },
        None => {
            let seconds = match v.get("seconds") {
                Some(inner) => integer_value(inner),
                None => None,
            };
            match seconds {
                Some(seconds) => {
                    let nanos: i32 = match v.integer_at("nanos") {
                        Some(n) => n as i32,
                        None => 0,
                    };
                    Ok(Timestamp { seconds, nanos })
                },
                None => Err(Status::invalid_argument("invalid timestamp")),
            }
        },
    }
}

pub(crate) fn values_proto(items: &Vec<Json>) -> (r: Result<Vec<FieldValue>, Status>)
    ensures
        match r {
            Ok(values) => values_proto_spec(items_view(items@), 0) == Ok::<_, StatusView>(
                values_view(values@),
            ),
            Err(e) => values_proto_spec(items_view(items@), 0) == Err::<Seq<ValueView>, _>(e@),
        },
    decreases items,
{
    let ghost all = items_view(items@);
    let mut values: Vec<FieldValue> = Vec::new();
    let mut i: usize = 0;
    assert(values_view(values@) =~= Seq::empty());
    assert(forall|rest: Seq<ValueView>| Seq::<ValueView>::empty() + rest =~= rest);
    while i < items.len()
        invariant
            i <= items.len(),
            all == items_view(items@),
            values_proto_spec(all, 0) == match values_proto_spec(all, i as nat) {
                Ok(rest) => Ok(values_view(values@) + rest),
                Err(e) => Err(e),
            },
        decreases items.len() - i,
    {
        assert(decreases_to!(*items => items@[i as int]));
        match value_proto(&items[i]) {
            Ok(value) => {
                let ghost before = values_view(values@);
                values.push(value);
                assert(values_view(values@) =~= before.push(value@));
                assert(forall|rest: Seq<ValueView>|
                    #![trigger values_view(values@) + rest]
                    before + (seq![value@] + rest) =~= values_view(values@) + rest);
            },
            Err(e) => {
                return Err(e);
            },
        }
        i += 1;
    }
    assert(values_view(values@) + Seq::<ValueView>::empty() =~= values_view(values@));
    Ok(values)
}

fn members_proto(members: &Vec<(String, Json)>) -> (r: Result<
    Vec<(String, FieldValue)>,
    Status,
>)
    ensures
        match r {
            Ok(fields) => fields_proto_spec(members_view(members@), 0) == Ok::<_, StatusView>(
                fields_view(fields@),
            ),
            Err(e) => fields_proto_spec(members_view(members@), 0) == Err::<FieldsView, _>(e@),
        },
    decreases members,
{
    let ghost all = members_view(members@);
    let mut fields: Vec<(String, FieldValue)> = Vec::new();
    let mut i: usize = 0;
    assert(fields_view(fields@) =~= Seq::empty());
    assert(forall|rest: FieldsView| Seq::<(Seq<char>, ValueView)>::empty() + rest =~= rest);
    while i < members.len()
        invariant
            i <= members.len(),
            all == members_view(members@),
            fields_proto_spec(all, 0) == match fields_proto_spec(all, i as nat) {
                Ok(rest) => Ok(fields_view(fields@) + rest),
                Err(e) => Err(e),
            },
        decreases members.len() - i,
    {
        assert(decreases_to!(*members => members@[i as int]));
        match value_proto(&members[i].1) {
            Ok(value) => {
                let ghost before = fields_view(fields@);
                let key = members[i].0.clone();
                fields.push((key, value));
                assert(fields_view(fields@) =~= before.push((key@, value@)));
                assert(forall|rest: FieldsView|
                    #![trigger fields_view(fields@) + rest]
                    before + (seq![(key@, value@)] + rest) =~= fields_view(fields@) + rest);
            },
            Err(e) => {
                return Err(e);
            },
        }
        i += 1;
    }
    assert(fields_view(fields@) + Seq::<(Seq<char>, ValueView)>::empty() =~= fields_view(
        fields@,
    ));
    Ok(fields)
}

/// Reads a value from JSON.
pub fn value_proto(v: &Json) -> (r: Result<FieldValue, Status>)
    ensures
        match r {
            Ok(value) => value_proto_spec(v@) == Ok::<_, StatusView>(value@),
            Err(e) => value_proto_spec(v@) == Err::<ValueView, _>(e@),
        },
    decreases v,
{
    if v.get("nullValue").is_some() {
        return Ok(FieldValue::Null);
    }
    if let Some(b) = v.bool_at("booleanValue") {
        return Ok(FieldValue::Boolean(b));
    }
    if let Some(i) = v.get("integerValue") {
        return match integer_value(i) {
            Some(n) => Ok(FieldValue::Integer(n)),
            None => Err(Status::invalid_argument("invalid integer")),
        };
    }
    if let Some(d) = v.get("doubleValue") {
        return match double_value(d) {
            Some(bits) => Ok(FieldValue::Double(bits)),
            None => Err(Status::invalid_argument("invalid double")),
        };
    }
    if let Some(t) = v.get("timestampValue") {
        return match timestamp(t) {
            Ok(time) => Ok(FieldValue::Timestamp(time)),
            Err(e) => Err(e),
        };
    }
    if let Some(s) = text_under(v, "stringValue") {
        return Ok(FieldValue::Text(s));
    }
    if let Some(s) = text_under(v, "referenceValue") {
        return Ok(FieldValue::Reference(s));
    }
    if let Some(s) = text_under(v, "bytesValue") {
        return match base64_decode(s.as_str()) {
            Some(bytes) => Ok(FieldValue::Bytes(bytes)),
            None => Err(Status::invalid_argument("invalid base64")),
        };
    }
    if let Some(point) = v.get("geoPointValue") {
        return Ok(
            FieldValue::GeoPoint(
                double_under(point, "latitude"),
                double_under(point, "longitude"),
            ),
        );
    }
    if let Some(array) = v.get("arrayValue") {
        return match array.items("values") {
            Some(items) => match values_proto(items) {
                Ok(values) => {
                    proof {
                        array_view(values);
                        if items_view(items@).len() == 0 {
                            assert(values_view(values@) =~= Seq::empty());
                        }
                    }
                    Ok(FieldValue::Array(values))
                },
                Err(e) => Err(e),
            },
            None => {
                let none: Vec<FieldValue> = Vec::new();
                proof {
                    array_view(none);
                    assert(values_view(none@) =~= Seq::empty());
                }
                Ok(FieldValue::Array(none))
            },
        };
    }
    if let Some(map) = v.get("mapValue") {
        let none: Vec<(String, FieldValue)> = Vec::new();
        proof {
            fields_value_view(none);
            assert(fields_view(none@) =~= Seq::empty());
        }
        return match map.get("fields") {
            Some(fields) => match fields {
                Json::Object(members) => {
                    proof {
                        json_object_view(*members);
                        assert(decreases_to!(*fields => *members));
                    }
                    match members_proto(members) {
                        Ok(values) => {
                            proof {
                                fields_value_view(values);
                            }
                            Ok(FieldValue::Fields(values))
                        },
                        Err(e) => Err(e),
                    }
                },
                _ => Ok(FieldValue::Fields(none)),
            },
            None => Ok(FieldValue::Fields(none)),
        };
    }
    Err(Status::invalid_argument("unknown Firestore value"))
}

/// The text under a key, where there is one.
pub(crate) fn text_under(v: &Json, key: &str) -> (r: Option<String>)
    ensures
        crate::text::opt_text(r) == as_text_spec(at(v@, key@)),
{
    match v.get(key) {
        Some(inner) => match inner.as_text() {
            Some(s) => Some(s.to_owned()),
            None => None,
        },
        None => None,
    }
}

/// The JSON of a list of values.
pub open spec fn values_json_spec(values: Seq<ValueView>) -> Seq<JsonView>
    decreases values,
{
    Seq::new(
        values.len(),
        |i: int|
            if 0 <= i < values.len() {
                value_json_spec(values[i])
            } else {
                JsonView::Null
            },
    )
}

/// The JSON of named values.
pub open spec fn fields_json_spec(fields: FieldsView) -> MembersView
    decreases fields,
{
    Seq::new(
        fields.len(),
        |i: int|
            if 0 <= i < fields.len() {
                (fields[i].0, value_json_spec(fields[i].1))
            } else {
                (Seq::empty(), JsonView::Null)
            },
    )
}

fn finite_json(bits: u64) -> (r: Json)
    ensures
        r@ == number_json(bits),
{
    let infinite = bits == INFINITY || bits == 0xfff0_0000_0000_0000;
    if is_nan(bits) || infinite {
        Json::Null
    } else {
        Json::Float(bits)
    }
}

fn write_double(bits: u64) -> (r: Json)
    ensures
        r@ == double_json(bits),
{
    if is_nan(bits) {
        Json::of_text("NaN")
    } else if bits == INFINITY {
        Json::of_text("Infinity")
    } else if bits == 0xfff0_0000_0000_0000 {
        Json::of_text("-Infinity")
    } else {
        Json::Float(bits)
    }
}

/// Writes a timestamp as JSON.
pub fn time_json(t: Option<Timestamp>) -> (r: Json)
    ensures
        r@ == time_json_spec(t),
        t is Some && is_calendar_time(t->0) ==> time_of_text(
            time_text((t->0).seconds, (t->0).nanos),
        ) == Some(((t->0).seconds, (t->0).nanos)),
{
    match t {
        Some(time) => Json::Text(write_time(&time)),
        None => Json::Null,
    }
}

/// An object of one member.
pub(crate) fn single(key: &str, value: Json) -> (r: Json)
    ensures
        r@ == object1(key@, value@),
{
    Json::object().with(key, value)
}

fn values_json(values: &Vec<FieldValue>) -> (r: Vec<Json>)
    ensures
        items_view(r@) == values_json_spec(values_view(values@)),
        forall|j: int|
            0 <= j < values@.len() && is_json_value(values@[j]@) ==> has_json(
                (#[trigger] values@[j])@,
            ),
    decreases values,
{
    let mut out: Vec<Json> = Vec::new();
    let mut i: usize = 0;
    while i < values.len()
        invariant
            i <= values.len(),
            out@.len() == i,
            forall|j: int| 0 <= j < i ==> (#[trigger] out@[j])@ == value_json_spec(values@[j]@),
            forall|j: int|
                0 <= j < i && is_json_value(values@[j]@) ==> has_json((#[trigger] values@[j])@),
        decreases values.len() - i,
    {
        assert(decreases_to!(*values => values@[i as int]));
        out.push(write_value(&values[i]));
        i += 1;
    }
    assert(items_view(out@) =~= values_json_spec(values_view(values@)));
    out
}

fn fields_json(fields: &Vec<(String, FieldValue)>) -> (r: Vec<(String, Json)>)
    ensures
        members_view(r@) == fields_json_spec(fields_view(fields@)),
        forall|j: int|
            0 <= j < fields@.len() && is_json_value(fields@[j].1@) ==> has_json(
                (#[trigger] fields@[j]).1@,
            ),
    decreases fields,
{
    let mut out: Vec<(String, Json)> = Vec::new();
    let mut i: usize = 0;
    while i < fields.len()
        invariant
            i <= fields.len(),
            out@.len() == i,
            forall|j: int|
                0 <= j < i ==> (#[trigger] out@[j]).0@ == fields@[j].0@ && out@[j].1@
                    == value_json_spec(fields@[j].1@),
            forall|j: int|
                0 <= j < i && is_json_value(fields@[j].1@) ==> has_json(
                    (#[trigger] fields@[j]).1@,
                ),
        decreases fields.len() - i,
    {
        assert(decreases_to!(*fields => fields@[i as int]));
        let key = fields[i].0.clone();
        let value = write_value(&fields[i].1);
        out.push((key, value));
        i += 1;
    }
    assert(members_view(out@) =~= fields_json_spec(fields_view(fields@)));
    out
}

/// Writes a value as JSON. Where JSON can carry the value, reading the result
/// gives the value back, not-a-number being the same whatever its bits.
pub fn value_json(v: &FieldValue) -> (r: Json)
    ensures
        r@ == value_json_spec(v@),
        is_json_value(v@) ==> has_json(v@) && value_proto_spec(r@) == Ok::<_, StatusView>(
            quieted(v@),
        ),
{
    let r = write_value(v);
    proof {
        if is_json_value(v@) {
            value_reads_back(v@);
        }
    }
    r
}

fn write_value(v: &FieldValue) -> (r: Json)
    ensures
        r@ == value_json_spec(v@),
        is_json_value(v@) ==> has_json(v@),
    decreases v,
{
    match v {
        FieldValue::Unset | FieldValue::Null => single("nullValue", Json::Null),
        FieldValue::Boolean(b) => single("booleanValue", Json::Bool(*b)),
        FieldValue::Integer(i) => single("integerValue", Json::Text(signed_decimal(*i))),
        FieldValue::Double(d) => single("doubleValue", write_double(*d)),
        FieldValue::Timestamp(t) => single("timestampValue", time_json(Some(*t))),
        FieldValue::Text(s) => single("stringValue", Json::of_text(s.as_str())),
        FieldValue::Reference(s) => single("referenceValue", Json::of_text(s.as_str())),
        FieldValue::Bytes(b) => single("bytesValue", Json::Text(base64_encode(b.as_slice()))),
        FieldValue::GeoPoint(latitude, longitude) => single(
            "geoPointValue",
            single("latitude", finite_json(*latitude)).with("longitude", finite_json(*longitude)),
        ),
        FieldValue::Array(items) => {
            proof {
                array_view(*items);
            }
            let list = values_json(items);
            proof {
                if is_json_value(v@) {
                    let all = values_view(items@);
                    assert forall|i: int| 0 <= i < all.len() implies has_json(
                        #[trigger] all[i],
                    ) by {
                        assert(is_json_value(all[i]));
                        assert(all[i] == items@[i]@);
                    }
                }
            }
            single("arrayValue", single("values", Json::array(list)))
        },
        FieldValue::Fields(fields) => {
            proof {
                fields_value_view(*fields);
            }
            let members = fields_json(fields);
            proof {
                if is_json_value(v@) {
                    let all = fields_view(fields@);
                    assert forall|i: int| 0 <= i < all.len() implies has_json(
                        (#[trigger] all[i]).1,
                    ) by {
                        assert(is_json_value(all[i].1));
                        assert(all[i].1 == fields@[i].1@);
                    }
                }
                json_object_view(members);
            }
            single("mapValue", single("fields", Json::Object(members)))
        },
    }
}

/// The named values that JSON stands for; none where it is no object.
pub open spec fn fields_of_json(v: JsonView) -> Result<FieldsView, StatusView> {
    match v {
        JsonView::Object(members) => fields_proto_spec(members, 0),
        _ => Ok(Seq::empty()),
    }
}

/// Reads named values from JSON.
pub fn fields_proto(v: Option<&Json>) -> (r: Result<Vec<(String, FieldValue)>, Status>)
    ensures
        match r {
            Ok(fields) => fields_of_json(
                match v {
                    Some(j) => j@,
                    None => JsonView::Null,
                },
            ) == Ok::<_, StatusView>(fields_view(fields@)),
            Err(e) => fields_of_json(
                match v {
                    Some(j) => j@,
                    None => JsonView::Null,
                },
            ) == Err::<FieldsView, _>(e@),
        },
{
    match v {
        Some(j) => match j {
            Json::Object(members) => {
                proof {
                    json_object_view(*members);
                }
                members_proto(members)
            },
            _ => {
                let none: Vec<(String, FieldValue)> = Vec::new();
                assert(fields_view(none@) =~= Seq::empty());
                Ok(none)
            },
        },
        None => {
            let none: Vec<(String, FieldValue)> = Vec::new();
            assert(fields_view(none@) =~= Seq::empty());
            Ok(none)
        },
    }
}

/// The document that JSON stands for.
pub open spec fn document_proto_spec(v: JsonView) -> Result<DocumentView, StatusView> {
    match fields_of_json(at(v, "fields"@)) {
        Err(e) => Err(e),
        Ok(fields) => Ok(
            DocumentView {
                name: text_at(v, "name"@),
                fields,
                create_time: None,
                update_time: None,
            },
        ),
    }
}

/// Reads a document from JSON.
pub fn document_proto(v: &Json) -> (r: Result<Document, Status>)
    ensures
        crate::status::result_view(r) == document_proto_spec(v@),
{
    match fields_proto(v.get("fields")) {
        Ok(fields) => Ok(
            Document { name: v.text("name"), fields, create_time: None, update_time: None },
        ),
        Err(e) => Err(e),
    }
}

/// The JSON of a document.
pub open spec fn document_json_spec(d: DocumentView) -> JsonView {
    with_member(
        with_member(
            with_member(
                object1("name"@, JsonView::Text(d.name)),
                "fields"@,
                JsonView::Object(fields_json_spec(d.fields)),
            ),
            "createTime"@,
            time_json_spec(d.create_time),
        ),
        "updateTime"@,
        time_json_spec(d.update_time),
    )
}

/// Writes a document as JSON.
pub fn document_json(d: &Document) -> (r: Json)
    ensures
        r@ == document_json_spec(d@),
{
    let members = fields_json(&d.fields);
    proof {
        json_object_view(members);
    }
    single("name", Json::of_text(d.name.as_str())).with("fields", Json::Object(members)).with(
        "createTime",
        time_json(d.create_time),
    ).with("updateTime", time_json(d.update_time))
}

/// Whether JSON can carry a value without loss: no missing value, the one
/// not-a-number that has a name, finite coordinates and calendar times.
pub open spec fn is_json_value(v: ValueView) -> bool
    decreases v,
{
    match v {
        ValueView::Unset => false,
        ValueView::Timestamp(t) => is_calendar_time(t),
        ValueView::GeoPoint(x, y) => !is_nan_spec(x) && !is_infinite(x) && !is_nan_spec(y)
            && !is_infinite(y),
        ValueView::Array(items) => forall|i: int|
            0 <= i < items.len() ==> is_json_value(#[trigger] items[i]),
        ValueView::Fields(fields) => forall|i: int|
            0 <= i < fields.len() ==> is_json_value((#[trigger] fields[i]).1),
        _ => true,
    }
}

/// Whether JSON can carry a value without loss and the texts of its
/// timestamps and bytes are read back.
pub open spec fn has_json(v: ValueView) -> bool
    decreases v,
{
    match v {
        ValueView::Unset => false,
        ValueView::Timestamp(t) => is_calendar_time(t) && time_of_text(
            time_text(t.seconds, t.nanos),
        ) == Some((t.seconds, t.nanos)),
        ValueView::Bytes(b) => base64_bytes(base64_text(b)) == Some(b),
        ValueView::GeoPoint(x, y) => !is_nan_spec(x) && !is_infinite(x) && !is_nan_spec(y)
            && !is_infinite(y),
        ValueView::Array(items) => forall|i: int|
            0 <= i < items.len() ==> has_json(#[trigger] items[i]),
        ValueView::Fields(fields) => forall|i: int|
            0 <= i < fields.len() ==> has_json((#[trigger] fields[i]).1),
        _ => true,
    }
}

proof fn object1_members(key: Seq<char>, value: JsonView, other: Seq<char>)
    ensures
        member(object1(key, value), key) == Some(value),
        other != key ==> member(object1(key, value), other) is None,
{
    let none = Seq::<(Seq<char>, JsonView)>::empty();
    crate::ordered::lookup_after_put(none, key, value, other);
    crate::ordered::lower_bound_properties(none, other);
}

proof fn value_keys_differ()
    ensures
        "nullValue"@.len() == 9,
        "booleanValue"@.len() == 12 && "booleanValue"@[0] == 'b',
        "integerValue"@.len() == 12 && "integerValue"@[0] == 'i',
        "doubleValue"@.len() == 11 && "doubleValue"@[0] == 'd',
        "timestampValue"@.len() == 14 && "timestampValue"@[0] == 't',
        "stringValue"@.len() == 11 && "stringValue"@[0] == 's',
        "referenceValue"@.len() == 14 && "referenceValue"@[0] == 'r',
        "bytesValue"@.len() == 10 && "bytesValue"@[0] == 'b',
        "geoPointValue"@.len() == 13,
        "arrayValue"@.len() == 10 && "arrayValue"@[0] == 'a',
        "mapValue"@.len() == 8,
        "latitude"@.len() == 8,
        "longitude"@.len() == 9,
        "NaN"@.len() == 3,
        "Infinity"@.len() == 8,
        "-Infinity"@.len() == 9,
{
    reveal_strlit("nullValue");
    reveal_strlit("booleanValue");
    reveal_strlit("integerValue");
    reveal_strlit("doubleValue");
    reveal_strlit("timestampValue");
    reveal_strlit("stringValue");
    reveal_strlit("referenceValue");
    reveal_strlit("bytesValue");
    reveal_strlit("geoPointValue");
    reveal_strlit("arrayValue");
    reveal_strlit("mapValue");
    reveal_strlit("latitude");
    reveal_strlit("longitude");
    reveal_strlit("NaN");
    reveal_strlit("Infinity");
    reveal_strlit("-Infinity");
}

proof fn only_member(key: Seq<char>, value: JsonView)
    ensures
        forall|other: Seq<char>|
            #![trigger member(object1(key, value), other)]
            member(object1(key, value), other) == if other == key {
                Some(value)
            } else {
                None
            },
{
    assert forall|other: Seq<char>|
        #![trigger member(object1(key, value), other)]
        member(object1(key, value), other) == if other == key {
            Some(value)
        } else {
            None
        } by {
        object1_members(key, value, other);
    }
}

/// A value with each not-a-number written as the quiet one.
pub open spec fn quieted(v: ValueView) -> ValueView
    decreases v,
{
    match v {
        ValueView::Double(bits) => ValueView::Double(
            if is_nan_spec(bits) {
                QUIET_NAN
            } else {
                bits
            },
        ),
        ValueView::Array(items) => ValueView::Array(quieted_values(items)),
        ValueView::Fields(fields) => ValueView::Fields(quieted_fields(fields)),
        _ => v,
    }
}

/// Values with each not-a-number written as the quiet one.
pub open spec fn quieted_values(items: Seq<ValueView>) -> Seq<ValueView>
    decreases items,
{
    Seq::new(
        items.len(),
        |i: int|
            if 0 <= i < items.len() {
                quieted(items[i])
            } else {
                ValueView::Null
            },
    )
}

/// Named values with each not-a-number written as the quiet one.
pub open spec fn quieted_fields(fields: FieldsView) -> FieldsView
    decreases fields,
{
    Seq::new(
        fields.len(),
        |i: int|
            if 0 <= i < fields.len() {
                (fields[i].0, quieted(fields[i].1))
            } else {
                (Seq::empty(), ValueView::Null)
            },
    )
}

/// Whether every not-a-number in a value is the quiet one.
pub open spec fn is_quiet(v: ValueView) -> bool
    decreases v,
{
    match v {
        ValueView::Double(bits) => is_nan_spec(bits) ==> bits == QUIET_NAN,
        ValueView::Array(items) => forall|i: int|
            0 <= i < items.len() ==> is_quiet(#[trigger] items[i]),
        ValueView::Fields(fields) => forall|i: int|
            0 <= i < fields.len() ==> is_quiet((#[trigger] fields[i]).1),
        _ => true,
    }
}

/// A value whose not-a-numbers are all quiet stays as it is.
pub proof fn quiet_values_stay(v: ValueView)
    requires
        is_quiet(v),
    ensures
        quieted(v) == v,
    decreases v,
{
    match v {
        ValueView::Array(items) => {
            assert forall|i: int| 0 <= i < items.len() implies quieted_values(items)[i]
                == #[trigger] items[i] by {
                quiet_values_stay(items[i]);
            }
            assert(quieted_values(items) =~= items);
        },
        ValueView::Fields(fields) => {
            assert forall|i: int| 0 <= i < fields.len() implies quieted_fields(fields)[i]
                == #[trigger] fields[i] by {
                quiet_values_stay(fields[i].1);
            }
            assert(quieted_fields(fields) =~= fields);
        },
        _ => {},
    }
}

/// Reading the JSON of a value gives the value back, not-a-number being the
/// same whatever its bits.
pub proof fn value_reads_back(v: ValueView)
    requires
        has_json(v),
    ensures
        value_proto_spec(value_json_spec(v)) == Ok::<ValueView, StatusView>(quieted(v)),
    decreases v, 1nat, 0nat,
{
    value_keys_differ();
    match v {
        ValueView::Null => only_member("nullValue"@, JsonView::Null),
        ValueView::Boolean(b) => only_member("booleanValue"@, JsonView::Bool(b)),
        ValueView::Integer(i) => {
            only_member("integerValue"@, JsonView::Text(signed_decimal_spec(i as int)));
            signed_reads_back(i as int);
        },
        ValueView::Double(d) => {
            only_member("doubleValue"@, double_json(d));
        },
        ValueView::Timestamp(t) => only_member("timestampValue"@, time_json_spec(Some(t))),
        ValueView::Text(s) => only_member("stringValue"@, JsonView::Text(s)),
        ValueView::Reference(s) => only_member("referenceValue"@, JsonView::Text(s)),
        ValueView::Bytes(b) => only_member("bytesValue"@, JsonView::Text(base64_text(b))),
        ValueView::GeoPoint(x, y) => {
            let first = object1("latitude"@, number_json(x));
            let point = with_member(first, "longitude"@, number_json(y));
            only_member("geoPointValue"@, point);
            only_member("latitude"@, number_json(x));
            crate::ordered::put_sorted(
                Seq::<(Seq<char>, JsonView)>::empty(),
                "latitude"@,
                number_json(x),
            );
            crate::ordered::lookup_after_put(
                first->Object_0,
                "longitude"@,
                number_json(y),
                "latitude"@,
            );
            assert(member(first, "latitude"@) == Some(number_json(x)));
        },
        ValueView::Array(items) => {
            let list = JsonView::Array(values_json_spec(items));
            only_member("arrayValue"@, object1("values"@, list));
            only_member("values"@, list);
            values_read_back(items, 0);
            assert(quieted_values(items).skip(0) =~= quieted_values(items));
        },
        ValueView::Fields(fields) => {
            let map = JsonView::Object(fields_json_spec(fields));
            only_member("mapValue"@, object1("fields"@, map));
            only_member("fields"@, map);
            fields_read_back(fields, 0);
            assert(quieted_fields(fields).skip(0) =~= quieted_fields(fields));
        },
        ValueView::Unset => {},
    }
}

proof fn values_read_back(items: Seq<ValueView>, i: nat)
    requires
        i <= items.len(),
        forall|k: int| 0 <= k < items.len() ==> has_json(#[trigger] items[k]),
    ensures
        values_proto_spec(values_json_spec(items), i) == Ok::<Seq<ValueView>, StatusView>(
            quieted_values(items).skip(i as int),
        ),
    decreases items, 0nat, items.len() - i,
{
    let all = quieted_values(items);
    if i < items.len() {
        value_reads_back(items[i as int]);
        values_read_back(items, i + 1);
        assert(values_json_spec(items)[i as int] == value_json_spec(items[i as int]));
        assert(seq![all[i as int]] + all.skip(i as int + 1) =~= all.skip(i as int));
    } else {
        assert(all.skip(i as int) =~= Seq::empty());
    }
}

proof fn fields_read_back(fields: FieldsView, i: nat)
    requires
        i <= fields.len(),
        forall|k: int| 0 <= k < fields.len() ==> has_json((#[trigger] fields[k]).1),
    ensures
        fields_proto_spec(fields_json_spec(fields), i) == Ok::<FieldsView, StatusView>(
            quieted_fields(fields).skip(i as int),
        ),
    decreases fields, 0nat, fields.len() - i,
{
    let all = quieted_fields(fields);
    if i < fields.len() {
        value_reads_back(fields[i as int].1);
        fields_read_back(fields, i + 1);
        assert(fields_json_spec(fields)[i as int] == (
            fields[i as int].0,
            value_json_spec(fields[i as int].1),
        ));
        assert(seq![all[i as int]] + all.skip(i as int + 1) =~= all.skip(i as int));
    } else {
        assert(all.skip(i as int) =~= Seq::empty());
    }
}

} // verus!
