//! JSON values.
use crate::double::{
    double_of_integer, double_of_integer_spec, double_of_unsigned, double_of_unsigned_spec,
    float_equal, float_equal_spec,
};
use crate::ordered::{
    find_slot, keys_sorted, lookup, lower_bound, lower_bound_properties, lower_bound_unique, put,
    put_sorted,
};
use crate::text::same;
use serde_json::Value;
use vstd::prelude::*;

verus! {

/// A JSON value. Numbers that are no integers are held as the bits of a double,
/// the members of objects in the order of their keys.
#[derive(PartialEq, Debug)]
pub enum Json {
    Null,
    Bool(bool),
    Unsigned(u64),
    Negative(i64),
    Float(u64),
    Text(String),
    Array(Vec<Json>),
    Object(Vec<(String, Json)>),
}

/// What a [`Json`] stands for.
pub enum JsonView {
    Null,
    Bool(bool),
    Unsigned(u64),
    Negative(i64),
    Float(u64),
    Text(Seq<char>),
    Array(Seq<JsonView>),
    Object(Seq<(Seq<char>, JsonView)>),
}

/// The members of an object.
pub type MembersView = Seq<(Seq<char>, JsonView)>;

impl Json {
    pub open spec fn view(&self) -> JsonView
        decreases self,
    {
        match self {
            Json::Null => JsonView::Null,
            Json::Bool(b) => JsonView::Bool(*b),
            Json::Unsigned(n) => JsonView::Unsigned(*n),
            Json::Negative(n) => JsonView::Negative(*n),
            Json::Float(n) => JsonView::Float(*n),
            Json::Text(s) => JsonView::Text(s@),
            Json::Array(v) => JsonView::Array(
                Seq::new(
                    v@.len(),
                    |i: int|
                        if 0 <= i < v@.len() {
                            v@[i].view()
                        } else {
                            JsonView::Null
                        },
                ),
            ),
            Json::Object(v) => JsonView::Object(
                Seq::new(
                    v@.len(),
                    |i: int|
                        if 0 <= i < v@.len() {
                            (v@[i].0@, v@[i].1.view())
                        } else {
                            (Seq::empty(), JsonView::Null)
                        },
                ),
            ),
        }
    }
}

/// What a list of JSON values stands for.
pub open spec fn items_view(v: Seq<Json>) -> Seq<JsonView> {
    Seq::new(
        v.len(),
        |i: int|
            if 0 <= i < v.len() {
                v[i].view()
            } else {
                JsonView::Null
            },
    )
}

/// What the members of an object stand for.
pub open spec fn members_view(v: Seq<(String, Json)>) -> MembersView {
    Seq::new(
        v.len(),
        |i: int|
            if 0 <= i < v.len() {
                (v[i].0@, v[i].1.view())
            } else {
                (Seq::empty(), JsonView::Null)
            },
    )
}

/// The view of an array is made of the views of its items.
pub proof fn json_array_view(v: Vec<Json>)
    ensures
        Json::Array(v)@ == JsonView::Array(items_view(v@)),
{
    assert(Json::Array(v)@->Array_0 =~= items_view(v@));
}

/// The view of an object is made of the views of its members.
pub proof fn json_object_view(v: Vec<(String, Json)>)
    ensures
        Json::Object(v)@ == JsonView::Object(members_view(v@)),
{
    assert(Json::Object(v)@->Object_0 =~= members_view(v@));
}

/// A member of an object; nothing for any other value.
pub open spec fn member(v: JsonView, key: Seq<char>) -> Option<JsonView> {
    match v {
        JsonView::Object(members) => lookup(members, key),
        _ => None,
    }
}

/// A member of an object, null where there is none.
pub open spec fn at(v: JsonView, key: Seq<char>) -> JsonView {
    match member(v, key) {
        Some(value) => value,
        None => JsonView::Null,
    }
}

pub open spec fn as_text_spec(v: JsonView) -> Option<Seq<char>> {
    match v {
        JsonView::Text(s) => Some(s),
        _ => None,
    }
}

pub open spec fn as_bool_spec(v: JsonView) -> Option<bool> {
    match v {
        JsonView::Bool(b) => Some(b),
        _ => None,
    }
}

/// The value as a signed integer, where it is one that fits.
pub open spec fn as_integer_spec(v: JsonView) -> Option<i64> {
    match v {
        JsonView::Unsigned(n) => if n <= i64::MAX {
            Some(n as i64)
        } else {
            None
        },
        JsonView::Negative(n) => Some(n),
        _ => None,
    }
}

/// The value as a double, where it is a number.
pub open spec fn as_double_spec(v: JsonView) -> Option<u64> {
    match v {
        JsonView::Unsigned(n) => Some(double_of_unsigned_spec(n)),
        JsonView::Negative(n) => Some(double_of_integer_spec(n)),
        JsonView::Float(bits) => Some(bits),
        _ => None,
    }
}

/// The items of an array; none for any other value.
pub open spec fn items_spec(v: JsonView) -> Seq<JsonView> {
    match v {
        JsonView::Array(items) => items,
        _ => Seq::empty(),
    }
}

/// The items of the array under a key.
pub open spec fn array_at(v: JsonView, key: Seq<char>) -> Seq<JsonView> {
    items_spec(at(v, key))
}

/// The text under a key, empty where there is none.
pub open spec fn text_at(v: JsonView, key: Seq<char>) -> Seq<char> {
    match as_text_spec(at(v, key)) {
        Some(s) => s,
        None => Seq::empty(),
    }
}

pub open spec fn opt_json(v: Option<&Json>) -> Option<JsonView> {
    match v {
        Some(x) => Some(x@),
        None => None,
    }
}

/// An integer as JSON.
pub open spec fn integer_json_spec(n: int) -> JsonView {
    if n >= 0 {
        JsonView::Unsigned(n as u64)
    } else {
        JsonView::Negative(n as i64)
    }
}

impl Json {
    pub fn duplicate(&self) -> (r: Json)
        ensures
            r@ == self@,
        decreases self,
    {
        match self {
            Json::Null => Json::Null,
            Json::Bool(b) => Json::Bool(*b),
            Json::Unsigned(n) => Json::Unsigned(*n),
            Json::Negative(n) => Json::Negative(*n),
            Json::Float(n) => Json::Float(*n),
            Json::Text(s) => Json::Text(s.clone()),
            Json::Array(v) => {
                let mut out: Vec<Json> = Vec::new();
                let mut i: usize = 0;
                while i < v.len()
                    invariant
                        i <= v.len(),
                        out.len() == i,
                        *self is Array,
                        self->Array_0 == *v,
                        forall|j: int| 0 <= j < i ==> #[trigger] out@[j]@ == v@[j]@,
                    decreases v.len() - i,
                {
                    assert(decreases_to!(*v => v@[i as int]));
                    out.push(v[i].duplicate());
                    i += 1;
                }
                assert(items_view(out@) =~= items_view(v@));
                proof {
                    json_array_view(out);
                    json_array_view(*v);
                }
                Json::Array(out)
            },
            Json::Object(v) => {
                let mut out: Vec<(String, Json)> = Vec::new();
                let mut i: usize = 0;
                while i < v.len()
                    invariant
                        i <= v.len(),
                        out.len() == i,
                        *self is Object,
                        self->Object_0 == *v,
                        forall|j: int|
                            0 <= j < i ==> (#[trigger] out@[j]).0@ == v@[j].0@ && out@[j].1@
                                == v@[j].1@,
                    decreases v.len() - i,
                {
                    assert(decreases_to!(*v => v@[i as int]));
                    let key = v[i].0.clone();
                    let value = v[i].1.duplicate();
                    out.push((key, value));
                    i += 1;
                }
                assert(members_view(out@) =~= members_view(v@));
                proof {
                    json_object_view(out);
                    json_object_view(*v);
                }
                Json::Object(out)
            },
        }
    }

    /// A member of an object.
    pub fn get(&self, key: &str) -> (r: Option<&Json>)
        ensures
            opt_json(r) == member(self@, key@),
            r matches Some(v) ==> decreases_to!(*self => *v),
    {
        match self {
            Json::Object(members) => {
                let (i, found) = find_slot(members, key);
                proof {
                    json_object_view(*members);
                    lower_bound_unique(members_view(members@), key@, i as int);
                }
                if found {
                    assert(decreases_to!(*members => members@[i as int]));
                    Some(&members[i].1)
                } else {
                    None
                }
            },
            _ => None,
        }
    }

    pub fn as_text(&self) -> (r: Option<&str>)
        ensures
            match r {
                Some(s) => as_text_spec(self@) == Some(s@),
                None => as_text_spec(self@) is None,
            },
    {
        match self {
            Json::Text(s) => Some(s.as_str()),
            _ => None,
        }
    }

    pub fn as_bool(&self) -> (r: Option<bool>)
        ensures
            r == as_bool_spec(self@),
    {
        match self {
            Json::Bool(b) => Some(*b),
            _ => None,
        }
    }

    pub fn as_integer(&self) -> (r: Option<i64>)
        ensures
            r == as_integer_spec(self@),
    {
        match self {
            Json::Unsigned(n) => if *n <= i64::MAX as u64 {
                Some(*n as i64)
            } else {
                None
            },
            Json::Negative(n) => Some(*n),
            _ => None,
        }
    }

    pub fn as_double(&self) -> (r: Option<u64>)
        ensures
            r == as_double_spec(self@),
    {
        match self {
            Json::Unsigned(n) => Some(double_of_unsigned(*n)),
            Json::Negative(n) => Some(double_of_integer(*n)),
            Json::Float(bits) => Some(*bits),
            _ => None,
        }
    }

    /// The text under a key, empty where there is none.
    pub fn text(&self, key: &str) -> (r: String)
        ensures
            r@ == text_at(self@, key@),
    {
        let found = match self.get(key) {
            Some(v) => match v.as_text() {
                Some(s) => s.to_owned(),
                None => String::new(),
            },
            None => String::new(),
        };
        assert(as_text_spec(at(self@, key@)) is None ==> found@ =~= Seq::empty());
        found
    }

    /// The boolean under a key.
    pub fn bool_at(&self, key: &str) -> (r: Option<bool>)
        ensures
            r == as_bool_spec(at(self@, key@)),
    {
        match self.get(key) {
            Some(v) => v.as_bool(),
            None => None,
        }
    }

    /// The integer under a key.
    pub fn integer_at(&self, key: &str) -> (r: Option<i64>)
        ensures
            r == as_integer_spec(at(self@, key@)),
    {
        match self.get(key) {
            Some(v) => v.as_integer(),
            None => None,
        }
    }

    /// The items of the array under a key, where there is one.
    pub fn items(&self, key: &str) -> (r: Option<&Vec<Json>>)
        ensures
            match r {
                Some(items) => array_at(self@, key@) == items_view(items@),
                None => array_at(self@, key@) == Seq::<JsonView>::empty(),
            },
            r matches Some(items) ==> decreases_to!(*self => *items),
    {
        match self.get(key) {
            Some(v) => match v {
                Json::Array(items) => {
                    proof {
                        json_array_view(*items);
                        assert(decreases_to!(*v => *items));
                    }
                    Some(items)
                },
                _ => None,
            },
            None => None,
        }
    }

    pub fn of_integer(n: i64) -> (r: Json)
        ensures
            r@ == integer_json_spec(n as int),
    {
        if n >= 0 {
            Json::Unsigned(n as u64)
        } else {
            Json::Negative(n)
        }
    }

    pub fn of_text(s: &str) -> (r: Json)
        ensures
            r@ == JsonView::Text(s@),
    {
        Json::Text(s.to_owned())
    }

    /// An object without members.
    pub fn object() -> (r: Json)
        ensures
            r@ == JsonView::Object(Seq::empty()),
    {
        let members: Vec<(String, Json)> = Vec::new();
        proof {
            json_object_view(members);
            assert(members_view(members@) =~= Seq::empty());
        }
        Json::Object(members)
    }

    /// An array of the items.
    pub fn array(items: Vec<Json>) -> (r: Json)
        ensures
            r@ == JsonView::Array(items_view(items@)),
    {
        proof {
            json_array_view(items);
        }
        Json::Array(items)
    }

    /// An object with one more member, in place of one with the same key. Any
    /// other value becomes an object of that member alone.
    pub fn with(self, key: &str, value: Json) -> (r: Json)
        ensures
            r@ == with_member(self@, key@, value@),
    {
        let mut members: Vec<(String, Json)> = match self {
            Json::Object(members) => members,
            _ => Vec::new(),
        };
        let ghost before = members_view(members@);
        proof {
            json_object_view(members);
            assert(!(self is Object) ==> before =~= Seq::empty());
        }
        let (i, found) = find_slot(&members, key);
        proof {
            lower_bound_unique(before, key@, i as int);
        }
        if found {
            members.set(i, (key.to_owned(), value));
            assert(members_view(members@) =~= before.update(i as int, (key@, value@)));
        } else {
            members.insert(i, (key.to_owned(), value));
            assert(members_view(members@) =~= before.insert(i as int, (key@, value@)));
        }
        proof {
            json_object_view(members);
        }
        Json::Object(members)
    }
}

/// An object with one more member, in place of one with the same key.
pub open spec fn with_member(v: JsonView, key: Seq<char>, value: JsonView) -> JsonView {
    match v {
        JsonView::Object(members) => JsonView::Object(put(members, key, value)),
        _ => JsonView::Object(put(Seq::empty(), key, value)),
    }
}

/// An object of no member.
pub open spec fn empty_object() -> JsonView {
    JsonView::Object(Seq::empty())
}

/// An object of one member.
pub open spec fn object1(key: Seq<char>, value: JsonView) -> JsonView {
    with_member(empty_object(), key, value)
}

/// The value at the end of a path of keys.
pub open spec fn pointer(v: JsonView, keys: Seq<Seq<char>>) -> Option<JsonView>
    decreases keys.len(),
{
    if keys.len() == 0 {
        Some(v)
    } else {
        match pointer(v, keys.drop_last()) {
            Some(inner) => member(inner, keys.last()),
            None => None,
        }
    }
}

/// Finds the value under a key of the value under another.
pub fn pointer2<'a>(v: &'a Json, first: &str, second: &str) -> (r: Option<&'a Json>)
    ensures
        opt_json(r) == pointer(v@, seq![first@, second@]),
{
    proof {
        reveal_with_fuel(pointer, 3);
        assert(seq![first@, second@].drop_last() =~= seq![first@]);
        assert(seq![first@].drop_last() =~= Seq::<Seq<char>>::empty());
    }
    match v.get(first) {
        Some(inner) => inner.get(second),
        None => None,
    }
}

/// Finds the value at the end of a path of three keys.
pub fn pointer3<'a>(v: &'a Json, first: &str, second: &str, third: &str) -> (r: Option<&'a Json>)
    ensures
        opt_json(r) == pointer(v@, seq![first@, second@, third@]),
{
    proof {
        reveal_with_fuel(pointer, 2);
        assert(seq![first@, second@, third@].drop_last() =~= seq![first@, second@]);
    }
    match pointer2(v, first, second) {
        Some(inner) => inner.get(third),
        None => None,
    }
}

/// Whether two values are equal. Numbers written with a fraction are compared
/// as numbers.
pub open spec fn json_equal_spec(a: JsonView, b: JsonView) -> bool
    decreases a,
{
    match (a, b) {
        (JsonView::Float(x), JsonView::Float(y)) => float_equal_spec(x, y),
        (JsonView::Array(x), JsonView::Array(y)) => x.len() == y.len() && forall|i: int|
            0 <= i < x.len() ==> json_equal_spec(#[trigger] x[i], y[i]),
        (JsonView::Object(x), JsonView::Object(y)) => x.len() == y.len() && forall|i: int|
            0 <= i < x.len() ==> (#[trigger] x[i]).0 == y[i].0 && json_equal_spec(x[i].1, y[i].1),
        _ => a == b,
    }
}

/// A value is equal to itself.
pub proof fn json_equal_reflexive(a: JsonView)
    ensures
        json_equal_spec(a, a),
    decreases a,
{
    match a {
        JsonView::Array(x) => {
            assert forall|i: int| 0 <= i < x.len() implies json_equal_spec(
                #[trigger] x[i],
                x[i],
            ) by {
                json_equal_reflexive(x[i]);
            }
        },
        JsonView::Object(x) => {
            assert forall|i: int| 0 <= i < x.len() implies json_equal_spec(
                (#[trigger] x[i]).1,
                x[i].1,
            ) by {
                json_equal_reflexive(x[i].1);
            }
        },
        _ => {},
    }
}

fn items_equal(a: &Vec<Json>, b: &Vec<Json>) -> (r: bool)
    ensures
        r == (a@.len() == b@.len() && forall|i: int|
            0 <= i < a@.len() ==> json_equal_spec((#[trigger] a@[i])@, b@[i]@)),
    decreases a,
{
    if a.len() != b.len() {
        return false;
    }
    let mut i: usize = 0;
    while i < a.len()
        invariant
            i <= a@.len(),
            a@.len() == b@.len(),
            forall|j: int| 0 <= j < i ==> json_equal_spec((#[trigger] a@[j])@, b@[j]@),
        decreases a.len() - i,
    {
        assert(decreases_to!(*a => a@[i as int]));
        if !json_equal(&a[i], &b[i]) {
            return false;
        }
        i += 1;
    }
    true
}

fn members_equal(a: &Vec<(String, Json)>, b: &Vec<(String, Json)>) -> (r: bool)
    ensures
        r == (a@.len() == b@.len() && forall|i: int|
            0 <= i < a@.len() ==> (#[trigger] a@[i]).0@ == b@[i].0@ && json_equal_spec(
                a@[i].1@,
                b@[i].1@,
            )),
    decreases a,
{
    if a.len() != b.len() {
        return false;
    }
    let mut i: usize = 0;
    while i < a.len()
        invariant
            i <= a@.len(),
            a@.len() == b@.len(),
            forall|j: int|
                0 <= j < i ==> (#[trigger] a@[j]).0@ == b@[j].0@ && json_equal_spec(
                    a@[j].1@,
                    b@[j].1@,
                ),
        decreases a.len() - i,
    {
        assert(decreases_to!(*a => a@[i as int]));
        if !same(a[i].0.as_str(), b[i].0.as_str()) || !json_equal(&a[i].1, &b[i].1) {
            return false;
        }
        i += 1;
    }
    true
}

/// Compares two values.
pub fn json_equal(a: &Json, b: &Json) -> (r: bool)
    ensures
        r == json_equal_spec(a@, b@),
    decreases a,
{
    match (a, b) {
        (Json::Null, Json::Null) => true,
        (Json::Bool(x), Json::Bool(y)) => *x == *y,
        (Json::Unsigned(x), Json::Unsigned(y)) => *x == *y,
        (Json::Negative(x), Json::Negative(y)) => *x == *y,
        (Json::Float(x), Json::Float(y)) => float_equal(*x, *y),
        (Json::Text(x), Json::Text(y)) => same(x.as_str(), y.as_str()),
        (Json::Array(x), Json::Array(y)) => {
            let r = items_equal(x, y);
            proof {
                json_array_view(*x);
                json_array_view(*y);
                let (u, v) = (items_view(x@), items_view(y@));
                assert(forall|i: int| 0 <= i < u.len() ==> u[i] == (#[trigger] x@[i])@);
                assert(forall|i: int| 0 <= i < v.len() ==> v[i] == (#[trigger] y@[i])@);
                if r {
                    assert forall|i: int| 0 <= i < u.len() implies json_equal_spec(
                        #[trigger] u[i],
                        v[i],
                    ) by {
                        assert(json_equal_spec(x@[i]@, y@[i]@));
                    }
                } else if x@.len() == y@.len() {
                    let i = choose|i: int|
                        0 <= i < x@.len() && !json_equal_spec((#[trigger] x@[i])@, y@[i]@);
                    assert(!json_equal_spec(u[i], v[i]));
                }
            }
            r
        },
        (Json::Object(x), Json::Object(y)) => {
            let r = members_equal(x, y);
            proof {
                json_object_view(*x);
                json_object_view(*y);
                let (u, v) = (members_view(x@), members_view(y@));
                assert(forall|i: int|
                    0 <= i < u.len() ==> u[i] == ((#[trigger] x@[i]).0@, x@[i].1@));
                assert(forall|i: int|
                    0 <= i < v.len() ==> v[i] == ((#[trigger] y@[i]).0@, y@[i].1@));
                if r {
                    assert forall|i: int| 0 <= i < u.len() implies (#[trigger] u[i]).0 == v[i].0
                        && json_equal_spec(u[i].1, v[i].1) by {
                        assert(x@[i].0@ == y@[i].0@);
                    }
                } else if x@.len() == y@.len() {
                    let i = choose|i: int|
                        0 <= i < x@.len() && !((#[trigger] x@[i]).0@ == y@[i].0@
                            && json_equal_spec(x@[i].1@, y@[i].1@));
                    assert(!(u[i].0 == v[i].0 && json_equal_spec(u[i].1, v[i].1)));
                }
            }
            r
        },
        _ => false,
    }
}

/// The outside type that `serde_json` parses into and writes from.
#[verifier::external_type_specification]
#[verifier::external_body]
pub struct ExSerdeValue(serde_json::Value);

/// The value that `serde_json::from_str` reads from a text, if it is JSON.
pub uninterp spec fn json_of_text(text: Seq<char>) -> Option<JsonView>;

/// The text that `serde_json` writes for a value.
pub uninterp spec fn text_of_json(value: JsonView) -> Seq<char>;

/// Converts a `serde_json::Value`, variant by variant.
#[verifier::external_body]
fn of_serde(value: Value) -> (r: Json) {
    match value {
        Value::Null => Json::Null,
        Value::Bool(b) => Json::Bool(b),
        Value::Number(n) => match (n.as_u64(), n.as_i64()) {
            (Some(u), _) => Json::Unsigned(u),
            (_, Some(i)) => Json::Negative(i),
            _ => Json::Float(n.as_f64().map_or(0, |x| x.to_bits())),
        },
        Value::String(s) => Json::Text(s),
        Value::Array(a) => Json::Array(a.into_iter().map(of_serde).collect()),
        Value::Object(o) => Json::Object(o.into_iter().map(|(k, v)| (k, of_serde(v))).collect()),
    }
}

/// Converts to a `serde_json::Value`, variant by variant; a number that JSON
/// cannot write becomes null.
#[verifier::external_body]
fn to_serde(value: &Json) -> (r: Value) {
    match value {
        Json::Null => Value::Null,
        Json::Bool(b) => Value::Bool(*b),
        Json::Unsigned(n) => Value::from(*n),
        Json::Negative(n) => Value::from(*n),
        Json::Float(n) => Value::from(prost::bytes::Buf::get_f64(&mut &n.to_be_bytes()[..])),
        Json::Text(s) => Value::from(s.as_str()),
        Json::Array(a) => Value::Array(a.iter().map(to_serde).collect()),
        Json::Object(o) => Value::Object(o.iter().map(|(k, v)| (k.clone(), to_serde(v))).collect()),
    }
}

/// Whether the members of an object stand in the order of their keys.
pub open spec fn members_sorted(v: JsonView) -> bool {
    v matches JsonView::Object(members) ==> keys_sorted(members)
}

/// Whether a value of at most `depth` levels is made of texts, integers,
/// truth values and nulls, with the members of each object in the order of
/// their keys.
pub open spec fn is_plain_json(v: JsonView, depth: nat) -> bool
    decreases depth,
{
    match v {
        JsonView::Float(_) => false,
        JsonView::Negative(n) => n < 0,
        JsonView::Array(items) => depth > 0 && forall|i: int|
            0 <= i < items.len() ==> is_plain_json(#[trigger] items[i], (depth - 1) as nat),
        JsonView::Object(members) => depth > 0 && keys_sorted(members) && forall|i: int|
            0 <= i < members.len() ==> is_plain_json((#[trigger] members[i]).1, (depth - 1) as nat),
        _ => true,
    }
}

/// A plain member leaves an object plain.
pub proof fn member_stays_plain(v: JsonView, key: Seq<char>, value: JsonView, depth: nat)
    requires
        v is Object,
        is_plain_json(v, depth),
        is_plain_json(value, (depth - 1) as nat),
    ensures
        is_plain_json(with_member(v, key, value), depth),
{
    let members = v->Object_0;
    put_sorted(members, key, value);
    lower_bound_properties(members, key);
    let after = put(members, key, value);
    let b = lower_bound(members, key);
    assert forall|i: int| 0 <= i < after.len() implies is_plain_json(
        (#[trigger] after[i]).1,
        (depth - 1) as nat,
    ) by {
        if i != b {
            if b < members.len() && members[b].0 == key {
                assert(after[i] == members[i]);
            } else if i < b {
                assert(after[i] == members[i]);
            } else {
                assert(after[i] == members[i - 1]);
            }
        }
    }
}

/// What `serde_json::from_str` says of a text that is no JSON.
pub uninterp spec fn json_error_text(text: Seq<char>) -> Seq<char>;

/// Reads JSON with `serde_json::from_str`, which keeps the members of an
/// object in the order of their keys, or tells what its error displays as.
#[verifier::external_body]
pub(crate) fn parse_json_or_error(text: &str) -> (r: Result<Json, String>)
    ensures
        match r {
            Ok(value) => json_of_text(text@) == Some(value@) && members_sorted(value@),
            Err(e) => json_of_text(text@) is None && e@ == json_error_text(text@),
        },
{
    serde_json::from_str(text).map(of_serde).map_err(|e: serde_json::Error| e.to_string())
}

/// Reads JSON, where a text is that.
pub(crate) fn parse_json(text: &str) -> (r: Option<Json>)
    ensures
        match r {
            Some(value) => json_of_text(text@) == Some(value@) && members_sorted(value@),
            None => json_of_text(text@) is None,
        },
{
    match parse_json_or_error(text) {
        Ok(value) => Some(value),
        Err(_) => None,
    }
}

/// Writes JSON with the `Display` of `serde_json::Value`. Where the value has
/// no fractions and at most 100 levels, `serde_json::from_str` reads it back.
#[verifier::external_body]
pub(crate) fn write_json(value: &Json) -> (r: String)
    ensures
        r@ == text_of_json(value@),
        is_plain_json(value@, 100) ==> json_of_text(r@) == Some(value@),
{
    to_serde(value).to_string()
}

impl Json {
    /// Reads JSON.
    pub fn parse(text: &str) -> (r: Option<Json>)
        ensures
            (match r {
                Some(v) => Some(v@),
                None => None,
            }) == json_of_text(text@),
    {
        parse_json(text)
    }

    /// Writes JSON.
    pub fn to_text(&self) -> (r: String)
        ensures
            r@ == text_of_json(self@),
            is_plain_json(self@, 100) ==> json_of_text(r@) == Some(self@),
    {
        write_json(self)
    }
}

} // verus!
