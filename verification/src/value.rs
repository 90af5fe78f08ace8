//! Firestore values: their kinds, their order and their equality.
use crate::double::{
    compare_doubles, compare_doubles_spec, compare_int, compare_integer_double,
    compare_integer_double_spec, float_equal, float_equal_spec, scaled_integer_order, Comparison,
};
use crate::ordered::{find_slot, lookup, lower_bound_unique, put, without, Duplicate};
use crate::text::{
    less, same, text_less, text_less_irreflexive, text_less_total, text_less_transitive,
};
use vstd::prelude::*;

verus! {

/// A point in time.
#[derive(Clone, Copy, PartialEq, Eq, Debug, Structural)]
pub struct Timestamp {
    pub seconds: i64,
    pub nanos: i32,
}

/// A Firestore value. Doubles are held as their bits.
#[derive(PartialEq, Debug)]
pub enum FieldValue {
    Unset,
    Null,
    Boolean(bool),
    Integer(i64),
    Double(u64),
    Timestamp(Timestamp),
    Text(String),
    Bytes(Vec<u8>),
    Reference(String),
    GeoPoint(u64, u64),
    Array(Vec<FieldValue>),
    Fields(Vec<(String, FieldValue)>),
}

/// What a [`FieldValue`] stands for.
pub enum ValueView {
    Unset,
    Null,
    Boolean(bool),
    Integer(i64),
    Double(u64),
    Timestamp(Timestamp),
    Text(Seq<char>),
    Bytes(Seq<u8>),
    Reference(Seq<char>),
    GeoPoint(u64, u64),
    Array(Seq<ValueView>),
    Fields(Seq<(Seq<char>, ValueView)>),
}

/// What a list of named values stands for.
pub type FieldsView = Seq<(Seq<char>, ValueView)>;

impl FieldValue {
    pub open spec fn view(&self) -> ValueView
        decreases self,
    {
        match self {
            FieldValue::Unset => ValueView::Unset,
            FieldValue::Null => ValueView::Null,
            FieldValue::Boolean(b) => ValueView::Boolean(*b),
            FieldValue::Integer(i) => ValueView::Integer(*i),
            FieldValue::Double(d) => ValueView::Double(*d),
            FieldValue::Timestamp(t) => ValueView::Timestamp(*t),
            FieldValue::Text(s) => ValueView::Text(s@),
            FieldValue::Bytes(b) => ValueView::Bytes(b@),
            FieldValue::Reference(s) => ValueView::Reference(s@),
            FieldValue::GeoPoint(a, b) => ValueView::GeoPoint(*a, *b),
            FieldValue::Array(v) => ValueView::Array(
                Seq::new(
                    v@.len(),
                    |i: int|
                        if 0 <= i < v@.len() {
                            v@[i].view()
                        } else {
                            ValueView::Unset
                        },
                ),
            ),
            FieldValue::Fields(v) => ValueView::Fields(
                Seq::new(
                    v@.len(),
                    |i: int|
                        if 0 <= i < v@.len() {
                            (v@[i].0@, v@[i].1.view())
                        } else {
                            (Seq::empty(), ValueView::Unset)
                        },
                ),
            ),
        }
    }
}

/// What a list of values stands for.
pub open spec fn values_view(v: Seq<FieldValue>) -> Seq<ValueView> {
    Seq::new(
        v.len(),
        |i: int|
            if 0 <= i < v.len() {
                v[i].view()
            } else {
                ValueView::Unset
            },
    )
}

/// What a list of named values stands for.
pub open spec fn fields_view(v: Seq<(String, FieldValue)>) -> FieldsView {
    Seq::new(
        v.len(),
        |i: int|
            if 0 <= i < v.len() {
                (v[i].0@, v[i].1.view())
            } else {
                (Seq::empty(), ValueView::Unset)
            },
    )
}

pub open spec fn opt_value(v: Option<FieldValue>) -> Option<ValueView> {
    match v {
        Some(x) => Some(x@),
        None => None,
    }
}

pub open spec fn opt_value_ref(v: Option<&FieldValue>) -> Option<ValueView> {
    match v {
        Some(x) => Some(x@),
        None => None,
    }
}

/// The view of an array is made of the views of its values.
pub proof fn array_view(v: Vec<FieldValue>)
    ensures
        FieldValue::Array(v)@ == ValueView::Array(values_view(v@)),
{
    assert(FieldValue::Array(v)@->Array_0 =~= values_view(v@));
}

/// The view of fields is made of the views of their values.
pub proof fn fields_value_view(v: Vec<(String, FieldValue)>)
    ensures
        FieldValue::Fields(v)@ == ValueView::Fields(fields_view(v@)),
{
    assert(FieldValue::Fields(v)@->Fields_0 =~= fields_view(v@));
}

/// Copies bytes.
pub(crate) fn copy_bytes(bytes: &Vec<u8>) -> (r: Vec<u8>)
    ensures
        r@ == bytes@,
{
    let mut out: Vec<u8> = Vec::new();
    let mut i: usize = 0;
    while i < bytes.len()
        invariant
            i <= bytes.len(),
            out@ == bytes@.take(i as int),
        decreases bytes.len() - i,
    {
        out.push(bytes[i]);
        i += 1;
    }
    assert(out@ =~= bytes@);
    out
}

impl FieldValue {
    pub fn duplicate(&self) -> (r: FieldValue)
        ensures
            r@ == self@,
        decreases self,
    {
        match self {
            FieldValue::Unset => FieldValue::Unset,
            FieldValue::Null => FieldValue::Null,
            FieldValue::Boolean(b) => FieldValue::Boolean(*b),
            FieldValue::Integer(i) => FieldValue::Integer(*i),
            FieldValue::Double(d) => FieldValue::Double(*d),
            FieldValue::Timestamp(t) => FieldValue::Timestamp(*t),
            FieldValue::Text(s) => FieldValue::Text(s.clone()),
            FieldValue::Bytes(b) => FieldValue::Bytes(copy_bytes(b)),
            FieldValue::Reference(s) => FieldValue::Reference(s.clone()),
            FieldValue::GeoPoint(a, b) => FieldValue::GeoPoint(*a, *b),
            FieldValue::Array(v) => {
                let mut out: Vec<FieldValue> = Vec::new();
                let mut i: usize = 0;
                while i < v.len()
                    invariant
                        i <= v.len(),
                        out.len() == i,
                        *self is Array,
                        self->Array_0 == *v,
                        forall|j: int| 0 <= j < i ==> #[trigger] out@[j]@ == v@[j]@,
                    decreases v.len() - i,
                {
                    assert(decreases_to!(*v => v@[i as int]));
                    out.push(v[i].duplicate());
                    i += 1;
                }
                assert(values_view(out@) =~= values_view(v@));
                let r = FieldValue::Array(out);
                proof {
                    array_view(out);
                    array_view(*v);
                }
                r
            },
            FieldValue::Fields(v) => {
                let mut out: Vec<(String, FieldValue)> = Vec::new();
                let mut i: usize = 0;
                while i < v.len()
                    invariant
                        i <= v.len(),
                        out.len() == i,
                        *self is Fields,
                        self->Fields_0 == *v,
                        forall|j: int|
                            0 <= j < i ==> (#[trigger] out@[j]).0@ == v@[j].0@ && out@[j].1@
                                == v@[j].1@,
                    decreases v.len() - i,
                {
                    assert(decreases_to!(*v => v@[i as int]));
                    let key = v[i].0.clone();
                    let value = v[i].1.duplicate();
                    out.push((key, value));
                    i += 1;
                }
                assert(fields_view(out@) =~= fields_view(v@));
                let r = FieldValue::Fields(out);
                proof {
                    fields_value_view(out);
                    fields_value_view(*v);
                }
                r
            },
        }
    }
}

/// Copies named values.
pub fn copy_fields(fields: &Vec<(String, FieldValue)>) -> (r: Vec<(String, FieldValue)>)
    ensures
        fields_view(r@) == fields_view(fields@),
{
    let mut out: Vec<(String, FieldValue)> = Vec::new();
    let mut i: usize = 0;
    while i < fields.len()
        invariant
            i <= fields.len(),
            out.len() == i,
            forall|j: int|
                0 <= j < i ==> (#[trigger] out@[j]).0@ == fields@[j].0@ && out@[j].1@
                    == fields@[j].1@,
        decreases fields.len() - i,
    {
        let key = fields[i].0.clone();
        let value = fields[i].1.duplicate();
        out.push((key, value));
        i += 1;
    }
    assert(fields_view(out@) =~= fields_view(fields@));
    out
}

/// The place of a value's kind among the kinds.
pub open spec fn value_rank_spec(v: ValueView) -> u8 {
    match v {
        ValueView::Unset | ValueView::Null => 0,
        ValueView::Boolean(_) => 1,
        ValueView::Integer(_) | ValueView::Double(_) => 2,
        ValueView::Timestamp(_) => 3,
        ValueView::Text(_) => 4,
        ValueView::Bytes(_) => 5,
        ValueView::Reference(_) => 6,
        ValueView::GeoPoint(_, _) => 7,
        ValueView::Array(_) => 8,
        ValueView::Fields(_) => 9,
    }
}

pub fn value_rank(v: &FieldValue) -> (r: u8)
    ensures
        r == value_rank_spec(v@),
{
    match v {
        FieldValue::Unset | FieldValue::Null => 0,
        FieldValue::Boolean(_) => 1,
        FieldValue::Integer(_) | FieldValue::Double(_) => 2,
        FieldValue::Timestamp(_) => 3,
        FieldValue::Text(_) => 4,
        FieldValue::Bytes(_) => 5,
        FieldValue::Reference(_) => 6,
        FieldValue::GeoPoint(_, _) => 7,
        FieldValue::Array(_) => 8,
        FieldValue::Fields(_) => 9,
    }
}

/// The order of texts.
pub open spec fn compare_text_spec(a: Seq<char>, b: Seq<char>) -> Comparison {
    if text_less(a, b) {
        Comparison::Less
    } else if a == b {
        Comparison::Equal
    } else {
        Comparison::Greater
    }
}

pub fn compare_text(a: &str, b: &str) -> (r: Comparison)
    ensures
        r == compare_text_spec(a@, b@),
{
    if less(a, b) {
        Comparison::Less
    } else if same(a, b) {
        Comparison::Equal
    } else {
        Comparison::Greater
    }
}

/// The order of bytes: the first difference decides, then the length.
pub open spec fn compare_bytes_spec(a: Seq<u8>, b: Seq<u8>) -> Comparison
    decreases a.len(),
{
    if a.len() == 0 || b.len() == 0 {
        compare_int(a.len() as int, b.len() as int)
    } else if a[0] == b[0] {
        compare_bytes_spec(a.drop_first(), b.drop_first())
    } else {
        compare_int(a[0] as int, b[0] as int)
    }
}

fn compare_bytes(a: &Vec<u8>, b: &Vec<u8>) -> (r: Comparison)
    ensures
        r == compare_bytes_spec(a@, b@),
{
    let mut i: usize = 0;
    assert(a@.skip(0) =~= a@ && b@.skip(0) =~= b@);
    while i < a.len() && i < b.len() && a[i] == b[i]
        invariant
            i <= a.len(),
            i <= b.len(),
            compare_bytes_spec(a@, b@) == compare_bytes_spec(a@.skip(i as int), b@.skip(i as int)),
        decreases a.len() - i,
    {
        assert(a@.skip(i as int).drop_first() =~= a@.skip(i + 1));
        assert(b@.skip(i as int).drop_first() =~= b@.skip(i + 1));
        i += 1;
    }
    if i < a.len() && i < b.len() {
        if a[i] < b[i] {
            Comparison::Less
        } else {
            Comparison::Greater
        }
    } else if a.len() < b.len() {
        Comparison::Less
    } else if a.len() == b.len() {
        Comparison::Equal
    } else {
        Comparison::Greater
    }
}

/// `first`, unless it is a tie that `second` breaks.
pub open spec fn and_next(first: Comparison, second: Comparison) -> Comparison {
    if first == Comparison::Equal {
        second
    } else {
        first
    }
}

/// The order of Firestore values: by kind, then within the kind.
pub open spec fn compare_spec(a: ValueView, b: ValueView) -> Comparison
    decreases a, 0nat,
{
    if value_rank_spec(a) != value_rank_spec(b) {
        compare_int(value_rank_spec(a) as int, value_rank_spec(b) as int)
    } else {
        match (a, b) {
            (ValueView::Integer(x), ValueView::Integer(y)) => compare_int(x as int, y as int),
            (ValueView::Integer(x), ValueView::Double(y)) => compare_integer_double_spec(x, y),
            (ValueView::Double(x), ValueView::Integer(y)) => compare_integer_double_spec(
                y,
                x,
            ).reverse_spec(),
            (ValueView::Double(x), ValueView::Double(y)) => compare_doubles_spec(x, y),
            (ValueView::Boolean(x), ValueView::Boolean(y)) => if x == y {
                Comparison::Equal
            } else if y {
                Comparison::Less
            } else {
                Comparison::Greater
            },
            (ValueView::Text(x), ValueView::Text(y)) => compare_text_spec(x, y),
            (ValueView::Reference(x), ValueView::Reference(y)) => compare_text_spec(x, y),
            (ValueView::Bytes(x), ValueView::Bytes(y)) => compare_bytes_spec(x, y),
            (ValueView::Timestamp(x), ValueView::Timestamp(y)) => and_next(
                compare_int(x.seconds as int, y.seconds as int),
                compare_int(x.nanos as int, y.nanos as int),
            ),
            (ValueView::GeoPoint(x1, x2), ValueView::GeoPoint(y1, y2)) => and_next(
                compare_doubles_spec(x1, y1),
                compare_doubles_spec(x2, y2),
            ),
            (ValueView::Array(x), ValueView::Array(y)) => compare_lists_spec(x, y, 0),
            (ValueView::Fields(x), ValueView::Fields(y)) => compare_fields_spec(x, y, 0),
            _ => Comparison::Equal,
        }
    }
}

/// The order of lists from position `i` on: the first difference decides,
/// then the length.
pub open spec fn compare_lists_spec(a: Seq<ValueView>, b: Seq<ValueView>, i: nat) -> Comparison
    decreases a, a.len() - i,
{
    if i >= a.len() || i >= b.len() {
        compare_int(a.len() as int, b.len() as int)
    } else {
        and_next(compare_spec(a[i as int], b[i as int]), compare_lists_spec(a, b, i + 1))
    }
}

/// The order of named values from position `i` on: the first difference in a
/// name or a value decides, then the length.
pub open spec fn compare_fields_spec(a: FieldsView, b: FieldsView, i: nat) -> Comparison
    decreases a, a.len() - i,
{
    if i >= a.len() || i >= b.len() {
        compare_int(a.len() as int, b.len() as int)
    } else {
        and_next(
            and_next(
                compare_text_spec(a[i as int].0, b[i as int].0),
                compare_spec(a[i as int].1, b[i as int].1),
            ),
            compare_fields_spec(a, b, i + 1),
        )
    }
}

fn compare_i64(a: i64, b: i64) -> (r: Comparison)
    ensures
        r == compare_int(a as int, b as int),
{
    if a < b {
        Comparison::Less
    } else if a == b {
        Comparison::Equal
    } else {
        Comparison::Greater
    }
}

fn compare_lists(a: &Vec<FieldValue>, b: &Vec<FieldValue>) -> (r: Comparison)
    ensures
        r == compare_lists_spec(values_view(a@), values_view(b@), 0),
    decreases a,
{
    let mut i: usize = 0;
    let ghost x = values_view(a@);
    let ghost y = values_view(b@);
    while i < a.len() && i < b.len()
        invariant
            i <= a.len(),
            i <= b.len(),
            x == values_view(a@),
            y == values_view(b@),
            compare_lists_spec(x, y, 0) == compare_lists_spec(x, y, i as nat),
        decreases a.len() - i,
    {
        assert(decreases_to!(*a => a@[i as int]));
        let c = compare(&a[i], &b[i]);
        match c {
            Comparison::Equal => {},
            _ => {
                return c;
            },
        }
        i += 1;
    }
    compare_usize(a.len(), b.len())
}

fn compare_usize(a: usize, b: usize) -> (r: Comparison)
    ensures
        r == compare_int(a as int, b as int),
{
    if a < b {
        Comparison::Less
    } else if a == b {
        Comparison::Equal
    } else {
        Comparison::Greater
    }
}

fn compare_fields(a: &Vec<(String, FieldValue)>, b: &Vec<(String, FieldValue)>) -> (r: Comparison)
    ensures
        r == compare_fields_spec(fields_view(a@), fields_view(b@), 0),
    decreases a,
{
    let mut i: usize = 0;
    let ghost x = fields_view(a@);
    let ghost y = fields_view(b@);
    while i < a.len() && i < b.len()
        invariant
            i <= a.len(),
            i <= b.len(),
            x == fields_view(a@),
            y == fields_view(b@),
            compare_fields_spec(x, y, 0) == compare_fields_spec(x, y, i as nat),
        decreases a.len() - i,
    {
        let keys = compare_text(a[i].0.as_str(), b[i].0.as_str());
        match keys {
            Comparison::Equal => {},
            _ => {
                return keys;
            },
        }
        assert(decreases_to!(*a => a@[i as int]));
        let c = compare(&a[i].1, &b[i].1);
        match c {
            Comparison::Equal => {},
            _ => {
                return c;
            },
        }
        i += 1;
    }
    compare_usize(a.len(), b.len())
}

/// How two values stand to each other.
pub fn compare(a: &FieldValue, b: &FieldValue) -> (r: Comparison)
    ensures
        r == compare_spec(a@, b@),
    decreases a,
{
    let rank_a = value_rank(a);
    let rank_b = value_rank(b);
    if rank_a < rank_b {
        return Comparison::Less;
    }
    if rank_a > rank_b {
        return Comparison::Greater;
    }
    match (a, b) {
        (FieldValue::Integer(x), FieldValue::Integer(y)) => compare_i64(*x, *y),
        (FieldValue::Integer(x), FieldValue::Double(y)) => compare_integer_double(*x, *y),
        (FieldValue::Double(x), FieldValue::Integer(y)) => compare_integer_double(*y, *x).reverse(),
        (FieldValue::Double(x), FieldValue::Double(y)) => compare_doubles(*x, *y),
        (FieldValue::Boolean(x), FieldValue::Boolean(y)) => if *x == *y {
            Comparison::Equal
        } else if *y {
            Comparison::Less
        } else {
            Comparison::Greater
        },
        (FieldValue::Text(x), FieldValue::Text(y)) => compare_text(x.as_str(), y.as_str()),
        (FieldValue::Reference(x), FieldValue::Reference(y)) => compare_text(x.as_str(), y.as_str()),
        (FieldValue::Bytes(x), FieldValue::Bytes(y)) => compare_bytes(x, y),
        (FieldValue::Timestamp(x), FieldValue::Timestamp(y)) => {
            match compare_i64(x.seconds, y.seconds) {
                Comparison::Equal => compare_i64(x.nanos as i64, y.nanos as i64),
                c => c,
            }
        },
        (FieldValue::GeoPoint(x1, x2), FieldValue::GeoPoint(y1, y2)) => {
            match compare_doubles(*x1, *y1) {
                Comparison::Equal => compare_doubles(*x2, *y2),
                c => c,
            }
        },
        (FieldValue::Array(x), FieldValue::Array(y)) => {
            proof {
                array_view(*x);
                array_view(*y);
            }
            compare_lists(x, y)
        },
        (FieldValue::Fields(x), FieldValue::Fields(y)) => {
            proof {
                fields_value_view(*x);
                fields_value_view(*y);
            }
            compare_fields(x, y)
        },
        _ => Comparison::Equal,
    }
}

proof fn compare_text_laws(a: Seq<char>, b: Seq<char>, c: Seq<char>)
    ensures
        compare_text_spec(a, a) == Comparison::Equal,
        compare_text_spec(b, a) == compare_text_spec(a, b).reverse_spec(),
        compare_text_spec(a, b) != Comparison::Greater && compare_text_spec(b, c)
            != Comparison::Greater ==> compare_text_spec(a, c) == and_next(
            compare_text_spec(a, b),
            compare_text_spec(b, c),
        ),
{
    text_less_irreflexive(a);
    text_less_total(a, b);
    if text_less(a, b) && text_less(b, a) {
        text_less_transitive(a, b, a);
    }
    if text_less(a, b) && text_less(b, c) {
        text_less_transitive(a, b, c);
    }
}

proof fn compare_bytes_laws(a: Seq<u8>, b: Seq<u8>, c: Seq<u8>)
    ensures
        compare_bytes_spec(a, a) == Comparison::Equal,
        compare_bytes_spec(b, a) == compare_bytes_spec(a, b).reverse_spec(),
        compare_bytes_spec(a, b) != Comparison::Greater && compare_bytes_spec(b, c)
            != Comparison::Greater ==> compare_bytes_spec(a, c) == and_next(
            compare_bytes_spec(a, b),
            compare_bytes_spec(b, c),
        ),
    decreases a.len() + b.len() + c.len(),
{
    if a.len() > 0 && b.len() > 0 && c.len() > 0 {
        compare_bytes_laws(a.drop_first(), b.drop_first(), c.drop_first());
    } else if a.len() > 0 && b.len() > 0 {
        compare_bytes_laws(a.drop_first(), b.drop_first(), c);
    } else if a.len() > 0 {
        compare_bytes_laws(a.drop_first(), b, c);
    }
}

/// Every value stands level with itself.
pub proof fn compare_reflexive(a: ValueView)
    ensures
        compare_spec(a, a) == Comparison::Equal,
    decreases a, 0nat,
{
    match a {
        ValueView::Text(x) => compare_text_laws(x, x, x),
        ValueView::Reference(x) => compare_text_laws(x, x, x),
        ValueView::Bytes(x) => compare_bytes_laws(x, x, x),
        ValueView::Array(x) => compare_lists_reflexive(x, 0),
        ValueView::Fields(x) => compare_fields_reflexive(x, 0),
        _ => {},
    }
}

proof fn compare_lists_reflexive(a: Seq<ValueView>, i: nat)
    ensures
        compare_lists_spec(a, a, i) == Comparison::Equal,
    decreases a, a.len() - i,
{
    if i < a.len() {
        compare_reflexive(a[i as int]);
        compare_lists_reflexive(a, i + 1);
    }
}

proof fn compare_fields_reflexive(a: FieldsView, i: nat)
    ensures
        compare_fields_spec(a, a, i) == Comparison::Equal,
    decreases a, a.len() - i,
{
    if i < a.len() {
        compare_text_laws(a[i as int].0, a[i as int].0, a[i as int].0);
        compare_reflexive(a[i as int].1);
        compare_fields_reflexive(a, i + 1);
    }
}

/// Swapping two values reverses how they stand to each other.
pub proof fn compare_antisymmetric(a: ValueView, b: ValueView)
    ensures
        compare_spec(b, a) == compare_spec(a, b).reverse_spec(),
    decreases a, 0nat,
{
    if value_rank_spec(a) == value_rank_spec(b) {
        match (a, b) {
            (ValueView::Text(x), ValueView::Text(y)) => compare_text_laws(x, y, x),
            (ValueView::Reference(x), ValueView::Reference(y)) => compare_text_laws(x, y, x),
            (ValueView::Bytes(x), ValueView::Bytes(y)) => compare_bytes_laws(x, y, x),
            (ValueView::Array(x), ValueView::Array(y)) => compare_lists_antisymmetric(x, y, 0),
            (ValueView::Fields(x), ValueView::Fields(y)) => compare_fields_antisymmetric(x, y, 0),
            _ => {},
        }
    }
}

proof fn compare_lists_antisymmetric(a: Seq<ValueView>, b: Seq<ValueView>, i: nat)
    ensures
        compare_lists_spec(b, a, i) == compare_lists_spec(a, b, i).reverse_spec(),
    decreases a, a.len() - i,
{
    if i < a.len() && i < b.len() {
        compare_antisymmetric(a[i as int], b[i as int]);
        compare_lists_antisymmetric(a, b, i + 1);
    }
}

proof fn compare_fields_antisymmetric(a: FieldsView, b: FieldsView, i: nat)
    ensures
        compare_fields_spec(b, a, i) == compare_fields_spec(a, b, i).reverse_spec(),
    decreases a, a.len() - i,
{
    if i < a.len() && i < b.len() {
        compare_text_laws(a[i as int].0, b[i as int].0, a[i as int].0);
        compare_antisymmetric(a[i as int].1, b[i as int].1);
        compare_fields_antisymmetric(a, b, i + 1);
    }
}

/// The order of values is transitive: a value that does not stand after a
/// second one, which does not stand after a third one, stands to the third as
/// the first of the two comparisons that is not a tie says.
pub proof fn compare_transitive(a: ValueView, b: ValueView, c: ValueView)
    requires
        compare_spec(a, b) != Comparison::Greater,
        compare_spec(b, c) != Comparison::Greater,
    ensures
        compare_spec(a, c) == and_next(compare_spec(a, b), compare_spec(b, c)),
    decreases a, 0nat,
{
    if value_rank_spec(a) == value_rank_spec(b) && value_rank_spec(b) == value_rank_spec(c) {
        match (a, b, c) {
            (ValueView::Text(x), ValueView::Text(y), ValueView::Text(z)) => {
                compare_text_laws(x, y, z);
            },
            (ValueView::Reference(x), ValueView::Reference(y), ValueView::Reference(z)) => {
                compare_text_laws(x, y, z);
            },
            (ValueView::Bytes(x), ValueView::Bytes(y), ValueView::Bytes(z)) => {
                compare_bytes_laws(x, y, z);
            },
            (ValueView::Array(x), ValueView::Array(y), ValueView::Array(z)) => {
                compare_lists_transitive(x, y, z, 0);
            },
            (ValueView::Fields(x), ValueView::Fields(y), ValueView::Fields(z)) => {
                compare_fields_transitive(x, y, z, 0);
            },
            (ValueView::Integer(x), ValueView::Integer(y), _) => {
                scaled_integer_order(x as int, y as int);
            },
            (_, ValueView::Integer(y), ValueView::Integer(z)) => {
                scaled_integer_order(y as int, z as int);
            },
            (ValueView::Integer(x), _, ValueView::Integer(z)) => {
                scaled_integer_order(x as int, z as int);
            },
            _ => {},
        }
    }
}

proof fn compare_lists_transitive(
    a: Seq<ValueView>,
    b: Seq<ValueView>,
    c: Seq<ValueView>,
    i: nat,
)
    requires
        i <= a.len() && i <= b.len() && i <= c.len(),
        compare_lists_spec(a, b, i) != Comparison::Greater,
        compare_lists_spec(b, c, i) != Comparison::Greater,
    ensures
        compare_lists_spec(a, c, i) == and_next(
            compare_lists_spec(a, b, i),
            compare_lists_spec(b, c, i),
        ),
    decreases a, a.len() - i,
{
    if i < a.len() && i < b.len() && i < c.len() {
        let k = i as int;
        compare_transitive(a[k], b[k], c[k]);
        if compare_spec(a[k], b[k]) == Comparison::Equal && compare_spec(b[k], c[k])
            == Comparison::Equal {
            compare_lists_transitive(a, b, c, i + 1);
        }
    }
}

proof fn compare_fields_transitive(a: FieldsView, b: FieldsView, c: FieldsView, i: nat)
    requires
        i <= a.len() && i <= b.len() && i <= c.len(),
        compare_fields_spec(a, b, i) != Comparison::Greater,
        compare_fields_spec(b, c, i) != Comparison::Greater,
    ensures
        compare_fields_spec(a, c, i) == and_next(
            compare_fields_spec(a, b, i),
            compare_fields_spec(b, c, i),
        ),
    decreases a, a.len() - i,
{
    if i < a.len() && i < b.len() && i < c.len() {
        let k = i as int;
        compare_text_laws(a[k].0, b[k].0, c[k].0);
        if a[k].0 == b[k].0 && b[k].0 == c[k].0 {
            compare_transitive(a[k].1, b[k].1, c[k].1);
            if compare_spec(a[k].1, b[k].1) == Comparison::Equal && compare_spec(b[k].1, c[k].1)
                == Comparison::Equal {
                compare_fields_transitive(a, b, c, i + 1);
            }
        }
    }
}

/// Whether two values are equal for an array transform: integers and doubles
/// by value, all not-a-numbers alike, named values regardless of order.
pub open spec fn transform_value_equal_spec(a: ValueView, b: ValueView) -> bool
    decreases a,
{
    match (a, b) {
        (ValueView::Unset, ValueView::Unset) => true,
        (ValueView::Null, ValueView::Null) => true,
        (ValueView::Boolean(x), ValueView::Boolean(y)) => x == y,
        (ValueView::Integer(x), ValueView::Integer(y)) => x == y,
        (ValueView::Integer(x), ValueView::Double(y)) => compare_integer_double_spec(x, y)
            == Comparison::Equal,
        (ValueView::Double(x), ValueView::Integer(y)) => compare_integer_double_spec(y, x)
            == Comparison::Equal,
        (ValueView::Double(x), ValueView::Double(y)) => float_equal_spec(x, y),
        (ValueView::Timestamp(x), ValueView::Timestamp(y)) => x == y,
        (ValueView::Text(x), ValueView::Text(y)) => x == y,
        (ValueView::Bytes(x), ValueView::Bytes(y)) => x == y,
        (ValueView::Reference(x), ValueView::Reference(y)) => x == y,
        (ValueView::GeoPoint(x1, x2), ValueView::GeoPoint(y1, y2)) => float_equal_spec(x1, y1)
            && float_equal_spec(x2, y2),
        (ValueView::Array(x), ValueView::Array(y)) => x.len() == y.len() && forall|i: int|
            0 <= i < x.len() ==> transform_value_equal_spec(#[trigger] x[i], y[i]),
        (ValueView::Fields(x), ValueView::Fields(y)) => x.len() == y.len() && forall|i: int|
            0 <= i < x.len() ==> (lookup(y, (#[trigger] x[i]).0) matches Some(other)
                && transform_value_equal_spec(x[i].1, other)),
        _ => false,
    }
}

/// Finds a named value.
pub fn get_field<'a>(fields: &'a Vec<(String, FieldValue)>, key: &str) -> (r: Option<&'a FieldValue>)
    ensures
        opt_value_ref(r) == lookup(fields_view(fields@), key@),
        r matches Some(v) ==> decreases_to!(*fields => *v),
{
    let (i, found) = find_slot(fields, key);
    proof {
        lower_bound_unique(fields_view(fields@), key@, i as int);
    }
    if found {
        assert(decreases_to!(*fields => fields@[i as int]));
        Some(&fields[i].1)
    } else {
        None
    }
}

/// Stores a named value.
pub fn put_field(fields: &mut Vec<(String, FieldValue)>, key: &str, value: FieldValue)
    ensures
        fields_view(final(fields)@) == put(fields_view(old(fields)@), key@, value@),
{
    let (i, found) = find_slot(fields, key);
    let ghost before = fields_view(fields@);
    proof {
        lower_bound_unique(before, key@, i as int);
    }
    if found {
        fields.set(i, (key.to_owned(), value));
        assert(fields_view(fields@) =~= before.update(i as int, (key@, value@)));
    } else {
        fields.insert(i, (key.to_owned(), value));
        assert(fields_view(fields@) =~= before.insert(i as int, (key@, value@)));
    }
}

/// Removes a named value.
pub fn remove_field(fields: &mut Vec<(String, FieldValue)>, key: &str)
    ensures
        fields_view(final(fields)@) == without(fields_view(old(fields)@), key@),
{
    let (i, found) = find_slot(fields, key);
    let ghost before = fields_view(fields@);
    proof {
        lower_bound_unique(before, key@, i as int);
    }
    if found {
        let _removed = fields.remove(i);
        assert(fields_view(fields@) =~= before.remove(i as int));
    }
}

pub(crate) fn bytes_equal(a: &Vec<u8>, b: &Vec<u8>) -> (r: bool)
    ensures
        r == (a@ == b@),
{
    if a.len() != b.len() {
        return false;
    }
    let mut i: usize = 0;
    while i < a.len()
        invariant
            i <= a.len() == b.len(),
            forall|j: int| 0 <= j < i ==> a@[j] == b@[j],
        decreases a.len() - i,
    {
        if a[i] != b[i] {
            return false;
        }
        i += 1;
    }
    assert(a@ =~= b@);
    true
}

/// Whether two values are equal for an array transform.
pub fn transform_value_equal(a: &FieldValue, b: &FieldValue) -> (r: bool)
    ensures
        r == transform_value_equal_spec(a@, b@),
    decreases a,
{
    match (a, b) {
        (FieldValue::Unset, FieldValue::Unset) => true,
        (FieldValue::Null, FieldValue::Null) => true,
        (FieldValue::Boolean(x), FieldValue::Boolean(y)) => *x == *y,
        (FieldValue::Integer(x), FieldValue::Integer(y)) => *x == *y,
        (FieldValue::Integer(x), FieldValue::Double(y)) => compare_integer_double(*x, *y)
            == Comparison::Equal,
        (FieldValue::Double(x), FieldValue::Integer(y)) => compare_integer_double(*y, *x)
            == Comparison::Equal,
        (FieldValue::Double(x), FieldValue::Double(y)) => float_equal(*x, *y),
        (FieldValue::Timestamp(x), FieldValue::Timestamp(y)) => x.seconds == y.seconds && x.nanos == y.nanos,
        (FieldValue::Text(x), FieldValue::Text(y)) => same(x.as_str(), y.as_str()),
        (FieldValue::Bytes(x), FieldValue::Bytes(y)) => bytes_equal(x, y),
        (FieldValue::Reference(x), FieldValue::Reference(y)) => same(x.as_str(), y.as_str()),
        (FieldValue::GeoPoint(x1, x2), FieldValue::GeoPoint(y1, y2)) => float_equal(*x1, *y1) && float_equal(
            *x2,
            *y2,
        ),
        (FieldValue::Array(x), FieldValue::Array(y)) => {
            proof {
                array_view(*x);
                array_view(*y);
            }
            transform_lists_equal(x, y)
        },
        (FieldValue::Fields(x), FieldValue::Fields(y)) => {
            proof {
                fields_value_view(*x);
                fields_value_view(*y);
            }
            transform_fields_equal(x, y)
        },
        _ => false,
    }
}

fn transform_lists_equal(a: &Vec<FieldValue>, b: &Vec<FieldValue>) -> (r: bool)
    ensures
        r == transform_value_equal_spec(
            ValueView::Array(values_view(a@)),
            ValueView::Array(values_view(b@)),
        ),
    decreases a,
{
    if a.len() != b.len() {
        return false;
    }
    let ghost x = values_view(a@);
    let ghost y = values_view(b@);
    let mut i: usize = 0;
    while i < a.len()
        invariant
            i <= a.len() == b.len(),
            x == values_view(a@),
            y == values_view(b@),
            forall|j: int| 0 <= j < i ==> transform_value_equal_spec(#[trigger] x[j], y[j]),
        decreases a.len() - i,
    {
        assert(decreases_to!(*a => a@[i as int]));
        if !transform_value_equal(&a[i], &b[i]) {
            assert(!transform_value_equal_spec(x[i as int], y[i as int]));
            return false;
        }
        i += 1;
    }
    true
}

fn transform_fields_equal(a: &Vec<(String, FieldValue)>, b: &Vec<(String, FieldValue)>) -> (r: bool)
    ensures
        r == transform_value_equal_spec(
            ValueView::Fields(fields_view(a@)),
            ValueView::Fields(fields_view(b@)),
        ),
    decreases a,
{
    if a.len() != b.len() {
        return false;
    }
    let ghost x = fields_view(a@);
    let ghost y = fields_view(b@);
    let mut i: usize = 0;
    while i < a.len()
        invariant
            i <= a.len() == b.len(),
            x == fields_view(a@),
            y == fields_view(b@),
            forall|j: int|
                0 <= j < i ==> (lookup(y, (#[trigger] x[j]).0) matches Some(other)
                    && transform_value_equal_spec(x[j].1, other)),
        decreases a.len() - i,
    {
        assert(decreases_to!(*a => a@[i as int]));
        assert(x[i as int] == (a@[i as int].0@, a@[i as int].1@));
        match get_field(b, a[i].0.as_str()) {
            Some(other) => {
                if !transform_value_equal(&a[i].1, other) {
                    return false;
                }
            },
            None => {
                return false;
            },
        }
        i += 1;
    }
    true
}

} // verus!
