//! What the operators of a filter say of the values that they compare.
use crate::document::{field_value_spec, DocumentView};
use crate::double::{Comparison, INFINITY, SIGN};
use crate::field_path::{field_path_spec, path_scan, PathState};
use crate::ordered::lookup;
use crate::query::{
    contains_spec, field_operator_spec, filter_list_spec, filter_matches_spec, unary_operator_spec,
    FilterView,
};
use crate::status::{Code, StatusView};
use crate::text::text_less;
use crate::value::{
    compare_antisymmetric, compare_bytes_spec, compare_reflexive, compare_spec, Timestamp,
    ValueView,
};
use vstd::prelude::*;

verus! {

/// Whether a field operator holds between a value and an operand.
pub open spec fn holds(op: i32, a: ValueView, b: ValueView) -> bool {
    field_operator_spec(op, a, b) == Some(true)
}

/// Whether a field operator fails between a value and an operand.
pub open spec fn fails(op: i32, a: ValueView, b: ValueView) -> bool {
    field_operator_spec(op, a, b) == Some(false)
}

/// Integers compare as integers: operator 1 is less, 2 less or equal, 3
/// greater, 4 greater or equal, 5 equal and 6 not equal.
pub proof fn integers_compare_as_integers(a: i64, b: i64)
    ensures
        field_operator_spec(1, ValueView::Integer(a), ValueView::Integer(b)) == Some(a < b),
        field_operator_spec(2, ValueView::Integer(a), ValueView::Integer(b)) == Some(a <= b),
        field_operator_spec(3, ValueView::Integer(a), ValueView::Integer(b)) == Some(a > b),
        field_operator_spec(4, ValueView::Integer(a), ValueView::Integer(b)) == Some(a >= b),
        field_operator_spec(5, ValueView::Integer(a), ValueView::Integer(b)) == Some(a == b),
        field_operator_spec(6, ValueView::Integer(a), ValueView::Integer(b)) == Some(a != b),
{
}

/// Of two different truth values, `false` is the smaller one.
pub proof fn truth_values_compare(a: bool, b: bool)
    ensures
        field_operator_spec(1, ValueView::Boolean(a), ValueView::Boolean(b)) == Some(!a && b),
        field_operator_spec(2, ValueView::Boolean(a), ValueView::Boolean(b)) == Some(!a || b),
        field_operator_spec(3, ValueView::Boolean(a), ValueView::Boolean(b)) == Some(a && !b),
        field_operator_spec(4, ValueView::Boolean(a), ValueView::Boolean(b)) == Some(a || !b),
        field_operator_spec(5, ValueView::Boolean(a), ValueView::Boolean(b)) == Some(a == b),
        field_operator_spec(6, ValueView::Boolean(a), ValueView::Boolean(b)) == Some(a != b),
{
}

/// Times compare by their seconds, and within a second by their nanoseconds.
pub proof fn times_compare_as_times(a: Timestamp, b: Timestamp)
    ensures
        ({
            let (x, y) = (ValueView::Timestamp(a), ValueView::Timestamp(b));
            let before = a.seconds < b.seconds || (a.seconds == b.seconds && a.nanos < b.nanos);
            let same = a.seconds == b.seconds && a.nanos == b.nanos;
            &&& field_operator_spec(1, x, y) == Some(before)
            &&& field_operator_spec(2, x, y) == Some(before || same)
            &&& field_operator_spec(3, x, y) == Some(!before && !same)
            &&& field_operator_spec(4, x, y) == Some(!before)
            &&& field_operator_spec(5, x, y) == Some(same)
            &&& field_operator_spec(6, x, y) == Some(!same)
        }),
{
}

/// Whether `i` is the first place where two sequences part: where one ends, or
/// where they hold different things.
pub open spec fn part_at<T>(a: Seq<T>, b: Seq<T>, i: int) -> bool {
    &&& 0 <= i <= a.len()
    &&& i <= b.len()
    &&& forall|j: int| 0 <= j < i ==> #[trigger] a[j] == b[j]
    &&& i < a.len() && i < b.len() ==> a[i] != b[i]
    &&& i == a.len() || i == b.len() || (i < a.len() && i < b.len())
}

/// Whether the text `a` stands before `b` by code points, the two parting at
/// `i`.
pub open spec fn stands_before(a: Seq<char>, b: Seq<char>, i: int) -> bool {
    i < b.len() && (i == a.len() || (a[i] as int) < (b[i] as int))
}

proof fn texts_part(a: Seq<char>, b: Seq<char>, i: int)
    requires
        part_at(a, b, i),
    ensures
        text_less(a, b) == stands_before(a, b, i),
        (a == b) == (i == a.len() && i == b.len()),
    decreases a.len(),
{
    if a.len() > 0 && b.len() > 0 && a[0] == b[0] {
        let (x, y) = (a.drop_first(), b.drop_first());
        assert(i > 0);
        assert forall|j: int| 0 <= j < i - 1 implies #[trigger] x[j] == y[j] by {
            assert(a[j + 1] == b[j + 1]);
        }
        texts_part(x, y, i - 1);
    }
    if i == a.len() && i == b.len() {
        assert(a =~= b);
    }
}

/// Texts compare by the code point at which they part, and a text stands
/// before the longer ones that begin with it.
pub proof fn texts_compare_by_code_points(a: Seq<char>, b: Seq<char>, i: int)
    requires
        part_at(a, b, i),
    ensures
        ({
            let (x, y) = (ValueView::Text(a), ValueView::Text(b));
            &&& field_operator_spec(1, x, y) == Some(stands_before(a, b, i))
            &&& field_operator_spec(2, x, y) == Some(stands_before(a, b, i) || a == b)
            &&& field_operator_spec(3, x, y) == Some(stands_before(b, a, i))
            &&& field_operator_spec(4, x, y) == Some(stands_before(b, a, i) || a == b)
            &&& field_operator_spec(5, x, y) == Some(a == b)
            &&& field_operator_spec(6, x, y) == Some(a != b)
        }),
{
    texts_part(a, b, i);
    assert(part_at(b, a, i));
    texts_part(b, a, i);
}

/// References compare as the names that they hold.
pub proof fn references_compare_by_code_points(a: Seq<char>, b: Seq<char>, i: int)
    requires
        part_at(a, b, i),
    ensures
        ({
            let (x, y) = (ValueView::Reference(a), ValueView::Reference(b));
            &&& field_operator_spec(1, x, y) == Some(stands_before(a, b, i))
            &&& field_operator_spec(2, x, y) == Some(stands_before(a, b, i) || a == b)
            &&& field_operator_spec(3, x, y) == Some(stands_before(b, a, i))
            &&& field_operator_spec(4, x, y) == Some(stands_before(b, a, i) || a == b)
            &&& field_operator_spec(5, x, y) == Some(a == b)
            &&& field_operator_spec(6, x, y) == Some(a != b)
        }),
{
    texts_part(a, b, i);
    assert(part_at(b, a, i));
    texts_part(b, a, i);
}

proof fn bytes_part(a: Seq<u8>, b: Seq<u8>, i: int)
    requires
        part_at(a, b, i),
    ensures
        compare_bytes_spec(a, b) == if i == a.len() && i == b.len() {
            Comparison::Equal
        } else if i < b.len() && (i == a.len() || a[i] < b[i]) {
            Comparison::Less
        } else {
            Comparison::Greater
        },
        (a == b) == (i == a.len() && i == b.len()),
    decreases a.len(),
{
    if a.len() > 0 && b.len() > 0 && a[0] == b[0] {
        let (x, y) = (a.drop_first(), b.drop_first());
        assert(i > 0);
        assert forall|j: int| 0 <= j < i - 1 implies #[trigger] x[j] == y[j] by {
            assert(a[j + 1] == b[j + 1]);
        }
        bytes_part(x, y, i - 1);
    }
    if i == a.len() && i == b.len() {
        assert(a =~= b);
    }
}

/// Bytes compare by the byte at which they part, and bytes stand before the
/// longer ones that begin with them.
pub proof fn bytes_compare_in_order(a: Seq<u8>, b: Seq<u8>, i: int)
    requires
        part_at(a, b, i),
    ensures
        ({
            let (x, y) = (ValueView::Bytes(a), ValueView::Bytes(b));
            let before = i < b.len() && (i == a.len() || a[i] < b[i]);
            &&& field_operator_spec(1, x, y) == Some(before)
            &&& field_operator_spec(2, x, y) == Some(before || a == b)
            &&& field_operator_spec(3, x, y) == Some(!before && a != b)
            &&& field_operator_spec(4, x, y) == Some(!before)
            &&& field_operator_spec(5, x, y) == Some(a == b)
            &&& field_operator_spec(6, x, y) == Some(a != b)
        }),
{
    bytes_part(a, b, i);
}

/// A number for the kind of a value; integers and doubles are of one kind, and
/// so are the null value and a value that is not set. The kinds rise from the
/// null value to the maps.
pub open spec fn kind(v: ValueView) -> int {
    match v {
        ValueView::Unset => 10,
        ValueView::Null => 10,
        ValueView::Boolean(_) => 20,
        ValueView::Integer(_) => 30,
        ValueView::Double(_) => 30,
        ValueView::Timestamp(_) => 40,
        ValueView::Text(_) => 50,
        ValueView::Bytes(_) => 60,
        ValueView::Reference(_) => 70,
        ValueView::GeoPoint(_, _) => 80,
        ValueView::Array(_) => 90,
        ValueView::Fields(_) => 100,
    }
}

/// Values of different kinds are neither smaller nor greater in a filter, and
/// they are not equal; in an order they stand by their kinds.
pub proof fn kinds_do_not_mix(a: ValueView, b: ValueView)
    requires
        kind(a) != kind(b),
    ensures
        fails(1, a, b),
        fails(2, a, b),
        fails(3, a, b),
        fails(4, a, b),
        fails(5, a, b),
        holds(6, a, b),
        compare_spec(a, b) == (if kind(a) < kind(b) {
            Comparison::Less
        } else {
            Comparison::Greater
        }),
{
}

/// The operators agree with each other on all values: less is greater seen from
/// the other side, and never holds with it or with equality; not equal is the
/// opposite of equal; and values of one kind are less, equal or greater.
pub proof fn operators_agree(a: ValueView, b: ValueView)
    ensures
        holds(1, a, b) == holds(3, b, a),
        holds(2, a, b) == holds(4, b, a),
        holds(5, a, b) == holds(5, b, a),
        holds(6, a, b) == !holds(5, a, b),
        !(holds(1, a, b) && holds(3, a, b)),
        !(holds(1, a, b) && holds(5, a, b)),
        holds(5, a, a),
        holds(2, a, b) == (holds(1, a, b) || holds(5, a, b)),
        holds(4, a, b) == (holds(3, a, b) || holds(5, a, b)),
        kind(a) == kind(b) ==> holds(1, a, b) || holds(5, a, b) || holds(3, a, b),
        forall|op: i32|
            1 <= op <= 10 ==> #[trigger] field_operator_spec(op, a, b) is Some,
        forall|op: i32|
            op < 1 || op > 10 ==> #[trigger] field_operator_spec(op, a, b) is None,
{
    compare_antisymmetric(a, b);
    compare_reflexive(a);
}

/// Operator 5 holds between two values exactly where they stand level.
proof fn equality_is_level(a: ValueView, b: ValueView)
    ensures
        holds(5, a, b) == (compare_spec(a, b) == Comparison::Equal),
        compare_spec(a, ValueView::Null) == Comparison::Equal <==> kind(a) == kind(ValueView::Null),
{
}

/// Whether a list has a value that is equal to another.
pub open spec fn list_has(list: Seq<ValueView>, v: ValueView) -> bool {
    exists|i: int| 0 <= i < list.len() && holds(5, #[trigger] list[i], v)
}

proof fn containing_is_having(list: Seq<ValueView>, v: ValueView)
    ensures
        contains_spec(ValueView::Array(list), v) == list_has(list, v),
{
    if contains_spec(ValueView::Array(list), v) {
        let i = choose|i: int|
            0 <= i < list.len() && compare_spec(#[trigger] list[i], v) == Comparison::Equal;
        equality_is_level(list[i], v);
        assert(holds(5, list[i], v));
    }
    if list_has(list, v) {
        let i = choose|i: int| 0 <= i < list.len() && holds(5, #[trigger] list[i], v);
        equality_is_level(list[i], v);
    }
}

/// Operator 7 asks whether the value is a list that has the operand, and 8
/// whether the operand is a list that has the value.
pub proof fn list_operators_look_for_equals(a: ValueView, b: ValueView)
    ensures
        field_operator_spec(7, a, b) == Some(
            match a {
                ValueView::Array(list) => list_has(list, b),
                _ => false,
            },
        ),
        field_operator_spec(8, a, b) == Some(
            match b {
                ValueView::Array(list) => list_has(list, a),
                _ => false,
            },
        ),
{
    if let ValueView::Array(list) = a {
        containing_is_having(list, b);
    }
    if let ValueView::Array(list) = b {
        containing_is_having(list, a);
    }
}

/// Operator 9 asks whether the value and the operand are lists with something
/// in common.
pub proof fn common_values_are_found(a: ValueView, b: ValueView)
    ensures
        field_operator_spec(9, a, b) == Some(
            match (a, b) {
                (ValueView::Array(x), ValueView::Array(y)) => exists|i: int|
                    0 <= i < x.len() && list_has(y, #[trigger] x[i]),
                _ => false,
            },
        ),
{
    if let ValueView::Array(x) = a {
        if let ValueView::Array(y) = b {
            assert forall|i: int| 0 <= i < x.len() implies contains_spec(b, #[trigger] x[i]) == list_has(
                y,
                x[i],
            ) by {
                containing_is_having(y, x[i]);
            }
            if exists|i: int| 0 <= i < x.len() && contains_spec(b, #[trigger] x[i]) {
                let i = choose|i: int| 0 <= i < x.len() && contains_spec(b, #[trigger] x[i]);
                assert(list_has(y, x[i]));
            }
            if exists|i: int| 0 <= i < x.len() && list_has(y, #[trigger] x[i]) {
                let i = choose|i: int| 0 <= i < x.len() && list_has(y, #[trigger] x[i]);
                assert(contains_spec(b, x[i]));
            }
        }
    }
}

/// Operator 10 asks whether the value is no null and the operand is a list with
/// neither the value nor a null.
pub proof fn excluded_values_are_found(a: ValueView, list: Seq<ValueView>)
    ensures
        field_operator_spec(10, a, ValueView::Array(list)) == Some(
            kind(a) != kind(ValueView::Null) && !list_has(list, a) && !list_has(list, ValueView::Null),
        ),
{
    containing_is_having(list, a);
    containing_is_having(list, ValueView::Null);
}

/// Whether the bits of a double are those of no number: behind the sign, more
/// than the bits of infinity.
pub open spec fn is_no_number(v: ValueView) -> bool {
    v matches ValueView::Double(bits) && (INFINITY < bits < SIGN || bits > SIGN + INFINITY)
}

/// Unary operator 2 asks for what is no number and 3 for a null; 4 and 5 are
/// their opposites.
pub proof fn unary_operators_look_for_their_values(v: ValueView)
    ensures
        unary_operator_spec(2, v) == Some(is_no_number(v)),
        unary_operator_spec(3, v) == Some(v is Null || v is Unset),
        unary_operator_spec(4, v) == Some(!is_no_number(v)),
        unary_operator_spec(5, v) == Some(!(v is Null || v is Unset)),
        forall|op: i32| op < 2 || op > 5 ==> #[trigger] unary_operator_spec(op, v) is None,
{
}

/// Whether a text is a plain name: no dot, no backquote and no backslash in it.
pub open spec fn is_plain_name(name: Seq<char>) -> bool {
    name.len() > 0 && forall|i: int|
        0 <= i < name.len() ==> #[trigger] name[i] != '.' && name[i] != '`' && name[i] != '\\'
}

proof fn plain_name_scan(name: Seq<char>)
    requires
        forall|i: int|
            0 <= i < name.len() ==> #[trigger] name[i] != '.' && name[i] != '`' && name[i] != '\\',
    ensures
        path_scan(name) == Some(
            PathState { parts: Seq::empty(), part: name, quoted: false, escape: false },
        ),
    decreases name.len(),
{
    if name.len() > 0 {
        let init = name.drop_last();
        assert forall|i: int| 0 <= i < init.len() implies #[trigger] init[i] != '.' && init[i]
            != '`' && init[i] != '\\' by {
            assert(init[i] == name[i]);
        }
        plain_name_scan(init);
        assert(name[name.len() - 1] == name.last());
        assert(init.push(name.last()) =~= name);
    } else {
        assert(name =~= Seq::empty());
    }
}

/// A plain name is a path of that one name.
pub proof fn plain_names_are_paths(name: Seq<char>)
    requires
        is_plain_name(name),
    ensures
        field_path_spec(name) == Ok::<Seq<Seq<char>>, StatusView>(seq![name]),
{
    plain_name_scan(name);
    assert(Seq::<Seq<char>>::empty().push(name) =~= seq![name]);
}

/// A plain name finds the field of that name in a document, and `__name__` the
/// document's own name.
pub proof fn plain_names_find_fields(doc: DocumentView, name: Seq<char>)
    ensures
        is_plain_name(name) && name != "__name__"@ ==> field_value_spec(doc, name) == lookup(
            doc.fields,
            name,
        ),
        field_value_spec(doc, "__name__"@) == Some(ValueView::Reference(doc.name)),
{
    if is_plain_name(name) && name != "__name__"@ {
        plain_names_are_paths(name);
        assert(seq![name][0] == name);
    }
}

/// A field filter holds of a document exactly where the document has the field
/// and the operator holds between its value and the operand.
pub proof fn field_filters_read_the_field(
    doc: DocumentView,
    name: Seq<char>,
    op: i32,
    operand: ValueView,
)
    requires
        is_plain_name(name),
        name != "__name__"@,
        1 <= op <= 10,
    ensures
        filter_matches_spec(
            doc,
            FilterView::Field { field: Some(name), op, value: Some(operand) },
        ) == Ok::<bool, StatusView>(
            match lookup(doc.fields, name) {
                Some(value) => holds(op, value, operand),
                None => false,
            },
        ),
{
    plain_names_find_fields(doc, name);
}

/// A unary filter holds of a document exactly where the document has the field
/// and its value is what the operator asks for.
pub proof fn unary_filters_read_the_field(doc: DocumentView, name: Seq<char>, op: i32)
    requires
        is_plain_name(name),
        name != "__name__"@,
        2 <= op <= 5,
    ensures
        filter_matches_spec(doc, FilterView::Unary { op, field: Some(name) }) == Ok::<
            bool,
            StatusView,
        >(
            match lookup(doc.fields, name) {
                Some(v) => if op == 2 {
                    is_no_number(v)
                } else if op == 3 {
                    v is Null || v is Unset
                } else if op == 4 {
                    !is_no_number(v)
                } else {
                    !(v is Null || v is Unset)
                },
                None => false,
            },
        ),
{
    plain_names_find_fields(doc, name);
}

/// Whether a filter holds of a document.
pub open spec fn meets(doc: DocumentView, filter: FilterView) -> bool {
    filter_matches_spec(doc, filter) == Ok::<bool, StatusView>(true)
}

proof fn filter_list_is_each(doc: DocumentView, filters: Seq<FilterView>, i: nat)
    requires
        i <= filters.len(),
    ensures
        match filter_list_spec(doc, filters, i) {
            Ok(values) => {
                &&& values.len() == filters.len() - i
                &&& forall|j: int|
                    i <= j < filters.len() ==> filter_matches_spec(doc, #[trigger] filters[j])
                        == Ok::<bool, StatusView>(values[j - i])
            },
            Err(e) => exists|j: int|
                i <= j < filters.len() && filter_matches_spec(doc, #[trigger] filters[j]) == Err::<
                    bool,
                    StatusView,
                >(e),
        },
    decreases filters.len() - i,
{
    if i < filters.len() {
        filter_list_is_each(doc, filters, i + 1);
        match filter_matches_spec(doc, filters[i as int]) {
            Ok(first) => {
                match filter_list_spec(doc, filters, i + 1) {
                    Ok(rest) => {
                        let values = seq![first] + rest;
                        assert forall|j: int| i <= j < filters.len() implies filter_matches_spec(
                            doc,
                            #[trigger] filters[j],
                        ) == Ok::<bool, StatusView>(values[j - i]) by {
                            if j > i {
                                assert(values[j - i] == rest[j - i - 1]);
                            }
                        }
                    },
                    Err(e) => {},
                }
            },
            Err(e) => {
                assert(filter_matches_spec(doc, filters[i as int]) == Err::<bool, StatusView>(e));
            },
        }
    }
}

/// Composite operator 1 holds of a document exactly where all its filters do,
/// and 2 exactly where one of them does; a filter that is refused has the whole
/// refused.
pub proof fn composite_filters_join(doc: DocumentView, filters: Seq<FilterView>)
    ensures
        ({
            let both = filter_matches_spec(doc, FilterView::Composite { op: 1, filters });
            let either = filter_matches_spec(doc, FilterView::Composite { op: 2, filters });
            if forall|i: int|
                0 <= i < filters.len() ==> filter_matches_spec(doc, #[trigger] filters[i]) is Ok {
                &&& both == Ok::<bool, StatusView>(
                    forall|i: int| 0 <= i < filters.len() ==> meets(doc, #[trigger] filters[i]),
                )
                &&& either == Ok::<bool, StatusView>(
                    exists|i: int| 0 <= i < filters.len() && meets(doc, #[trigger] filters[i]),
                )
            } else {
                both is Err && either is Err
            }
        }),
        forall|op: i32|
            op != 1 && op != 2 ==> #[trigger] filter_matches_spec(
                doc,
                FilterView::Composite { op, filters },
            ) is Err,
{
    filter_list_is_each(doc, filters, 0);
    match filter_list_spec(doc, filters, 0) {
        Ok(values) => {
            let all = forall|i: int|
                0 <= i < filters.len() ==> meets(doc, #[trigger] filters[i]);
            let any = exists|i: int|
                0 <= i < filters.len() && meets(doc, #[trigger] filters[i]);
            assert forall|j: int| 0 <= j < filters.len() implies values[j] == meets(
                doc,
                #[trigger] filters[j],
            ) by {}
            if all {
                assert forall|j: int| 0 <= j < values.len() implies #[trigger] values[j] by {
                    assert(meets(doc, filters[j]));
                }
            } else {
                let j = choose|j: int|
                    0 <= j < filters.len() && !meets(doc, #[trigger] filters[j]);
                assert(!values[j]);
            }
            if any {
                let j = choose|j: int|
                    0 <= j < filters.len() && meets(doc, #[trigger] filters[j]);
                assert(values[j]);
            } else {
                assert forall|j: int| 0 <= j < values.len() implies !#[trigger] values[j] by {
                    assert(!meets(doc, filters[j]));
                }
            }
        },
        Err(e) => {},
    }
}

/// A filter that lacks its field, its operand or a known operator is refused as
/// an invalid argument wherever it is asked.
pub proof fn incomplete_filters_are_refused(
    doc: DocumentView,
    op: i32,
    field: Option<Seq<char>>,
    value: Option<ValueView>,
)
    requires
        field is None || value is None,
    ensures
        filter_matches_spec(doc, FilterView::Field { field, op, value }) matches Err(e)
            && e.code == Code::InvalidArgument,
        filter_matches_spec(doc, FilterView::Unset) matches Err(e) && e.code
            == Code::InvalidArgument,
        field is None ==> (filter_matches_spec(doc, FilterView::Unary { op, field }) matches Err(e)
            && e.code == Code::InvalidArgument),
{
}

} // verus!
