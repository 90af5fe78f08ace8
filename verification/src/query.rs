//! Structured queries: filters, orders, cursors and projections.
use crate::document::{
    copy_paths, field_paths, field_paths_spec, field_value, field_value_spec, nested_get,
    nested_set, paths_view, Document, DocumentView,
};
use crate::double::{is_nan, is_nan_spec, Comparison};
use crate::names::{
    database_from_resource, database_from_resource_spec, matches_collection,
    matches_collection_spec,
};
use crate::ordered::{put, Duplicate, OrderedMap};
use crate::status::{invalid, Status, StatusView};
use crate::text::{is_blank, same, texts};
use crate::value::{
    and_next, array_view, compare, compare_antisymmetric, compare_spec, compare_transitive,
    fields_view, value_rank, value_rank_spec, values_view, FieldValue, ValueView,
};
use crate::writes::DocumentsView;
use vstd::prelude::*;

verus! {

/// A condition on a document.
#[derive(PartialEq, Debug)]
pub enum Filter {
    Unset,
    Composite { op: i32, filters: Vec<Filter> },
    Field { field: Option<String>, op: i32, value: Option<FieldValue> },
    Unary { op: i32, field: Option<String> },
}

/// What a [`Filter`] stands for.
pub enum FilterView {
    Unset,
    Composite { op: i32, filters: Seq<FilterView> },
    Field { field: Option<Seq<char>>, op: i32, value: Option<ValueView> },
    Unary { op: i32, field: Option<Seq<char>> },
}

impl Filter {
    pub open spec fn view(&self) -> FilterView
        decreases self,
    {
        match self {
            Filter::Unset => FilterView::Unset,
            Filter::Composite { op, filters } => FilterView::Composite {
                op: *op,
                filters: Seq::new(
                    filters@.len(),
                    |i: int|
                        if 0 <= i < filters@.len() {
                            filters@[i].view()
                        } else {
                            FilterView::Unset
                        },
                ),
            },
            Filter::Field { field, op, value } => FilterView::Field {
                field: match field {
                    Some(f) => Some(f@),
                    None => None,
                },
                op: *op,
                value: match value {
                    Some(v) => Some(v@),
                    None => None,
                },
            },
            Filter::Unary { op, field } => FilterView::Unary {
                op: *op,
                field: match field {
                    Some(f) => Some(f@),
                    None => None,
                },
            },
        }
    }
}

/// What a list of filters stands for.
pub open spec fn filters_view(filters: Seq<Filter>) -> Seq<FilterView> {
    Seq::new(
        filters.len(),
        |i: int|
            if 0 <= i < filters.len() {
                filters[i].view()
            } else {
                FilterView::Unset
            },
    )
}

/// The view of a composite filter is made of the views of its filters.
pub proof fn composite_view(op: i32, filters: Vec<Filter>)
    ensures
        (Filter::Composite { op, filters })@ == (FilterView::Composite {
            op,
            filters: filters_view(filters@),
        }),
{
    assert((Filter::Composite { op, filters })@->Composite_filters =~= filters_view(filters@));
}

/// Whether an array holds a value that stands level with `needle`.
pub open spec fn contains_spec(array: ValueView, needle: ValueView) -> bool {
    match array {
        ValueView::Array(items) => exists|i: int|
            0 <= i < items.len() && compare_spec(#[trigger] items[i], needle) == Comparison::Equal,
        _ => false,
    }
}

/// Whether a value `a` meets the operator `op` with the operand `b`; nothing
/// for a number that is no operator.
pub open spec fn field_operator_spec(op: i32, a: ValueView, b: ValueView) -> Option<bool> {
    let c = compare_spec(a, b);
    let alike = value_rank_spec(a) == value_rank_spec(b);
    if op == 1 {
        Some(alike && c == Comparison::Less)
    } else if op == 2 {
        Some(alike && c != Comparison::Greater)
    } else if op == 3 {
        Some(alike && c == Comparison::Greater)
    } else if op == 4 {
        Some(alike && c != Comparison::Less)
    } else if op == 5 {
        Some(c == Comparison::Equal)
    } else if op == 6 {
        Some(c != Comparison::Equal)
    } else if op == 7 {
        Some(contains_spec(a, b))
    } else if op == 8 {
        Some(contains_spec(b, a))
    } else if op == 9 {
        Some(
            match a {
                ValueView::Array(items) => exists|i: int|
                    0 <= i < items.len() && contains_spec(b, #[trigger] items[i]),
                _ => false,
            },
        )
    } else if op == 10 {
        Some(
            value_rank_spec(a) != 0 && !contains_spec(b, ValueView::Null) && !contains_spec(b, a),
        )
    } else {
        None
    }
}

/// Whether a value meets a unary operator; nothing for a number that is none.
pub open spec fn unary_operator_spec(op: i32, a: ValueView) -> Option<bool> {
    let nan = match a {
        ValueView::Double(bits) => is_nan_spec(bits),
        _ => false,
    };
    let null = value_rank_spec(a) == 0;
    if op == 2 {
        Some(nan)
    } else if op == 3 {
        Some(null)
    } else if op == 4 {
        Some(!nan)
    } else if op == 5 {
        Some(!null)
    } else {
        None
    }
}

pub open spec fn all_hold(values: Seq<bool>) -> bool {
    forall|i: int| 0 <= i < values.len() ==> #[trigger] values[i]
}

pub open spec fn any_holds(values: Seq<bool>) -> bool {
    exists|i: int| 0 <= i < values.len() && #[trigger] values[i]
}

/// Whether a document meets a filter.
pub open spec fn filter_matches_spec(doc: DocumentView, filter: FilterView) -> Result<
    bool,
    StatusView,
>
    decreases filter, 0nat,
{
    match filter {
        FilterView::Unset => Err(invalid("filter is required"@)),
        FilterView::Composite { op, filters } => match filter_list_spec(doc, filters, 0) {
            Err(e) => Err(e),
            Ok(values) => if op == 1 {
                Ok(all_hold(values))
            } else if op == 2 {
                Ok(any_holds(values))
            } else {
                Err(invalid("invalid composite operator"@))
            },
        },
        FilterView::Field { field, op, value } => match (field, value) {
            (None, _) => Err(invalid("filter field is required"@)),
            (_, None) => Err(invalid("filter value is required"@)),
            (Some(path), Some(b)) => match field_value_spec(doc, path) {
                None => Ok(false),
                Some(a) => match field_operator_spec(op, a, b) {
                    Some(holds) => Ok(holds),
                    None => Err(invalid("invalid field operator"@)),
                },
            },
        },
        FilterView::Unary { op, field } => match field {
            None => Err(invalid("unary field is required"@)),
            Some(path) => match field_value_spec(doc, path) {
                None => Ok(false),
                Some(a) => match unary_operator_spec(op, a) {
                    Some(holds) => Ok(holds),
                    None => Err(invalid("invalid unary operator"@)),
                },
            },
        },
    }
}

/// Whether a document meets each filter from position `i` on, or the first
/// error.
pub open spec fn filter_list_spec(doc: DocumentView, filters: Seq<FilterView>, i: nat) -> Result<
    Seq<bool>,
    StatusView,
>
    decreases filters, filters.len() - i,
{
    if i >= filters.len() {
        Ok(Seq::empty())
    } else {
        match filter_matches_spec(doc, filters[i as int]) {
            Err(e) => Err(e),
            Ok(first) => match filter_list_spec(doc, filters, i + 1) {
                Err(e) => Err(e),
                Ok(rest) => Ok(seq![first] + rest),
            },
        }
    }
}

/// Whether an array holds a value that stands level with `needle`.
pub fn contains_value(array: &FieldValue, needle: &FieldValue) -> (r: bool)
    ensures
        r == contains_spec(array@, needle@),
{
    match array {
        FieldValue::Array(items) => {
            let ghost views = values_view(items@);
            proof {
                array_view(*items);
            }
            let mut i: usize = 0;
            while i < items.len()
                invariant
                    i <= items.len(),
                    array@ == ValueView::Array(views),
                    views == values_view(items@),
                    forall|j: int|
                        0 <= j < i ==> compare_spec(#[trigger] views[j], needle@)
                            != Comparison::Equal,
                decreases items.len() - i,
            {
                if compare(&items[i], needle) == Comparison::Equal {
                    assert(compare_spec(views[i as int], needle@) == Comparison::Equal);
                    return true;
                }
                assert(views[i as int] == items@[i as int]@);
                i += 1;
            }
            false
        },
        _ => false,
    }
}

/// Applies a field operator.
pub fn field_operator(op: i32, a: &FieldValue, b: &FieldValue) -> (r: Option<bool>)
    ensures
        r == field_operator_spec(op, a@, b@),
{
    let c = compare(a, b);
    let alike = value_rank(a) == value_rank(b);
    match op {
        1 => Some(alike && c == Comparison::Less),
        2 => Some(alike && c != Comparison::Greater),
        3 => Some(alike && c == Comparison::Greater),
        4 => Some(alike && c != Comparison::Less),
        5 => Some(c == Comparison::Equal),
        6 => Some(c != Comparison::Equal),
        7 => Some(contains_value(a, b)),
        8 => Some(contains_value(b, a)),
        9 => match a {
            FieldValue::Array(items) => {
                let ghost views = values_view(items@);
                proof {
                    array_view(*items);
                }
                let mut i: usize = 0;
                while i < items.len()
                    invariant
                        i <= items.len(),
                        op == 9,
                        a@ == ValueView::Array(views),
                        views == values_view(items@),
                        forall|j: int| 0 <= j < i ==> !contains_spec(b@, #[trigger] views[j]),
                    decreases items.len() - i,
                {
                    if contains_value(b, &items[i]) {
                        assert(contains_spec(b@, views[i as int]));
                        return Some(true);
                    }
                    assert(views[i as int] == items@[i as int]@);
                    i += 1;
                }
                Some(false)
            },
            _ => Some(false),
        },
        10 => Some(
            value_rank(a) != 0 && !contains_value(b, &FieldValue::Null) && !contains_value(b, a),
        ),
        _ => None,
    }
}

/// The view of a yes or no or of the error that stands for it.
pub open spec fn bool_result(r: Result<bool, Status>) -> Result<bool, StatusView> {
    match r {
        Ok(b) => Ok(b),
        Err(e) => Err(e@),
    }
}

fn filter_list(doc: &Document, filters: &Vec<Filter>) -> (r: Result<Vec<bool>, Status>)
    ensures
        match r {
            Ok(values) => filter_list_spec(doc@, filters_view(filters@), 0) == Ok::<_, StatusView>(
                values@,
            ),
            Err(e) => filter_list_spec(doc@, filters_view(filters@), 0) == Err::<Seq<bool>, _>(e@),
        },
    decreases filters,
{
    let ghost views = filters_view(filters@);
    let mut values: Vec<bool> = Vec::new();
    let mut i: usize = 0;
    assert(forall|rest: Seq<bool>| Seq::<bool>::empty() + rest =~= rest);
    while i < filters.len()
        invariant
            i <= filters.len(),
            views == filters_view(filters@),
            filter_list_spec(doc@, views, 0) == match filter_list_spec(doc@, views, i as nat) {
                Ok(rest) => Ok(values@ + rest),
                Err(e) => Err(e),
            },
        decreases filters.len() - i,
    {
        assert(decreases_to!(*filters => filters@[i as int]));
        match filter_matches(doc, &filters[i]) {
            Ok(value) => {
                let ghost before = values@;
                values.push(value);
                assert(forall|rest: Seq<bool>|
                    #![trigger values@ + rest]
                    before + (seq![value] + rest) =~= values@ + rest);
            },
            Err(e) => {
                return Err(e);
            },
        }
        i += 1;
    }
    assert(values@ + Seq::<bool>::empty() =~= values@);
    Ok(values)
}

fn all_true(values: &Vec<bool>) -> (r: bool)
    ensures
        r == all_hold(values@),
{
    let mut i: usize = 0;
    while i < values.len()
        invariant
            i <= values.len(),
            forall|j: int| 0 <= j < i ==> #[trigger] values@[j],
        decreases values.len() - i,
    {
        if !values[i] {
            return false;
        }
        i += 1;
    }
    true
}

fn any_true(values: &Vec<bool>) -> (r: bool)
    ensures
        r == any_holds(values@),
{
    let mut i: usize = 0;
    while i < values.len()
        invariant
            i <= values.len(),
            forall|j: int| 0 <= j < i ==> !#[trigger] values@[j],
        decreases values.len() - i,
    {
        if values[i] {
            return true;
        }
        i += 1;
    }
    false
}

/// Whether a document meets a filter.
pub fn filter_matches(doc: &Document, filter: &Filter) -> (r: Result<bool, Status>)
    ensures
        bool_result(r) == filter_matches_spec(doc@, filter@),
    decreases filter,
{
    match filter {
        Filter::Unset => Err(Status::invalid_argument("filter is required")),
        Filter::Composite { op, filters } => {
            proof {
                composite_view(*op, *filters);
            }
            let values = match filter_list(doc, filters) {
                Ok(values) => values,
                Err(e) => {
                    return Err(e);
                },
            };
            if *op == 1 {
                Ok(all_true(&values))
            } else if *op == 2 {
                Ok(any_true(&values))
            } else {
                Err(Status::invalid_argument("invalid composite operator"))
            }
        },
        Filter::Field { field, op, value } => {
            let path = match field {
                Some(path) => path,
                None => {
                    return Err(Status::invalid_argument("filter field is required"));
                },
            };
            let b = match value {
                Some(b) => b,
                None => {
                    return Err(Status::invalid_argument("filter value is required"));
                },
            };
            match field_value(doc, path.as_str()) {
                None => Ok(false),
                Some(a) => match field_operator(*op, &a, b) {
                    Some(holds) => Ok(holds),
                    None => Err(Status::invalid_argument("invalid field operator")),
                },
            }
        },
        Filter::Unary { op, field } => {
            let path = match field {
                Some(path) => path,
                None => {
                    return Err(Status::invalid_argument("unary field is required"));
                },
            };
            match field_value(doc, path.as_str()) {
                None => Ok(false),
                Some(a) => {
                    let nan = match &a {
                        FieldValue::Double(bits) => is_nan(*bits),
                        _ => false,
                    };
                    let null = value_rank(&a) == 0;
                    match *op {
                        2 => Ok(nan),
                        3 => Ok(null),
                        4 => Ok(!nan),
                        5 => Ok(!null),
                        _ => Err(Status::invalid_argument("invalid unary operator")),
                    }
                },
            }
        },
    }
}

/// The field of an order or an unordered comparison, once.
pub open spec fn inequality_fields_spec(filter: FilterView, fields: Seq<(Seq<char>, ())>) -> Seq<
    (Seq<char>, ()),
>
    decreases filter, 0nat,
{
    match filter {
        FilterView::Composite { op, filters } => inequality_list_spec(filters, filters.len(), fields),
        FilterView::Field { field, op, value } => if (op == 1 || op == 2 || op == 3 || op == 4 || op
            == 6 || op == 10) && field is Some {
            put(fields, field->0, ())
        } else {
            fields
        },
        FilterView::Unary { op, field } => if (op == 4 || op == 5) && field is Some {
            put(fields, field->0, ())
        } else {
            fields
        },
        FilterView::Unset => fields,
    }
}

/// The fields that the first `n` filters compare by more than equality.
pub open spec fn inequality_list_spec(
    filters: Seq<FilterView>,
    n: nat,
    fields: Seq<(Seq<char>, ())>,
) -> Seq<(Seq<char>, ())>
    decreases filters, n,
{
    if n == 0 || n > filters.len() {
        fields
    } else {
        inequality_fields_spec(
            filters[n - 1],
            inequality_list_spec(filters, (n - 1) as nat, fields),
        )
    }
}

fn inequality_list(filters: &Vec<Filter>, fields: &mut OrderedMap<()>)
    ensures
        final(fields)@ == inequality_list_spec(
            filters_view(filters@),
            filters@.len(),
            old(fields)@,
        ),
    decreases filters,
{
    let ghost views = filters_view(filters@);
    let ghost start = fields@;
    let mut i: usize = 0;
    while i < filters.len()
        invariant
            i <= filters.len(),
            views == filters_view(filters@),
            fields@ == inequality_list_spec(views, i as nat, start),
        decreases filters.len() - i,
    {
        assert(decreases_to!(*filters => filters@[i as int]));
        inequality_fields(&filters[i], fields);
        i += 1;
    }
}

/// Collects the fields that a filter compares by more than equality.
pub fn inequality_fields(filter: &Filter, fields: &mut OrderedMap<()>)
    ensures
        final(fields)@ == inequality_fields_spec(filter@, old(fields)@),
    decreases filter,
{
    match filter {
        Filter::Composite { op, filters } => {
            proof {
                composite_view(*op, *filters);
            }
            inequality_list(filters, fields);
        },
        Filter::Field { field, op, value: _ } => {
            match *op {
                1 | 2 | 3 | 4 | 6 | 10 => {
                    if let Some(path) = field {
                        fields.insert(path.as_str(), ());
                    }
                },
                _ => {},
            }
        },
        Filter::Unary { op, field } => {
            match *op {
                4 | 5 => {
                    if let Some(path) = field {
                        fields.insert(path.as_str(), ());
                    }
                },
                _ => {},
            }
        },
        Filter::Unset => {},
    }
}

/// One order of a query: the field and the direction, 2 being descending.
#[derive(PartialEq, Debug)]
pub struct Order {
    pub field: Option<String>,
    pub direction: i32,
}

/// What an [`Order`] stands for.
pub struct OrderView {
    pub field: Option<Seq<char>>,
    pub direction: i32,
}

impl View for Order {
    type V = OrderView;

    open spec fn view(&self) -> OrderView {
        OrderView {
            field: match self.field {
                Some(f) => Some(f@),
                None => None,
            },
            direction: self.direction,
        }
    }
}

/// The field and whether it descends, of each order.
pub open spec fn given_orders_spec(orders: Seq<OrderView>) -> Result<
    Seq<(Seq<char>, bool)>,
    StatusView,
>
    decreases orders.len(),
{
    if orders.len() == 0 {
        Ok(Seq::empty())
    } else {
        match given_orders_spec(orders.drop_last()) {
            Err(e) => Err(e),
            Ok(before) => match orders.last().field {
                None => Err(invalid("order field required"@)),
                Some(field) => Ok(before.push((field, orders.last().direction == 2))),
            },
        }
    }
}

/// Whether one of the orders is by `field`.
pub open spec fn ordered_by(orders: Seq<(Seq<char>, bool)>, field: Seq<char>) -> bool {
    exists|i: int| 0 <= i < orders.len() && (#[trigger] orders[i]).0 == field
}

/// The direction of the last order.
pub open spec fn last_direction(orders: Seq<(Seq<char>, bool)>) -> bool {
    if orders.len() == 0 {
        false
    } else {
        orders.last().1
    }
}

/// The orders followed by one for each of the first `n` fields that has none.
pub open spec fn with_inequalities(
    orders: Seq<(Seq<char>, bool)>,
    fields: Seq<(Seq<char>, ())>,
    n: nat,
) -> Seq<(Seq<char>, bool)>
    decreases n,
{
    if n == 0 || n > fields.len() {
        orders
    } else {
        let before = with_inequalities(orders, fields, (n - 1) as nat);
        let field = fields[n - 1].0;
        if field != "__name__"@ && !ordered_by(before, field) {
            before.push((field, last_direction(orders)))
        } else {
            before
        }
    }
}

/// All orders of a query: those given, those of the fields that the filter
/// compares by more than equality, and the document name to break ties.
pub open spec fn full_orders_spec(
    orders: Seq<(Seq<char>, bool)>,
    fields: Seq<(Seq<char>, ())>,
) -> Seq<(Seq<char>, bool)> {
    let all = with_inequalities(orders, fields, fields.len());
    if ordered_by(all, "__name__"@) {
        all
    } else {
        all.push(("__name__"@, last_direction(all)))
    }
}

/// What a list of orders stands for.
pub open spec fn orders_view(orders: Seq<(String, bool)>) -> Seq<(Seq<char>, bool)> {
    orders.map_values(|o: (String, bool)| (o.0@, o.1))
}

proof fn given_orders_stuck(orders: Seq<OrderView>, i: int)
    requires
        0 <= i <= orders.len(),
        given_orders_spec(orders.take(i)) is Err,
    ensures
        given_orders_spec(orders) == given_orders_spec(orders.take(i)),
    decreases orders.len() - i,
{
    if i < orders.len() {
        assert(orders.take(i + 1).drop_last() =~= orders.take(i));
        given_orders_stuck(orders, i + 1);
    } else {
        assert(orders.take(i) =~= orders);
    }
}

fn given_orders(orders: &Vec<Order>) -> (r: Result<Vec<(String, bool)>, Status>)
    ensures
        match r {
            Ok(all) => given_orders_spec(orders@.map_values(|o: Order| o@)) == Ok::<_, StatusView>(
                orders_view(all@),
            ),
            Err(e) => given_orders_spec(orders@.map_values(|o: Order| o@)) == Err::<
                Seq<(Seq<char>, bool)>,
                _,
            >(e@),
        },
{
    let ghost views = orders@.map_values(|o: Order| o@);
    let mut all: Vec<(String, bool)> = Vec::new();
    let mut i: usize = 0;
    assert(views.take(0) =~= Seq::empty());
    assert(orders_view(all@) =~= Seq::empty());
    while i < orders.len()
        invariant
            i <= orders.len(),
            views == orders@.map_values(|o: Order| o@),
            given_orders_spec(views.take(i as int)) == Ok::<_, StatusView>(orders_view(all@)),
        decreases orders.len() - i,
    {
        assert(views.take(i + 1).drop_last() =~= views.take(i as int));
        assert(views.take(i + 1).last() == orders@[i as int]@);
        match &orders[i].field {
            Some(field) => {
                let ghost before = orders_view(all@);
                let descending = orders[i].direction == 2;
                let field = field.clone();
                all.push((field, descending));
                assert(orders_view(all@) =~= before.push((field@, descending)));
            },
            None => {
                proof {
                    given_orders_stuck(views, i + 1);
                }
                return Err(Status::invalid_argument("order field required"));
            },
        }
        i += 1;
    }
    assert(views.take(i as int) =~= views);
    Ok(all)
}

fn is_ordered_by(orders: &Vec<(String, bool)>, field: &str) -> (r: bool)
    ensures
        r == ordered_by(orders_view(orders@), field@),
{
    let ghost views = orders_view(orders@);
    let mut i: usize = 0;
    while i < orders.len()
        invariant
            i <= orders.len(),
            views == orders_view(orders@),
            forall|j: int| 0 <= j < i ==> (#[trigger] views[j]).0 != field@,
        decreases orders.len() - i,
    {
        if same(orders[i].0.as_str(), field) {
            assert(views[i as int].0 == field@);
            return true;
        }
        assert(views[i as int].0 != field@);
        i += 1;
    }
    false
}

fn direction_of_last(orders: &Vec<(String, bool)>) -> (r: bool)
    ensures
        r == last_direction(orders_view(orders@)),
{
    if orders.len() == 0 {
        false
    } else {
        orders[orders.len() - 1].1
    }
}

fn full_orders(orders: Vec<(String, bool)>, fields: &OrderedMap<()>) -> (r: Vec<(String, bool)>)
    ensures
        orders_view(r@) == full_orders_spec(orders_view(orders@), fields@),
{
    let ghost given = orders_view(orders@);
    let descending = direction_of_last(&orders);
    let mut all = orders;
    let mut i: usize = 0;
    while i < fields.len()
        invariant
            i <= fields@.len(),
            descending == last_direction(given),
            orders_view(all@) == with_inequalities(given, fields@, i as nat),
        decreases fields@.len() - i,
    {
        let field = fields.key_at(i);
        if !same(field, "__name__") && !is_ordered_by(&all, field) {
            let ghost before = orders_view(all@);
            all.push((field.to_owned(), descending));
            assert(orders_view(all@) =~= before.push((field@, descending)));
        }
        i += 1;
    }
    if !is_ordered_by(&all, "__name__") {
        let ghost before = orders_view(all@);
        let last = direction_of_last(&all);
        all.push(("__name__".to_owned(), last));
        assert(orders_view(all@) =~= before.push(("__name__"@, last)));
    }
    all
}

/// What a document is ordered by in one order.
pub open spec fn order_key(doc: DocumentView, path: Seq<char>) -> ValueView {
    match field_value_spec(doc, path) {
        Some(value) => value,
        None => ValueView::Unset,
    }
}

/// A comparison in the direction of an order.
pub open spec fn directed(c: Comparison, descending: bool) -> Comparison {
    if descending {
        c.reverse_spec()
    } else {
        c
    }
}

/// How two documents stand to each other by the orders from `i` on: the first
/// that is not a tie decides.
pub open spec fn compare_docs_spec(
    orders: Seq<(Seq<char>, bool)>,
    a: DocumentView,
    b: DocumentView,
    i: nat,
) -> Comparison
    decreases orders.len() - i,
{
    if i >= orders.len() {
        Comparison::Equal
    } else {
        let path = orders[i as int].0;
        and_next(
            directed(
                compare_spec(order_key(a, path), order_key(b, path)),
                orders[i as int].1,
            ),
            compare_docs_spec(orders, a, b, i + 1),
        )
    }
}

/// How a document stands to the values of a cursor by the orders from `i` on.
pub open spec fn compare_cursor_spec(
    orders: Seq<(Seq<char>, bool)>,
    doc: DocumentView,
    values: Seq<ValueView>,
    i: nat,
) -> Comparison
    decreases orders.len() - i,
{
    if i >= orders.len() || i >= values.len() {
        Comparison::Equal
    } else {
        and_next(
            directed(
                compare_spec(order_key(doc, orders[i as int].0), values[i as int]),
                orders[i as int].1,
            ),
            compare_cursor_spec(orders, doc, values, i + 1),
        )
    }
}

/// A position between the results of a query.
#[derive(PartialEq, Debug)]
pub struct Cursor {
    pub values: Vec<FieldValue>,
    pub before: bool,
}

/// What a [`Cursor`] stands for.
pub struct CursorView {
    pub values: Seq<ValueView>,
    pub before: bool,
}

impl View for Cursor {
    type V = CursorView;

    open spec fn view(&self) -> CursorView {
        CursorView { values: values_view(self.values@), before: self.before }
    }
}

/// Whether a document stands on the right side of a cursor.
pub open spec fn within_cursor(
    orders: Seq<(Seq<char>, bool)>,
    cursor: CursorView,
    start: bool,
    doc: DocumentView,
) -> bool {
    let c = compare_cursor_spec(orders, doc, cursor.values, 0);
    if start {
        c == Comparison::Greater || (c == Comparison::Equal && cursor.before)
    } else {
        c == Comparison::Less || (c == Comparison::Equal && !cursor.before)
    }
}

/// Whether a document has a value in every order.
pub open spec fn has_order_fields(orders: Seq<(Seq<char>, bool)>, doc: DocumentView) -> bool {
    forall|i: int|
        0 <= i < orders.len() ==> field_value_spec(doc, (#[trigger] orders[i]).0) is Some
}

/// The documents of which `keep` holds, in their order.
pub open spec fn retain_spec(
    docs: Seq<DocumentView>,
    keep: spec_fn(DocumentView) -> bool,
) -> Seq<DocumentView>
    decreases docs.len(),
{
    if docs.len() == 0 {
        Seq::empty()
    } else {
        let before = retain_spec(docs.drop_last(), keep);
        if keep(docs.last()) {
            before.push(docs.last())
        } else {
            before
        }
    }
}

/// The documents with one more put behind those that do not stand after it.
pub open spec fn insert_doc(
    orders: Seq<(Seq<char>, bool)>,
    sorted: Seq<DocumentView>,
    doc: DocumentView,
) -> Seq<DocumentView>
    decreases sorted.len(),
{
    if sorted.len() == 0 || compare_docs_spec(orders, doc, sorted.last(), 0) != Comparison::Less {
        sorted.push(doc)
    } else {
        insert_doc(orders, sorted.drop_last(), doc).push(sorted.last())
    }
}

/// The documents in the order of the query, ties in the order given.
pub open spec fn sort_docs_spec(
    orders: Seq<(Seq<char>, bool)>,
    docs: Seq<DocumentView>,
) -> Seq<DocumentView>
    decreases docs.len(),
{
    if docs.len() == 0 {
        Seq::empty()
    } else {
        insert_doc(orders, sort_docs_spec(orders, docs.drop_last()), docs.last())
    }
}

/// The views of a list of documents.
pub open spec fn docs_view(docs: Seq<Document>) -> Seq<DocumentView> {
    docs.map_values(|d: Document| d@)
}

fn order_value(doc: &Document, path: &str) -> (r: FieldValue)
    ensures
        r@ == order_key(doc@, path@),
{
    match field_value(doc, path) {
        Some(value) => value,
        None => FieldValue::Unset,
    }
}

fn direct(c: Comparison, descending: bool) -> (r: Comparison)
    ensures
        r == directed(c, descending),
{
    if descending {
        c.reverse()
    } else {
        c
    }
}

/// How two documents stand to each other by the orders.
pub fn compare_docs(orders: &Vec<(String, bool)>, a: &Document, b: &Document) -> (r: Comparison)
    ensures
        r == compare_docs_spec(orders_view(orders@), a@, b@, 0),
{
    let ghost views = orders_view(orders@);
    let mut i: usize = 0;
    while i < orders.len()
        invariant
            i <= orders.len(),
            views == orders_view(orders@),
            compare_docs_spec(views, a@, b@, 0) == compare_docs_spec(views, a@, b@, i as nat),
        decreases orders.len() - i,
    {
        assert(views[i as int] == (orders@[i as int].0@, orders@[i as int].1));
        let path = orders[i].0.as_str();
        let c = direct(compare(&order_value(a, path), &order_value(b, path)), orders[i].1);
        match c {
            Comparison::Equal => {},
            _ => {
                return c;
            },
        }
        i += 1;
    }
    Comparison::Equal
}

fn compare_cursor(orders: &Vec<(String, bool)>, doc: &Document, values: &Vec<FieldValue>) -> (r:
    Comparison)
    ensures
        r == compare_cursor_spec(orders_view(orders@), doc@, values_view(values@), 0),
{
    let ghost views = orders_view(orders@);
    let ghost cursor = values_view(values@);
    let mut i: usize = 0;
    while i < orders.len() && i < values.len()
        invariant
            i <= orders.len(),
            i <= values.len(),
            views == orders_view(orders@),
            cursor == values_view(values@),
            compare_cursor_spec(views, doc@, cursor, 0) == compare_cursor_spec(
                views,
                doc@,
                cursor,
                i as nat,
            ),
        decreases orders.len() - i,
    {
        assert(views[i as int] == (orders@[i as int].0@, orders@[i as int].1));
        let path = orders[i].0.as_str();
        let c = direct(compare(&order_value(doc, path), &values[i]), orders[i].1);
        match c {
            Comparison::Equal => {},
            _ => {
                return c;
            },
        }
        i += 1;
    }
    Comparison::Equal
}

fn in_cursor(orders: &Vec<(String, bool)>, cursor: &Cursor, start: bool, doc: &Document) -> (r:
    bool)
    ensures
        r == within_cursor(orders_view(orders@), cursor@, start, doc@),
{
    let c = compare_cursor(orders, doc, &cursor.values);
    if start {
        c == Comparison::Greater || (c == Comparison::Equal && cursor.before)
    } else {
        c == Comparison::Less || (c == Comparison::Equal && !cursor.before)
    }
}

fn has_fields(orders: &Vec<(String, bool)>, doc: &Document) -> (r: bool)
    ensures
        r == has_order_fields(orders_view(orders@), doc@),
{
    let ghost views = orders_view(orders@);
    let mut i: usize = 0;
    while i < orders.len()
        invariant
            i <= orders.len(),
            views == orders_view(orders@),
            forall|j: int|
                0 <= j < i ==> field_value_spec(doc@, (#[trigger] views[j]).0) is Some,
        decreases orders.len() - i,
    {
        let found = field_value(doc, orders[i].0.as_str());
        assert(views[i as int].0 == orders@[i as int].0@);
        if found.is_none() {
            return false;
        }
        i += 1;
    }
    true
}

proof fn insert_doc_split(
    orders: Seq<(Seq<char>, bool)>,
    sorted: Seq<DocumentView>,
    doc: DocumentView,
    pos: int,
)
    requires
        0 <= pos <= sorted.len(),
        forall|k: int|
            pos <= k < sorted.len() ==> compare_docs_spec(orders, doc, #[trigger] sorted[k], 0)
                == Comparison::Less,
        pos > 0 ==> compare_docs_spec(orders, doc, sorted[pos - 1], 0) != Comparison::Less,
    ensures
        insert_doc(orders, sorted, doc) == sorted.insert(pos, doc),
    decreases sorted.len(),
{
    if pos == sorted.len() {
        assert(sorted.insert(pos, doc) =~= sorted.push(doc));
        if sorted.len() > 0 {
            assert(sorted.last() == sorted[pos - 1]);
        }
    } else {
        let init = sorted.drop_last();
        assert(sorted.last() == sorted[sorted.len() - 1]);
        assert forall|k: int| pos <= k < init.len() implies compare_docs_spec(
            orders,
            doc,
            #[trigger] init[k],
            0,
        ) == Comparison::Less by {
            assert(init[k] == sorted[k]);
        }
        insert_doc_split(orders, init, doc, pos);
        assert(init.insert(pos, doc).push(sorted.last()) =~= sorted.insert(pos, doc));
    }
}

/// Sorts documents by the orders.
pub fn sort_docs(orders: &Vec<(String, bool)>, docs: Vec<Document>) -> (r: Vec<Document>)
    ensures
        docs_view(r@) == sort_docs_spec(orders_view(orders@), docs_view(docs@)),
{
    let ghost all = docs_view(docs@);
    let ghost views = orders_view(orders@);
    let mut out: Vec<Document> = Vec::new();
    assert(docs_view(out@) =~= Seq::empty());
    assert(all.take(0) =~= Seq::empty());
    for doc in it: docs
        invariant
            it.seq() == docs@,
            all == docs_view(docs@),
            views == orders_view(orders@),
            docs_view(out@) == sort_docs_spec(views, all.take(it.index() as int)),
    {
        let ghost i = it.index() as int;
        let ghost sorted = docs_view(out@);
        assert(all.take(i + 1).drop_last() =~= all.take(i));
        assert(all.take(i + 1).last() == doc@);
        let mut pos: usize = out.len();
        while pos > 0 && compare_docs(orders, &doc, &out[pos - 1]) == Comparison::Less
            invariant
                pos <= out.len(),
                sorted == docs_view(out@),
                views == orders_view(orders@),
                forall|k: int|
                    pos <= k < sorted.len() ==> compare_docs_spec(
                        views,
                        doc@,
                        #[trigger] sorted[k],
                        0,
                    ) == Comparison::Less,
            decreases pos,
        {
            assert(sorted[pos - 1] == out@[pos - 1]@);
            pos -= 1;
        }
        proof {
            insert_doc_split(views, sorted, doc@, pos as int);
        }
        out.insert(pos, doc);
        assert(docs_view(out@) =~= sorted.insert(pos as int, doc@));
    }
    assert(all.take(all.len() as int) =~= all);
    out
}

/// Keeps the documents that have a value in every order.
fn retain_ordered(orders: &Vec<(String, bool)>, docs: Vec<Document>) -> (r: Vec<Document>)
    ensures
        docs_view(r@) == retain_spec(
            docs_view(docs@),
            |d: DocumentView| has_order_fields(orders_view(orders@), d),
        ),
{
    let ghost all = docs_view(docs@);
    let ghost keep = |d: DocumentView| has_order_fields(orders_view(orders@), d);
    let mut out: Vec<Document> = Vec::new();
    assert(docs_view(out@) =~= Seq::empty());
    assert(all.take(0) =~= Seq::empty());
    for doc in it: docs
        invariant
            it.seq() == docs@,
            all == docs_view(docs@),
            keep == (|d: DocumentView| has_order_fields(orders_view(orders@), d)),
            docs_view(out@) == retain_spec(all.take(it.index() as int), keep),
    {
        let ghost i = it.index() as int;
        let ghost before = docs_view(out@);
        assert(all.take(i + 1).drop_last() =~= all.take(i));
        assert(all.take(i + 1).last() == doc@);
        if has_fields(orders, &doc) {
            out.push(doc);
            assert(docs_view(out@) =~= before.push(doc@));
        }
    }
    assert(all.take(all.len() as int) =~= all);
    out
}

/// Keeps the documents on the right side of a cursor.
fn retain_within(
    orders: &Vec<(String, bool)>,
    cursor: &Cursor,
    start: bool,
    docs: Vec<Document>,
) -> (r: Vec<Document>)
    ensures
        docs_view(r@) == retain_spec(
            docs_view(docs@),
            |d: DocumentView| within_cursor(orders_view(orders@), cursor@, start, d),
        ),
{
    let ghost all = docs_view(docs@);
    let ghost keep = |d: DocumentView| within_cursor(orders_view(orders@), cursor@, start, d);
    let mut out: Vec<Document> = Vec::new();
    assert(docs_view(out@) =~= Seq::empty());
    assert(all.take(0) =~= Seq::empty());
    for doc in it: docs
        invariant
            it.seq() == docs@,
            all == docs_view(docs@),
            keep == (|d: DocumentView| within_cursor(orders_view(orders@), cursor@, start, d)),
            docs_view(out@) == retain_spec(all.take(it.index() as int), keep),
    {
        let ghost i = it.index() as int;
        let ghost before = docs_view(out@);
        assert(all.take(i + 1).drop_last() =~= all.take(i));
        assert(all.take(i + 1).last() == doc@);
        if in_cursor(orders, cursor, start, &doc) {
            out.push(doc);
            assert(docs_view(out@) =~= before.push(doc@));
        }
    }
    assert(all.take(all.len() as int) =~= all);
    out
}

/// Which collection a query reads.
#[derive(PartialEq, Eq, Debug)]
pub struct CollectionSelector {
    pub collection_id: String,
    pub all_descendants: bool,
}

/// A query: the collections, the filter, the orders, the cursors, how many
/// results to skip and to return at most, and which fields to return.
#[derive(PartialEq, Debug)]
pub struct StructuredQuery {
    pub select: Option<Vec<String>>,
    pub from: Vec<CollectionSelector>,
    pub filter: Option<Filter>,
    pub order_by: Vec<Order>,
    pub start_at: Option<Cursor>,
    pub end_at: Option<Cursor>,
    pub offset: i32,
    pub limit: Option<i32>,
}

/// What a [`StructuredQuery`] stands for.
pub struct QueryView {
    pub select: Option<Seq<Seq<char>>>,
    pub from: Seq<(Seq<char>, bool)>,
    pub filter: Option<FilterView>,
    pub order_by: Seq<OrderView>,
    pub start_at: Option<CursorView>,
    pub end_at: Option<CursorView>,
    pub offset: i32,
    pub limit: Option<i32>,
}

pub open spec fn opt_cursor(cursor: Option<Cursor>) -> Option<CursorView> {
    match cursor {
        Some(c) => Some(c@),
        None => None,
    }
}

impl View for StructuredQuery {
    type V = QueryView;

    open spec fn view(&self) -> QueryView {
        QueryView {
            select: match self.select {
                Some(paths) => Some(texts(paths@)),
                None => None,
            },
            from: self.from@.map_values(
                |c: CollectionSelector| (c.collection_id@, c.all_descendants),
            ),
            filter: match self.filter {
                Some(f) => Some(f@),
                None => None,
            },
            order_by: self.order_by@.map_values(|o: Order| o@),
            start_at: opt_cursor(self.start_at),
            end_at: opt_cursor(self.end_at),
            offset: self.offset,
            limit: self.limit,
        }
    }
}

/// Whether a document belongs to the queried collection and meets the filter.
pub open spec fn selects(
    doc: DocumentView,
    parent: Seq<char>,
    selector: (Seq<char>, bool),
    filter: Option<FilterView>,
) -> Result<bool, StatusView> {
    if !matches_collection_spec(doc.name, parent, selector.0, selector.1) {
        Ok(false)
    } else {
        match filter {
            Some(f) => filter_matches_spec(doc, f),
            None => Ok(true),
        }
    }
}

/// The documents that belong to the queried collection and meet the filter, or
/// the first error of the filter.
pub open spec fn selected_spec(
    documents: DocumentsView,
    parent: Seq<char>,
    selector: (Seq<char>, bool),
    filter: Option<FilterView>,
) -> Result<Seq<DocumentView>, StatusView>
    decreases documents.len(),
{
    if documents.len() == 0 {
        Ok(Seq::empty())
    } else {
        match selected_spec(documents.drop_last(), parent, selector, filter) {
            Err(e) => Err(e),
            Ok(before) => match selects(documents.last().1, parent, selector, filter) {
                Err(e) => Err(e),
                Ok(true) => Ok(before.push(documents.last().1)),
                Ok(false) => Ok(before),
            },
        }
    }
}

/// The documents on the right side of a cursor, where there is one.
pub open spec fn cut_at_cursor(
    orders: Seq<(Seq<char>, bool)>,
    cursor: Option<CursorView>,
    start: bool,
    docs: Seq<DocumentView>,
) -> Result<Seq<DocumentView>, StatusView> {
    match cursor {
        None => Ok(docs),
        Some(c) => if c.values.len() > orders.len() {
            Err(invalid("too many cursor values"@))
        } else {
            Ok(retain_spec(docs, |d: DocumentView| within_cursor(orders, c, start, d)))
        },
    }
}

/// The results behind the first `offset`, at most `limit` of them.
pub open spec fn page_of(docs: Seq<DocumentView>, offset: int, limit: int) -> Seq<DocumentView> {
    let rest = if offset >= docs.len() {
        Seq::empty()
    } else {
        docs.skip(offset)
    };
    if limit >= rest.len() {
        rest
    } else {
        rest.take(limit)
    }
}

/// The paths to return, but for the name, which every document keeps.
pub open spec fn selected_paths(paths: Seq<Seq<char>>) -> Seq<Seq<char>>
    decreases paths.len(),
{
    if paths.len() == 0 {
        Seq::empty()
    } else if paths.last() == "__name__"@ {
        selected_paths(paths.drop_last())
    } else {
        selected_paths(paths.drop_last()).push(paths.last())
    }
}

/// A document with only the values at the given paths.
pub open spec fn project(doc: DocumentView, paths: Seq<Seq<Seq<char>>>) -> DocumentView {
    DocumentView { fields: copy_paths(Seq::empty(), doc.fields, paths), ..doc }
}

/// The documents with only the selected fields.
pub open spec fn projected_spec(docs: Seq<DocumentView>, select: Option<Seq<Seq<char>>>) -> Result<
    Seq<DocumentView>,
    StatusView,
> {
    match select {
        None => Ok(docs),
        Some(paths) => if docs.len() == 0 {
            Ok(docs)
        } else {
            match field_paths_spec(selected_paths(paths)) {
                Err(e) => Err(e),
                Ok(parsed) => Ok(docs.map_values(|d: DocumentView| project(d, parsed))),
            }
        },
    }
}

/// The fields that the query's filter compares by more than equality.
pub open spec fn query_inequalities(query: QueryView) -> Seq<(Seq<char>, ())> {
    match query.filter {
        Some(f) => inequality_fields_spec(f, Seq::empty()),
        None => Seq::empty(),
    }
}

/// The ordered documents that a query returns before skipping and limiting.
pub open spec fn ordered_results(
    docs: Seq<DocumentView>,
    orders: Seq<(Seq<char>, bool)>,
    query: QueryView,
) -> Result<Seq<DocumentView>, StatusView> {
    let sorted = sort_docs_spec(
        orders,
        retain_spec(docs, |d: DocumentView| has_order_fields(orders, d)),
    );
    match cut_at_cursor(orders, query.start_at, true, sorted) {
        Err(e) => Err(e),
        Ok(started) => cut_at_cursor(orders, query.end_at, false, started),
    }
}

/// What a query on the documents below `parent` returns.
pub open spec fn query_docs_spec(
    documents: DocumentsView,
    parent: Seq<char>,
    query: QueryView,
) -> Result<Seq<DocumentView>, StatusView> {
    if query.from.len() != 1 || query.from[0].0.len() == 0 {
        Err(invalid("one collection is required"@))
    } else if query.offset < 0 || (query.limit is Some && query.limit->0 < 0) {
        Err(invalid("negative query bounds"@))
    } else {
        match database_from_resource_spec(parent) {
            Err(e) => Err(e),
            Ok(_) => match selected_spec(documents, parent, query.from[0], query.filter) {
                Err(e) => Err(e),
                Ok(docs) => match given_orders_spec(query.order_by) {
                    Err(e) => Err(e),
                    Ok(given) => match ordered_results(
                        docs,
                        full_orders_spec(given, query_inequalities(query)),
                        query,
                    ) {
                        Err(e) => Err(e),
                        Ok(ordered) => projected_spec(
                            page_of(
                                ordered,
                                query.offset as int,
                                match query.limit {
                                    Some(n) => n as int,
                                    None => i32::MAX as int,
                                },
                            ),
                            query.select,
                        ),
                    },
                },
            },
        }
    }
}

proof fn selected_stuck(
    documents: DocumentsView,
    parent: Seq<char>,
    selector: (Seq<char>, bool),
    filter: Option<FilterView>,
    i: int,
)
    requires
        0 <= i <= documents.len(),
        selected_spec(documents.take(i), parent, selector, filter) is Err,
    ensures
        selected_spec(documents, parent, selector, filter) == selected_spec(
            documents.take(i),
            parent,
            selector,
            filter,
        ),
    decreases documents.len() - i,
{
    if i < documents.len() {
        assert(documents.take(i + 1).drop_last() =~= documents.take(i));
        selected_stuck(documents, parent, selector, filter, i + 1);
    } else {
        assert(documents.take(i) =~= documents);
    }
}

/// The view of documents or of the error that stands for them.
pub open spec fn docs_result(r: Result<Vec<Document>, Status>) -> Result<
    Seq<DocumentView>,
    StatusView,
> {
    match r {
        Ok(docs) => Ok(docs_view(docs@)),
        Err(e) => Err(e@),
    }
}

pub open spec fn opt_filter(filter: Option<&Filter>) -> Option<FilterView> {
    match filter {
        Some(f) => Some(f@),
        None => None,
    }
}

fn selected(
    documents: &OrderedMap<Document>,
    parent: &str,
    selector: &CollectionSelector,
    filter: Option<&Filter>,
) -> (r: Result<Vec<Document>, Status>)
    ensures
        docs_result(r) == selected_spec(
            documents@,
            parent@,
            (selector.collection_id@, selector.all_descendants),
            opt_filter(filter),
        ),
{
    let ghost all = documents@;
    let ghost view = (selector.collection_id@, selector.all_descendants);
    let ghost wanted = opt_filter(filter);
    let mut out: Vec<Document> = Vec::new();
    let mut i: usize = 0;
    assert(docs_view(out@) =~= Seq::empty());
    assert(all.take(0) =~= Seq::empty());
    while i < documents.len()
        invariant
            i <= all.len(),
            all == documents@,
            view == (selector.collection_id@, selector.all_descendants),
            wanted == opt_filter(filter),
            selected_spec(all.take(i as int), parent@, view, wanted) == Ok::<_, StatusView>(
                docs_view(out@),
            ),
        decreases all.len() - i,
    {
        assert(all.take(i + 1).drop_last() =~= all.take(i as int));
        assert(all.take(i + 1).last() == all[i as int]);
        let doc = documents.value_at(i);
        let ghost before = docs_view(out@);
        if matches_collection(
            doc.name.as_str(),
            parent,
            selector.collection_id.as_str(),
            selector.all_descendants,
        ) {
            let holds = match filter {
                Some(f) => match filter_matches(doc, f) {
                    Ok(holds) => holds,
                    Err(e) => {
                        proof {
                            selected_stuck(all, parent@, view, wanted, i + 1);
                        }
                        return Err(e);
                    },
                },
                None => true,
            };
            if holds {
                let copy = doc.duplicate();
                out.push(copy);
                assert(docs_view(out@) =~= before.push(copy@));
            }
        }
        i += 1;
    }
    assert(all.take(i as int) =~= all);
    Ok(out)
}

fn cut(
    orders: &Vec<(String, bool)>,
    cursor: &Option<Cursor>,
    start: bool,
    docs: Vec<Document>,
) -> (r: Result<Vec<Document>, Status>)
    ensures
        docs_result(r) == cut_at_cursor(
            orders_view(orders@),
            opt_cursor(*cursor),
            start,
            docs_view(docs@),
        ),
{
    match cursor {
        None => Ok(docs),
        Some(c) => if c.values.len() > orders.len() {
            Err(Status::invalid_argument("too many cursor values"))
        } else {
            Ok(retain_within(orders, c, start, docs))
        },
    }
}

fn page(docs: Vec<Document>, offset: i32, limit: i32) -> (r: Vec<Document>)
    requires
        offset >= 0,
        limit >= 0,
    ensures
        docs_view(r@) == page_of(docs_view(docs@), offset as int, limit as int),
{
    let ghost all = docs_view(docs@);
    let mut rest = docs;
    if offset as usize >= rest.len() {
        let empty: Vec<Document> = Vec::new();
        assert(docs_view(empty@) =~= Seq::empty());
        return empty;
    }
    let mut tail = rest.split_off(offset as usize);
    assert(docs_view(tail@) =~= all.skip(offset as int));
    if (limit as usize) < tail.len() {
        tail.truncate(limit as usize);
        assert(docs_view(tail@) =~= all.skip(offset as int).take(limit as int));
    }
    tail
}

fn wanted_paths(paths: &Vec<String>) -> (r: Vec<String>)
    ensures
        texts(r@) == selected_paths(texts(paths@)),
{
    let ghost all = texts(paths@);
    let mut out: Vec<String> = Vec::new();
    let mut i: usize = 0;
    assert(texts(out@) =~= Seq::empty());
    assert(all.take(0) =~= Seq::empty());
    while i < paths.len()
        invariant
            i <= paths.len(),
            all == texts(paths@),
            texts(out@) == selected_paths(all.take(i as int)),
        decreases paths.len() - i,
    {
        assert(all.take(i + 1).drop_last() =~= all.take(i as int));
        assert(all.take(i + 1).last() == paths@[i as int]@);
        if !same(paths[i].as_str(), "__name__") {
            let ghost before = texts(out@);
            let path = paths[i].clone();
            out.push(path);
            assert(texts(out@) =~= before.push(path@));
        }
        i += 1;
    }
    assert(all.take(i as int) =~= all);
    out
}

fn project_doc(doc: Document, paths: &Vec<Vec<String>>) -> (r: Document)
    requires
        forall|j: int| 0 <= j < paths@.len() ==> (#[trigger] paths@[j])@.len() > 0,
    ensures
        r@ == project(doc@, paths_view(paths@)),
{
    let ghost source = doc@.fields;
    let ghost views = paths_view(paths@);
    let mut fields: Vec<(String, FieldValue)> = Vec::new();
    let mut i: usize = 0;
    assert(fields_view(fields@) =~= Seq::empty());
    assert(views.take(0) =~= Seq::empty());
    while i < paths.len()
        invariant
            i <= paths.len(),
            views == paths_view(paths@),
            source == fields_view(doc.fields@),
            forall|j: int| 0 <= j < paths@.len() ==> (#[trigger] paths@[j])@.len() > 0,
            fields_view(fields@) == copy_paths(Seq::empty(), source, views.take(i as int)),
        decreases paths.len() - i,
    {
        assert(views.take(i + 1).drop_last() =~= views.take(i as int));
        let found = match nested_get(&doc.fields, &paths[i]) {
            Some(value) => Some(value.duplicate()),
            None => None,
        };
        nested_set(&mut fields, &paths[i], found);
        i += 1;
    }
    assert(views.take(i as int) =~= views);
    Document {
        name: doc.name,
        fields,
        create_time: doc.create_time,
        update_time: doc.update_time,
    }
}

fn projected(docs: Vec<Document>, select: &Option<Vec<String>>) -> (r: Result<
    Vec<Document>,
    Status,
>)
    ensures
        docs_result(r) == projected_spec(
            docs_view(docs@),
            match *select {
                Some(paths) => Some(texts(paths@)),
                None => None,
            },
        ),
{
    match select {
        None => Ok(docs),
        Some(paths) => {
            if docs.len() == 0 {
                return Ok(docs);
            }
            let parsed = match field_paths(&wanted_paths(paths)) {
                Ok(parsed) => parsed,
                Err(e) => {
                    return Err(e);
                },
            };
            let ghost all = docs_view(docs@);
            let ghost views = paths_view(parsed@);
            let mut out: Vec<Document> = Vec::new();
            for doc in it: docs
                invariant
                    it.seq() == docs@,
                    all == docs_view(docs@),
                    views == paths_view(parsed@),
                    forall|j: int| 0 <= j < parsed@.len() ==> (#[trigger] parsed@[j])@.len() > 0,
                    out@.len() == it.index(),
                    forall|j: int|
                        0 <= j < out@.len() ==> (#[trigger] out@[j])@ == project(all[j], views),
            {
                assert(doc@ == all[it.index() as int]);
                out.push(project_doc(doc, &parsed));
            }
            assert(docs_view(out@) =~= all.map_values(|d: DocumentView| project(d, views)));
            Ok(out)
        },
    }
}

/// Runs a query on the documents below `parent`.
pub fn query_docs(documents: &OrderedMap<Document>, parent: &str, query: &StructuredQuery) -> (r:
    Result<Vec<Document>, Status>)
    ensures
        docs_result(r) == query_docs_spec(documents@, parent@, query@),
{
    assert(query@.from.len() == query.from@.len());
    if query.from.len() != 1 || is_blank(query.from[0].collection_id.as_str()) {
        return Err(Status::invalid_argument("one collection is required"));
    }
    let limit: i32 = match query.limit {
        Some(n) => n,
        None => i32::MAX,
    };
    if query.offset < 0 || limit < 0 {
        return Err(Status::invalid_argument("negative query bounds"));
    }
    match database_from_resource(parent) {
        Ok(_) => {},
        Err(e) => {
            return Err(e);
        },
    }
    let filter = match &query.filter {
        Some(f) => Some(f),
        None => None,
    };
    let docs = match selected(documents, parent, &query.from[0], filter) {
        Ok(docs) => docs,
        Err(e) => {
            return Err(e);
        },
    };
    let given = match given_orders(&query.order_by) {
        Ok(given) => given,
        Err(e) => {
            return Err(e);
        },
    };
    let mut inequalities: OrderedMap<()> = OrderedMap::new();
    if let Some(f) = filter {
        inequality_fields(f, &mut inequalities);
    }
    let orders = full_orders(given, &inequalities);
    let sorted = sort_docs(&orders, retain_ordered(&orders, docs));
    let started = match cut(&orders, &query.start_at, true, sorted) {
        Ok(started) => started,
        Err(e) => {
            return Err(e);
        },
    };
    let ended = match cut(&orders, &query.end_at, false, started) {
        Ok(ended) => ended,
        Err(e) => {
            return Err(e);
        },
    };
    projected(page(ended, query.offset, limit), &query.select)
}

/// Swapping two documents reverses how they stand to each other.
pub proof fn compare_docs_antisymmetric(
    orders: Seq<(Seq<char>, bool)>,
    a: DocumentView,
    b: DocumentView,
    i: nat,
)
    ensures
        compare_docs_spec(orders, b, a, i) == compare_docs_spec(orders, a, b, i).reverse_spec(),
    decreases orders.len() - i,
{
    if i < orders.len() {
        let path = orders[i as int].0;
        compare_antisymmetric(order_key(a, path), order_key(b, path));
        compare_docs_antisymmetric(orders, a, b, i + 1);
    }
}

/// The order of documents is transitive.
pub proof fn compare_docs_transitive(
    orders: Seq<(Seq<char>, bool)>,
    a: DocumentView,
    b: DocumentView,
    c: DocumentView,
    i: nat,
)
    requires
        compare_docs_spec(orders, a, b, i) != Comparison::Greater,
        compare_docs_spec(orders, b, c, i) != Comparison::Greater,
    ensures
        compare_docs_spec(orders, a, c, i) == and_next(
            compare_docs_spec(orders, a, b, i),
            compare_docs_spec(orders, b, c, i),
        ),
    decreases orders.len() - i,
{
    if i < orders.len() {
        let path = orders[i as int].0;
        let x = order_key(a, path);
        let y = order_key(b, path);
        let z = order_key(c, path);
        if orders[i as int].1 {
            compare_antisymmetric(x, y);
            compare_antisymmetric(y, z);
            compare_antisymmetric(x, z);
            compare_transitive(z, y, x);
        } else {
            compare_transitive(x, y, z);
        }
        if compare_spec(x, y) == Comparison::Equal && compare_spec(y, z) == Comparison::Equal {
            compare_docs_transitive(orders, a, b, c, i + 1);
        }
    }
}

/// Whether `a` may stand before `b`.
#[verifier::opaque]
pub open spec fn not_after(
    orders: Seq<(Seq<char>, bool)>,
    a: DocumentView,
    b: DocumentView,
) -> bool {
    compare_docs_spec(orders, a, b, 0) != Comparison::Greater
}

proof fn not_after_laws(
    orders: Seq<(Seq<char>, bool)>,
    a: DocumentView,
    b: DocumentView,
    c: DocumentView,
)
    ensures
        not_after(orders, a, b) && not_after(orders, b, c) ==> not_after(orders, a, c),
        compare_docs_spec(orders, a, b, 0) == Comparison::Less ==> not_after(orders, a, b),
        compare_docs_spec(orders, a, b, 0) != Comparison::Less ==> not_after(orders, b, a),
{
    reveal(not_after);
    compare_docs_antisymmetric(orders, a, b, 0);
    if not_after(orders, a, b) && not_after(orders, b, c) {
        compare_docs_transitive(orders, a, b, c, 0);
    }
}

/// Whether no document stands after a later one.
pub open spec fn in_order(orders: Seq<(Seq<char>, bool)>, docs: Seq<DocumentView>) -> bool {
    forall|i: int, j: int|
        0 <= i < j < docs.len() ==> #[trigger] not_after(orders, docs[i], docs[j])
}

proof fn in_order_push(
    orders: Seq<(Seq<char>, bool)>,
    docs: Seq<DocumentView>,
    last: DocumentView,
)
    requires
        in_order(orders, docs),
        forall|k: int| 0 <= k < docs.len() ==> #[trigger] not_after(orders, docs[k], last),
    ensures
        in_order(orders, docs.push(last)),
{
    let result = docs.push(last);
    assert forall|i: int, j: int| 0 <= i < j < result.len() implies #[trigger] not_after(
        orders,
        result[i],
        result[j],
    ) by {
        if j < docs.len() {
            assert(not_after(orders, docs[i], docs[j]));
        } else {
            assert(not_after(orders, docs[i], last));
        }
    }
}

proof fn in_order_init(orders: Seq<(Seq<char>, bool)>, docs: Seq<DocumentView>)
    requires
        in_order(orders, docs),
        docs.len() > 0,
    ensures
        in_order(orders, docs.drop_last()),
        forall|k: int|
            0 <= k < docs.len() - 1 ==> #[trigger] not_after(
                orders,
                docs.drop_last()[k],
                docs.last(),
            ),
{
    let init = docs.drop_last();
    assert forall|i: int, j: int| 0 <= i < j < init.len() implies #[trigger] not_after(
        orders,
        init[i],
        init[j],
    ) by {
        assert(not_after(orders, docs[i], docs[j]));
    }
    assert forall|k: int| 0 <= k < init.len() implies #[trigger] not_after(
        orders,
        init[k],
        docs.last(),
    ) by {
        assert(not_after(orders, docs[k], docs[docs.len() - 1]));
    }
}

proof fn insert_doc_multiset(
    orders: Seq<(Seq<char>, bool)>,
    sorted: Seq<DocumentView>,
    doc: DocumentView,
)
    ensures
        insert_doc(orders, sorted, doc).to_multiset() == sorted.to_multiset().insert(doc),
    decreases sorted.len(),
{
    broadcast use vstd::seq_lib::group_to_multiset_ensures;

    if sorted.len() > 0 && compare_docs_spec(orders, doc, sorted.last(), 0) == Comparison::Less {
        let init = sorted.drop_last();
        insert_doc_multiset(orders, init, doc);
        assert(sorted =~= init.push(sorted.last()));
        assert(insert_doc(orders, sorted, doc).to_multiset() =~= sorted.to_multiset().insert(doc));
    }
}

proof fn insert_doc_bound(
    orders: Seq<(Seq<char>, bool)>,
    sorted: Seq<DocumentView>,
    doc: DocumentView,
    bound: DocumentView,
)
    requires
        forall|k: int| 0 <= k < sorted.len() ==> #[trigger] not_after(orders, sorted[k], bound),
        not_after(orders, doc, bound),
    ensures
        forall|k: int|
            0 <= k < insert_doc(orders, sorted, doc).len() ==> #[trigger] not_after(
                orders,
                insert_doc(orders, sorted, doc)[k],
                bound,
            ),
    decreases sorted.len(),
{
    let result = insert_doc(orders, sorted, doc);
    if sorted.len() == 0 || compare_docs_spec(orders, doc, sorted.last(), 0) != Comparison::Less {
        assert forall|k: int| 0 <= k < result.len() implies #[trigger] not_after(
            orders,
            result[k],
            bound,
        ) by {
            if k < sorted.len() {
                assert(not_after(orders, sorted[k], bound));
            }
        }
    } else {
        let init = sorted.drop_last();
        assert forall|k: int| 0 <= k < init.len() implies #[trigger] not_after(
            orders,
            init[k],
            bound,
        ) by {
            assert(not_after(orders, sorted[k], bound));
        }
        insert_doc_bound(orders, init, doc, bound);
        let inner = insert_doc(orders, init, doc);
        assert forall|k: int| 0 <= k < result.len() implies #[trigger] not_after(
            orders,
            result[k],
            bound,
        ) by {
            if k < inner.len() {
                assert(not_after(orders, inner[k], bound));
            } else {
                assert(not_after(orders, sorted[sorted.len() - 1], bound));
            }
        }
    }
}

proof fn insert_doc_in_order(
    orders: Seq<(Seq<char>, bool)>,
    sorted: Seq<DocumentView>,
    doc: DocumentView,
)
    requires
        in_order(orders, sorted),
    ensures
        in_order(orders, insert_doc(orders, sorted, doc)),
    decreases sorted.len(),
{
    if sorted.len() == 0 {
        in_order_push(orders, sorted, doc);
    } else {
        let init = sorted.drop_last();
        let last = sorted.last();
        in_order_init(orders, sorted);
        not_after_laws(orders, doc, last, last);
        if compare_docs_spec(orders, doc, last, 0) != Comparison::Less {
            assert forall|k: int| 0 <= k < sorted.len() implies #[trigger] not_after(
                orders,
                sorted[k],
                doc,
            ) by {
                if k < init.len() {
                    assert(not_after(orders, init[k], last));
                    not_after_laws(orders, sorted[k], last, doc);
                }
            }
            in_order_push(orders, sorted, doc);
        } else {
            insert_doc_in_order(orders, init, doc);
            insert_doc_bound(orders, init, doc, last);
            in_order_push(orders, insert_doc(orders, init, doc), last);
        }
    }
}

/// Sorting puts the documents in order and neither drops nor adds one.
pub proof fn sort_docs_in_order(orders: Seq<(Seq<char>, bool)>, docs: Seq<DocumentView>)
    ensures
        in_order(orders, sort_docs_spec(orders, docs)),
        sort_docs_spec(orders, docs).to_multiset() == docs.to_multiset(),
    decreases docs.len(),
{
    broadcast use vstd::seq_lib::group_to_multiset_ensures;

    if docs.len() > 0 {
        let init = docs.drop_last();
        sort_docs_in_order(orders, init);
        insert_doc_in_order(orders, sort_docs_spec(orders, init), docs.last());
        insert_doc_multiset(orders, sort_docs_spec(orders, init), docs.last());
        assert(docs =~= init.push(docs.last()));
    } else {
        assert(docs =~= Seq::empty());
    }
}

proof fn retain_bound(
    orders: Seq<(Seq<char>, bool)>,
    docs: Seq<DocumentView>,
    keep: spec_fn(DocumentView) -> bool,
    bound: DocumentView,
)
    requires
        forall|k: int| 0 <= k < docs.len() ==> #[trigger] not_after(orders, docs[k], bound),
    ensures
        forall|k: int|
            0 <= k < retain_spec(docs, keep).len() ==> #[trigger] not_after(
                orders,
                retain_spec(docs, keep)[k],
                bound,
            ),
{
    retain_members(docs, keep);
    let result = retain_spec(docs, keep);
    assert forall|k: int| 0 <= k < result.len() implies #[trigger] not_after(
        orders,
        result[k],
        bound,
    ) by {
        assert(docs.contains(result[k]));
        let m = choose|m: int| 0 <= m < docs.len() && docs[m] == result[k];
        assert(not_after(orders, docs[m], bound));
    }
}

proof fn retain_in_order(
    orders: Seq<(Seq<char>, bool)>,
    docs: Seq<DocumentView>,
    keep: spec_fn(DocumentView) -> bool,
)
    requires
        in_order(orders, docs),
    ensures
        in_order(orders, retain_spec(docs, keep)),
    decreases docs.len(),
{
    if docs.len() > 0 {
        let init = docs.drop_last();
        in_order_init(orders, docs);
        retain_in_order(orders, init, keep);
        retain_bound(orders, init, keep, docs.last());
        in_order_push(orders, retain_spec(init, keep), docs.last());
    }
}

proof fn retain_members(docs: Seq<DocumentView>, keep: spec_fn(DocumentView) -> bool)
    ensures
        forall|k: int|
            0 <= k < retain_spec(docs, keep).len() ==> docs.contains(
                #[trigger] retain_spec(docs, keep)[k],
            ) && keep(retain_spec(docs, keep)[k]),
    decreases docs.len(),
{
    if docs.len() > 0 {
        let init = docs.drop_last();
        retain_members(init, keep);
        let before = retain_spec(init, keep);
        let result = retain_spec(docs, keep);
        assert forall|k: int| 0 <= k < result.len() implies docs.contains(#[trigger] result[k])
            && keep(result[k]) by {
            if k < before.len() {
                assert(result[k] == before[k]);
                let m = choose|m: int| 0 <= m < init.len() && init[m] == before[k];
                assert(docs[m] == before[k]);
            } else {
                assert(docs[docs.len() - 1] == result[k]);
            }
        }
    }
}

/// The results of a query stand in its order, lie between its cursors and have
/// a value in each of its orders.
pub proof fn query_results_in_order(
    docs: Seq<DocumentView>,
    orders: Seq<(Seq<char>, bool)>,
    query: QueryView,
)
    requires
        ordered_results(docs, orders, query) is Ok,
    ensures
        in_order(orders, ordered_results(docs, orders, query)->Ok_0),
        query.end_at matches Some(c) ==> forall|k: int|
            0 <= k < ordered_results(docs, orders, query)->Ok_0.len() ==> within_cursor(
                orders,
                c,
                false,
                #[trigger] ordered_results(docs, orders, query)->Ok_0[k],
            ),
{
    let kept = retain_spec(docs, |d: DocumentView| has_order_fields(orders, d));
    let sorted = sort_docs_spec(orders, kept);
    sort_docs_in_order(orders, kept);
    let started = match query.start_at {
        Some(c) => {
            retain_in_order(
                orders,
                sorted,
                |d: DocumentView| within_cursor(orders, c, true, d),
            );
            retain_spec(sorted, |d: DocumentView| within_cursor(orders, c, true, d))
        },
        None => sorted,
    };
    assert(in_order(orders, started));
    match query.end_at {
        Some(c) => {
            let keep = |d: DocumentView| within_cursor(orders, c, false, d);
            retain_in_order(orders, started, keep);
            retain_members(started, keep);
            let result = retain_spec(started, keep);
            assert(ordered_results(docs, orders, query)->Ok_0 == result);
            assert forall|k: int| 0 <= k < result.len() implies within_cursor(
                orders,
                c,
                false,
                #[trigger] result[k],
            ) by {
                assert(keep(result[k]));
            }
        },
        None => {},
    }
}

proof fn selected_counts(
    documents: DocumentsView,
    parent: Seq<char>,
    selector: (Seq<char>, bool),
    filter: Option<FilterView>,
)
    ensures
        selected_spec(documents, parent, selector, filter) matches Ok(docs) ==> docs.len()
            <= documents.len(),
    decreases documents.len(),
{
    if documents.len() > 0 {
        selected_counts(documents.drop_last(), parent, selector, filter);
    }
}

proof fn retain_counts(docs: Seq<DocumentView>, keep: spec_fn(DocumentView) -> bool)
    ensures
        retain_spec(docs, keep).len() <= docs.len(),
    decreases docs.len(),
{
    if docs.len() > 0 {
        retain_counts(docs.drop_last(), keep);
    }
}

proof fn cut_counts(
    orders: Seq<(Seq<char>, bool)>,
    cursor: Option<CursorView>,
    start: bool,
    docs: Seq<DocumentView>,
)
    ensures
        cut_at_cursor(orders, cursor, start, docs) matches Ok(kept) ==> kept.len() <= docs.len(),
{
    if let Some(c) = cursor {
        retain_counts(docs, |d: DocumentView| within_cursor(orders, c, start, d));
    }
}

proof fn ordered_counts(docs: Seq<DocumentView>, orders: Seq<(Seq<char>, bool)>, query: QueryView)
    ensures
        ordered_results(docs, orders, query) matches Ok(results) ==> results.len() <= docs.len(),
{
    broadcast use vstd::seq_lib::group_to_multiset_ensures;

    let kept = retain_spec(docs, |d: DocumentView| has_order_fields(orders, d));
    retain_counts(docs, |d: DocumentView| has_order_fields(orders, d));
    let sorted = sort_docs_spec(orders, kept);
    sort_docs_in_order(orders, kept);
    assert(sorted.to_multiset().len() == kept.to_multiset().len());
    assert(sorted.len() == kept.len());
    cut_counts(orders, query.start_at, true, sorted);
    if let Ok(started) = cut_at_cursor(orders, query.start_at, true, sorted) {
        cut_counts(orders, query.end_at, false, started);
    }
}

/// A query returns no more documents than there are.
pub proof fn query_finds_no_more(documents: DocumentsView, parent: Seq<char>, query: QueryView)
    ensures
        query_docs_spec(documents, parent, query) matches Ok(docs) ==> docs.len()
            <= documents.len(),
{
    if query_docs_spec(documents, parent, query) is Ok {
        selected_counts(documents, parent, query.from[0], query.filter);
        let docs = selected_spec(documents, parent, query.from[0], query.filter)->Ok_0;
        let given = given_orders_spec(query.order_by)->Ok_0;
        ordered_counts(docs, full_orders_spec(given, query_inequalities(query)), query);
    }
}

/// A query returns no more documents than its limit.
pub proof fn query_honors_limit(documents: DocumentsView, parent: Seq<char>, query: QueryView)
    requires
        query_docs_spec(documents, parent, query) is Ok,
        query.limit is Some,
    ensures
        query_docs_spec(documents, parent, query)->Ok_0.len() <= query.limit->0,
{
}

proof fn selected_meets_filter(
    documents: DocumentsView,
    parent: Seq<char>,
    selector: (Seq<char>, bool),
    filter: Option<FilterView>,
)
    requires
        selected_spec(documents, parent, selector, filter) is Ok,
    ensures
        forall|k: int|
            0 <= k < selected_spec(documents, parent, selector, filter)->Ok_0.len() ==> selects(
                #[trigger] selected_spec(documents, parent, selector, filter)->Ok_0[k],
                parent,
                selector,
                filter,
            ) == Ok::<bool, StatusView>(true),
    decreases documents.len(),
{
    if documents.len() > 0 {
        selected_meets_filter(documents.drop_last(), parent, selector, filter);
    }
}

/// Every document that a query without a projection returns belongs to the
/// queried collection and meets the filter.
pub proof fn query_results_meet_filter(
    documents: DocumentsView,
    parent: Seq<char>,
    query: QueryView,
    k: int,
)
    requires
        query_docs_spec(documents, parent, query) is Ok,
        query.select is None,
        0 <= k < query_docs_spec(documents, parent, query)->Ok_0.len(),
    ensures
        selects(
            query_docs_spec(documents, parent, query)->Ok_0[k],
            parent,
            query.from[0],
            query.filter,
        ) == Ok::<bool, StatusView>(true),
{
    let docs = selected_spec(documents, parent, query.from[0], query.filter)->Ok_0;
    let given = given_orders_spec(query.order_by)->Ok_0;
    let orders = full_orders_spec(given, query_inequalities(query));
    selected_meets_filter(documents, parent, query.from[0], query.filter);
    let has = |d: DocumentView| has_order_fields(orders, d);
    let kept = retain_spec(docs, has);
    retain_members(docs, has);
    let sorted = sort_docs_spec(orders, kept);
    sort_docs_in_order(orders, kept);
    let started = cut_at_cursor(orders, query.start_at, true, sorted)->Ok_0;
    let ended = cut_at_cursor(orders, query.end_at, false, started)->Ok_0;
    if query.start_at is Some {
        retain_members(
            sorted,
            |d: DocumentView| within_cursor(orders, query.start_at->0, true, d),
        );
    }
    if query.end_at is Some {
        retain_members(
            started,
            |d: DocumentView| within_cursor(orders, query.end_at->0, false, d),
        );
    }
    let doc = query_docs_spec(documents, parent, query)->Ok_0[k];
    let at = k + query.offset;
    assert(doc == ended[at]);
    if query.end_at is Some {
        assert(started.contains(doc));
    } else {
        assert(started[at] == doc);
    }
    let m = choose|m: int| 0 <= m < started.len() && started[m] == doc;
    if query.start_at is Some {
        assert(sorted.contains(started[m]));
    } else {
        assert(sorted[m] == doc);
    }
    assert(sorted.contains(doc));
    broadcast use vstd::seq_lib::group_to_multiset_ensures;

    assert(sorted.to_multiset().count(doc) > 0);
    assert(kept.to_multiset().count(doc) > 0);
    assert(kept.contains(doc));
    let n = choose|n: int| 0 <= n < kept.len() && kept[n] == doc;
    assert(docs.contains(kept[n]));
}

} // verus!
