//! What the documents that a query returns have to do with those that it was
//! asked of.
use crate::document::{copy_paths, field_value_spec, DocumentView};
use crate::double::Comparison;
use crate::names::matches_collection_spec;
use crate::operator_laws::{fails, holds, is_plain_name, kind, meets, plain_names_find_fields};
use crate::ordered::{keys_sorted, lookup, lookup_after_put, put};
use crate::query::{
    compare_docs_spec, cut_at_cursor, full_orders_spec, given_orders_spec, has_order_fields,
    inequality_fields_spec, inequality_list_spec, not_after, order_key, ordered_by, ordered_results,
    page_of, query_docs_spec, query_inequalities, retain_spec, selected_paths, selected_spec,
    selects, sort_docs_in_order, sort_docs_spec, with_inequalities, within_cursor, CursorView,
    FilterView, OrderView, QueryView,
};
use crate::status::{Code, StatusView};
use crate::text::{after_prefix, split_of_joined, split_spec, trim_end_spec};
use crate::value::{compare_antisymmetric, compare_spec, FieldsView, ValueView};
use crate::writes::{stored_by_name, DocumentsView};
use vstd::prelude::*;

verus! {

/// Whether a text is one part of a name: not empty, and without a slash.
pub open spec fn is_part(s: Seq<char>) -> bool {
    s.len() > 0 && !s.contains('/')
}

proof fn part_is_not_split(s: Seq<char>)
    requires
        !s.contains('/'),
    ensures
        split_spec(s, '/') == seq![s],
    decreases s.len(),
{
    if s.len() > 0 {
        let init = s.drop_last();
        assert forall|i: int| 0 <= i < init.len() implies init[i] != '/' by {
            assert(s[i] == init[i]);
        }
        assert(!init.contains('/'));
        part_is_not_split(init);
        assert(s.last() != '/') by {
            assert(s[s.len() - 1] == s.last());
        }
        assert(init.push(s.last()) =~= s);
        assert(seq![init].drop_last().push(init.push(s.last())) =~= seq![s]);
    } else {
        assert(s =~= Seq::empty());
    }
}

/// The documents of a collection are those that stand right below it: one whose
/// name is that of the parent, the collection and one more part is found, under
/// the collection asked for and no other.
pub proof fn collections_hold_their_documents(
    parent: Seq<char>,
    collection: Seq<char>,
    asked: Seq<char>,
    id: Seq<char>,
)
    requires
        parent.len() > 0,
        parent.last() != '/',
        is_part(collection),
        is_part(id),
    ensures
        matches_collection_spec(
            parent + "/"@ + collection + "/"@ + id,
            parent,
            asked,
            false,
        ) == (asked == collection),
        matches_collection_spec(
            parent + "/"@ + collection + "/"@ + id,
            parent,
            asked,
            true,
        ) == (asked == collection),
{
    reveal_strlit("/");
    let name = parent + "/"@ + collection + "/"@ + id;
    let front = parent + "/"@;
    let relative = collection.push('/') + id;
    assert("/"@ =~= seq!['/']);
    assert(trim_end_spec(parent, '/') == parent);
    assert(name =~= front + relative);
    assert(front.is_prefix_of(name)) by {
        assert(name.take(front.len() as int) =~= front);
    }
    assert(name.skip(front.len() as int) =~= relative);
    assert(after_prefix(name, front) == Some(relative));
    split_of_joined(collection, id, '/');
    part_is_not_split(collection);
    part_is_not_split(id);
    assert(split_spec(relative, '/') =~= seq![collection, id]);
}

/// A document that stands deeper below the parent is found only where all
/// collections of that id are asked for.
pub proof fn deeper_documents_are_found_by_id(
    parent: Seq<char>,
    outer: Seq<char>,
    middle: Seq<char>,
    collection: Seq<char>,
    id: Seq<char>,
    asked: Seq<char>,
)
    requires
        parent.len() > 0,
        parent.last() != '/',
        is_part(outer),
        is_part(middle),
        is_part(collection),
        is_part(id),
    ensures
        !matches_collection_spec(
            parent + "/"@ + outer + "/"@ + middle + "/"@ + collection + "/"@ + id,
            parent,
            asked,
            false,
        ),
        matches_collection_spec(
            parent + "/"@ + outer + "/"@ + middle + "/"@ + collection + "/"@ + id,
            parent,
            asked,
            true,
        ) == (asked == collection),
{
    reveal_strlit("/");
    let name = parent + "/"@ + outer + "/"@ + middle + "/"@ + collection + "/"@ + id;
    let front = parent + "/"@;
    let last = collection.push('/') + id;
    let third = middle.push('/') + last;
    let relative = outer.push('/') + third;
    assert("/"@ =~= seq!['/']);
    assert(trim_end_spec(parent, '/') == parent);
    assert(name =~= front + relative);
    assert(front.is_prefix_of(name)) by {
        assert(name.take(front.len() as int) =~= front);
    }
    assert(name.skip(front.len() as int) =~= relative);
    assert(after_prefix(name, front) == Some(relative));
    split_of_joined(collection, id, '/');
    split_of_joined(middle, last, '/');
    split_of_joined(outer, third, '/');
    part_is_not_split(outer);
    part_is_not_split(middle);
    part_is_not_split(collection);
    part_is_not_split(id);
    assert(split_spec(relative, '/') =~= seq![outer, middle, collection, id]);
}

/// A document that does not stand below the parent is in none of its
/// collections.
pub proof fn foreign_documents_are_not_found(
    name: Seq<char>,
    parent: Seq<char>,
    collection: Seq<char>,
    descendants: bool,
)
    requires
        parent.len() > 0,
        parent.last() != '/',
        !(parent + "/"@).is_prefix_of(name),
    ensures
        !matches_collection_spec(name, parent, collection, descendants),
{
    assert(trim_end_spec(parent, '/') == parent);
}

/// Whether a filter speaks of a field.
pub open spec fn speaks_of(filter: FilterView, path: Seq<char>) -> bool
    decreases filter,
{
    match filter {
        FilterView::Unset => false,
        FilterView::Composite { op, filters } => exists|i: int|
            0 <= i < filters.len() && speaks_of(#[trigger] filters[i], path),
        FilterView::Field { field, op, value } => field == Some(path),
        FilterView::Unary { op, field } => field == Some(path),
    }
}

/// Whether an entry of that name is among the entries.
spec fn named<T>(entries: Seq<(Seq<char>, T)>, path: Seq<char>) -> bool {
    exists|i: int| 0 <= i < entries.len() && (#[trigger] entries[i]).0 == path
}

proof fn put_names<T>(entries: Seq<(Seq<char>, T)>, key: Seq<char>, value: T, path: Seq<char>)
    requires
        named(put(entries, key, value), path),
    ensures
        named(entries, path) || path == key,
{
    crate::ordered::lower_bound_properties(entries, key);
    let b = crate::ordered::lower_bound(entries, key);
    let after = put(entries, key, value);
    let i = choose|i: int| 0 <= i < after.len() && (#[trigger] after[i]).0 == path;
    if i != b {
        let k = if after.len() == entries.len() || i < b { i } else { i - 1 };
        assert(after[i] == entries[k]);
    }
}

proof fn inequalities_are_spoken_of(
    filter: FilterView,
    fields: Seq<(Seq<char>, ())>,
    path: Seq<char>,
)
    requires
        named(inequality_fields_spec(filter, fields), path),
    ensures
        named(fields, path) || speaks_of(filter, path),
    decreases filter, 0nat,
{
    match filter {
        FilterView::Composite { op, filters } => {
            listed_inequalities_are_spoken_of(filters, filters.len(), fields, path);
        },
        FilterView::Field { field, op, value } => {
            if (op == 1 || op == 2 || op == 3 || op == 4 || op == 6 || op == 10) && field is Some {
                put_names(fields, field->0, (), path);
            }
        },
        FilterView::Unary { op, field } => {
            if (op == 4 || op == 5) && field is Some {
                put_names(fields, field->0, (), path);
            }
        },
        FilterView::Unset => {},
    }
}

proof fn listed_inequalities_are_spoken_of(
    filters: Seq<FilterView>,
    n: nat,
    fields: Seq<(Seq<char>, ())>,
    path: Seq<char>,
)
    requires
        n <= filters.len(),
        named(inequality_list_spec(filters, n, fields), path),
    ensures
        named(fields, path) || exists|i: int|
            0 <= i < n && speaks_of(#[trigger] filters[i], path),
    decreases filters, n,
{
    if n > 0 {
        let before = inequality_list_spec(filters, (n - 1) as nat, fields);
        inequalities_are_spoken_of(filters[n - 1], before, path);
        if speaks_of(filters[n - 1], path) {
        } else {
            listed_inequalities_are_spoken_of(filters, (n - 1) as nat, fields, path);
        }
    }
}

proof fn more_orders(given: Seq<(Seq<char>, bool)>, fields: Seq<(Seq<char>, ())>, n: nat)
    requires
        n <= fields.len(),
    ensures
        ({
            let all = with_inequalities(given, fields, n);
            &&& given.len() <= all.len()
            &&& all.take(given.len() as int) == given
            &&& forall|i: int|
                given.len() <= i < all.len() ==> named(fields, (#[trigger] all[i]).0)
        }),
    decreases n,
{
    let all = with_inequalities(given, fields, n);
    if n == 0 {
        assert(all.take(given.len() as int) =~= given);
    } else {
        more_orders(given, fields, (n - 1) as nat);
        let before = with_inequalities(given, fields, (n - 1) as nat);
        assert(fields[n - 1].0 == fields[n - 1].0);
        assert(named(fields, fields[n - 1].0));
        if all.len() != before.len() {
            assert(all.take(given.len() as int) =~= before.take(given.len() as int));
            assert forall|i: int| given.len() <= i < all.len() implies named(
                fields,
                (#[trigger] all[i]).0,
            ) by {
                if i < before.len() {
                    assert(all[i] == before[i]);
                }
            }
        }
    }
}

/// The orders of a query as it uses them.
pub open spec fn used_orders(query: QueryView) -> Seq<(Seq<char>, bool)> {
    full_orders_spec(given_orders_spec(query.order_by)->Ok_0, query_inequalities(query))
}

proof fn given_orders_are_given(orders: Seq<OrderView>)
    requires
        given_orders_spec(orders) is Ok,
    ensures
        given_orders_spec(orders)->Ok_0.len() == orders.len(),
        forall|i: int|
            0 <= i < orders.len() ==> (#[trigger] orders[i]).field == Some(
                given_orders_spec(orders)->Ok_0[i].0,
            ) && given_orders_spec(orders)->Ok_0[i].1 == (orders[i].direction == 2),
    decreases orders.len(),
{
    if orders.len() > 0 {
        let init = orders.drop_last();
        given_orders_are_given(init);
        let all = given_orders_spec(orders)->Ok_0;
        assert forall|i: int| 0 <= i < orders.len() implies (#[trigger] orders[i]).field == Some(
            all[i].0,
        ) && all[i].1 == (orders[i].direction == 2) by {
            if i < init.len() {
                assert(init[i] == orders[i]);
            }
        }
    }
}

proof fn used_orders_begin_as_given(query: QueryView)
    requires
        given_orders_spec(query.order_by) is Ok,
    ensures
        ({
            let all = used_orders(query);
            &&& all.len() >= query.order_by.len()
            &&& forall|i: int|
                0 <= i < query.order_by.len() ==> (#[trigger] query.order_by[i]).field == Some(
                    all[i].0,
                ) && all[i].1 == (query.order_by[i].direction == 2)
            &&& forall|i: int|
                query.order_by.len() <= i < all.len() ==> (#[trigger] all[i]).0 == "__name__"@
                    || (query.filter matches Some(f) && speaks_of(f, all[i].0))
        }),
{
    let given = given_orders_spec(query.order_by)->Ok_0;
    let fields = query_inequalities(query);
    given_orders_are_given(query.order_by);
    more_orders(given, fields, fields.len());
    let most = with_inequalities(given, fields, fields.len());
    let all = used_orders(query);
    assert forall|i: int| 0 <= i < given.len() implies all[i] == given[i] by {
        assert(most.take(given.len() as int)[i] == most[i]);
        assert(all[i] == most[i]);
    }
    assert forall|i: int| query.order_by.len() <= i < all.len() implies (#[trigger] all[i]).0
        == "__name__"@ || (query.filter matches Some(f) && speaks_of(f, all[i].0)) by {
        if i < most.len() {
            assert(all[i] == most[i]);
            assert(named(fields, most[i].0));
            if query.filter is Some {
                inequalities_are_spoken_of(query.filter->0, Seq::empty(), most[i].0);
            }
        }
    }
}

proof fn retained(docs: Seq<DocumentView>, keep: spec_fn(DocumentView) -> bool, d: DocumentView)
    ensures
        retain_spec(docs, keep).contains(d) == (docs.contains(d) && keep(d)),
        docs.no_duplicates() ==> retain_spec(docs, keep).no_duplicates(),
    decreases docs.len(),
{
    if docs.len() > 0 {
        let init = docs.drop_last();
        retained(init, keep, d);
        retained(init, keep, docs.last());
        let before = retain_spec(init, keep);
        let all = retain_spec(docs, keep);
        if docs.contains(d) {
            let i = choose|i: int| 0 <= i < docs.len() && docs[i] == d;
            if i < init.len() {
                assert(init[i] == d);
            }
        }
        if init.contains(d) {
            let i = choose|i: int| 0 <= i < init.len() && init[i] == d;
            assert(docs[i] == d);
        }
        if before.contains(d) {
            let i = choose|i: int| 0 <= i < before.len() && before[i] == d;
            assert(all[i] == d);
        }
        if keep(docs.last()) {
            assert(all[all.len() - 1] == docs.last());
            assert(docs[docs.len() - 1] == docs.last());
            if all.contains(d) && d != docs.last() {
                let i = choose|i: int| 0 <= i < all.len() && all[i] == d;
                assert(before[i] == d);
            }
        }
        if docs.no_duplicates() {
            assert forall|i: int, j: int| 0 <= i < j < init.len() implies init[i] != init[j] by {
                assert(docs[i] != docs[j]);
            }
            assert(!init.contains(docs.last())) by {
                if init.contains(docs.last()) {
                    let i = choose|i: int| 0 <= i < init.len() && init[i] == docs.last();
                    assert(docs[i] != docs[docs.len() - 1]);
                }
            }
            assert forall|i: int, j: int| 0 <= i < j < all.len() implies all[i] != all[j] by {
                if j < before.len() {
                    assert(all[i] == before[i] && all[j] == before[j]);
                } else {
                    assert(all[i] == before[i]);
                    assert(before.contains(all[i]));
                }
            }
        }
    }
}

proof fn sorted_holds_the_same(
    orders: Seq<(Seq<char>, bool)>,
    docs: Seq<DocumentView>,
    d: DocumentView,
)
    ensures
        sort_docs_spec(orders, docs).contains(d) == docs.contains(d),
        docs.no_duplicates() ==> sort_docs_spec(orders, docs).no_duplicates(),
{
    broadcast use vstd::seq_lib::group_to_multiset_ensures;

    sort_docs_in_order(orders, docs);
    let sorted = sort_docs_spec(orders, docs);
    assert(sorted.contains(d) == (sorted.to_multiset().count(d) > 0));
    assert(docs.contains(d) == (docs.to_multiset().count(d) > 0));
    if docs.no_duplicates() {
        docs.lemma_multiset_has_no_duplicates();
        sorted.lemma_multiset_has_no_duplicates_conv();
    }
}

proof fn selected_holds(
    documents: DocumentsView,
    parent: Seq<char>,
    selector: (Seq<char>, bool),
    filter: Option<FilterView>,
    d: DocumentView,
)
    requires
        selected_spec(documents, parent, selector, filter) is Ok,
    ensures
        selected_spec(documents, parent, selector, filter)->Ok_0.contains(d) <==> (exists|k: int|
            0 <= k < documents.len() && (#[trigger] documents[k]).1 == d) && selects(
            d,
            parent,
            selector,
            filter,
        ) == Ok::<bool, StatusView>(true),
        stored_by_name(documents) ==> selected_spec(
            documents,
            parent,
            selector,
            filter,
        )->Ok_0.no_duplicates(),
    decreases documents.len(),
{
    if documents.len() > 0 {
        let init = documents.drop_last();
        let last = documents.last();
        selected_holds(init, parent, selector, filter, d);
        selected_holds(init, parent, selector, filter, last.1);
        let before = selected_spec(init, parent, selector, filter)->Ok_0;
        let all = selected_spec(documents, parent, selector, filter)->Ok_0;
        let there = exists|k: int| 0 <= k < documents.len() && (#[trigger] documents[k]).1 == d;
        let early = exists|k: int| 0 <= k < init.len() && (#[trigger] init[k]).1 == d;
        assert(there == (early || last.1 == d)) by {
            if there {
                let k = choose|k: int| 0 <= k < documents.len() && (#[trigger] documents[k]).1 == d;
                if k < init.len() {
                    assert(init[k].1 == d);
                }
            }
            if early {
                let k = choose|k: int| 0 <= k < init.len() && (#[trigger] init[k]).1 == d;
                assert(documents[k].1 == d);
            }
            assert(documents[documents.len() - 1] == last);
        }
        if before.contains(d) {
            let i = choose|i: int| 0 <= i < before.len() && before[i] == d;
            assert(all[i] == d);
        }
        if all.len() > before.len() {
            assert(all[all.len() - 1] == last.1);
            if all.contains(d) && d != last.1 {
                let i = choose|i: int| 0 <= i < all.len() && all[i] == d;
                assert(before[i] == d);
            }
        }
        if stored_by_name(documents) {
            assert(stored_by_name(init)) by {
                assert forall|i: int, j: int| 0 <= i < j < init.len() implies
                    crate::text::text_less(#[trigger] init[i].0, #[trigger] init[j].0) by {
                    assert(init[i] == documents[i] && init[j] == documents[j]);
                }
                assert forall|i: int| 0 <= i < init.len() implies (#[trigger] init[i]).1.name
                    == init[i].0 by {
                    assert(init[i] == documents[i]);
                }
            }
            assert(!before.contains(last.1)) by {
                if before.contains(last.1) {
                    let k = choose|k: int|
                        0 <= k < init.len() && (#[trigger] init[k]).1 == last.1;
                    assert(init[k] == documents[k]);
                    assert(documents[k].1.name == documents[k].0);
                    assert(documents[documents.len() - 1].1.name == last.0);
                    crate::text::text_less_irreflexive(last.0);
                }
            }
            assert forall|i: int, j: int| 0 <= i < j < all.len() implies all[i] != all[j] by {
                if j < before.len() {
                    assert(all[i] == before[i] && all[j] == before[j]);
                } else {
                    assert(all[i] == before[i]);
                    assert(before.contains(all[i]));
                }
            }
        }
    }
}

/// Whether a document stands on the right side of a cursor, where there is one.
spec fn on_side(
    orders: Seq<(Seq<char>, bool)>,
    cursor: Option<CursorView>,
    start: bool,
    d: DocumentView,
) -> bool {
    cursor matches Some(c) ==> within_cursor(orders, c, start, d)
}

proof fn cut_holds(
    orders: Seq<(Seq<char>, bool)>,
    cursor: Option<CursorView>,
    start: bool,
    docs: Seq<DocumentView>,
    d: DocumentView,
)
    requires
        cut_at_cursor(orders, cursor, start, docs) is Ok,
    ensures
        cut_at_cursor(orders, cursor, start, docs)->Ok_0.contains(d) == (docs.contains(d)
            && on_side(orders, cursor, start, d)),
        docs.no_duplicates() ==> cut_at_cursor(orders, cursor, start, docs)->Ok_0.no_duplicates(),
{
    if let Some(c) = cursor {
        retained(docs, |x: DocumentView| within_cursor(orders, c, start, x), d);
    }
}

proof fn ordered_holds(
    docs: Seq<DocumentView>,
    orders: Seq<(Seq<char>, bool)>,
    query: QueryView,
    d: DocumentView,
)
    requires
        ordered_results(docs, orders, query) is Ok,
    ensures
        ordered_results(docs, orders, query)->Ok_0.contains(d) == (docs.contains(d)
            && has_order_fields(orders, d) && on_side(orders, query.start_at, true, d) && on_side(
            orders,
            query.end_at,
            false,
            d,
        )),
        docs.no_duplicates() ==> ordered_results(docs, orders, query)->Ok_0.no_duplicates(),
{
    let keep = |x: DocumentView| has_order_fields(orders, x);
    retained(docs, keep, d);
    let kept = retain_spec(docs, keep);
    sorted_holds_the_same(orders, kept, d);
    let sorted = sort_docs_spec(orders, kept);
    cut_holds(orders, query.start_at, true, sorted, d);
    let started = cut_at_cursor(orders, query.start_at, true, sorted)->Ok_0;
    cut_holds(orders, query.end_at, false, started, d);
}

/// What a query returns.
pub open spec fn answer(
    documents: DocumentsView,
    parent: Seq<char>,
    query: QueryView,
) -> Seq<DocumentView> {
    query_docs_spec(documents, parent, query)->Ok_0
}

/// Whether a query returns whole documents, and all that it finds.
pub open spec fn is_whole(query: QueryView) -> bool {
    query.select is None && query.offset == 0 && query.limit is None
}

proof fn whole_answer(documents: DocumentsView, parent: Seq<char>, query: QueryView)
    requires
        query_docs_spec(documents, parent, query) is Ok,
        query.select is None,
        documents.len() < i32::MAX,
    ensures
        ({
            let docs = selected_spec(documents, parent, query.from[0], query.filter)->Ok_0;
            let all = ordered_results(docs, used_orders(query), query)->Ok_0;
            &&& selected_spec(documents, parent, query.from[0], query.filter) is Ok
            &&& given_orders_spec(query.order_by) is Ok
            &&& ordered_results(docs, used_orders(query), query) is Ok
            &&& all.len() <= documents.len()
            &&& is_whole(query) ==> answer(documents, parent, query) == all
        }),
{
    let docs = selected_spec(documents, parent, query.from[0], query.filter)->Ok_0;
    crate::query::query_finds_no_more(
        documents,
        parent,
        QueryView { select: None, offset: 0, limit: None, ..query },
    );
    let all = ordered_results(docs, used_orders(query), query)->Ok_0;
    let whole = QueryView { select: None, offset: 0, limit: None, ..query };
    assert(query_inequalities(whole) == query_inequalities(query));
    assert(ordered_results(docs, used_orders(query), whole) == ordered_results(
        docs,
        used_orders(query),
        query,
    ));
    assert(all.skip(0) =~= all);
    assert(page_of(all, 0, i32::MAX as int).len() == if all.len() <= i32::MAX {
        all.len() as int
    } else {
        i32::MAX as int
    });
    if is_whole(query) {
        assert(query == whole);
    }
}

/// What a query returns are stored documents of the collection that meet the
/// filter, each once; and every such document that has the fields it is ordered
/// by is returned.
pub proof fn queries_find_what_they_ask_for(
    documents: DocumentsView,
    parent: Seq<char>,
    query: QueryView,
    d: DocumentView,
)
    requires
        stored_by_name(documents),
        documents.len() < i32::MAX,
        is_whole(query),
        query.start_at is None,
        query.end_at is None,
        query_docs_spec(documents, parent, query) is Ok,
    ensures
        ({
            let found = answer(documents, parent, query);
            let wanted = lookup(documents, d.name) == Some(d) && matches_collection_spec(
                d.name,
                parent,
                query.from[0].0,
                query.from[0].1,
            ) && (query.filter matches Some(f) ==> meets(d, f));
            &&& found.no_duplicates()
            &&& found.contains(d) ==> wanted
            &&& found.contains(d) ==> forall|i: int|
                0 <= i < query.order_by.len() ==> ((#[trigger] query.order_by[i]).field matches Some(
                    path,
                ) && field_value_spec(d, path) is Some)
            &&& wanted && (forall|i: int|
                0 <= i < query.order_by.len() ==> ((#[trigger] query.order_by[i]).field matches Some(
                    path,
                ) ==> field_value_spec(d, path) is Some)) && (query.filter matches Some(f)
                ==> forall|path: Seq<char>|
                #[trigger] speaks_of(f, path) ==> field_value_spec(d, path) is Some)
                ==> found.contains(d)
        }),
{
    whole_answer(documents, parent, query);
    let docs = selected_spec(documents, parent, query.from[0], query.filter)->Ok_0;
    let orders = used_orders(query);
    ordered_holds(docs, orders, query, d);
    selected_holds(documents, parent, query.from[0], query.filter, d);
    used_orders_begin_as_given(query);
    let there = exists|k: int| 0 <= k < documents.len() && (#[trigger] documents[k]).1 == d;
    assert(there == (lookup(documents, d.name) == Some(d))) by {
        if there {
            let k = choose|k: int| 0 <= k < documents.len() && (#[trigger] documents[k]).1 == d;
            crate::ordered::lookup_at(documents, k);
        }
        crate::ordered::lookup_found(documents, d.name);
    }
    let found = answer(documents, parent, query);
    if found.contains(d) {
        assert forall|i: int| 0 <= i < query.order_by.len() implies ((
        #[trigger] query.order_by[i]).field matches Some(path) && field_value_spec(d, path)
            is Some) by {
            assert(field_value_spec(d, orders[i].0) is Some);
        }
    }
    if forall|i: int|
        0 <= i < query.order_by.len() ==> ((#[trigger] query.order_by[i]).field matches Some(path)
            ==> field_value_spec(d, path) is Some) {
        if query.filter matches Some(f) ==> forall|path: Seq<char>|
            #[trigger] speaks_of(f, path) ==> field_value_spec(d, path) is Some {
            assert forall|i: int| 0 <= i < orders.len() implies field_value_spec(
                d,
                (#[trigger] orders[i]).0,
            ) is Some by {
                if i < query.order_by.len() {
                    assert(query.order_by[i].field == Some(orders[i].0));
                } else {
                    plain_names_find_fields(d, orders[i].0);
                    if orders[i].0 != "__name__"@ {
                        assert(speaks_of(query.filter->0, orders[i].0));
                    }
                }
            }
        }
    }
}

/// A query for a comparison with an integer returns, of the documents of the
/// collection whose field holds an integer, exactly those whose integer stands
/// in that relation to it: operator 1 is less, 2 less or equal, 3 greater, 4
/// greater or equal, 5 equal and 6 not equal.
pub proof fn integer_filters_select(
    documents: DocumentsView,
    parent: Seq<char>,
    query: QueryView,
    name: Seq<char>,
    op: i32,
    n: i64,
    d: DocumentView,
    m: i64,
)
    requires
        stored_by_name(documents),
        documents.len() < i32::MAX,
        is_whole(query),
        query.start_at is None,
        query.end_at is None,
        query.order_by.len() == 0,
        query_docs_spec(documents, parent, query) is Ok,
        is_plain_name(name),
        name != "__name__"@,
        1 <= op <= 6,
        query.filter == Some(
            FilterView::Field { field: Some(name), op, value: Some(ValueView::Integer(n)) },
        ),
        lookup(documents, d.name) == Some(d),
        matches_collection_spec(d.name, parent, query.from[0].0, query.from[0].1),
        lookup(d.fields, name) == Some(ValueView::Integer(m)),
    ensures
        answer(documents, parent, query).contains(d) == (if op == 1 {
            m < n
        } else if op == 2 {
            m <= n
        } else if op == 3 {
            m > n
        } else if op == 4 {
            m >= n
        } else if op == 5 {
            m == n
        } else {
            m != n
        }),
{
    queries_find_what_they_ask_for(documents, parent, query, d);
    crate::operator_laws::field_filters_read_the_field(d, name, op, ValueView::Integer(n));
    crate::operator_laws::integers_compare_as_integers(m, n);
    plain_names_find_fields(d, name);
    let f = query.filter->0;
    assert forall|path: Seq<char>| #[trigger] speaks_of(f, path) implies field_value_spec(d, path)
        is Some by {
        assert(path == name);
    }
}

proof fn first_order_decides(
    orders: Seq<(Seq<char>, bool)>,
    a: DocumentView,
    b: DocumentView,
)
    requires
        orders.len() > 0,
        not_after(orders, a, b),
    ensures
        ({
            let c = compare_spec(order_key(a, orders[0].0), order_key(b, orders[0].0));
            &&& orders[0].1 ==> c != Comparison::Less
            &&& !orders[0].1 ==> c != Comparison::Greater
        }),
{
    reveal(not_after);
}

/// Whether a value may stand before another in an ascending order: it is of an
/// earlier kind, or of the same kind and not greater.
pub open spec fn may_precede(a: ValueView, b: ValueView) -> bool {
    kind(a) < kind(b) || (kind(a) == kind(b) && fails(3, a, b))
}

proof fn level_or_before(a: ValueView, b: ValueView)
    ensures
        compare_spec(a, b) != Comparison::Greater ==> may_precede(a, b),
        compare_spec(a, b) != Comparison::Less ==> may_precede(b, a),
{
    compare_antisymmetric(a, b);
}

/// The results of a query stand in the order of the first field that it asks to
/// be ordered by: rising, or falling where the direction is 2.
pub proof fn results_follow_the_first_order(
    documents: DocumentsView,
    parent: Seq<char>,
    query: QueryView,
    path: Seq<char>,
    i: int,
    j: int,
)
    requires
        documents.len() < i32::MAX,
        is_whole(query),
        query_docs_spec(documents, parent, query) is Ok,
        query.order_by.len() > 0,
        query.order_by[0].field == Some(path),
        0 <= i < j < answer(documents, parent, query).len(),
    ensures
        ({
            let found = answer(documents, parent, query);
            let (a, b) = (field_value_spec(found[i], path), field_value_spec(found[j], path));
            &&& a is Some
            &&& b is Some
            &&& query.order_by[0].direction == 2 ==> may_precede(b->0, a->0)
            &&& query.order_by[0].direction != 2 ==> may_precede(a->0, b->0)
        }),
{
    whole_answer(documents, parent, query);
    let docs = selected_spec(documents, parent, query.from[0], query.filter)->Ok_0;
    let orders = used_orders(query);
    used_orders_begin_as_given(query);
    let found = answer(documents, parent, query);
    assert(query.order_by[0].field == Some(orders[0].0));
    crate::query::query_results_in_order(docs, orders, query);
    assert(not_after(orders, found[i], found[j]));
    first_order_decides(orders, found[i], found[j]);
    ordered_holds(docs, orders, query, found[i]);
    ordered_holds(docs, orders, query, found[j]);
    assert(found.contains(found[i]) && found.contains(found[j]));
    assert(field_value_spec(found[i], orders[0].0) is Some);
    assert(field_value_spec(found[j], orders[0].0) is Some);
    level_or_before(order_key(found[i], path), order_key(found[j], path));
}

/// Integers that a query orders by rise, or fall where the direction is 2.
pub proof fn integers_rise_or_fall(
    documents: DocumentsView,
    parent: Seq<char>,
    query: QueryView,
    name: Seq<char>,
    i: int,
    j: int,
    m: i64,
    n: i64,
)
    requires
        documents.len() < i32::MAX,
        is_whole(query),
        query_docs_spec(documents, parent, query) is Ok,
        query.order_by.len() > 0,
        is_plain_name(name),
        name != "__name__"@,
        query.order_by[0].field == Some(name),
        0 <= i < j < answer(documents, parent, query).len(),
        lookup(answer(documents, parent, query)[i].fields, name) == Some(ValueView::Integer(m)),
        lookup(answer(documents, parent, query)[j].fields, name) == Some(ValueView::Integer(n)),
    ensures
        query.order_by[0].direction == 2 ==> m >= n,
        query.order_by[0].direction != 2 ==> m <= n,
{
    results_follow_the_first_order(documents, parent, query, name, i, j);
    let found = answer(documents, parent, query);
    plain_names_find_fields(found[i], name);
    plain_names_find_fields(found[j], name);
    crate::operator_laws::integers_compare_as_integers(m, n);
    crate::operator_laws::integers_compare_as_integers(n, m);
}

/// Without an order and a filter the results stand in the rising order of their
/// names.
pub proof fn unordered_results_stand_by_name(
    documents: DocumentsView,
    parent: Seq<char>,
    query: QueryView,
    i: int,
    j: int,
)
    requires
        documents.len() < i32::MAX,
        is_whole(query),
        query_docs_spec(documents, parent, query) is Ok,
        query.order_by.len() == 0,
        query.filter is None,
        0 <= i < j < answer(documents, parent, query).len(),
    ensures
        ({
            let found = answer(documents, parent, query);
            fails(3, ValueView::Reference(found[i].name), ValueView::Reference(found[j].name))
        }),
{
    whole_answer(documents, parent, query);
    let docs = selected_spec(documents, parent, query.from[0], query.filter)->Ok_0;
    let orders = used_orders(query);
    let given = given_orders_spec(query.order_by)->Ok_0;
    assert(orders.len() == 1 && orders[0] == ("__name__"@, false));
    let found = answer(documents, parent, query);
    crate::query::query_results_in_order(docs, orders, query);
    assert(not_after(orders, found[i], found[j]));
    first_order_decides(orders, found[i], found[j]);
    plain_names_find_fields(found[i], "__name__"@);
    plain_names_find_fields(found[j], "__name__"@);
    level_or_before(
        ValueView::Reference(found[i].name),
        ValueView::Reference(found[j].name),
    );
}

/// A query with an offset and a limit returns the results of the same query
/// without them, behind the first `offset` and at most `limit`.
pub proof fn offset_and_limit_cut_the_results(
    documents: DocumentsView,
    parent: Seq<char>,
    query: QueryView,
    offset: i32,
    limit: i32,
)
    requires
        documents.len() < i32::MAX,
        is_whole(query),
        query_docs_spec(documents, parent, query) is Ok,
        offset >= 0,
        limit >= 0,
    ensures
        ({
            let all = answer(documents, parent, query);
            let cut = QueryView { offset, limit: Some(limit), ..query };
            let skipped = if offset < all.len() { offset as int } else { all.len() as int };
            let left = all.len() - skipped;
            let shown = answer(documents, parent, cut);
            &&& query_docs_spec(documents, parent, cut) is Ok
            &&& shown.len() == (if limit < left { limit as int } else { left })
            &&& forall|i: int|
                0 <= i < shown.len() ==> #[trigger] shown[i] == all[skipped + i]
        }),
{
    whole_answer(documents, parent, query);
    let cut = QueryView { offset, limit: Some(limit), ..query };
    let docs = selected_spec(documents, parent, query.from[0], query.filter)->Ok_0;
    assert(used_orders(cut) == used_orders(query)) by {
        assert(query_inequalities(cut) == query_inequalities(query));
    }
    assert(ordered_results(docs, used_orders(query), cut) == ordered_results(
        docs,
        used_orders(query),
        query,
    ));
}

/// Whether a value stands on the right side of a cursor's value in a rising
/// order. A start that is not `before` leaves out the value itself, and so does
/// an end that is.
pub open spec fn reached(v: ValueView, at: ValueView, start: bool, before: bool) -> bool {
    if start {
        if before {
            holds(4, v, at)
        } else {
            holds(3, v, at)
        }
    } else {
        if before {
            holds(1, v, at)
        } else {
            holds(2, v, at)
        }
    }
}

proof fn single_cursor(
    orders: Seq<(Seq<char>, bool)>,
    cursor: CursorView,
    start: bool,
    d: DocumentView,
)
    requires
        orders.len() > 0,
        cursor.values.len() == 1,
        kind(order_key(d, orders[0].0)) == kind(cursor.values[0]),
    ensures
        within_cursor(orders, cursor, start, d) == if orders[0].1 {
            reached(order_key(d, orders[0].0), cursor.values[0], !start, !cursor.before)
        } else {
            reached(order_key(d, orders[0].0), cursor.values[0], start, cursor.before)
        },
{
    reveal_with_fuel(crate::query::compare_cursor_spec, 2);
}

/// A cursor keeps, of the results of the same query without it, those whose
/// value in the first order stands on its side: from the cursor's value on
/// where it is a start, up to it where it is an end, the value itself with it
/// or not. In a falling order the sides are exchanged.
pub proof fn cursors_cut_the_results(
    documents: DocumentsView,
    parent: Seq<char>,
    query: QueryView,
    cursor: CursorView,
    start: bool,
    path: Seq<char>,
    d: DocumentView,
    v: ValueView,
)
    requires
        documents.len() < i32::MAX,
        is_whole(query),
        query.start_at is None,
        query.end_at is None,
        query_docs_spec(documents, parent, query) is Ok,
        query.order_by.len() > 0,
        query.order_by[0].field == Some(path),
        cursor.values.len() == 1,
        field_value_spec(d, path) == Some(v),
        kind(v) == kind(cursor.values[0]),
    ensures
        ({
            let cut = if start {
                QueryView { start_at: Some(cursor), ..query }
            } else {
                QueryView { end_at: Some(cursor), ..query }
            };
            let falling = query.order_by[0].direction == 2;
            let kept = answer(documents, parent, cut);
            &&& query_docs_spec(documents, parent, cut) is Ok
            &&& kept.contains(d) == (answer(documents, parent, query).contains(d) && if falling {
                reached(v, cursor.values[0], !start, !cursor.before)
            } else {
                reached(v, cursor.values[0], start, cursor.before)
            })
        }),
{
    let cut = if start {
        QueryView { start_at: Some(cursor), ..query }
    } else {
        QueryView { end_at: Some(cursor), ..query }
    };
    whole_answer(documents, parent, query);
    used_orders_begin_as_given(query);
    let orders = used_orders(query);
    assert(used_orders(cut) == orders) by {
        assert(query_inequalities(cut) == query_inequalities(query));
    }
    let docs = selected_spec(documents, parent, query.from[0], query.filter)->Ok_0;
    assert(query.order_by[0].field == Some(orders[0].0));
    assert(ordered_results(docs, orders, cut) is Ok);
    assert(query_docs_spec(documents, parent, cut) is Ok);
    whole_answer(documents, parent, cut);
    ordered_holds(docs, orders, query, d);
    ordered_holds(docs, orders, cut, d);
    single_cursor(orders, cursor, start, d);
}

/// A query without exactly one collection, with a negative offset or limit, or
/// with an order without a field is refused as an invalid argument.
pub proof fn malformed_queries_are_refused(
    documents: DocumentsView,
    parent: Seq<char>,
    query: QueryView,
)
    requires
        query.from.len() != 1 || query.from[0].0.len() == 0 || query.offset < 0 || (
        query.limit matches Some(n) && n < 0),
    ensures
        query_docs_spec(documents, parent, query) matches Err(e) && e.code == Code::InvalidArgument,
{
}

proof fn second_order_decides(
    orders: Seq<(Seq<char>, bool)>,
    a: DocumentView,
    b: DocumentView,
)
    requires
        orders.len() > 1,
        not_after(orders, a, b),
        compare_spec(order_key(a, orders[0].0), order_key(b, orders[0].0)) == Comparison::Equal,
    ensures
        ({
            let c = compare_spec(order_key(a, orders[1].0), order_key(b, orders[1].0));
            &&& orders[1].1 ==> c != Comparison::Less
            &&& !orders[1].1 ==> c != Comparison::Greater
        }),
{
    reveal(not_after);
    reveal_with_fuel(compare_docs_spec, 2);
}

/// Results that are equal in the one field that they are ordered by stand by
/// their names, in the direction of that order.
pub proof fn ties_stand_by_name(
    documents: DocumentsView,
    parent: Seq<char>,
    query: QueryView,
    path: Seq<char>,
    i: int,
    j: int,
)
    requires
        documents.len() < i32::MAX,
        is_whole(query),
        query_docs_spec(documents, parent, query) is Ok,
        query.filter is None,
        query.order_by.len() == 1,
        query.order_by[0].field == Some(path),
        path != "__name__"@,
        0 <= i < j < answer(documents, parent, query).len(),
        ({
            let found = answer(documents, parent, query);
            holds(5, field_value_spec(found[i], path)->0, field_value_spec(found[j], path)->0)
        }),
    ensures
        ({
            let found = answer(documents, parent, query);
            let a = ValueView::Reference(found[i].name);
            let b = ValueView::Reference(found[j].name);
            &&& query.order_by[0].direction == 2 ==> fails(3, b, a)
            &&& query.order_by[0].direction != 2 ==> fails(3, a, b)
        }),
{
    whole_answer(documents, parent, query);
    let docs = selected_spec(documents, parent, query.from[0], query.filter)->Ok_0;
    let orders = used_orders(query);
    let found = answer(documents, parent, query);
    results_follow_the_first_order(documents, parent, query, path, i, j);
    used_orders_begin_as_given(query);
    given_orders_are_given(query.order_by);
    let given = given_orders_spec(query.order_by)->Ok_0;
    assert(query.order_by[0].field == Some(given[0].0));
    assert(given.last() == given[0]);
    assert(!ordered_by(given, "__name__"@));
    assert(orders == given.push(("__name__"@, given[0].1)));
    crate::query::query_results_in_order(docs, orders, query);
    assert(not_after(orders, found[i], found[j]));
    second_order_decides(orders, found[i], found[j]);
    plain_names_find_fields(found[i], "__name__"@);
    plain_names_find_fields(found[j], "__name__"@);
    let (a, b) = (ValueView::Reference(found[i].name), ValueView::Reference(found[j].name));
    level_or_before(a, b);
}

/// A query that compares one field and asks for no order returns its results in
/// the rising order of that field.
pub proof fn compared_fields_order_the_results(
    documents: DocumentsView,
    parent: Seq<char>,
    query: QueryView,
    name: Seq<char>,
    op: i32,
    operand: ValueView,
    i: int,
    j: int,
)
    requires
        documents.len() < i32::MAX,
        is_whole(query),
        query_docs_spec(documents, parent, query) is Ok,
        query.order_by.len() == 0,
        query.filter == Some(FilterView::Field { field: Some(name), op, value: Some(operand) }),
        1 <= op <= 4,
        0 <= i < j < answer(documents, parent, query).len(),
    ensures
        ({
            let found = answer(documents, parent, query);
            let (a, b) = (field_value_spec(found[i], name), field_value_spec(found[j], name));
            a is Some && b is Some && may_precede(a->0, b->0)
        }),
{
    whole_answer(documents, parent, query);
    let docs = selected_spec(documents, parent, query.from[0], query.filter)->Ok_0;
    let orders = used_orders(query);
    let found = answer(documents, parent, query);
    let fields = query_inequalities(query);
    assert(fields =~= seq![(name, ())]);
    let given = given_orders_spec(query.order_by)->Ok_0;
    reveal_with_fuel(with_inequalities, 2);
    assert(orders.len() > 0 && orders[0] == (name, false));
    crate::query::query_results_in_order(docs, orders, query);
    assert(not_after(orders, found[i], found[j]));
    first_order_decides(orders, found[i], found[j]);
    ordered_holds(docs, orders, query, found[i]);
    ordered_holds(docs, orders, query, found[j]);
    assert(found.contains(found[i]) && found.contains(found[j]));
    assert(field_value_spec(found[i], orders[0].0) is Some);
    assert(field_value_spec(found[j], orders[0].0) is Some);
    level_or_before(order_key(found[i], name), order_key(found[j], name));
}

proof fn plain_selected(paths: Seq<Seq<char>>)
    requires
        forall|i: int| 0 <= i < paths.len() ==> #[trigger] paths[i] != "__name__"@,
    ensures
        selected_paths(paths) == paths,
    decreases paths.len(),
{
    if paths.len() > 0 {
        let init = paths.drop_last();
        assert forall|i: int| 0 <= i < init.len() implies #[trigger] init[i] != "__name__"@ by {
            assert(init[i] == paths[i]);
        }
        plain_selected(init);
        assert(paths.last() == paths[paths.len() - 1]);
        assert(init.push(paths.last()) =~= paths);
    } else {
        assert(selected_paths(paths) =~= paths);
    }
}

/// Plain names are paths of one name each.
pub proof fn plain_lists_are_paths(paths: Seq<Seq<char>>)
    requires
        forall|i: int| 0 <= i < paths.len() ==> is_plain_name(#[trigger] paths[i]),
    ensures
        crate::document::field_paths_spec(paths) == Ok::<Seq<Seq<Seq<char>>>, StatusView>(
            paths.map_values(|p: Seq<char>| seq![p]),
        ),
    decreases paths.len(),
{
    let names = paths.map_values(|p: Seq<char>| seq![p]);
    if paths.len() > 0 {
        let init = paths.drop_last();
        assert forall|i: int| 0 <= i < init.len() implies is_plain_name(#[trigger] init[i]) by {
            assert(init[i] == paths[i]);
        }
        plain_lists_are_paths(init);
        assert(paths.last() == paths[paths.len() - 1]);
        crate::operator_laws::plain_names_are_paths(paths.last());
        assert(init.map_values(|p: Seq<char>| seq![p]).push(seq![paths.last()]) =~= names);
    } else {
        assert(names =~= Seq::empty());
    }
}

/// Copying plain names takes each of them from the source, missing ones
/// included, and leaves the others alone.
pub proof fn copied_names(
    fields: FieldsView,
    source: FieldsView,
    paths: Seq<Seq<char>>,
    n: Seq<char>,
)
    requires
        keys_sorted(fields),
        keys_sorted(source),
    ensures
        ({
            let copied = copy_paths(fields, source, paths.map_values(|p: Seq<char>| seq![p]));
            &&& keys_sorted(copied)
            &&& lookup(copied, n) == if paths.contains(n) {
                lookup(source, n)
            } else {
                lookup(fields, n)
            }
        }),
    decreases paths.len(),
{
    let names = paths.map_values(|p: Seq<char>| seq![p]);
    if paths.len() > 0 {
        let init = paths.drop_last();
        let last = paths.last();
        copied_names(fields, source, init, n);
        assert(names.drop_last() =~= init.map_values(|p: Seq<char>| seq![p]));
        assert(names.last() == seq![last]);
        assert(seq![last][0] == last);
        let before = copy_paths(fields, source, names.drop_last());
        match lookup(source, last) {
            Some(v) => {
                crate::ordered::put_sorted(before, last, v);
                lookup_after_put(before, last, v, n);
            },
            None => {
                crate::ordered::without_sorted(before, last);
                crate::ordered::lookup_after_without(before, last, n);
            },
        }
        if paths.contains(n) {
            let i = choose|i: int| 0 <= i < paths.len() && paths[i] == n;
            if i < init.len() {
                assert(init[i] == n);
            }
        }
        if init.contains(n) {
            let i = choose|i: int| 0 <= i < init.len() && init[i] == n;
            assert(paths[i] == n);
        }
        assert(paths[paths.len() - 1] == last);
    } else {
        assert(names =~= Seq::empty());
    }
}

/// A query that selects fields returns the same documents as without, each with
/// its name and its times, the selected fields as they are and no others.
pub proof fn selecting_keeps_the_selected_fields(
    documents: DocumentsView,
    parent: Seq<char>,
    query: QueryView,
    paths: Seq<Seq<char>>,
    k: int,
    name: Seq<char>,
)
    requires
        query.select is None,
        query_docs_spec(documents, parent, query) is Ok,
        forall|i: int|
            0 <= i < paths.len() ==> is_plain_name(#[trigger] paths[i]) && paths[i] != "__name__"@,
        0 <= k < answer(documents, parent, query).len(),
        keys_sorted(answer(documents, parent, query)[k].fields),
    ensures
        ({
            let selecting = QueryView { select: Some(paths), ..query };
            let (all, shown) = (
                answer(documents, parent, query),
                answer(documents, parent, selecting),
            );
            &&& query_docs_spec(documents, parent, selecting) is Ok
            &&& shown.len() == all.len()
            &&& shown[k].name == all[k].name
            &&& shown[k].create_time == all[k].create_time
            &&& shown[k].update_time == all[k].update_time
            &&& lookup(shown[k].fields, name) == if paths.contains(name) {
                lookup(all[k].fields, name)
            } else {
                None
            }
        }),
{
    let selecting = QueryView { select: Some(paths), ..query };
    let docs = selected_spec(documents, parent, query.from[0], query.filter)->Ok_0;
    assert(query_inequalities(selecting) == query_inequalities(query));
    assert(ordered_results(docs, used_orders(query), selecting) == ordered_results(
        docs,
        used_orders(query),
        query,
    ));
    plain_selected(paths);
    plain_lists_are_paths(paths);
    let all = answer(documents, parent, query);
    crate::ordered::lower_bound_properties(Seq::<(Seq<char>, ValueView)>::empty(), name);
    copied_names(Seq::empty(), all[k].fields, paths, name);
}

} // verus!
