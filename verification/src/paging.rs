//! Lists that are read page by page are read whole.
use crate::pubsub::{insert_named, names_after, page_spec, sort_named, Named};
use crate::text::{text_less, text_less_irreflexive, text_less_total, text_less_transitive};
use vstd::prelude::*;

verus! {

/// Whether the names of a list increase.
pub open spec fn names_increase<T: Named>(values: Seq<T::V>) -> bool {
    forall|i: int, j: int|
        0 <= i < j < values.len() ==> text_less(
            T::name_spec(#[trigger] values[i]),
            T::name_spec(#[trigger] values[j]),
        )
}

/// Whether the names of a list are all different.
pub open spec fn names_differ<T: Named>(values: Seq<T::V>) -> bool {
    forall|i: int, j: int|
        0 <= i < j < values.len() ==> T::name_spec(#[trigger] values[i]) != T::name_spec(
            #[trigger] values[j],
        )
}

proof fn inserting_keeps_increase<T: Named>(sorted: Seq<T::V>, value: T::V)
    requires
        names_increase::<T>(sorted),
        forall|i: int|
            0 <= i < sorted.len() ==> T::name_spec(#[trigger] sorted[i]) != T::name_spec(value),
    ensures
        names_increase::<T>(insert_named::<T>(sorted, value)),
        insert_named::<T>(sorted, value).len() == sorted.len() + 1,
        forall|i: int|
            0 <= i <= sorted.len() ==> (#[trigger] insert_named::<T>(sorted, value)[i]) == value
                || sorted.contains(insert_named::<T>(sorted, value)[i]),
    decreases sorted.len(),
{
    let out = insert_named::<T>(sorted, value);
    let name = T::name_spec(value);
    if sorted.len() == 0 || !text_less(name, T::name_spec(sorted.last())) {
        assert forall|i: int, j: int| 0 <= i < j < out.len() implies text_less(
            T::name_spec(#[trigger] out[i]),
            T::name_spec(#[trigger] out[j]),
        ) by {
            if j == sorted.len() {
                let last = T::name_spec(sorted[sorted.len() - 1]);
                text_less_total(name, last);
                assert(text_less(last, name));
                if i < sorted.len() - 1 {
                    assert(text_less(T::name_spec(sorted[i]), last));
                    text_less_transitive(T::name_spec(sorted[i]), last, name);
                }
            }
        }
        assert forall|i: int| 0 <= i <= sorted.len() implies (#[trigger] out[i]) == value
            || sorted.contains(out[i]) by {
            if i < sorted.len() {
                assert(sorted[i] == out[i]);
            }
        }
    } else {
        let shorter = sorted.drop_last();
        assert forall|i: int, j: int| 0 <= i < j < shorter.len() implies text_less(
            T::name_spec(#[trigger] shorter[i]),
            T::name_spec(#[trigger] shorter[j]),
        ) by {
            assert(shorter[i] == sorted[i] && shorter[j] == sorted[j]);
        }
        assert forall|i: int| 0 <= i < shorter.len() implies T::name_spec(#[trigger] shorter[i])
            != name by {
            assert(shorter[i] == sorted[i]);
        }
        inserting_keeps_increase::<T>(shorter, value);
        let inner = insert_named::<T>(shorter, value);
        let last = T::name_spec(sorted.last());
        assert forall|i: int| 0 <= i < inner.len() implies text_less(
            T::name_spec(#[trigger] inner[i]),
            last,
        ) by {
            if inner[i] != value {
                assert(shorter.contains(inner[i]));
                let k = choose|k: int| 0 <= k < shorter.len() && shorter[k] == inner[i];
                assert(sorted[k] == inner[i]);
                assert(text_less(
                    T::name_spec(sorted[k]),
                    T::name_spec(sorted[sorted.len() - 1]),
                ));
            }
        }
        assert forall|i: int, j: int| 0 <= i < j < out.len() implies text_less(
            T::name_spec(#[trigger] out[i]),
            T::name_spec(#[trigger] out[j]),
        ) by {
            assert(out[i] == inner[i]);
            if j < inner.len() {
                assert(out[j] == inner[j]);
            }
        }
        assert forall|i: int| 0 <= i <= sorted.len() implies (#[trigger] out[i]) == value
            || sorted.contains(out[i]) by {
            if i < inner.len() {
                assert(out[i] == inner[i]);
                if inner[i] != value {
                    assert(shorter.contains(inner[i]));
                    let k = choose|k: int| 0 <= k < shorter.len() && shorter[k] == inner[i];
                    assert(sorted[k] == out[i]);
                }
            } else {
                assert(sorted[sorted.len() - 1] == out[i]);
            }
        }
    }
}

/// A list whose names differ is sorted into one whose names increase.
pub proof fn sorting_makes_increase<T: Named>(values: Seq<T::V>)
    requires
        names_differ::<T>(values),
    ensures
        names_increase::<T>(sort_named::<T>(values)),
        sort_named::<T>(values).len() == values.len(),
        forall|i: int|
            0 <= i < values.len() ==> values.contains(#[trigger] sort_named::<T>(values)[i]),
    decreases values.len(),
{
    if values.len() > 0 {
        let shorter = values.drop_last();
        assert forall|i: int, j: int| 0 <= i < j < shorter.len() implies T::name_spec(
            #[trigger] shorter[i],
        ) != T::name_spec(#[trigger] shorter[j]) by {
            assert(shorter[i] == values[i] && shorter[j] == values[j]);
        }
        sorting_makes_increase::<T>(shorter);
        let sorted = sort_named::<T>(shorter);
        assert forall|i: int| 0 <= i < sorted.len() implies T::name_spec(#[trigger] sorted[i])
            != T::name_spec(values.last()) by {
            assert(shorter.contains(sorted[i]));
            let k = choose|k: int| 0 <= k < shorter.len() && shorter[k] == sorted[i];
            assert(values[k] == sorted[i]);
            assert(T::name_spec(values[k]) != T::name_spec(values[values.len() - 1]));
        }
        inserting_keeps_increase::<T>(sorted, values.last());
        let out = sort_named::<T>(values);
        assert forall|i: int| 0 <= i < values.len() implies values.contains(#[trigger] out[i]) by {
            if out[i] == values.last() {
                assert(values[values.len() - 1] == out[i]);
            } else {
                assert(sorted.contains(out[i]));
                let m = choose|m: int| 0 <= m < sorted.len() && sorted[m] == out[i];
                assert(shorter.contains(sorted[m]));
                let k = choose|k: int| 0 <= k < shorter.len() && shorter[k] == sorted[m];
                assert(values[k] == out[i]);
            }
        }
    }
}

proof fn after_all<T: Named>(sorted: Seq<T::V>, n: nat, after: Seq<char>, k: int)
    requires
        names_increase::<T>(sorted),
        n <= sorted.len(),
        0 <= k <= n,
        forall|i: int| 0 <= i < k ==> !text_less(after, T::name_spec(#[trigger] sorted[i])),
        forall|i: int| k <= i < n ==> text_less(after, T::name_spec(#[trigger] sorted[i])),
    ensures
        names_after::<T>(sorted.take(n as int), after) == sorted.subrange(k, n as int),
    decreases n,
{
    let all = sorted.take(n as int);
    if n == 0 {
        assert(all =~= sorted.subrange(k, 0));
    } else {
        assert(all.drop_last() =~= sorted.take(n - 1));
        assert(all.last() == sorted[n - 1]);
        if k < n {
            after_all::<T>(sorted, (n - 1) as nat, after, k);
            assert(sorted.subrange(k, n - 1).push(sorted[n - 1]) =~= sorted.subrange(k, n as int));
        } else {
            after_all::<T>(sorted, (n - 1) as nat, after, n - 1);
            assert(sorted.subrange(n - 1, n - 1) =~= sorted.subrange(k, n as int));
        }
    }
}

proof fn after_place<T: Named>(sorted: Seq<T::V>, k: int)
    requires
        names_increase::<T>(sorted),
        0 <= k < sorted.len(),
    ensures
        names_after::<T>(sorted, T::name_spec(sorted[k])) == sorted.skip(k + 1),
{
    let after = T::name_spec(sorted[k]);
    assert forall|i: int| 0 <= i < k + 1 implies !text_less(
        after,
        T::name_spec(#[trigger] sorted[i]),
    ) by {
        text_less_irreflexive(after);
        if i < k {
            assert(text_less(T::name_spec(sorted[i]), T::name_spec(sorted[k])));
            if text_less(after, T::name_spec(sorted[i])) {
                text_less_transitive(after, T::name_spec(sorted[i]), after);
            }
        }
    }
    assert forall|i: int| k + 1 <= i < sorted.len() implies text_less(
        after,
        T::name_spec(#[trigger] sorted[i]),
    ) by {
        assert(text_less(T::name_spec(sorted[k]), T::name_spec(sorted[i])));
    }
    after_all::<T>(sorted, sorted.len(), after, k + 1);
    assert(sorted.take(sorted.len() as int) =~= sorted);
    assert(sorted.subrange(k + 1, sorted.len() as int) =~= sorted.skip(k + 1));
}

/// The values from a place on, read page by page.
pub open spec fn pages_from<T: Named>(sorted: Seq<T::V>, size: int, from: nat) -> Seq<T::V>
    decreases sorted.len() - from,
{
    let rest = sorted.skip(from as int);
    if size > 0 && from <= sorted.len() && rest.len() > size {
        rest.take(size) + pages_from::<T>(sorted, size, (from + size) as nat)
    } else {
        rest
    }
}

/// A page that begins behind the value before `from` holds the next values,
/// and the page that its token asks for begins right behind it.
pub proof fn next_page_follows<T: Named>(values: Seq<T::V>, size: int, from: nat)
    requires
        names_differ::<T>(values),
        size > 0,
        from <= values.len(),
    ensures
        ({
            let sorted = sort_named::<T>(values);
            let after = if from == 0 {
                None
            } else {
                Some(T::name_spec(sorted[from - 1]))
            };
            let (page, next) = page_spec::<T>(values, size, after);
            if from + size < values.len() {
                &&& page == sorted.subrange(from as int, from + size)
                &&& next == Some(T::name_spec(sorted[from + size - 1]))
            } else {
                &&& page == sorted.skip(from as int)
                &&& next is None
            }
        }),
{
    sorting_makes_increase::<T>(values);
    let sorted = sort_named::<T>(values);
    assert(sorted.skip(0) =~= sorted);
    if from > 0 {
        after_place::<T>(sorted, from - 1);
    }
    let rest = sorted.skip(from as int);
    if from + size < values.len() {
        assert(rest.take(size) =~= sorted.subrange(from as int, from + size));
        assert(sorted.subrange(from as int, from + size).last() == sorted[from + size - 1]);
    }
}

/// The pages of a list, one after the other, are the whole list.
pub proof fn pages_make_the_list<T: Named>(sorted: Seq<T::V>, size: int, from: nat)
    requires
        size > 0,
        from <= sorted.len(),
    ensures
        pages_from::<T>(sorted, size, from) == sorted.skip(from as int),
    decreases sorted.len() - from,
{
    let rest = sorted.skip(from as int);
    if rest.len() > size {
        pages_make_the_list::<T>(sorted, size, (from + size) as nat);
        assert(rest.take(size) + sorted.skip(from + size) =~= rest);
    }
}

} // verus!
