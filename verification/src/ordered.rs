//! Maps from texts to values, kept as lists of entries in the order of their
//! keys.
use crate::text::{less, same, text_less, text_less_irreflexive, text_less_total, text_less_transitive};
use vstd::prelude::*;

verus! {

/// A type whose values can be duplicated without changing what they stand for.
pub trait Duplicate: View + Sized {
    fn duplicate(&self) -> (r: Self)
        ensures
            r@ == self@,
    ;
}

impl Duplicate for String {
    fn duplicate(&self) -> (r: Self) {
        self.clone()
    }
}

/// The first position whose key is not before `key`.
pub open spec fn lower_bound<T>(entries: Seq<(Seq<char>, T)>, key: Seq<char>) -> int
    decreases entries.len(),
{
    if entries.len() == 0 || !text_less(entries[0].0, key) {
        0
    } else {
        1 + lower_bound(entries.drop_first(), key)
    }
}

/// The value stored under `key`.
pub open spec fn lookup<T>(entries: Seq<(Seq<char>, T)>, key: Seq<char>) -> Option<T> {
    let i = lower_bound(entries, key);
    if i < entries.len() && entries[i].0 == key {
        Some(entries[i].1)
    } else {
        None
    }
}

/// The entries after storing `value` under `key`.
pub open spec fn put<T>(entries: Seq<(Seq<char>, T)>, key: Seq<char>, value: T) -> Seq<
    (Seq<char>, T),
> {
    let i = lower_bound(entries, key);
    if i < entries.len() && entries[i].0 == key {
        entries.update(i, (key, value))
    } else {
        entries.insert(i, (key, value))
    }
}

/// The entries after removing `key`.
pub open spec fn without<T>(entries: Seq<(Seq<char>, T)>, key: Seq<char>) -> Seq<(Seq<char>, T)> {
    let i = lower_bound(entries, key);
    if i < entries.len() && entries[i].0 == key {
        entries.remove(i)
    } else {
        entries
    }
}

/// Whether the keys stand in strictly rising order.
pub open spec fn keys_sorted<T>(entries: Seq<(Seq<char>, T)>) -> bool {
    forall|i: int, j: int|
        0 <= i < j < entries.len() ==> text_less(#[trigger] entries[i].0, #[trigger] entries[j].0)
}

/// Every key before the lower bound comes before the key looked for, and the
/// one that stands there does not.
pub proof fn lower_bound_properties<T>(entries: Seq<(Seq<char>, T)>, key: Seq<char>)
    ensures
        0 <= lower_bound(entries, key) <= entries.len(),
        forall|j: int|
            0 <= j < lower_bound(entries, key) ==> text_less(#[trigger] entries[j].0, key),
        lower_bound(entries, key) < entries.len() ==> !text_less(
            entries[lower_bound(entries, key)].0,
            key,
        ),
    decreases entries.len(),
{
    if entries.len() != 0 && text_less(entries[0].0, key) {
        let rest = entries.drop_first();
        lower_bound_properties(rest, key);
        assert forall|j: int| 0 <= j < lower_bound(entries, key) implies text_less(
            #[trigger] entries[j].0,
            key,
        ) by {
            if j > 0 {
                assert(rest[j - 1] == entries[j]);
            }
        }
    }
}

/// The lower bound is the only place with smaller keys alone before it and
/// none right behind.
pub proof fn lower_bound_unique<T>(entries: Seq<(Seq<char>, T)>, key: Seq<char>, i: int)
    requires
        0 <= i <= entries.len(),
        forall|j: int| 0 <= j < i ==> text_less(#[trigger] entries[j].0, key),
        i < entries.len() ==> !text_less(entries[i].0, key),
    ensures
        lower_bound(entries, key) == i,
{
    lower_bound_properties(entries, key);
    let b = lower_bound(entries, key);
    if b < i {
        assert(text_less(entries[b].0, key));
    } else if i < b {
        assert(text_less(entries[i].0, key));
    }
}

/// In sorted entries a key is found wherever it stands.
pub proof fn lookup_at<T>(entries: Seq<(Seq<char>, T)>, i: int)
    requires
        keys_sorted(entries),
        0 <= i < entries.len(),
    ensures
        lower_bound(entries, entries[i].0) == i,
        lookup(entries, entries[i].0) == Some(entries[i].1),
{
    text_less_irreflexive(entries[i].0);
    lower_bound_unique(entries, entries[i].0, i);
}

/// A key is found only where it stands.
pub proof fn lookup_found<T>(entries: Seq<(Seq<char>, T)>, key: Seq<char>)
    ensures
        lookup(entries, key) is Some ==> exists|i: int|
            0 <= i < entries.len() && #[trigger] entries[i] == (key, lookup(entries, key)->0),
{
    lower_bound_properties(entries, key);
    let i = lower_bound(entries, key);
    if lookup(entries, key) is Some {
        assert(entries[i] == (key, lookup(entries, key)->0));
    }
}

/// Storing keeps the keys in order.
pub proof fn put_sorted<T>(entries: Seq<(Seq<char>, T)>, key: Seq<char>, value: T)
    requires
        keys_sorted(entries),
    ensures
        keys_sorted(put(entries, key, value)),
{
    lower_bound_properties(entries, key);
    let b = lower_bound(entries, key);
    let after = put(entries, key, value);
    assert forall|i: int, j: int| 0 <= i < j < after.len() implies text_less(
        #[trigger] after[i].0,
        #[trigger] after[j].0,
    ) by {
        if after.len() == entries.len() {
            assert(entries[b].0 == key || b == entries.len());
            assert(after[i].0 == entries[i].0);
            assert(after[j].0 == entries[j].0);
        } else {
            if b < entries.len() {
                text_less_total(entries[b].0, key);
            }
            if i == b {
                assert(after[j] == entries[j - 1]);
                if j - 1 > b {
                    text_less_transitive(key, entries[b].0, entries[j - 1].0);
                }
            } else if j == b {
                assert(after[i] == entries[i]);
            } else {
                let i0 = if i < b { i } else { i - 1 };
                let j0 = if j < b { j } else { j - 1 };
                assert(after[i] == entries[i0]);
                assert(after[j] == entries[j0]);
            }
        }
    }
}

/// What was stored is found, and every other key is as before.
pub proof fn lookup_after_put<T>(
    entries: Seq<(Seq<char>, T)>,
    key: Seq<char>,
    value: T,
    other: Seq<char>,
)
    requires
        keys_sorted(entries),
    ensures
        lookup(put(entries, key, value), key) == Some(value),
        other != key ==> lookup(put(entries, key, value), other) == lookup(entries, other),
{
    put_sorted(entries, key, value);
    lower_bound_properties(entries, key);
    let b = lower_bound(entries, key);
    let after = put(entries, key, value);
    assert(after[b] == (key, value));
    lookup_at(after, b);
    if other != key {
        if lookup(entries, other) is Some {
            lookup_found(entries, other);
            let i = choose|i: int|
                0 <= i < entries.len() && #[trigger] entries[i] == (
                    other,
                    lookup(entries, other)->0,
                );
            let k = if after.len() == entries.len() || i < b { i } else { i + 1 };
            assert(after[k] == entries[i]);
            lookup_at(after, k);
        } else if lookup(after, other) is Some {
            lookup_found(after, other);
            let k = choose|k: int|
                0 <= k < after.len() && #[trigger] after[k] == (other, lookup(after, other)->0);
            let i = if after.len() == entries.len() || k < b { k } else { k - 1 };
            assert(after[k] == entries[i]);
            lookup_at(entries, i);
        }
    }
}

/// Removing keeps the keys in order.
pub proof fn without_sorted<T>(entries: Seq<(Seq<char>, T)>, key: Seq<char>)
    requires
        keys_sorted(entries),
    ensures
        keys_sorted(without(entries, key)),
{
    lower_bound_properties(entries, key);
    let b = lower_bound(entries, key);
    let after = without(entries, key);
    assert forall|i: int, j: int| 0 <= i < j < after.len() implies text_less(
        #[trigger] after[i].0,
        #[trigger] after[j].0,
    ) by {
        if after.len() == entries.len() {
        } else {
            let i0 = if i < b { i } else { i + 1 };
            let j0 = if j < b { j } else { j + 1 };
            assert(after[i] == entries[i0]);
            assert(after[j] == entries[j0]);
        }
    }
}

/// What was removed is gone, and every other key is as before.
pub proof fn lookup_after_without<T>(
    entries: Seq<(Seq<char>, T)>,
    key: Seq<char>,
    other: Seq<char>,
)
    requires
        keys_sorted(entries),
    ensures
        lookup(without(entries, key), key) is None,
        other != key ==> lookup(without(entries, key), other) == lookup(entries, other),
{
    without_sorted(entries, key);
    lower_bound_properties(entries, key);
    let b = lower_bound(entries, key);
    let after = without(entries, key);
    if lookup(entries, key) is Some {
        if lookup(after, key) is Some {
            lookup_found(after, key);
            let k = choose|k: int|
                0 <= k < after.len() && #[trigger] after[k] == (key, lookup(after, key)->0);
            let i = if k < b { k } else { k + 1 };
            assert(after[k] == entries[i]);
            lookup_at(entries, i);
        }
        if other != key {
            if lookup(entries, other) is Some {
                lookup_found(entries, other);
                let i = choose|i: int|
                    0 <= i < entries.len() && #[trigger] entries[i] == (
                        other,
                        lookup(entries, other)->0,
                    );
                let k = if i < b { i } else { i - 1 };
                assert(after[k] == entries[i]);
                lookup_at(after, k);
            } else if lookup(after, other) is Some {
                lookup_found(after, other);
                let k = choose|k: int|
                    0 <= k < after.len() && #[trigger] after[k] == (other, lookup(after, other)->0);
                let i = if k < b { k } else { k + 1 };
                assert(after[k] == entries[i]);
                lookup_at(entries, i);
            }
        }
    }
}

/// Storing a key that was taken out first is storing it.
pub proof fn put_after_without<T>(entries: Seq<(Seq<char>, T)>, key: Seq<char>, value: T)
    requires
        keys_sorted(entries),
    ensures
        put(without(entries, key), key, value) == put(entries, key, value),
{
    lower_bound_properties(entries, key);
    let b = lower_bound(entries, key);
    if lookup(entries, key) is Some {
        let rest = without(entries, key);
        without_sorted(entries, key);
        assert(rest =~= entries.remove(b));
        assert forall|i: int| 0 <= i < b implies text_less((#[trigger] rest[i]).0, key) by {
            assert(rest[i] == entries[i]);
        }
        if b < rest.len() {
            assert(rest[b] == entries[b + 1]);
            assert(text_less(entries[b].0, entries[b + 1].0));
            text_less_irreflexive(key);
            if text_less(rest[b].0, key) {
                text_less_transitive(key, rest[b].0, key);
            }
        }
        lower_bound_unique(rest, key, b);
        lookup_after_without(entries, key, key);
        assert(rest.insert(b, (key, value)) =~= entries.update(b, (key, value)));
    } else {
        assert(without(entries, key) =~= entries);
    }
}

/// The entries of which `keep` holds.
pub open spec fn keep_entries<T>(
    entries: Seq<(Seq<char>, T)>,
    keep: spec_fn((Seq<char>, T)) -> bool,
) -> Seq<(Seq<char>, T)>
    decreases entries.len(),
{
    if entries.len() == 0 {
        entries
    } else if keep(entries.last()) {
        keep_entries(entries.drop_last(), keep).push(entries.last())
    } else {
        keep_entries(entries.drop_last(), keep)
    }
}

/// A kept entry was there before.
pub proof fn kept_entry_is_old<T>(
    entries: Seq<(Seq<char>, T)>,
    keep: spec_fn((Seq<char>, T)) -> bool,
    i: int,
) -> (k: int)
    requires
        0 <= i < keep_entries(entries, keep).len(),
    ensures
        0 <= k < entries.len(),
        entries[k] == keep_entries(entries, keep)[i],
        keep(entries[k]),
    decreases entries.len(),
{
    let init = entries.drop_last();
    let kept = keep_entries(init, keep);
    if i < kept.len() {
        let k = kept_entry_is_old(init, keep, i);
        assert(entries[k] == init[k]);
        k
    } else {
        entries.len() - 1
    }
}

/// An entry that is to be kept is there afterwards.
pub proof fn old_entry_is_kept<T>(
    entries: Seq<(Seq<char>, T)>,
    keep: spec_fn((Seq<char>, T)) -> bool,
    k: int,
) -> (i: int)
    requires
        0 <= k < entries.len(),
        keep(entries[k]),
    ensures
        0 <= i < keep_entries(entries, keep).len(),
        entries[k] == keep_entries(entries, keep)[i],
    decreases entries.len(),
{
    let init = entries.drop_last();
    if k < init.len() {
        let i = old_entry_is_kept(init, keep, k);
        assert(keep_entries(entries, keep)[i] == keep_entries(init, keep)[i]);
        i
    } else {
        keep_entries(entries, keep).len() - 1
    }
}

/// Where every entry is to be kept, nothing changes.
pub proof fn all_are_kept<T>(
    entries: Seq<(Seq<char>, T)>,
    keep: spec_fn((Seq<char>, T)) -> bool,
)
    requires
        forall|i: int| 0 <= i < entries.len() ==> keep(#[trigger] entries[i]),
    ensures
        keep_entries(entries, keep) == entries,
    decreases entries.len(),
{
    if entries.len() > 0 {
        let init = entries.drop_last();
        assert forall|i: int| 0 <= i < init.len() implies keep(#[trigger] init[i]) by {
            assert(init[i] == entries[i]);
        }
        all_are_kept(init, keep);
        assert(entries.last() == entries[entries.len() - 1]);
        assert(init.push(entries.last()) =~= entries);
    }
}

/// Dropping entries keeps the keys in order.
pub proof fn keep_entries_sorted<T>(
    entries: Seq<(Seq<char>, T)>,
    keep: spec_fn((Seq<char>, T)) -> bool,
)
    requires
        keys_sorted(entries),
    ensures
        keys_sorted(keep_entries(entries, keep)),
    decreases entries.len(),
{
    if entries.len() > 0 {
        let init = entries.drop_last();
        assert(keys_sorted(init)) by {
            assert forall|i: int, j: int| 0 <= i < j < init.len() implies text_less(
                #[trigger] init[i].0,
                #[trigger] init[j].0,
            ) by {
                assert(init[i] == entries[i] && init[j] == entries[j]);
            }
        }
        keep_entries_sorted(init, keep);
        let kept = keep_entries(init, keep);
        let all = keep_entries(entries, keep);
        assert forall|i: int, j: int| 0 <= i < j < all.len() implies text_less(
            #[trigger] all[i].0,
            #[trigger] all[j].0,
        ) by {
            assert(all[i] == kept[i]);
            if j < kept.len() {
                assert(all[j] == kept[j]);
            } else {
                let k = kept_entry_is_old(init, keep, i);
                assert(init[k] == entries[k]);
                assert(all[j] == entries[entries.len() - 1]);
            }
        }
    }
}

/// After dropping entries a key is found when it was and its entry was kept.
pub proof fn lookup_after_keep<T>(
    entries: Seq<(Seq<char>, T)>,
    keep: spec_fn((Seq<char>, T)) -> bool,
    key: Seq<char>,
)
    requires
        keys_sorted(entries),
    ensures
        lookup(keep_entries(entries, keep), key) == match lookup(entries, key) {
            Some(value) => if keep((key, value)) {
                Some(value)
            } else {
                None
            },
            None => None,
        },
{
    let left = keep_entries(entries, keep);
    keep_entries_sorted(entries, keep);
    lookup_found(left, key);
    lookup_found(entries, key);
    if lookup(left, key) is Some {
        let i = choose|i: int|
            0 <= i < left.len() && #[trigger] left[i] == (key, lookup(left, key)->0);
        let k = kept_entry_is_old(entries, keep, i);
        lookup_at(entries, k);
    } else if lookup(entries, key) is Some {
        let k = choose|k: int|
            0 <= k < entries.len() && #[trigger] entries[k] == (key, lookup(entries, key)->0);
        if keep(entries[k]) {
            let i = old_entry_is_kept(entries, keep, k);
            lookup_at(left, i);
        }
    }
}

/// The entries whose flag is set.
pub open spec fn keep_flagged<T>(entries: Seq<(Seq<char>, T)>, flags: Seq<bool>) -> Seq<
    (Seq<char>, T),
>
    decreases entries.len(),
{
    if entries.len() == 0 {
        entries
    } else if flags[entries.len() - 1] {
        keep_flagged(entries.drop_last(), flags).push(entries.last())
    } else {
        keep_flagged(entries.drop_last(), flags)
    }
}

proof fn keep_flagged_is<T>(
    entries: Seq<(Seq<char>, T)>,
    flags: Seq<bool>,
    keep: spec_fn((Seq<char>, T)) -> bool,
)
    requires
        entries.len() <= flags.len(),
        forall|i: int| 0 <= i < entries.len() ==> flags[i] == keep(#[trigger] entries[i]),
    ensures
        keep_flagged(entries, flags) == keep_entries(entries, keep),
    decreases entries.len(),
{
    if entries.len() > 0 {
        let init = entries.drop_last();
        assert forall|i: int| 0 <= i < init.len() implies flags[i] == keep(#[trigger] init[i]) by {
            assert(init[i] == entries[i]);
        }
        keep_flagged_is(init, flags, keep);
        assert(entries.last() == entries[entries.len() - 1]);
    }
}

proof fn keep_flagged_sorted<T>(entries: Seq<(Seq<char>, T)>, flags: Seq<bool>)
    requires
        keys_sorted(entries),
    ensures
        keys_sorted(keep_flagged(entries, flags)),
        forall|i: int|
            0 <= i < keep_flagged(entries, flags).len() ==> entries.contains(
                #[trigger] keep_flagged(entries, flags)[i],
            ),
    decreases entries.len(),
{
    if entries.len() > 0 {
        let init = entries.drop_last();
        assert(keys_sorted(init)) by {
            assert forall|i: int, j: int| 0 <= i < j < init.len() implies text_less(
                #[trigger] init[i].0,
                #[trigger] init[j].0,
            ) by {
                assert(init[i] == entries[i] && init[j] == entries[j]);
            }
        }
        keep_flagged_sorted(init, flags);
        let kept = keep_flagged(init, flags);
        let all = keep_flagged(entries, flags);
        assert forall|i: int| 0 <= i < all.len() implies entries.contains(#[trigger] all[i]) by {
            if i < kept.len() {
                assert(all[i] == kept[i]);
                let m = choose|m: int| 0 <= m < init.len() && init[m] == kept[i];
                assert(entries[m] == kept[i]);
            } else {
                assert(entries[entries.len() - 1] == all[i]);
            }
        }
        assert forall|i: int, j: int| 0 <= i < j < all.len() implies text_less(
            #[trigger] all[i].0,
            #[trigger] all[j].0,
        ) by {
            assert(all[i] == kept[i]);
            if j < kept.len() {
                assert(all[j] == kept[j]);
            } else {
                let m = choose|m: int| 0 <= m < init.len() && init[m] == kept[i];
                assert(entries[m] == kept[i]);
                assert(all[j] == entries[entries.len() - 1]);
            }
        }
    }
}

/// The keys of entries together with what their values stand for.
pub open spec fn entry_views<V: View>(entries: Seq<(String, V)>) -> Seq<(Seq<char>, V::V)> {
    entries.map_values(|e: (String, V)| (e.0@, e.1@))
}

/// The keys of entries, with their values as they are.
pub open spec fn entry_keys<T>(entries: Seq<(String, T)>) -> Seq<(Seq<char>, T)> {
    entries.map_values(|e: (String, T)| (e.0@, e.1))
}

/// Finds the first position whose key is not before `key`.
pub(crate) fn find_slot<T>(entries: &Vec<(String, T)>, key: &str) -> (r: (usize, bool))
    ensures
        r.0 == lower_bound(entry_keys(entries@), key@),
        r.0 <= entries@.len(),
        r.1 == (r.0 < entries@.len() && entries@[r.0 as int].0@ == key@),
        forall|j: int| 0 <= j < r.0 ==> text_less(#[trigger] entries@[j].0@, key@),
        r.0 < entries@.len() ==> !text_less(entries@[r.0 as int].0@, key@),
{
    let mut i: usize = 0;
    while i < entries.len() && less(entries[i].0.as_str(), key)
        invariant
            i <= entries@.len(),
            forall|j: int| 0 <= j < i ==> text_less(#[trigger] entries@[j].0@, key@),
        decreases entries@.len() - i,
    {
        i += 1;
    }
    proof {
        lower_bound_unique(entry_keys(entries@), key@, i as int);
    }
    let found = i < entries.len() && same(entries[i].0.as_str(), key);
    (i, found)
}

/// A map from texts to values whose entries stand in the order of their keys.
pub struct OrderedMap<V> {
    entries: Vec<(String, V)>,
}

impl<V> OrderedMap<V> {
    #[verifier::type_invariant]
    spec fn in_order(self) -> bool {
        keys_sorted(entry_keys(self.entries@))
    }
}

impl<V: View> View for OrderedMap<V> {
    type V = Seq<(Seq<char>, V::V)>;

    closed spec fn view(&self) -> Seq<(Seq<char>, V::V)> {
        entry_views(self.entries@)
    }
}

proof fn same_keys<V: View>(entries: Seq<(String, V)>)
    ensures
        keys_sorted(entry_keys(entries)) == keys_sorted(entry_views(entries)),
        entry_keys(entries).len() == entries.len(),
        entry_views(entries).len() == entries.len(),
        forall|i: int|
            0 <= i < entries.len() ==> (#[trigger] entry_views(entries)[i]) == (
                entries[i].0@,
                entries[i].1@,
            ),
        forall|i: int|
            0 <= i < entries.len() ==> (#[trigger] entry_keys(entries)[i]) == (
                entries[i].0@,
                entries[i].1,
            ),
{
    let a = entry_keys(entries);
    let b = entry_views(entries);
    assert forall|i: int| 0 <= i < entries.len() implies #[trigger] a[i].0 == b[i].0 by {}
    if keys_sorted(a) {
        assert forall|i: int, j: int| 0 <= i < j < b.len() implies text_less(
            #[trigger] b[i].0,
            #[trigger] b[j].0,
        ) by {
            assert(text_less(a[i].0, a[j].0));
        }
    }
    if keys_sorted(b) {
        assert forall|i: int, j: int| 0 <= i < j < a.len() implies text_less(
            #[trigger] a[i].0,
            #[trigger] a[j].0,
        ) by {
            assert(text_less(b[i].0, b[j].0));
        }
    }
}

impl<V: View> OrderedMap<V> {
    pub fn new() -> (r: Self)
        ensures
            r@ == Seq::<(Seq<char>, V::V)>::empty(),
    {
        let r = OrderedMap { entries: Vec::new() };
        assert(r@ =~= Seq::<(Seq<char>, V::V)>::empty());
        r
    }

    /// How many entries there are.
    pub fn len(&self) -> (r: usize)
        ensures
            r == self@.len(),
            keys_sorted(self@),
    {
        proof {
            use_type_invariant(self);
            same_keys(self.entries@);
        }
        self.entries.len()
    }

    /// The key of the entry at `i`.
    pub fn key_at(&self, i: usize) -> (r: &str)
        requires
            i < self@.len(),
        ensures
            r@ == self@[i as int].0,
    {
        self.entries[i].0.as_str()
    }

    /// The value of the entry at `i`.
    pub fn value_at(&self, i: usize) -> (r: &V)
        requires
            i < self@.len(),
        ensures
            r@ == self@[i as int].1,
    {
        &self.entries[i].1
    }

    /// The first position whose key is not before `key`, and whether that key
    /// stands there.
    pub fn slot(&self, key: &str) -> (r: (usize, bool))
        ensures
            r.0 == lower_bound(self@, key@),
            r.0 <= self@.len(),
            r.1 == (r.0 < self@.len() && self@[r.0 as int].0 == key@),
            keys_sorted(self@),
    {
        proof {
            use_type_invariant(self);
            same_keys(self.entries@);
        }
        let ghost all = self@;
        let mut lo: usize = 0;
        let mut hi: usize = self.entries.len();
        while lo < hi
            invariant
                lo <= hi <= self.entries@.len(),
                all == self@,
                all.len() == self.entries@.len(),
                keys_sorted(all),
                forall|j: int| 0 <= j < lo ==> text_less(#[trigger] all[j].0, key@),
                hi < all.len() ==> !text_less(all[hi as int].0, key@),
            decreases hi - lo,
        {
            let mid: usize = lo + (hi - lo) / 2;
            assert(all[mid as int].0 == self.entries@[mid as int].0@);
            if less(self.entries[mid].0.as_str(), key) {
                proof {
                    assert forall|j: int| 0 <= j < mid + 1 implies text_less(
                        #[trigger] all[j].0,
                        key@,
                    ) by {
                        if lo <= j < mid {
                            text_less_transitive(all[j].0, all[mid as int].0, key@);
                        }
                    }
                }
                lo = mid + 1;
            } else {
                hi = mid;
            }
        }
        proof {
            lower_bound_unique(all, key@, lo as int);
        }
        let found = lo < self.entries.len() && same(self.entries[lo].0.as_str(), key);
        (lo, found)
    }

    pub fn get(&self, key: &str) -> (r: Option<&V>)
        ensures
            match r {
                Some(v) => lookup(self@, key@) == Some(v@),
                None => lookup(self@, key@) is None,
            },
            keys_sorted(self@),
    {
        let (i, found) = self.slot(key);
        if found {
            Some(&self.entries[i].1)
        } else {
            None
        }
    }

    pub fn contains(&self, key: &str) -> (r: bool)
        ensures
            r == (lookup(self@, key@) is Some),
    {
        self.slot(key).1
    }

    pub fn insert(&mut self, key: &str, value: V)
        ensures
            final(self)@ == put(old(self)@, key@, value@),
            keys_sorted(final(self)@),
    {
        let (i, found) = self.slot(key);
        let ghost before = self@;
        let ghost keys = entry_keys(self.entries@);
        proof {
            use_type_invariant(&*self);
            same_keys(self.entries@);
            lower_bound_properties(before, key@);
            assert forall|j: int| 0 <= j < i implies text_less(#[trigger] keys[j].0, key@) by {
                assert(text_less(before[j].0, key@));
            }
            lower_bound_unique(keys, key@, i as int);
            put_sorted(keys, key@, value);
            put_sorted(before, key@, value@);
        }
        let mut entries: Vec<(String, V)> = Vec::new();
        std::mem::swap(&mut self.entries, &mut entries);
        let ghost old_entries = entries@;
        if found {
            entries.set(i, (key.to_owned(), value));
            assert(entry_keys(entries@) =~= keys.update(i as int, (key@, value)));
            assert(entry_views(entries@) =~= before.update(i as int, (key@, value@)));
        } else {
            entries.insert(i, (key.to_owned(), value));
            assert(entry_keys(entries@) =~= keys.insert(i as int, (key@, value)));
            assert(entry_views(entries@) =~= before.insert(i as int, (key@, value@)));
        }
        self.entries = entries;
    }

    /// Replaces the value of the entry at `i`.
    pub fn set_value_at(&mut self, i: usize, value: V)
        requires
            i < old(self)@.len(),
        ensures
            final(self)@ == old(self)@.update(i as int, (old(self)@[i as int].0, value@)),
            keys_sorted(final(self)@),
    {
        let ghost before = self@;
        let ghost keys = entry_keys(self.entries@);
        proof {
            use_type_invariant(&*self);
            same_keys(self.entries@);
        }
        let mut entries: Vec<(String, V)> = Vec::new();
        std::mem::swap(&mut self.entries, &mut entries);
        let key = entries[i].0.clone();
        entries.set(i, (key, value));
        proof {
            assert(entry_views(entries@) =~= before.update(i as int, (key@, value@)));
            assert forall|p: int, q: int| 0 <= p < q < entry_keys(entries@).len() implies text_less(
                #[trigger] entry_keys(entries@)[p].0,
                #[trigger] entry_keys(entries@)[q].0,
            ) by {
                assert(text_less(keys[p].0, keys[q].0));
            }
            same_keys(entries@);
        }
        self.entries = entries;
    }

    /// Drops the entries of which `keep` does not hold, as the flags say.
    pub(crate) fn retain_flagged(
        &mut self,
        flags: &Vec<bool>,
        Ghost(keep): Ghost<spec_fn((Seq<char>, V::V)) -> bool>,
    )
        requires
            flags@.len() == old(self)@.len(),
            forall|i: int|
                0 <= i < old(self)@.len() ==> flags@[i] == keep(#[trigger] old(self)@[i]),
        ensures
            final(self)@ == keep_entries(old(self)@, keep),
            keys_sorted(final(self)@),
    {
        let ghost before = self@;
        let ghost keys = entry_keys(self.entries@);
        proof {
            use_type_invariant(&*self);
            same_keys(self.entries@);
            keep_flagged_sorted(keys, flags@);
            keep_flagged_sorted(before, flags@);
            keep_flagged_is(before, flags@, keep);
        }
        let mut entries: Vec<(String, V)> = Vec::new();
        std::mem::swap(&mut self.entries, &mut entries);
        let ghost all = entries@;
        let mut kept: Vec<(String, V)> = Vec::new();
        assert(keys.take(0) =~= Seq::empty());
        assert(before.take(0) =~= Seq::empty());
        assert(entry_keys(kept@) =~= Seq::empty());
        assert(entry_views(kept@) =~= Seq::empty());
        let mut n: usize = 0;
        let total: usize = flags.len();
        for entry in it: entries
            invariant
                it.seq() == all,
                total == all.len(),
                n == it.index(),
                flags@.len() == all.len(),
                keys == entry_keys(all),
                before == entry_views(all),
                entry_keys(kept@) == keep_flagged(keys.take(it.index() as int), flags@),
                entry_views(kept@) == keep_flagged(before.take(it.index() as int), flags@),
        {
            let ghost i = it.index() as int;
            assert(keys.take(i + 1).drop_last() =~= keys.take(i));
            assert(before.take(i + 1).drop_last() =~= before.take(i));
            let ghost kept_keys = entry_keys(kept@);
            let ghost kept_views = entry_views(kept@);
            if flags[n] {
                kept.push(entry);
                assert(entry_keys(kept@) =~= kept_keys.push((entry.0@, entry.1)));
                assert(entry_views(kept@) =~= kept_views.push((entry.0@, entry.1@)));
            }
            n = n + 1;
        }
        assert(keys.take(keys.len() as int) =~= keys);
        assert(before.take(before.len() as int) =~= before);
        self.entries = kept;
    }

    pub fn remove(&mut self, key: &str) -> (r: Option<V>)
        ensures
            final(self)@ == without(old(self)@, key@),
            keys_sorted(final(self)@),
            match r {
                Some(v) => lookup(old(self)@, key@) == Some(v@),
                None => lookup(old(self)@, key@) is None,
            },
    {
        let (i, found) = self.slot(key);
        let ghost before = self@;
        let ghost keys = entry_keys(self.entries@);
        proof {
            use_type_invariant(&*self);
            same_keys(self.entries@);
            lower_bound_properties(before, key@);
            assert forall|j: int| 0 <= j < i implies text_less(#[trigger] keys[j].0, key@) by {
                assert(text_less(before[j].0, key@));
            }
            lower_bound_unique(keys, key@, i as int);
            without_sorted(keys, key@);
            without_sorted(before, key@);
        }
        if found {
            let mut entries: Vec<(String, V)> = Vec::new();
            std::mem::swap(&mut self.entries, &mut entries);
            let (_, v) = entries.remove(i);
            assert(entry_keys(entries@) =~= keys.remove(i as int));
            assert(entry_views(entries@) =~= before.remove(i as int));
            self.entries = entries;
            Some(v)
        } else {
            None
        }
    }
}

impl<V: Duplicate> Duplicate for OrderedMap<V> {
    fn duplicate(&self) -> (r: Self) {
        let mut entries: Vec<(String, V)> = Vec::new();
        let mut i: usize = 0;
        while i < self.entries.len()
            invariant
                i <= self.entries@.len(),
                entry_views(entries@) == entry_views(self.entries@).take(i as int),
            decreases self.entries@.len() - i,
        {
            let ghost before = entries@;
            let key = self.entries[i].0.clone();
            let value = self.entries[i].1.duplicate();
            entries.push((key, value));
            assert(entry_views(entries@) =~= entry_views(before).push((key@, value@)));
            assert(entry_views(self.entries@).take(i + 1) =~= entry_views(self.entries@).take(
                i as int,
            ).push((key@, value@)));
            i += 1;
        }
        proof {
            use_type_invariant(self);
            same_keys(self.entries@);
            same_keys(entries@);
            assert(entry_views(entries@) =~= entry_views(self.entries@));
        }
        OrderedMap { entries }
    }
}

} // verus!
