//! What a listing holds, and what its pages tell of it.
use crate::json::{member, JsonView};
use crate::listing::{
    beginning_with, entries_spec, limit_spec, line_fronts, line_items, listing_is_sorted,
    page_json_spec, page_lines, pages_from, pages_make_the_listing, shared_front, token_spec,
};
use crate::multipart::{find_spec, found_is_first, stands_at};
use crate::ordered::{
    keys_sorted, lookup, lookup_after_put, lookup_at, lookup_found, put, put_sorted,
};
use crate::storage::{object_json_spec, ObjectView};
use vstd::prelude::*;

verus! {

/// The lines of a listing by name.
pub type LinesView = Seq<(Seq<char>, Option<JsonView>)>;

/// Whether the objects have different names that begin with a prefix.
pub open spec fn is_selection(objects: Seq<ObjectView>, prefix: Seq<char>) -> bool {
    &&& forall|i: int| 0 <= i < objects.len() ==> prefix.is_prefix_of((#[trigger] objects[i]).name)
    &&& forall|i: int, j: int|
        0 <= i < j < objects.len() ==> (#[trigger] objects[i]).name != (#[trigger] objects[j]).name
}

/// Whether a listing tells of an object: under its name, with its JSON; or,
/// where its name has a shared front, under that front alone.
pub open spec fn tells_of(
    lines: LinesView,
    object: ObjectView,
    prefix: Seq<char>,
    delimiter: Option<Seq<char>>,
) -> bool {
    match shared_front(object.name, prefix, delimiter) {
        None => lookup(lines, object.name) == Some(Some(object_json_spec(object))),
        Some(front) => lookup(lines, front) == Some(None::<JsonView>),
    }
}

/// Whether a line is what an object makes of it.
pub open spec fn is_line_of(
    line: (Seq<char>, Option<JsonView>),
    object: ObjectView,
    prefix: Seq<char>,
    delimiter: Option<Seq<char>>,
) -> bool {
    match shared_front(object.name, prefix, delimiter) {
        None => line == (object.name, Some(object_json_spec(object))),
        Some(front) => line == (front, None::<JsonView>),
    }
}

/// A shared front ends in the delimiter, so that no object whose name has none
/// behind the prefix is called like it.
proof fn fronts_are_no_names(
    a: Seq<char>,
    b: Seq<char>,
    prefix: Seq<char>,
    delimiter: Option<Seq<char>>,
)
    requires
        prefix.is_prefix_of(a),
        shared_front(a, prefix, delimiter) is Some,
        shared_front(b, prefix, delimiter) is None,
    ensures
        shared_front(a, prefix, delimiter) != Some(b),
{
    let d = delimiter->0;
    let p = prefix.len() as int;
    let rest = a.skip(p);
    found_is_first(rest, d, 0);
    let k = find_spec(rest, d, 0)->0;
    let front = a.take(p + k + d.len());
    assert(shared_front(a, prefix, delimiter) == Some(front));
    if front == b {
        let behind = b.skip(p);
        found_is_first(behind, d, 0);
        assert(behind.subrange(k, k + d.len()) =~= rest.subrange(k, k + d.len()));
        assert(stands_at(behind, d, k));
    }
}

proof fn first_lines(
    objects: Seq<ObjectView>,
    n: nat,
    prefix: Seq<char>,
    delimiter: Option<Seq<char>>,
)
    requires
        is_selection(objects, prefix),
        n <= objects.len(),
    ensures
        ({
            let lines = entries_spec(objects, n, prefix, delimiter);
            &&& forall|i: int|
                0 <= i < n ==> tells_of(lines, #[trigger] objects[i], prefix, delimiter)
            &&& forall|k: int|
                0 <= k < lines.len() ==> exists|i: int|
                    0 <= i < n && is_line_of(
                        #[trigger] lines[k],
                        #[trigger] objects[i],
                        prefix,
                        delimiter,
                    )
        }),
    decreases n,
{
    if n > 0 {
        let m = (n - 1) as nat;
        first_lines(objects, m, prefix, delimiter);
        let before = entries_spec(objects, m, prefix, delimiter);
        let lines = entries_spec(objects, n, prefix, delimiter);
        listing_is_sorted(objects, m, prefix, delimiter);
        listing_is_sorted(objects, n, prefix, delimiter);
        let object = objects[n - 1];
        let made = shared_front(object.name, prefix, delimiter);
        let (key, value) = match made {
            None => (object.name, Some(object_json_spec(object))),
            Some(front) => (front, None),
        };
        assert(lines == put(before, key, value));
        assert forall|i: int| 0 <= i < n implies tells_of(
            lines,
            #[trigger] objects[i],
            prefix,
            delimiter,
        ) by {
            let name = objects[i].name;
            let other = shared_front(name, prefix, delimiter);
            let place = match other {
                None => name,
                Some(front) => front,
            };
            lookup_after_put(before, key, value, place);
            if i < m {
                assert(tells_of(before, objects[i], prefix, delimiter));
                assert(objects[i].name != objects[n - 1].name);
                if place == key {
                    if other is Some && made is None {
                        fronts_are_no_names(name, object.name, prefix, delimiter);
                    } else if other is None && made is Some {
                        fronts_are_no_names(object.name, name, prefix, delimiter);
                    }
                }
            }
        }
        assert forall|k: int| 0 <= k < lines.len() implies exists|i: int|
            0 <= i < n && is_line_of(
                #[trigger] lines[k],
                #[trigger] objects[i],
                prefix,
                delimiter,
            ) by {
            lookup_at(lines, k);
            lookup_after_put(before, key, value, lines[k].0);
            if lines[k].0 == key {
                assert(is_line_of(lines[k], objects[n - 1], prefix, delimiter));
            } else {
                lookup_found(before, lines[k].0);
                let b = choose|b: int|
                    0 <= b < before.len() && #[trigger] before[b] == (
                        lines[k].0,
                        lookup(before, lines[k].0)->0,
                    );
                assert(before[b] == lines[k]);
                let i = choose|i: int|
                    0 <= i < m && is_line_of(before[b], #[trigger] objects[i], prefix, delimiter);
                assert(is_line_of(lines[k], objects[i], prefix, delimiter));
            }
        }
    }
}

/// A listing holds every object, and nothing else: an object without the
/// delimiter behind the prefix stands under its name with its JSON, the others
/// stand together under the fronts that they share, each front once, and every
/// line is that of an object or of a shared front.
pub proof fn listing_holds_every_object(
    objects: Seq<ObjectView>,
    prefix: Seq<char>,
    delimiter: Option<Seq<char>>,
)
    requires
        is_selection(objects, prefix),
    ensures
        ({
            let lines = entries_spec(objects, objects.len(), prefix, delimiter);
            &&& keys_sorted(lines)
            &&& forall|i: int|
                0 <= i < objects.len() ==> tells_of(
                    lines,
                    #[trigger] objects[i],
                    prefix,
                    delimiter,
                )
            &&& forall|k: int|
                0 <= k < lines.len() ==> exists|i: int|
                    0 <= i < objects.len() && is_line_of(
                        #[trigger] lines[k],
                        #[trigger] objects[i],
                        prefix,
                        delimiter,
                    )
            &&& forall|j: int, k: int|
                0 <= j < k < lines.len() ==> (#[trigger] lines[j]).0 != (#[trigger] lines[k]).0
        }),
{
    first_lines(objects, objects.len(), prefix, delimiter);
    listing_is_sorted(objects, objects.len(), prefix, delimiter);
    let lines = entries_spec(objects, objects.len(), prefix, delimiter);
    assert forall|j: int, k: int| 0 <= j < k < lines.len() implies (#[trigger] lines[j]).0 != (
    #[trigger] lines[k]).0 by {
        lookup_at(lines, j);
        lookup_at(lines, k);
    }
}

proof fn beginning_from(
    objects: Seq<(Seq<char>, ObjectView)>,
    n: nat,
    prefix: Seq<char>,
    i: int,
) -> (k: int)
    requires
        n <= objects.len(),
        0 <= i < beginning_with(objects, n, prefix).len(),
    ensures
        0 <= k < n,
        beginning_with(objects, n, prefix)[i] == objects[k].1,
        prefix.is_prefix_of(objects[k].1.name),
    decreases n,
{
    let before = beginning_with(objects, (n - 1) as nat, prefix);
    if i < before.len() {
        beginning_from(objects, (n - 1) as nat, prefix, i)
    } else {
        n - 1
    }
}

proof fn beginning_order(
    objects: Seq<(Seq<char>, ObjectView)>,
    n: nat,
    prefix: Seq<char>,
    i: int,
    j: int,
)
    requires
        is_bucket(objects),
        n <= objects.len(),
        0 <= i < j < beginning_with(objects, n, prefix).len(),
    ensures
        beginning_with(objects, n, prefix)[i].name != beginning_with(objects, n, prefix)[j].name,
    decreases n,
{
    let before = beginning_with(objects, (n - 1) as nat, prefix);
    if j < before.len() {
        beginning_order(objects, (n - 1) as nat, prefix, i, j);
    } else {
        let k = beginning_from(objects, (n - 1) as nat, prefix, i);
        assert(objects[k].1.name == objects[k].0);
        assert(objects[n - 1].1.name == objects[n - 1].0);
        lookup_at(objects, k);
        lookup_at(objects, n - 1);
    }
}

proof fn beginning_holds(
    objects: Seq<(Seq<char>, ObjectView)>,
    n: nat,
    prefix: Seq<char>,
    k: int,
) -> (i: int)
    requires
        n <= objects.len(),
        0 <= k < n,
        prefix.is_prefix_of(objects[k].1.name),
    ensures
        0 <= i < beginning_with(objects, n, prefix).len(),
        beginning_with(objects, n, prefix)[i] == objects[k].1,
    decreases n,
{
    if k < n - 1 {
        let i = beginning_holds(objects, (n - 1) as nat, prefix, k);
        assert(beginning_with(objects, n, prefix)[i] == beginning_with(
            objects,
            (n - 1) as nat,
            prefix,
        )[i]);
        i
    } else {
        beginning_with(objects, n, prefix).len() - 1
    }
}

/// Whether the objects of a bucket stand under their names.
pub open spec fn is_bucket(objects: Seq<(Seq<char>, ObjectView)>) -> bool {
    keys_sorted(objects) && forall|i: int|
        0 <= i < objects.len() ==> (#[trigger] objects[i]).1.name == objects[i].0
}

/// The listing of a bucket tells of every object whose name begins with the
/// prefix, and of no other.
pub proof fn bucket_listing_holds_every_object(
    objects: Seq<(Seq<char>, ObjectView)>,
    prefix: Seq<char>,
    delimiter: Option<Seq<char>>,
)
    requires
        is_bucket(objects),
    ensures
        ({
            let found = beginning_with(objects, objects.len(), prefix);
            let lines = entries_spec(found, found.len(), prefix, delimiter);
            &&& is_selection(found, prefix)
            &&& forall|k: int|
                0 <= k < objects.len() && prefix.is_prefix_of((#[trigger] objects[k]).1.name)
                    ==> tells_of(lines, objects[k].1, prefix, delimiter)
            &&& forall|l: int|
                0 <= l < lines.len() ==> exists|k: int|
                    0 <= k < objects.len() && prefix.is_prefix_of(objects[k].1.name)
                        && is_line_of(
                        #[trigger] lines[l],
                        (#[trigger] objects[k]).1,
                        prefix,
                        delimiter,
                    )
        }),
{
    let n = objects.len();
    let found = beginning_with(objects, n, prefix);
    let lines = entries_spec(found, found.len(), prefix, delimiter);
    assert forall|i: int| 0 <= i < found.len() implies prefix.is_prefix_of(
        (#[trigger] found[i]).name,
    ) by {
        let k = beginning_from(objects, n, prefix, i);
    }
    assert forall|i: int, j: int| 0 <= i < j < found.len() implies (#[trigger] found[i]).name != (
    #[trigger] found[j]).name by {
        beginning_order(objects, n, prefix, i, j);
    }
    listing_holds_every_object(found, prefix, delimiter);
    assert forall|k: int|
        0 <= k < objects.len() && prefix.is_prefix_of(
            (#[trigger] objects[k]).1.name,
        ) implies tells_of(lines, objects[k].1, prefix, delimiter) by {
        let i = beginning_holds(objects, n, prefix, k);
        assert(tells_of(lines, found[i], prefix, delimiter));
    }
    assert forall|l: int| 0 <= l < lines.len() implies exists|k: int|
        0 <= k < objects.len() && prefix.is_prefix_of(objects[k].1.name) && is_line_of(
            #[trigger] lines[l],
            (#[trigger] objects[k]).1,
            prefix,
            delimiter,
        ) by {
        let i = choose|i: int|
            0 <= i < found.len() && is_line_of(lines[l], #[trigger] found[i], prefix, delimiter);
        let k = beginning_from(objects, n, prefix, i);
        assert(is_line_of(lines[l], objects[k].1, prefix, delimiter));
    }
}

proof fn lines_are_items_or_fronts(lines: LinesView)
    ensures
        line_items(lines).len() + line_fronts(lines).len() == lines.len(),
    decreases lines.len(),
{
    if lines.len() > 0 {
        lines_are_items_or_fronts(lines.drop_last());
    }
}

proof fn page_members(lines: LinesView, offset: nat, limit: nat)
    ensures
        ({
            let page = page_json_spec(lines, offset, limit);
            let shown = page_lines(lines, offset, limit);
            &&& member(page, "items"@) == Some(JsonView::Array(line_items(shown)))
            &&& member(page, "prefixes"@) == Some(JsonView::Array(line_fronts(shown)))
            &&& member(page, "nextPageToken"@) == if offset + limit < lines.len() {
                Some(JsonView::Text(token_spec(offset + limit)))
            } else {
                None
            }
        }),
{
    reveal_strlit("kind");
    reveal_strlit("items");
    reveal_strlit("prefixes");
    reveal_strlit("nextPageToken");
    let (k, i, p, t) = ("kind"@, "items"@, "prefixes"@, "nextPageToken"@);
    assert(k[0] == 'k' && i[0] == 'i' && p[0] == 'p' && t[0] == 'n');
    let shown = page_lines(lines, offset, limit);
    let none: Seq<(Seq<char>, JsonView)> = Seq::empty();
    let kind = JsonView::Text("storage#objects"@);
    let items = JsonView::Array(line_items(shown));
    let fronts = JsonView::Array(line_fronts(shown));
    let token = JsonView::Text(token_spec(offset + limit));
    let one = put(none, k, kind);
    let two = put(one, i, items);
    let three = put(two, p, fronts);
    put_sorted(none, k, kind);
    put_sorted(one, i, items);
    put_sorted(two, p, fronts);
    lookup_found(none, t);
    lookup_after_put(none, k, kind, t);
    lookup_after_put(one, i, items, t);
    lookup_after_put(two, p, fronts, t);
    lookup_after_put(two, p, fronts, i);
    lookup_after_put(three, t, token, i);
    lookup_after_put(three, t, token, p);
}

/// The pages of a listing, followed from the start, tell every line once and in
/// order; none tells more lines than were asked for, nor than a thousand; and a
/// page names the next one exactly where lines remain.
pub proof fn pages_tell_the_listing(lines: LinesView, offset: nat, max_results: Option<usize>)
    ensures
        ({
            let limit = limit_spec(max_results);
            let shown = page_lines(lines, offset, limit);
            let page = page_json_spec(lines, offset, limit);
            &&& pages_from(lines, 0, limit) == lines
            &&& 1 <= limit <= 1000
            &&& member(page, "items"@) == Some(JsonView::Array(line_items(shown)))
            &&& member(page, "prefixes"@) == Some(JsonView::Array(line_fronts(shown)))
            &&& line_items(shown).len() + line_fronts(shown).len() == shown.len()
            &&& shown.len() <= limit
            &&& member(page, "nextPageToken"@) is Some <==> offset + shown.len() < lines.len()
                && offset < lines.len()
            &&& member(page, "nextPageToken"@) matches Some(token) ==> token == JsonView::Text(
                token_spec(offset + shown.len()),
            )
        }),
{
    let limit = limit_spec(max_results);
    pages_make_the_listing(lines, 0, max_results);
    assert(lines.skip(0) =~= lines);
    lines_are_items_or_fronts(page_lines(lines, offset, limit));
    page_members(lines, offset, limit);
}

} // verus!
