//! What a copy of a document does to the documents: the first adds it, a second
//! is refused.
use crate::console::{
    clone_error_spec, clone_refused, clone_spec, clone_write, clone_writes, database_name,
    has_document, is_cloned, is_segment,
};
use crate::document::DocumentView;
use crate::firestore::{commit_spec, inside_prefix, StoreView};
use crate::names::is_document_name;
use crate::ordered::{
    keys_sorted, lookup, lookup_after_put, lookup_at, lookup_found, put_sorted,
};
use crate::status::Code;
use crate::text::{split_is_never_empty, split_of_joined, split_spec};
use crate::value::Timestamp;
use crate::writes::{apply_writes_spec, commit_keeps_names, stored_by_name, DocumentsView};
use vstd::prelude::*;

verus! {

/// Whether a list is made of different documents that are stored, each under
/// its name, which is one of a document.
pub open spec fn is_listing(docs: Seq<DocumentView>, documents: DocumentsView) -> bool {
    &&& forall|i: int|
        0 <= i < docs.len() ==> lookup(documents, (#[trigger] docs[i]).name) == Some(docs[i])
            && is_document_name(docs[i].name)
    &&& forall|i: int, j: int|
        0 <= i < j < docs.len() ==> (#[trigger] docs[i]).name != (#[trigger] docs[j]).name
}

/// The name of the copy of a document.
pub open spec fn copy_name(name: Seq<char>, source: Seq<char>, destination: Seq<char>) -> Seq<
    char,
> {
    destination + name.skip(source.len() as int)
}

/// The name of the source of a copy.
pub open spec fn source_name(
    project: Seq<char>,
    database: Seq<char>,
    source_path: Seq<char>,
) -> Seq<char> {
    database_name(project, database) + "/documents/"@ + source_path
}

/// The name of the place of a copy.
pub open spec fn destination_name(
    project: Seq<char>,
    database: Seq<char>,
    collection: Seq<char>,
    id: Seq<char>,
) -> Seq<char> {
    database_name(project, database) + "/documents/"@ + collection + "/"@ + id
}

proof fn plain_is_one_piece(s: Seq<char>, sep: char)
    requires
        !s.contains(sep),
    ensures
        split_spec(s, sep) == seq![s],
    decreases s.len(),
{
    if s.len() > 0 {
        let init = s.drop_last();
        assert(!init.contains(sep)) by {
            if init.contains(sep) {
                let i = choose|i: int| 0 <= i < init.len() && init[i] == sep;
                assert(s[i] == sep);
            }
        }
        assert(s[s.len() - 1] == s.last());
        plain_is_one_piece(init, sep);
        assert(init.push(s.last()) =~= s);
        assert(seq![init].drop_last().push(seq![init].last().push(s.last())) =~= seq![s]);
    } else {
        assert(s =~= Seq::empty());
        assert(split_spec(s, sep) =~= seq![s]);
    }
}

proof fn segment_is_one_piece(s: Seq<char>)
    requires
        is_segment(s),
    ensures
        split_spec(s, '/') == seq![s],
{
    if s.contains('/') {
        let i = choose|i: int| 0 <= i < s.len() && s[i] == '/';
        assert(crate::console::is_segment_char(s[i]));
    }
    plain_is_one_piece(s, '/');
}

/// The pieces of a path below the documents of a database.
proof fn path_pieces(project: Seq<char>, database: Seq<char>, path: Seq<char>)
    requires
        is_segment(project),
        is_segment(database),
    ensures
        split_spec(database_name(project, database) + "/documents/"@ + path, '/') == seq![
            "projects"@,
            project,
            "databases"@,
            database,
            "documents"@,
        ] + split_spec(path, '/'),
{
    reveal_strlit("projects/");
    reveal_strlit("projects");
    reveal_strlit("/databases/");
    reveal_strlit("databases");
    reveal_strlit("/documents/");
    reveal_strlit("documents");
    segment_is_one_piece(project);
    segment_is_one_piece(database);
    let p = "projects"@;
    let d = "databases"@;
    let m = "documents"@;
    assert(!p.contains('/'));
    assert(!d.contains('/'));
    assert(!m.contains('/'));
    plain_is_one_piece(p, '/');
    plain_is_one_piece(d, '/');
    plain_is_one_piece(m, '/');
    let one = p.push('/') + project;
    split_of_joined(p, project, '/');
    let two = one.push('/') + d;
    split_of_joined(one, d, '/');
    let three = two.push('/') + database;
    split_of_joined(two, database, '/');
    let four = three.push('/') + m;
    split_of_joined(three, m, '/');
    let five = four.push('/') + path;
    split_of_joined(four, path, '/');
    assert(database_name(project, database) + "/documents/"@ + path =~= five);
    assert(split_spec(five, '/') =~= seq![p, project, d, database, m] + split_spec(path, '/'));
}

/// What a copy is called is the name of a document.
proof fn copies_have_names(
    project: Seq<char>,
    database: Seq<char>,
    source_path: Seq<char>,
    collection: Seq<char>,
    id: Seq<char>,
    deep: bool,
    name: Seq<char>,
)
    requires
        clone_refused(project, database, source_path, collection, id) is None,
        is_document_name(name),
        is_cloned(name, source_name(project, database, source_path), deep),
    ensures
        is_document_name(
            copy_name(
                name,
                source_name(project, database, source_path),
                destination_name(project, database, collection, id),
            ),
        ),
        source_name(project, database, source_path).is_prefix_of(name),
{
    let source = source_name(project, database, source_path);
    let destination = destination_name(project, database, collection, id);
    reveal_strlit("/");
    path_pieces(project, database, source_path);
    let below = collection.push('/') + id;
    assert(destination =~= database_name(project, database) + "/documents/"@ + below);
    path_pieces(project, database, below);
    split_of_joined(collection, id, '/');
    plain_is_one_piece(id, '/');
    split_is_never_empty(collection, '/');
    let front = seq!["projects"@, project, "databases"@, database, "documents"@];
    let pieces = split_spec(destination, '/');
    assert(pieces == front + split_spec(below, '/'));
    assert(forall|i: int| 0 <= i < 5 ==> pieces[i] == front[i]);
    if name == source {
        assert(copy_name(name, source, destination) =~= destination);
        assert(name.take(source.len() as int) =~= source);
    } else {
        let head = source + "/"@;
        assert(head.is_prefix_of(name));
        let rest = name.skip(head.len() as int);
        assert(name =~= source.push('/') + rest) by {
            assert(name.take(head.len() as int) == head);
            assert forall|i: int| 0 <= i < head.len() implies name[i] == head[i] by {
                assert(name.take(head.len() as int)[i] == head[i]);
            }
        }
        split_of_joined(source, rest, '/');
        let copy = copy_name(name, source, destination);
        assert(copy =~= destination.push('/') + rest);
        split_of_joined(destination, rest, '/');
        let all = split_spec(copy, '/');
        assert(all == pieces + split_spec(rest, '/'));
        assert(forall|i: int| 0 <= i < 5 ==> all[i] == pieces[i]);
        assert(name.take(source.len() as int) =~= source);
        split_is_never_empty(source_path, '/');
    }
}

proof fn different_copies(a: Seq<char>, b: Seq<char>, source: Seq<char>, destination: Seq<char>)
    requires
        source.is_prefix_of(a),
        source.is_prefix_of(b),
        copy_name(a, source, destination) == copy_name(b, source, destination),
    ensures
        a == b,
{
    let n = source.len() as int;
    let d = destination.len() as int;
    let x = copy_name(a, source, destination);
    let y = copy_name(b, source, destination);
    assert(x.skip(d) =~= a.skip(n));
    assert(y.skip(d) =~= b.skip(n));
    assert(a =~= a.take(n) + a.skip(n));
    assert(b =~= b.take(n) + b.skip(n));
}

/// The copy of a document that was stored at a time.
pub open spec fn stored_copy(
    doc: DocumentView,
    source: Seq<char>,
    destination: Seq<char>,
    now: Timestamp,
) -> DocumentView {
    DocumentView {
        name: copy_name(doc.name, source, destination),
        fields: doc.fields,
        create_time: Some(now),
        update_time: Some(now),
    }
}

/// Whether a name is that of a copy of one of the first `n` documents.
pub open spec fn is_copy_of(
    docs: Seq<DocumentView>,
    n: int,
    source: Seq<char>,
    destination: Seq<char>,
    deep: bool,
    name: Seq<char>,
) -> bool {
    exists|i: int|
        0 <= i < n && is_cloned((#[trigger] docs[i]).name, source, deep) && copy_name(
            docs[i].name,
            source,
            destination,
        ) == name
}

/// Whether the copies of documents have names of documents.
spec fn copies_are_named(
    docs: Seq<DocumentView>,
    source: Seq<char>,
    destination: Seq<char>,
    deep: bool,
) -> bool {
    forall|i: int|
        0 <= i < docs.len() && is_cloned((#[trigger] docs[i]).name, source, deep)
            ==> is_document_name(copy_name(docs[i].name, source, destination))
            && source.is_prefix_of(docs[i].name)
}

proof fn copies_are_stored(
    documents: DocumentsView,
    docs: Seq<DocumentView>,
    n: nat,
    source: Seq<char>,
    destination: Seq<char>,
    deep: bool,
    now: Timestamp,
)
    requires
        keys_sorted(documents),
        is_listing(docs, documents),
        copies_are_named(docs, source, destination, deep),
        n <= docs.len(),
        forall|i: int|
            0 <= i < docs.len() && is_cloned((#[trigger] docs[i]).name, source, deep) ==> lookup(
                documents,
                copy_name(docs[i].name, source, destination),
            ) is None,
    ensures
        apply_writes_spec(
            documents,
            clone_writes(docs, n, source, destination, deep),
            now,
        ) matches Ok(after) && {
            &&& keys_sorted(after.0)
            &&& forall|i: int|
                0 <= i < n && is_cloned((#[trigger] docs[i]).name, source, deep) ==> lookup(
                    after.0,
                    copy_name(docs[i].name, source, destination),
                ) == Some(stored_copy(docs[i], source, destination, now))
            &&& forall|name: Seq<char>|
                !is_copy_of(docs, n as int, source, destination, deep, name) ==> #[trigger] lookup(
                    after.0,
                    name,
                ) == lookup(documents, name)
        },
    decreases n,
{
    let writes = clone_writes(docs, n, source, destination, deep);
    if n > 0 {
        let m = (n - 1) as nat;
        copies_are_stored(documents, docs, m, source, destination, deep, now);
        let before = clone_writes(docs, m, source, destination, deep);
        let held = apply_writes_spec(documents, before, now)->Ok_0;
        let doc = docs[n - 1];
        if is_cloned(doc.name, source, deep) {
            let name = copy_name(doc.name, source, destination);
            let copy = stored_copy(doc, source, destination, now);
            assert(writes.drop_last() =~= before);
            assert(writes.last() == clone_write(doc, source, destination));
            assert(!is_copy_of(docs, m as int, source, destination, deep, name)) by {
                if is_copy_of(docs, m as int, source, destination, deep, name) {
                    let i = choose|i: int|
                        0 <= i < m && is_cloned((#[trigger] docs[i]).name, source, deep)
                            && copy_name(docs[i].name, source, destination) == name;
                    different_copies(docs[i].name, doc.name, source, destination);
                    assert(docs[i].name != docs[n - 1].name);
                }
            }
            assert(lookup(held.0, name) is None);
            put_sorted(held.0, name, copy);
            let after = apply_writes_spec(documents, writes, now)->Ok_0;
            assert(after.0 == crate::ordered::put(held.0, name, copy));
            assert forall|i: int|
                0 <= i < n && is_cloned((#[trigger] docs[i]).name, source, deep) implies lookup(
                after.0,
                copy_name(docs[i].name, source, destination),
            ) == Some(stored_copy(docs[i], source, destination, now)) by {
                let other = copy_name(docs[i].name, source, destination);
                lookup_after_put(held.0, name, copy, other);
                if i < m && other == name {
                    different_copies(docs[i].name, doc.name, source, destination);
                    assert(docs[i].name != docs[n - 1].name);
                }
            }
            assert forall|other: Seq<char>|
                !is_copy_of(docs, n as int, source, destination, deep, other) implies #[trigger] lookup(
                after.0,
                other,
            ) == lookup(documents, other) by {
                lookup_after_put(held.0, name, copy, other);
                if other == name {
                    assert(is_cloned(docs[n - 1].name, source, deep));
                    assert(is_copy_of(docs, n as int, source, destination, deep, other));
                }
                if is_copy_of(docs, m as int, source, destination, deep, other) {
                    let i = choose|i: int|
                        0 <= i < m && is_cloned((#[trigger] docs[i]).name, source, deep)
                            && copy_name(docs[i].name, source, destination) == other;
                    assert(is_cloned(docs[i].name, source, deep));
                    assert(is_copy_of(docs, n as int, source, destination, deep, other));
                }
            }
        } else {
            assert(writes == before);
            assert forall|other: Seq<char>|
                !is_copy_of(docs, n as int, source, destination, deep, other) implies #[trigger] lookup(
                held.0,
                other,
            ) == lookup(documents, other) by {
                if is_copy_of(docs, m as int, source, destination, deep, other) {
                    let i = choose|i: int|
                        0 <= i < m && is_cloned((#[trigger] docs[i]).name, source, deep)
                            && copy_name(docs[i].name, source, destination) == other;
                    assert(is_cloned(docs[i].name, source, deep));
                    assert(is_copy_of(docs, n as int, source, destination, deep, other));
                }
            }
        }
    }
}

proof fn all_copies_named(
    project: Seq<char>,
    database: Seq<char>,
    source_path: Seq<char>,
    collection: Seq<char>,
    id: Seq<char>,
    deep: bool,
    docs: Seq<DocumentView>,
    documents: DocumentsView,
)
    requires
        clone_refused(project, database, source_path, collection, id) is None,
        is_listing(docs, documents),
    ensures
        copies_are_named(
            docs,
            source_name(project, database, source_path),
            destination_name(project, database, collection, id),
            deep,
        ),
{
    let source = source_name(project, database, source_path);
    let destination = destination_name(project, database, collection, id);
    assert forall|i: int|
        0 <= i < docs.len() && is_cloned(
            (#[trigger] docs[i]).name,
            source,
            deep,
        ) implies is_document_name(copy_name(docs[i].name, source, destination))
        && source.is_prefix_of(docs[i].name) by {
        copies_have_names(
            project,
            database,
            source_path,
            collection,
            id,
            deep,
            docs[i].name,
        );
    }
}

/// Where the places of the copies are free, the commit of a copy succeeds: each
/// document that is copied stands at its new place with its fields, and every
/// other document, the copied ones with them, is as before.
pub proof fn first_copy_is_made(
    store: StoreView,
    project: Seq<char>,
    database: Seq<char>,
    source_path: Seq<char>,
    collection: Seq<char>,
    id: Seq<char>,
    deep: bool,
    docs: Seq<DocumentView>,
    now: Timestamp,
)
    requires
        clone_refused(project, database, source_path, collection, id) is None,
        keys_sorted(store.documents),
        is_listing(docs, store.documents),
        has_document(docs, source_name(project, database, source_path)),
        forall|i: int|
            0 <= i < docs.len() && is_cloned(
                (#[trigger] docs[i]).name,
                source_name(project, database, source_path),
                deep,
            ) ==> lookup(
                store.documents,
                copy_name(
                    docs[i].name,
                    source_name(project, database, source_path),
                    destination_name(project, database, collection, id),
                ),
            ) is None,
    ensures
        ({
            let source = source_name(project, database, source_path);
            let destination = destination_name(project, database, collection, id);
            let asked = clone_spec(
                project,
                database,
                source_path,
                collection,
                id,
                deep,
                docs,
            )->Ok_0;
            commit_spec(store, asked.0, asked.1, asked.2, now) matches Ok(done) && {
                &&& forall|i: int|
                    0 <= i < docs.len() && is_cloned(
                        (#[trigger] docs[i]).name,
                        source,
                        deep,
                    ) ==> lookup(
                        done.0.documents,
                        copy_name(docs[i].name, source, destination),
                    ) == Some(stored_copy(docs[i], source, destination, now))
                &&& forall|name: Seq<char>|
                    !is_copy_of(docs, docs.len() as int, source, destination, deep, name)
                        ==> #[trigger] lookup(done.0.documents, name) == lookup(
                        store.documents,
                        name,
                    )
                &&& forall|i: int|
                    0 <= i < docs.len() ==> lookup(
                        done.0.documents,
                        (#[trigger] docs[i]).name,
                    ) == Some(docs[i])
            }
        }),
{
    let source = source_name(project, database, source_path);
    let destination = destination_name(project, database, collection, id);
    all_copies_named(
        project,
        database,
        source_path,
        collection,
        id,
        deep,
        docs,
        store.documents,
    );
    copies_are_stored(store.documents, docs, docs.len(), source, destination, deep, now);
    let after = apply_writes_spec(
        store.documents,
        clone_writes(docs, docs.len(), source, destination, deep),
        now,
    )->Ok_0;
    assert forall|i: int| 0 <= i < docs.len() implies lookup(
        after.0,
        (#[trigger] docs[i]).name,
    ) == Some(docs[i]) by {
        if is_copy_of(docs, docs.len() as int, source, destination, deep, docs[i].name) {
            let j = choose|j: int|
                0 <= j < docs.len() && is_cloned((#[trigger] docs[j]).name, source, deep)
                    && copy_name(docs[j].name, source, destination) == docs[i].name;
            assert(lookup(
                store.documents,
                copy_name(docs[j].name, source, destination),
            ) is None);
        }
    }
}

proof fn taken_place_refuses(
    documents: DocumentsView,
    docs: Seq<DocumentView>,
    n: nat,
    source: Seq<char>,
    destination: Seq<char>,
    deep: bool,
    now: Timestamp,
    k: int,
)
    requires
        keys_sorted(documents),
        copies_are_named(docs, source, destination, deep),
        n <= docs.len(),
        0 <= k < docs.len(),
        is_cloned(docs[k].name, source, deep),
        lookup(documents, copy_name(docs[k].name, source, destination)) is Some,
    ensures
        match apply_writes_spec(
            documents,
            clone_writes(docs, n, source, destination, deep),
            now,
        ) {
            Ok(after) => keys_sorted(after.0) && k >= n && lookup(
                after.0,
                copy_name(docs[k].name, source, destination),
            ) is Some,
            Err(e) => e.code == Code::FailedPrecondition,
        },
    decreases n,
{
    if n > 0 {
        let m = (n - 1) as nat;
        taken_place_refuses(documents, docs, m, source, destination, deep, now, k);
        let writes = clone_writes(docs, n, source, destination, deep);
        let before = clone_writes(docs, m, source, destination, deep);
        let doc = docs[n - 1];
        if is_cloned(doc.name, source, deep) {
            assert(writes.drop_last() =~= before);
            assert(writes.last() == clone_write(doc, source, destination));
            if let Ok(held) = apply_writes_spec(documents, before, now) {
                let name = copy_name(doc.name, source, destination);
                let copy = stored_copy(doc, source, destination, now);
                put_sorted(held.0, name, copy);
                lookup_after_put(
                    held.0,
                    name,
                    copy,
                    copy_name(docs[k].name, source, destination),
                );
            }
        } else {
            assert(writes == before);
        }
    }
}

/// A copy whose place, or the place of one of the documents below it, is taken
/// is refused with a conflict; a commit that is refused changes nothing.
pub proof fn repeated_copy_is_refused(
    store: StoreView,
    project: Seq<char>,
    database: Seq<char>,
    source_path: Seq<char>,
    collection: Seq<char>,
    id: Seq<char>,
    deep: bool,
    docs: Seq<DocumentView>,
    now: Timestamp,
    k: int,
)
    requires
        clone_refused(project, database, source_path, collection, id) is None,
        keys_sorted(store.documents),
        is_listing(docs, store.documents),
        has_document(docs, source_name(project, database, source_path)),
        0 <= k < docs.len(),
        is_cloned(docs[k].name, source_name(project, database, source_path), deep),
        lookup(
            store.documents,
            copy_name(
                docs[k].name,
                source_name(project, database, source_path),
                destination_name(project, database, collection, id),
            ),
        ) is Some,
    ensures
        ({
            let asked = clone_spec(
                project,
                database,
                source_path,
                collection,
                id,
                deep,
                docs,
            )->Ok_0;
            commit_spec(store, asked.0, asked.1, asked.2, now) matches Err(e) && clone_error_spec(
                e,
            ).0 == 409
        }),
{
    all_copies_named(
        project,
        database,
        source_path,
        collection,
        id,
        deep,
        docs,
        store.documents,
    );
    taken_place_refuses(
        store.documents,
        docs,
        docs.len(),
        source_name(project, database, source_path),
        destination_name(project, database, collection, id),
        deep,
        now,
        k,
    );
}

/// Whether every document is stored under its name, which is one of a document.
pub open spec fn has_document_names(documents: DocumentsView) -> bool {
    stored_by_name(documents) && forall|i: int|
        0 <= i < documents.len() ==> is_document_name((#[trigger] documents[i]).0)
}

proof fn inside_from(documents: DocumentsView, prefix: Seq<char>, i: int) -> (k: int)
    requires
        0 <= i < inside_prefix(documents, prefix).len(),
    ensures
        0 <= k < documents.len(),
        inside_prefix(documents, prefix)[i] == documents[k].1,
        prefix.is_prefix_of(documents[k].0),
    decreases documents.len(),
{
    let init = documents.drop_last();
    if i < inside_prefix(init, prefix).len() {
        let k = inside_from(init, prefix, i);
        assert(documents[k] == init[k]);
        k
    } else {
        documents.len() - 1
    }
}

proof fn inside_order(documents: DocumentsView, prefix: Seq<char>, i: int, j: int)
    requires
        has_document_names(documents),
        0 <= i < j < inside_prefix(documents, prefix).len(),
    ensures
        inside_prefix(documents, prefix)[i].name != inside_prefix(documents, prefix)[j].name,
    decreases documents.len(),
{
    let init = documents.drop_last();
    let last = documents.len() - 1;
    let all = inside_prefix(documents, prefix);
    let before = inside_prefix(init, prefix);
    assert(has_document_names(init)) by {
        assert forall|x: int, y: int| 0 <= x < y < init.len() implies crate::text::text_less(
            #[trigger] init[x].0,
            #[trigger] init[y].0,
        ) by {
            assert(init[x] == documents[x] && init[y] == documents[y]);
        }
        assert forall|x: int| 0 <= x < init.len() implies (#[trigger] init[x]).1.name == init[x].0
            && is_document_name(init[x].0) by {
            assert(init[x] == documents[x]);
        }
    }
    if j < before.len() {
        inside_order(init, prefix, i, j);
    } else {
        let k = inside_from(init, prefix, i);
        assert(documents[k] == init[k]);
        assert(documents[last].1 == all[j]);
        lookup_at(documents, k);
        lookup_at(documents, last);
    }
}

/// The documents of a database are a listing.
pub proof fn database_documents_are_a_listing(documents: DocumentsView, prefix: Seq<char>)
    requires
        has_document_names(documents),
    ensures
        is_listing(inside_prefix(documents, prefix), documents),
{
    let docs = inside_prefix(documents, prefix);
    assert forall|i: int| 0 <= i < docs.len() implies lookup(
        documents,
        (#[trigger] docs[i]).name,
    ) == Some(docs[i]) && is_document_name(docs[i].name) by {
        let k = inside_from(documents, prefix, i);
        lookup_at(documents, k);
        assert(documents[k].1.name == documents[k].0);
    }
    assert forall|i: int, j: int| 0 <= i < j < docs.len() implies (#[trigger] docs[i]).name != (
    #[trigger] docs[j]).name by {
        inside_order(documents, prefix, i, j);
    }
}

proof fn stored_is_inside(documents: DocumentsView, prefix: Seq<char>, k: int) -> (i: int)
    requires
        0 <= k < documents.len(),
        prefix.is_prefix_of(documents[k].0),
    ensures
        0 <= i < inside_prefix(documents, prefix).len(),
        inside_prefix(documents, prefix)[i] == documents[k].1,
    decreases documents.len(),
{
    let init = documents.drop_last();
    if k < init.len() {
        assert(init[k] == documents[k]);
        let i = stored_is_inside(init, prefix, k);
        assert(inside_prefix(documents, prefix)[i] == inside_prefix(init, prefix)[i]);
        i
    } else {
        inside_prefix(documents, prefix).len() - 1
    }
}

/// The documents of a database that a copy is made in.
pub open spec fn documents_of(
    documents: DocumentsView,
    project: Seq<char>,
    database: Seq<char>,
) -> Seq<DocumentView> {
    inside_prefix(documents, database_name(project, database) + "/documents/"@)
}

/// Copying a document a second time to the same place is refused with a
/// conflict: after the first copy the source still stands, and so does the
/// copy.
pub proof fn copying_twice_conflicts(
    store: StoreView,
    project: Seq<char>,
    database: Seq<char>,
    source_path: Seq<char>,
    collection: Seq<char>,
    id: Seq<char>,
    deep: bool,
    now: Timestamp,
    later: Timestamp,
)
    requires
        clone_refused(project, database, source_path, collection, id) is None,
        has_document_names(store.documents),
        has_document(
            documents_of(store.documents, project, database),
            source_name(project, database, source_path),
        ),
        forall|i: int|
            0 <= i < documents_of(store.documents, project, database).len() && is_cloned(
                (#[trigger] documents_of(store.documents, project, database)[i]).name,
                source_name(project, database, source_path),
                deep,
            ) ==> lookup(
                store.documents,
                copy_name(
                    documents_of(store.documents, project, database)[i].name,
                    source_name(project, database, source_path),
                    destination_name(project, database, collection, id),
                ),
            ) is None,
    ensures
        ({
            let first = clone_spec(
                project,
                database,
                source_path,
                collection,
                id,
                deep,
                documents_of(store.documents, project, database),
            )->Ok_0;
            commit_spec(store, first.0, first.1, first.2, now) matches Ok(done) && {
                let again = clone_spec(
                    project,
                    database,
                    source_path,
                    collection,
                    id,
                    deep,
                    documents_of(done.0.documents, project, database),
                );
                again matches Ok(second) && (commit_spec(
                    done.0,
                    second.0,
                    second.1,
                    second.2,
                    later,
                ) matches Err(e) && clone_error_spec(e).0 == 409)
            }
        }),
{
    let source = source_name(project, database, source_path);
    let destination = destination_name(project, database, collection, id);
    let prefix = database_name(project, database) + "/documents/"@;
    let docs = documents_of(store.documents, project, database);
    database_documents_are_a_listing(store.documents, prefix);
    first_copy_is_made(store, project, database, source_path, collection, id, deep, docs, now);
    all_copies_named(
        project,
        database,
        source_path,
        collection,
        id,
        deep,
        docs,
        store.documents,
    );
    let writes = clone_writes(docs, docs.len(), source, destination, deep);
    let after = apply_writes_spec(store.documents, writes, now)->Ok_0.0;
    commit_keeps_names(store.documents, writes, now);
    assert forall|k: int| 0 <= k < after.len() implies is_document_name(
        (#[trigger] after[k]).0,
    ) by {
        let name = after[k].0;
        lookup_at(after, k);
        if is_copy_of(docs, docs.len() as int, source, destination, deep, name) {
            let i = choose|i: int|
                0 <= i < docs.len() && is_cloned((#[trigger] docs[i]).name, source, deep)
                    && copy_name(docs[i].name, source, destination) == name;
            assert(is_document_name(copy_name(docs[i].name, source, destination)));
        } else {
            assert(lookup(after, name) == lookup(store.documents, name));
            lookup_found(store.documents, name);
        }
    }
    database_documents_are_a_listing(after, prefix);
    let i = choose|i: int| 0 <= i < docs.len() && (#[trigger] docs[i]).name == source;
    assert(lookup(after, docs[i].name) == Some(docs[i]));
    lookup_found(after, source);
    let k = choose|k: int|
        0 <= k < after.len() && #[trigger] after[k] == (source, lookup(after, source)->0);
    assert(prefix.is_prefix_of(source)) by {
        assert(source.take(prefix.len() as int) =~= prefix);
    }
    let docs_after = documents_of(after, project, database);
    let at = stored_is_inside(after, prefix, k);
    assert(docs_after[at].name == source);
    assert(is_cloned(docs[i].name, source, deep));
    let done = commit_spec(
        store,
        database_name(project, database),
        writes,
        Seq::empty(),
        now,
    )->Ok_0.0;
    assert(done.documents == after);
    repeated_copy_is_refused(
        done,
        project,
        database,
        source_path,
        collection,
        id,
        deep,
        docs_after,
        later,
        at,
    );
}

} // verus!
