//! Writes against a durable store: which rows to read, what the writes leave
//! and which rows to store or delete.
use crate::changes::{
    changes_view, document_events, document_outbox_records, ChangeView, DocumentChange,
};
use crate::document::{Document, DocumentView};
use crate::ordered::{
    keys_sorted, lookup, lookup_after_put, lookup_after_without, put, put_sorted, without_sorted,
    Duplicate, OrderedMap,
};
use crate::status::{Status, StatusView};
use crate::value::Timestamp;
use crate::writes::{
    apply_batch, apply_write_spec, apply_writes, apply_writes_spec, batch_spec, ok_status,
    results_view, statuses_view, updated_document, validate_writes_database,
    validate_writes_database_spec, write_name, write_name_spec, writes_view, DocumentsView,
    OperationView, RpcStatus, RpcStatusView, Write, WriteResult, WriteResultView, WriteView,
};
use vstd::prelude::*;

verus! {

/// The names that the writes touch, each once, in order.
pub open spec fn touched_names_spec(writes: Seq<WriteView>) -> Seq<(Seq<char>, ())>
    decreases writes.len(),
{
    if writes.len() == 0 {
        Seq::empty()
    } else {
        let before = touched_names_spec(writes.drop_last());
        match write_name_spec(writes.last()) {
            Ok(name) => put(before, name, ()),
            Err(_) => before,
        }
    }
}

/// The names that the writes touch: the rows to read before applying them.
pub fn touched_names(writes: &Vec<Write>) -> (r: OrderedMap<()>)
    ensures
        r@ == touched_names_spec(writes_view(writes@)),
{
    let ghost all = writes_view(writes@);
    let mut names: OrderedMap<()> = OrderedMap::new();
    let mut i: usize = 0;
    assert(all.take(0) =~= Seq::empty());
    while i < writes.len()
        invariant
            i <= writes.len(),
            all == writes_view(writes@),
            names@ == touched_names_spec(all.take(i as int)),
        decreases writes.len() - i,
    {
        assert(all.take(i + 1).drop_last() =~= all.take(i as int));
        assert(all.take(i + 1).last() == writes@[i as int]@);
        if let Ok(name) = write_name(&writes[i]) {
            names.insert(name, ());
        }
        i += 1;
    }
    assert(all.take(i as int) =~= all);
    names
}

/// What durable writes leave and answer.
pub struct DurableOutcome {
    pub documents: OrderedMap<Document>,
    pub results: Vec<WriteResult>,
    pub statuses: Vec<RpcStatus>,
    pub records: Vec<DocumentChange>,
}

/// What a [`DurableOutcome`] stands for.
#[verifier::ext_equal]
pub struct DurableView {
    pub documents: DocumentsView,
    pub results: Seq<WriteResultView>,
    pub statuses: Seq<RpcStatusView>,
    pub records: Seq<ChangeView>,
}

impl View for DurableOutcome {
    type V = DurableView;

    open spec fn view(&self) -> DurableView {
        DurableView {
            documents: self.documents@,
            results: results_view(self.results@),
            statuses: statuses_view(self.statuses@),
            records: changes_view(self.records@),
        }
    }
}

/// What the writes leave of the rows that were read. With `partial` each write
/// stands on its own, otherwise the first refusal refuses them all.
pub open spec fn durable_writes_spec(
    before: DocumentsView,
    database: Seq<char>,
    writes: Seq<WriteView>,
    partial: bool,
    now: Timestamp,
) -> Result<DurableView, StatusView> {
    match validate_writes_database_spec(database, writes) {
        Err(e) => Err(e),
        Ok(_) => if partial {
            let after = batch_spec(before, writes, now);
            Ok(
                DurableView {
                    documents: after.documents,
                    results: after.results,
                    statuses: after.statuses,
                    records: document_events(before, after.documents),
                },
            )
        } else {
            match apply_writes_spec(before, writes, now) {
                Err(e) => Err(e),
                Ok(after) => Ok(
                    DurableView {
                        documents: after.0,
                        results: after.1,
                        statuses: Seq::new(after.1.len(), |i: int| ok_status()),
                        records: document_events(before, after.0),
                    },
                ),
            }
        },
    }
}

fn ok_statuses(n: usize) -> (r: Vec<RpcStatus>)
    ensures
        statuses_view(r@) == Seq::new(n as nat, |i: int| ok_status()),
{
    let mut out: Vec<RpcStatus> = Vec::new();
    let mut i: usize = 0;
    while i < n
        invariant
            i <= n,
            out@.len() == i,
            forall|j: int| 0 <= j < i ==> (#[trigger] out@[j])@ == ok_status(),
        decreases n - i,
    {
        let status = RpcStatus { code: 0, message: String::new() };
        assert(status@ =~= ok_status());
        out.push(status);
        i += 1;
    }
    assert(statuses_view(out@) =~= Seq::new(n as nat, |i: int| ok_status()));
    out
}

/// Applies writes to the rows that were read.
pub fn durable_writes(
    before: &OrderedMap<Document>,
    database: &str,
    writes: Vec<Write>,
    partial: bool,
    now: &Timestamp,
) -> (r: Result<DurableOutcome, Status>)
    ensures
        match durable_writes_spec(before@, database@, writes_view(writes@), partial, *now) {
            Err(e) => r is Err && r->Err_0@ == e,
            Ok(outcome) => r is Ok && r->Ok_0@ == outcome,
        },
{
    match validate_writes_database(database, &writes) {
        Ok(()) => {},
        Err(e) => {
            return Err(e);
        },
    }
    if partial {
        let mut documents = before.duplicate();
        let (results, statuses) = apply_batch(&mut documents, writes, now);
        let records = document_outbox_records(before, &documents);
        Ok(DurableOutcome { documents, results, statuses, records })
    } else {
        match apply_writes(before, writes, now) {
            Err(e) => Err(e),
            Ok((documents, results)) => {
                let records = document_outbox_records(before, &documents);
                let statuses = ok_statuses(results.len());
                assert(results_view(results@).len() == results@.len());
                Ok(DurableOutcome { documents, results, statuses, records })
            },
        }
    }
}

/// The row to store or, with nothing, to delete under each name.
pub open spec fn row_changes_spec(
    names: Seq<(Seq<char>, ())>,
    after: DocumentsView,
) -> Seq<(Seq<char>, Option<DocumentView>)> {
    Seq::new(names.len(), |i: int| (names[i].0, lookup(after, names[i].0)))
}

/// What a list of row changes stands for.
pub open spec fn rows_view(rows: Seq<(String, Option<Document>)>) -> Seq<
    (Seq<char>, Option<DocumentView>),
> {
    rows.map_values(
        |row: (String, Option<Document>)|
            (
                row.0@,
                match row.1 {
                    Some(d) => Some(d@),
                    None => None,
                },
            ),
    )
}

/// The row to store or, with nothing, to delete under each touched name.
pub fn row_changes(names: &OrderedMap<()>, after: &OrderedMap<Document>) -> (r: Vec<
    (String, Option<Document>),
>)
    ensures
        rows_view(r@) == row_changes_spec(names@, after@),
{
    let mut rows: Vec<(String, Option<Document>)> = Vec::new();
    let mut i: usize = 0;
    let ghost expected = row_changes_spec(names@, after@);
    while i < names.len()
        invariant
            i <= names@.len(),
            expected == row_changes_spec(names@, after@),
            rows@.len() == i,
            forall|j: int| 0 <= j < i ==> #[trigger] rows_view(rows@)[j] == expected[j],
        decreases names@.len() - i,
    {
        let ghost before = rows_view(rows@);
        let name = names.key_at(i);
        let row = match after.get(name) {
            Some(doc) => Some(doc.duplicate()),
            None => None,
        };
        rows.push((name.to_owned(), row));
        assert(rows_view(rows@) =~= before.push(expected[i as int]));
        i += 1;
    }
    assert(rows_view(rows@) =~= expected);
    rows
}

/// Whether the rows that were read hold what a store holds under each of some
/// names.
pub open spec fn rows_of(
    rows: DocumentsView,
    documents: DocumentsView,
    names: Seq<(Seq<char>, ())>,
) -> bool {
    forall|name: Seq<char>| #[trigger]
        lookup(names, name) is Some ==> lookup(rows, name) == lookup(documents, name)
}

/// Whether a store holds what another holds under every name but some.
pub open spec fn same_but(
    before: DocumentsView,
    after: DocumentsView,
    names: Seq<(Seq<char>, ())>,
) -> bool {
    forall|name: Seq<char>| #[trigger]
        lookup(names, name) is None ==> lookup(after, name) == lookup(before, name)
}

proof fn touched_names_sorted(writes: Seq<WriteView>)
    ensures
        keys_sorted(touched_names_spec(writes)),
    decreases writes.len(),
{
    if writes.len() > 0 {
        touched_names_sorted(writes.drop_last());
        if let Ok(name) = write_name_spec(writes.last()) {
            put_sorted(touched_names_spec(writes.drop_last()), name, ());
        }
    }
}

proof fn written_name_is_touched(writes: Seq<WriteView>, i: int)
    requires
        0 <= i < writes.len(),
    ensures
        write_name_spec(writes[i]) matches Ok(name) ==> lookup(
            touched_names_spec(writes),
            name,
        ) is Some,
    decreases writes.len(),
{
    let init = writes.drop_last();
    touched_names_sorted(init);
    if let Ok(name) = write_name_spec(writes[i]) {
        if let Ok(last) = write_name_spec(writes.last()) {
            lookup_after_put(touched_names_spec(init), last, (), name);
        }
        if i < init.len() {
            assert(init[i] == writes[i]);
            written_name_is_touched(init, i);
        }
    }
}

proof fn write_agrees(
    rows: DocumentsView,
    documents: DocumentsView,
    names: Seq<(Seq<char>, ())>,
    write: WriteView,
    now: Timestamp,
)
    requires
        keys_sorted(rows),
        keys_sorted(documents),
        rows_of(rows, documents, names),
        write_name_spec(write) matches Ok(name) ==> lookup(names, name) is Some,
    ensures
        match (apply_write_spec(rows, write, now), apply_write_spec(documents, write, now)) {
            (Ok(a), Ok(b)) => {
                &&& a.1 == b.1
                &&& keys_sorted(a.0)
                &&& keys_sorted(b.0)
                &&& rows_of(a.0, b.0, names)
                &&& same_but(documents, b.0, names)
            },
            (Err(a), Err(b)) => a == b,
            _ => false,
        },
{
    if let (Ok(a), Ok(b)) = (
        apply_write_spec(rows, write, now),
        apply_write_spec(documents, write, now),
    ) {
        let name = write_name_spec(write)->Ok_0;
        match write.operation {
            OperationView::Update(document) => {
                let stored = updated_document(
                    lookup(documents, name),
                    document,
                    write,
                    now,
                )->Ok_0.0;
                put_sorted(rows, name, stored);
                put_sorted(documents, name, stored);
                assert forall|n: Seq<char>| #[trigger] lookup(names, n) is Some implies lookup(
                    a.0,
                    n,
                ) == lookup(b.0, n) by {
                    lookup_after_put(rows, name, stored, n);
                    lookup_after_put(documents, name, stored, n);
                }
                assert forall|n: Seq<char>| #[trigger] lookup(names, n) is None implies lookup(
                    b.0,
                    n,
                ) == lookup(documents, n) by {
                    lookup_after_put(documents, name, stored, n);
                }
            },
            _ => {
                without_sorted(rows, name);
                without_sorted(documents, name);
                assert forall|n: Seq<char>| #[trigger] lookup(names, n) is Some implies lookup(
                    a.0,
                    n,
                ) == lookup(b.0, n) by {
                    lookup_after_without(rows, name, n);
                    lookup_after_without(documents, name, n);
                }
                assert forall|n: Seq<char>| #[trigger] lookup(names, n) is None implies lookup(
                    b.0,
                    n,
                ) == lookup(documents, n) by {
                    lookup_after_without(documents, name, n);
                }
            },
        }
    }
}

proof fn writes_agree(
    rows: DocumentsView,
    documents: DocumentsView,
    names: Seq<(Seq<char>, ())>,
    writes: Seq<WriteView>,
    now: Timestamp,
)
    requires
        keys_sorted(rows),
        keys_sorted(documents),
        rows_of(rows, documents, names),
        forall|i: int|
            0 <= i < writes.len() ==> (write_name_spec(#[trigger] writes[i]) matches Ok(name)
                ==> lookup(names, name) is Some),
    ensures
        match (apply_writes_spec(rows, writes, now), apply_writes_spec(documents, writes, now)) {
            (Ok(a), Ok(b)) => {
                &&& a.1 == b.1
                &&& keys_sorted(a.0)
                &&& keys_sorted(b.0)
                &&& rows_of(a.0, b.0, names)
                &&& same_but(documents, b.0, names)
            },
            (Err(a), Err(b)) => a == b,
            _ => false,
        },
        ({
            let a = batch_spec(rows, writes, now);
            let b = batch_spec(documents, writes, now);
            &&& a.results == b.results
            &&& a.statuses == b.statuses
            &&& keys_sorted(a.documents)
            &&& keys_sorted(b.documents)
            &&& rows_of(a.documents, b.documents, names)
            &&& same_but(documents, b.documents, names)
        }),
    decreases writes.len(),
{
    if writes.len() > 0 {
        let init = writes.drop_last();
        assert forall|i: int| 0 <= i < init.len() implies (write_name_spec(
            #[trigger] init[i],
        ) matches Ok(name) ==> lookup(names, name) is Some) by {
            assert(init[i] == writes[i]);
        }
        writes_agree(rows, documents, names, init, now);
        assert(writes.last() == writes[writes.len() - 1]);
        if let (Ok(a), Ok(b)) = (
            apply_writes_spec(rows, init, now),
            apply_writes_spec(documents, init, now),
        ) {
            write_agrees(a.0, b.0, names, writes.last(), now);
        }
        let a = batch_spec(rows, init, now);
        let b = batch_spec(documents, init, now);
        write_agrees(a.documents, b.documents, names, writes.last(), now);
    }
}

/// Durable writes do what writes in memory do: on the rows of the names that
/// they touch they are refused or answered as on the whole store, the rows that
/// they leave hold what the whole store then holds under those names, and under
/// every other name the store is as before.
pub proof fn durable_writes_agree_with_memory(
    rows: DocumentsView,
    documents: DocumentsView,
    database: Seq<char>,
    writes: Seq<WriteView>,
    now: Timestamp,
)
    requires
        keys_sorted(rows),
        keys_sorted(documents),
        rows_of(rows, documents, touched_names_spec(writes)),
        validate_writes_database_spec(database, writes) is Ok,
    ensures
        match (
            durable_writes_spec(rows, database, writes, false, now),
            apply_writes_spec(documents, writes, now),
        ) {
            (Ok(durable), Ok(memory)) => {
                &&& durable.results == memory.1
                &&& rows_of(durable.documents, memory.0, touched_names_spec(writes))
                &&& same_but(documents, memory.0, touched_names_spec(writes))
            },
            (Err(a), Err(b)) => a == b,
            _ => false,
        },
        ({
            let memory = batch_spec(documents, writes, now);
            durable_writes_spec(rows, database, writes, true, now) matches Ok(durable) && {
                &&& durable.results == memory.results
                &&& durable.statuses == memory.statuses
                &&& rows_of(durable.documents, memory.documents, touched_names_spec(writes))
                &&& same_but(documents, memory.documents, touched_names_spec(writes))
            }
        }),
{
    assert forall|i: int| 0 <= i < writes.len() implies (write_name_spec(
        #[trigger] writes[i],
    ) matches Ok(name) ==> lookup(touched_names_spec(writes), name) is Some) by {
        written_name_is_touched(writes, i);
    }
    writes_agree(rows, documents, touched_names_spec(writes), writes, now);
}

} // verus!
