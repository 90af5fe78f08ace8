//! Live listeners: what a client is told when the documents of its targets
//! change.
use crate::changes::{same_document, same_document_spec};
use crate::document::{Document, DocumentView};
use crate::ordered::{lookup, put, Duplicate, OrderedMap};
use crate::query::{
    docs_result, docs_view, query_docs, query_docs_spec, QueryView, StructuredQuery,
};
use crate::status::{invalid, Status, StatusView};
use crate::text::texts;
use crate::value::Timestamp;
use crate::writes::DocumentsView;
use vstd::prelude::*;

verus! {

/// What a target watches.
#[derive(PartialEq, Debug)]
pub enum TargetType {
    Unset,
    Documents(Vec<String>),
    Query { parent: String, query: Option<StructuredQuery> },
}

/// A target: its number and what it watches.
#[derive(PartialEq, Debug)]
pub struct Target {
    pub target_id: i32,
    pub target_type: TargetType,
}

/// What a [`TargetType`] stands for.
pub enum TargetView {
    Unset,
    Documents(Seq<Seq<char>>),
    Query { parent: Seq<char>, query: Option<QueryView> },
}

impl TargetType {
    pub open spec fn view(&self) -> TargetView {
        match self {
            TargetType::Unset => TargetView::Unset,
            TargetType::Documents(names) => TargetView::Documents(texts(names@)),
            TargetType::Query { parent, query } => TargetView::Query {
                parent: parent@,
                query: match query {
                    Some(q) => Some(q@),
                    None => None,
                },
            },
        }
    }
}

/// Those of the named documents that exist, in the order asked.
pub open spec fn named_documents(documents: DocumentsView, names: Seq<Seq<char>>) -> Seq<
    DocumentView,
>
    decreases names.len(),
{
    if names.len() == 0 {
        Seq::empty()
    } else {
        let before = named_documents(documents, names.drop_last());
        match lookup(documents, names.last()) {
            Some(doc) => before.push(doc),
            None => before,
        }
    }
}

/// The documents of a target.
pub open spec fn target_docs_spec(documents: DocumentsView, target: TargetView) -> Result<
    Seq<DocumentView>,
    StatusView,
> {
    match target {
        TargetView::Documents(names) => Ok(named_documents(documents, names)),
        TargetView::Query { parent, query } => match query {
            Some(q) => query_docs_spec(documents, parent, q),
            None => Err(invalid("query required"@)),
        },
        TargetView::Unset => Err(invalid("target required"@)),
    }
}

/// Finds those of the named documents that exist.
pub fn documents_by_name(documents: &OrderedMap<Document>, names: &Vec<String>) -> (r: Vec<
    Document,
>)
    ensures
        docs_view(r@) == named_documents(documents@, texts(names@)),
{
    let ghost all = texts(names@);
    let mut found: Vec<Document> = Vec::new();
    let mut i: usize = 0;
    assert(all.take(0) =~= Seq::empty());
    assert(docs_view(found@) =~= Seq::empty());
    while i < names.len()
        invariant
            i <= names.len(),
            all == texts(names@),
            docs_view(found@) == named_documents(documents@, all.take(i as int)),
        decreases names.len() - i,
    {
        assert(all.take(i + 1).drop_last() =~= all.take(i as int));
        assert(all.take(i + 1).last() == names@[i as int]@);
        if let Some(doc) = documents.get(names[i].as_str()) {
            let ghost before = docs_view(found@);
            let copy = doc.duplicate();
            found.push(copy);
            assert(docs_view(found@) =~= before.push(copy@));
        }
        i += 1;
    }
    assert(all.take(i as int) =~= all);
    found
}

/// The documents of a target.
pub fn target_docs(documents: &OrderedMap<Document>, target: &TargetType) -> (r: Result<
    Vec<Document>,
    Status,
>)
    ensures
        docs_result(r) == target_docs_spec(documents@, target@),
{
    match target {
        TargetType::Documents(names) => Ok(documents_by_name(documents, names)),
        TargetType::Query { parent, query } => match query {
            Some(q) => query_docs(documents, parent.as_str(), q),
            None => Err(Status::invalid_argument("query required")),
        },
        TargetType::Unset => Err(Status::invalid_argument("target required")),
    }
}

/// A message to a listening client.
#[derive(PartialEq, Debug)]
pub enum ListenResponse {
    TargetChange { kind: i32, target_ids: Vec<i32>, read_time: Option<Timestamp> },
    DocumentChange { document: Document, target_id: i32 },
    DocumentRemove { document: String, target_id: i32, read_time: Timestamp },
}

/// What a [`ListenResponse`] stands for.
pub enum ListenView {
    TargetChange { kind: i32, target_ids: Seq<i32>, read_time: Option<Timestamp> },
    DocumentChange { document: DocumentView, target_id: i32 },
    DocumentRemove { document: Seq<char>, target_id: i32, read_time: Timestamp },
}

impl View for ListenResponse {
    type V = ListenView;

    open spec fn view(&self) -> ListenView {
        match self {
            ListenResponse::TargetChange { kind, target_ids, read_time } => {
                ListenView::TargetChange {
                    kind: *kind,
                    target_ids: target_ids@,
                    read_time: *read_time,
                }
            },
            ListenResponse::DocumentChange { document, target_id } => {
                ListenView::DocumentChange { document: document@, target_id: *target_id }
            },
            ListenResponse::DocumentRemove { document, target_id, read_time } => {
                ListenView::DocumentRemove {
                    document: document@,
                    target_id: *target_id,
                    read_time: *read_time,
                }
            },
        }
    }
}

/// The view of a list of messages.
pub open spec fn listen_view(responses: Seq<ListenResponse>) -> Seq<ListenView> {
    responses.map_values(|r: ListenResponse| r@)
}

pub open spec fn target_change(kind: i32, ids: Seq<i32>, read_time: Option<Timestamp>) -> ListenView {
    ListenView::TargetChange { kind, target_ids: ids, read_time }
}

/// A message about targets: 0 for no change, 1 for added, 2 for removed and 3
/// for current. It carries the time where `read_time` says so.
pub fn target_response(kind: i32, ids: Vec<i32>, read_time: bool, now: &Timestamp) -> (r:
    ListenResponse)
    ensures
        r@ == target_change(
            kind,
            ids@,
            if read_time {
                Some(*now)
            } else {
                None
            },
        ),
{
    ListenResponse::TargetChange {
        kind,
        target_ids: ids,
        read_time: if read_time {
            Some(*now)
        } else {
            None
        },
    }
}

/// The documents by name.
pub open spec fn by_name_spec(docs: Seq<DocumentView>) -> DocumentsView
    decreases docs.len(),
{
    if docs.len() == 0 {
        Seq::empty()
    } else {
        put(by_name_spec(docs.drop_last()), docs.last().name, docs.last())
    }
}

/// Files documents by name.
pub fn by_name(docs: Vec<Document>) -> (r: OrderedMap<Document>)
    ensures
        r@ == by_name_spec(docs_view(docs@)),
{
    let ghost all = docs_view(docs@);
    let mut filed: OrderedMap<Document> = OrderedMap::new();
    assert(all.take(0) =~= Seq::empty());
    for doc in it: docs
        invariant
            it.seq() == docs@,
            all == docs_view(docs@),
            filed@ == by_name_spec(all.take(it.index() as int)),
    {
        let ghost i = it.index() as int;
        assert(all.take(i + 1).drop_last() =~= all.take(i));
        assert(all.take(i + 1).last() == doc@);
        let name = doc.name.clone();
        filed.insert(name.as_str(), doc);
    }
    assert(all.take(all.len() as int) =~= all);
    filed
}

/// Messages about those of the first `n` known documents that are gone.
pub open spec fn removals(
    previous: DocumentsView,
    current: DocumentsView,
    n: nat,
    target_id: i32,
    now: Timestamp,
) -> Seq<ListenView>
    decreases n,
{
    if n == 0 || n > previous.len() {
        Seq::empty()
    } else {
        let before = removals(previous, current, (n - 1) as nat, target_id, now);
        let name = previous[n - 1].0;
        if lookup(current, name) is None {
            before.push(ListenView::DocumentRemove { document: name, target_id, read_time: now })
        } else {
            before
        }
    }
}

/// Messages about those of the first `n` current documents that are new or
/// different.
pub open spec fn additions(
    previous: DocumentsView,
    current: DocumentsView,
    n: nat,
    target_id: i32,
) -> Seq<ListenView>
    decreases n,
{
    if n == 0 || n > current.len() {
        Seq::empty()
    } else {
        let before = additions(previous, current, (n - 1) as nat, target_id);
        let doc = current[n - 1].1;
        if lookup(previous, current[n - 1].0) matches Some(old) && same_document_spec(old, doc) {
            before
        } else {
            before.push(ListenView::DocumentChange { document: doc, target_id })
        }
    }
}

/// What a client is told about a target: what is gone, what is new or
/// different, the first time that the target is current, and the time.
pub open spec fn emission(
    previous: DocumentsView,
    current: DocumentsView,
    target_id: i32,
    initial: bool,
    now: Timestamp,
) -> Seq<ListenView> {
    let changes = removals(previous, current, previous.len(), target_id, now) + additions(
        previous,
        current,
        current.len(),
        target_id,
    );
    let announced = if initial {
        changes.push(target_change(3, seq![target_id], None))
    } else {
        changes
    };
    announced.push(target_change(0, Seq::empty(), Some(now)))
}

/// Writes down what a client is told about a target whose documents were
/// `previous` and are `current`.
pub fn emit_changes(
    previous: &OrderedMap<Document>,
    current: &OrderedMap<Document>,
    target_id: i32,
    initial: bool,
    now: &Timestamp,
) -> (r: Vec<ListenResponse>)
    ensures
        listen_view(r@) == emission(previous@, current@, target_id, initial, *now),
{
    let mut out: Vec<ListenResponse> = Vec::new();
    let mut i: usize = 0;
    assert(listen_view(out@) =~= Seq::empty());
    while i < previous.len()
        invariant
            i <= previous@.len(),
            listen_view(out@) == removals(previous@, current@, i as nat, target_id, *now),
        decreases previous@.len() - i,
    {
        let name = previous.key_at(i);
        if !current.contains(name) {
            let ghost before = listen_view(out@);
            let message = ListenResponse::DocumentRemove {
                document: name.to_owned(),
                target_id,
                read_time: *now,
            };
            out.push(message);
            assert(listen_view(out@) =~= before.push(message@));
        }
        i += 1;
    }
    let ghost removed = listen_view(out@);
    let mut j: usize = 0;
    assert(removed + Seq::<ListenView>::empty() =~= removed);
    while j < current.len()
        invariant
            j <= current@.len(),
            removed == removals(previous@, current@, previous@.len(), target_id, *now),
            listen_view(out@) == removed + additions(previous@, current@, j as nat, target_id),
        decreases current@.len() - j,
    {
        let doc = current.value_at(j);
        let known = match previous.get(current.key_at(j)) {
            Some(old) => same_document(old, doc),
            None => false,
        };
        if !known {
            let ghost before = listen_view(out@);
            let message = ListenResponse::DocumentChange { document: doc.duplicate(), target_id };
            out.push(message);
            assert(listen_view(out@) =~= before.push(message@));
            assert(listen_view(out@) =~= removed + additions(
                previous@,
                current@,
                (j + 1) as nat,
                target_id,
            ));
        }
        j += 1;
    }
    if initial {
        let ghost before = listen_view(out@);
        let mut ids: Vec<i32> = Vec::new();
        ids.push(target_id);
        assert(ids@ =~= seq![target_id]);
        let message = target_response(3, ids, false, now);
        out.push(message);
        assert(listen_view(out@) =~= before.push(message@));
    }
    let ghost before = listen_view(out@);
    let ids: Vec<i32> = Vec::new();
    assert(ids@ =~= Seq::empty());
    let message = target_response(0, ids, true, now);
    out.push(message);
    assert(listen_view(out@) =~= before.push(message@));
    out
}

/// What a client is told about a target, given the documents of its database;
/// `previous` becomes what the client knows. Nothing changes when the target
/// cannot be read.
pub fn emit_target(
    documents: &OrderedMap<Document>,
    target: &Target,
    previous: &mut OrderedMap<Document>,
    initial: bool,
    now: &Timestamp,
) -> (r: Result<Vec<ListenResponse>, Status>)
    ensures
        match target_docs_spec(documents@, target.target_type@) {
            Err(e) => r is Err && r->Err_0@ == e && final(previous)@ == old(previous)@,
            Ok(docs) => {
                &&& final(previous)@ == by_name_spec(docs)
                &&& r is Ok
                &&& listen_view(r->Ok_0@) == emission(
                    old(previous)@,
                    by_name_spec(docs),
                    target.target_id,
                    initial,
                    *now,
                )
            },
        },
{
    match target_docs(documents, &target.target_type) {
        Err(e) => Err(e),
        Ok(docs) => {
            let current = by_name(docs);
            let out = emit_changes(previous, &current, target.target_id, initial, now);
            *previous = current;
            Ok(out)
        },
    }
}

proof fn removals_of_all(
    previous: DocumentsView,
    n: nat,
    target_id: i32,
    now: Timestamp,
)
    requires
        n <= previous.len(),
    ensures
        removals(previous, Seq::empty(), n, target_id, now).len() == n,
        forall|i: int|
            0 <= i < n ==> #[trigger] removals(previous, Seq::empty(), n, target_id, now)[i] == (
            ListenView::DocumentRemove {
                document: previous[i].0,
                target_id,
                read_time: now,
            }),
    decreases n,
{
    if n > 0 {
        removals_of_all(previous, (n - 1) as nat, target_id, now);
        crate::ordered::lower_bound_properties(
            Seq::<(Seq<char>, DocumentView)>::empty(),
            previous[n - 1].0,
        );
    }
}

/// When a target has lost all its documents, the client is told of each one
/// that it knew, in order.
pub proof fn lost_documents_are_removed(
    previous: DocumentsView,
    target_id: i32,
    now: Timestamp,
    i: int,
)
    requires
        0 <= i < previous.len(),
    ensures
        emission(previous, Seq::empty(), target_id, false, now).len() == previous.len() + 1,
        emission(previous, Seq::empty(), target_id, false, now)[i] == (ListenView::DocumentRemove {
            document: previous[i].0,
            target_id,
            read_time: now,
        }),
{
    removals_of_all(previous, previous.len(), target_id, now);
    assert(additions(previous, Seq::empty(), 0, target_id).len() == 0);
}

/// A target and the documents of it that the client knows.
pub struct Watched {
    pub target: Target,
    pub previous: OrderedMap<Document>,
}

/// What a [`Watched`] stands for.
#[verifier::ext_equal]
pub struct WatchedView {
    pub id: i32,
    pub target: TargetView,
    pub previous: DocumentsView,
}

impl View for Watched {
    type V = WatchedView;

    open spec fn view(&self) -> WatchedView {
        WatchedView {
            id: self.target.target_id,
            target: self.target.target_type@,
            previous: self.previous@,
        }
    }
}

/// The targets of one client, in the order of their numbers.
pub struct Listener {
    targets: Vec<Watched>,
}

/// Whether the numbers rise from each target to the next.
pub open spec fn ids_rise(targets: Seq<WatchedView>) -> bool {
    forall|i: int, j: int|
        0 <= i < j < targets.len() ==> (#[trigger] targets[i]).id < (#[trigger] targets[j]).id
}

pub open spec fn watched_view(targets: Seq<Watched>) -> Seq<WatchedView> {
    targets.map_values(|w: Watched| w@)
}

impl View for Listener {
    type V = Seq<WatchedView>;

    closed spec fn view(&self) -> Seq<WatchedView> {
        watched_view(self.targets@)
    }
}

/// Whether a number is that of a target.
pub open spec fn id_used(targets: Seq<WatchedView>, id: i32) -> bool {
    exists|i: int| 0 <= i < targets.len() && (#[trigger] targets[i]).id == id
}

/// Whether a number is the least positive one that no target has.
pub open spec fn is_least_free(targets: Seq<WatchedView>, id: i32) -> bool {
    id >= 1 && !id_used(targets, id) && forall|k: i32|
        1 <= k < id ==> #[trigger] id_used(targets, k)
}

/// Whether `id` is the number that a target gets which asks for `requested`.
pub open spec fn is_target_id(targets: Seq<WatchedView>, requested: i32, id: i32) -> bool {
    if requested == 0 {
        is_least_free(targets, id)
    } else {
        id == requested
    }
}

/// The targets with one more, in place of one of the same number.
pub open spec fn with_target(targets: Seq<WatchedView>, added: WatchedView) -> Seq<WatchedView>
    decreases targets.len(),
{
    if targets.len() == 0 || targets.last().id < added.id {
        targets.push(added)
    } else if targets.last().id == added.id {
        targets.drop_last().push(added)
    } else {
        with_target(targets.drop_last(), added).push(targets.last())
    }
}

/// The targets without the one of a number.
pub open spec fn without_target(targets: Seq<WatchedView>, id: i32) -> Seq<WatchedView>
    decreases targets.len(),
{
    if targets.len() == 0 {
        targets
    } else if targets.last().id == id {
        without_target(targets.drop_last(), id)
    } else {
        without_target(targets.drop_last(), id).push(targets.last())
    }
}

/// What became of a step: the messages, and the error that ends the stream.
pub struct StepView {
    pub targets: Seq<WatchedView>,
    pub messages: Seq<ListenView>,
    pub error: Option<StatusView>,
}

/// Adding a target: it is announced, then its documents follow.
pub open spec fn add_target_spec(
    targets: Seq<WatchedView>,
    id: i32,
    target: TargetView,
    documents: DocumentsView,
    now: Timestamp,
) -> StepView {
    let announced = seq![target_change(1, seq![id], None)];
    match target_docs_spec(documents, target) {
        Err(e) => StepView { targets, messages: announced, error: Some(e) },
        Ok(docs) => StepView {
            targets: with_target(
                targets,
                WatchedView { id, target, previous: by_name_spec(docs) },
            ),
            messages: announced + emission(Seq::empty(), by_name_spec(docs), id, true, now),
            error: None,
        },
    }
}

/// A change of the documents: each of the first `n` targets tells what changed
/// for it, until one fails.
pub open spec fn changed_spec(
    targets: Seq<WatchedView>,
    documents: DocumentsView,
    now: Timestamp,
    n: nat,
) -> StepView
    decreases n,
{
    if n == 0 || n > targets.len() {
        StepView { targets, messages: Seq::empty(), error: None }
    } else {
        let before = changed_spec(targets, documents, now, (n - 1) as nat);
        if before.error is Some {
            before
        } else {
            match told(targets[n - 1], documents, now) {
                Err(e) => StepView { error: Some(e), ..before },
                Ok(pair) => StepView {
                    targets: before.targets.update(n - 1, pair.0),
                    messages: before.messages + pair.1,
                    error: None,
                },
            }
        }
    }
}

/// The view of an error that may be missing.
pub open spec fn opt_status(e: Option<Status>) -> Option<StatusView> {
    match e {
        Some(s) => Some(s@),
        None => None,
    }
}

proof fn with_target_properties(targets: Seq<WatchedView>, added: WatchedView)
    requires
        ids_rise(targets),
    ensures
        ids_rise(with_target(targets, added)),
        forall|i: int|
            0 <= i < with_target(targets, added).len() ==> ((#[trigger] with_target(
                targets,
                added,
            )[i]).id == added.id || id_used(targets, with_target(targets, added)[i].id)),
    decreases targets.len(),
{
    let result = with_target(targets, added);
    if targets.len() > 0 {
        let init = targets.drop_last();
        let last = targets.last();
        assert forall|i: int, j: int| 0 <= i < j < init.len() implies (#[trigger] init[i]).id < (
        #[trigger] init[j]).id by {
            assert(targets[i].id < targets[j].id);
        }
        if last.id > added.id {
            with_target_properties(init, added);
            let inner = with_target(init, added);
            assert forall|i: int, j: int| 0 <= i < j < result.len() implies (#[trigger] result[i]).id
                < (#[trigger] result[j]).id by {
                assert(result[i] == inner[i]);
                if j < inner.len() {
                    assert(result[j] == inner[j]);
                } else if inner[i].id != added.id {
                    let m = choose|m: int| 0 <= m < init.len() && (#[trigger] init[m]).id == inner[i].id;
                    assert(targets[m].id < targets[targets.len() - 1].id);
                }
            }
            assert forall|i: int| 0 <= i < result.len() implies ((#[trigger] result[i]).id
                == added.id || id_used(targets, result[i].id)) by {
                if i < inner.len() {
                    assert(result[i] == inner[i]);
                    if inner[i].id != added.id {
                        let m = choose|m: int|
                            0 <= m < init.len() && (#[trigger] init[m]).id == inner[i].id;
                        assert(targets[m].id == inner[i].id);
                    }
                } else {
                    assert(targets[targets.len() - 1].id == result[i].id);
                }
            }
        } else {
            assert forall|i: int, j: int| 0 <= i < j < result.len() implies (#[trigger] result[i]).id
                < (#[trigger] result[j]).id by {
                assert(result[i] == targets[i]);
                assert(targets[i].id <= targets[targets.len() - 1].id);
                if j < result.len() - 1 {
                    assert(result[j] == targets[j]);
                } else if last.id == added.id {
                    assert(targets[i].id < targets[targets.len() - 1].id);
                }
            }
            assert forall|i: int| 0 <= i < result.len() implies ((#[trigger] result[i]).id
                == added.id || id_used(targets, result[i].id)) by {
                if i < result.len() - 1 {
                    assert(targets[i].id == result[i].id);
                }
            }
        }
    }
}

proof fn without_target_properties(targets: Seq<WatchedView>, id: i32)
    requires
        ids_rise(targets),
    ensures
        ids_rise(without_target(targets, id)),
        forall|i: int|
            0 <= i < without_target(targets, id).len() ==> id_used(
                targets,
                (#[trigger] without_target(targets, id)[i]).id,
            ),
    decreases targets.len(),
{
    if targets.len() > 0 {
        let init = targets.drop_last();
        let result = without_target(targets, id);
        let inner = without_target(init, id);
        assert forall|i: int, j: int| 0 <= i < j < init.len() implies (#[trigger] init[i]).id < (
        #[trigger] init[j]).id by {
            assert(targets[i].id < targets[j].id);
        }
        without_target_properties(init, id);
        assert forall|i: int| 0 <= i < result.len() implies id_used(
            targets,
            (#[trigger] result[i]).id,
        ) by {
            if i < inner.len() {
                assert(result[i] == inner[i]);
                let m = choose|m: int| 0 <= m < init.len() && (#[trigger] init[m]).id == inner[i].id;
                assert(targets[m].id == inner[i].id);
            } else {
                assert(targets[targets.len() - 1].id == result[i].id);
            }
        }
        assert forall|i: int, j: int| 0 <= i < j < result.len() implies (#[trigger] result[i]).id < (
        #[trigger] result[j]).id by {
            assert(result[i] == inner[i]);
            if j < inner.len() {
                assert(result[j] == inner[j]);
            } else {
                let m = choose|m: int| 0 <= m < init.len() && (#[trigger] init[m]).id == inner[i].id;
                assert(targets[m].id < targets[targets.len() - 1].id);
            }
        }
    }
}

proof fn with_target_split(targets: Seq<WatchedView>, added: WatchedView, pos: int)
    requires
        0 <= pos <= targets.len(),
        forall|k: int| pos <= k < targets.len() ==> (#[trigger] targets[k]).id > added.id,
    ensures
        with_target(targets, added) == with_target(targets.take(pos), added) + targets.skip(pos),
    decreases targets.len() - pos,
{
    if pos == targets.len() {
        assert(targets.take(pos) =~= targets);
        assert(with_target(targets, added) + targets.skip(pos) =~= with_target(targets, added));
    } else {
        with_target_split(targets, added, pos + 1);
        let head = targets.take(pos + 1);
        assert(head.last() == targets[pos]);
        assert(head.drop_last() =~= targets.take(pos));
        assert(with_target(head, added) + targets.skip(pos + 1) =~= with_target(
            targets.take(pos),
            added,
        ) + targets.skip(pos));
    }
}

/// Puts a target in its place.
fn insert_target(targets: &mut Vec<Watched>, watched: Watched)
    ensures
        watched_view(final(targets)@) == with_target(watched_view(old(targets)@), watched@),
{
    let ghost start = watched_view(targets@);
    let ghost added = watched@;
    let id = watched.target.target_id;
    let mut pos: usize = targets.len();
    while pos > 0 && targets[pos - 1].target.target_id > id
        invariant
            pos <= targets@.len(),
            start == watched_view(targets@),
            added.id == id,
            forall|k: int| pos <= k < start.len() ==> (#[trigger] start[k]).id > id,
        decreases pos,
    {
        assert(start[pos - 1].id == targets@[pos - 1].target.target_id);
        pos -= 1;
    }
    proof {
        with_target_split(start, added, pos as int);
        if pos > 0 {
            assert(start[pos - 1].id == targets@[pos - 1].target.target_id);
            assert(start.take(pos as int).last() == start[pos - 1]);
        }
    }
    if pos > 0 && targets[pos - 1].target.target_id == id {
        targets.set(pos - 1, watched);
        assert(watched_view(targets@) =~= start.take(pos as int).drop_last().push(added)
            + start.skip(pos as int));
    } else {
        targets.insert(pos, watched);
        assert(watched_view(targets@) =~= start.take(pos as int).push(added) + start.skip(
            pos as int,
        ));
    }
}

/// What a change of the documents means for one target.
#[verifier::opaque]
pub open spec fn told(
    watched: WatchedView,
    documents: DocumentsView,
    now: Timestamp,
) -> Result<(WatchedView, Seq<ListenView>), StatusView> {
    match target_docs_spec(documents, watched.target) {
        Err(e) => Err(e),
        Ok(docs) => Ok(
            (
                WatchedView { previous: by_name_spec(docs), ..watched },
                emission(watched.previous, by_name_spec(docs), watched.id, false, now),
            ),
        ),
    }
}

/// Tells what a change of the documents means for one target.
fn tell(
    documents: &OrderedMap<Document>,
    watched: &mut Watched,
    messages: &mut Vec<ListenResponse>,
    now: &Timestamp,
) -> (r: Option<Status>)
    ensures
        match told(old(watched)@, documents@, *now) {
            Err(e) => r is Some && r->0@ == e && final(watched)@ == old(watched)@
                && final(messages)@ == old(messages)@,
            Ok(pair) => r is None && final(watched)@ == pair.0 && listen_view(final(messages)@)
                == listen_view(old(messages)@) + pair.1,
        },
        final(watched)@.id == old(watched)@.id,
{
    reveal(told);
    let ghost before = listen_view(messages@);
    match emit_target(documents, &watched.target, &mut watched.previous, false, now) {
        Ok(more) => {
            let mut more = more;
            let ghost emitted = listen_view(more@);
            messages.append(&mut more);
            assert(listen_view(messages@) =~= before + emitted);
            None
        },
        Err(e) => Some(e),
    }
}

impl Listener {
    #[verifier::type_invariant]
    spec fn in_order(self) -> bool {
        ids_rise(watched_view(self.targets@))
    }

    pub fn new() -> (r: Listener)
        ensures
            r@ == Seq::<WatchedView>::empty(),
    {
        let r = Listener { targets: Vec::new() };
        assert(r@ =~= Seq::<WatchedView>::empty());
        r
    }

    /// How many targets there are.
    pub fn len(&self) -> (r: usize)
        ensures
            r == self@.len(),
    {
        self.targets.len()
    }

    /// The least positive number that no target has.
    pub fn free_id(&self) -> (r: i32)
        requires
            self@.len() < i32::MAX,
        ensures
            is_least_free(self@, r),
    {
        proof {
            use_type_invariant(self);
        }
        let ghost all = self@;
        let mut id: i32 = 1;
        let mut i: usize = 0;
        while i < self.targets.len() && self.targets[i].target.target_id <= id
            invariant
                i <= self.targets@.len(),
                all == watched_view(self.targets@),
                all.len() < i32::MAX,
                ids_rise(all),
                1 <= id <= i + 1,
                forall|k: i32| 1 <= k < id ==> #[trigger] id_used(all, k),
                forall|m: int| 0 <= m < i ==> (#[trigger] all[m]).id < id,
            decreases self.targets@.len() - i,
        {
            assert(all[i as int].id == self.targets@[i as int].target.target_id);
            if self.targets[i].target.target_id == id {
                assert(id_used(all, id));
                id = id + 1;
            }
            i += 1;
        }
        proof {
            if i < all.len() {
                assert(all[i as int].id > id);
            }
            assert forall|m: int| 0 <= m < all.len() implies (#[trigger] all[m]).id != id by {
                if m > i {
                    assert(all[i as int].id < all[m].id);
                }
            }
        }
        id
    }

    /// Adds a target. Returns the messages and the error that ends the stream,
    /// if there is one.
    pub fn add_target(
        &mut self,
        target: Target,
        documents: &OrderedMap<Document>,
        now: &Timestamp,
    ) -> (r: (Vec<ListenResponse>, Option<Status>))
        requires
            old(self)@.len() < i32::MAX,
        ensures
            exists|id: i32|
                #[trigger] is_target_id(old(self)@, target.target_id, id) && add_target_spec(
                    old(self)@,
                    id,
                    target.target_type@,
                    documents@,
                    *now,
                ) == (StepView {
                    targets: final(self)@,
                    messages: listen_view(r.0@),
                    error: opt_status(r.1),
                }),
    {
        let ghost start = self@;
        proof {
            use_type_invariant(&*self);
        }
        let ghost requested = target.target_id;
        let id: i32 = if target.target_id == 0 {
            self.free_id()
        } else {
            target.target_id
        };
        let ghost kind = target.target_type@;
        let target = Target { target_id: id, target_type: target.target_type };
        let mut messages: Vec<ListenResponse> = Vec::new();
        let mut ids: Vec<i32> = Vec::new();
        ids.push(id);
        assert(ids@ =~= seq![id]);
        let message = target_response(1, ids, false, now);
        messages.push(message);
        let ghost announced = seq![target_change(1, seq![id], None)];
        assert(listen_view(messages@) =~= announced);
        assert(is_target_id(start, requested, id));
        let mut previous: OrderedMap<Document> = OrderedMap::new();
        match emit_target(documents, &target, &mut previous, true, now) {
            Err(e) => (messages, Some(e)),
            Ok(more) => {
                let ghost emitted = listen_view(more@);
                let mut more = more;
                let ghost all_messages = messages@ + more@;
                messages.append(&mut more);
                assert(listen_view(messages@) =~= announced + emitted);
                let watched = Watched { target, previous };
                let ghost added = watched@;
                proof {
                    with_target_properties(start, added);
                }
                let mut targets: Vec<Watched> = Vec::new();
                std::mem::swap(&mut self.targets, &mut targets);
                insert_target(&mut targets, watched);
                self.targets = targets;
                (messages, None)
            },
        }
    }

    /// Removes a target.
    pub fn remove_target(&mut self, id: i32, now: &Timestamp) -> (r: ListenResponse)
        ensures
            final(self)@ == without_target(old(self)@, id),
            r@ == target_change(2, seq![id], None),
    {
        let ghost start = self@;
        proof {
            use_type_invariant(&*self);
            without_target_properties(start, id);
        }
        let mut targets: Vec<Watched> = Vec::new();
        std::mem::swap(&mut self.targets, &mut targets);
        let ghost all = targets@;
        let mut kept: Vec<Watched> = Vec::new();
        assert(start.take(0) =~= Seq::empty());
        assert(watched_view(kept@) =~= Seq::empty());
        for watched in it: targets
            invariant
                it.seq() == all,
                start == watched_view(all),
                watched_view(kept@) == without_target(start.take(it.index() as int), id),
        {
            let ghost i = it.index() as int;
            assert(start.take(i + 1).drop_last() =~= start.take(i));
            assert(start.take(i + 1).last() == watched@);
            let ghost before = watched_view(kept@);
            if watched.target.target_id != id {
                kept.push(watched);
                assert(watched_view(kept@) =~= before.push(watched@));
            }
        }
        assert(start.take(start.len() as int) =~= start);
        self.targets = kept;
        let mut ids: Vec<i32> = Vec::new();
        ids.push(id);
        assert(ids@ =~= seq![id]);
        target_response(2, ids, false, now)
    }

    /// Tells what a change of the documents means for each target. Returns the
    /// messages and the error that ends the stream, if there is one.
    pub fn changed(&mut self, documents: &OrderedMap<Document>, now: &Timestamp) -> (r: (
        Vec<ListenResponse>,
        Option<Status>,
    ))
        ensures
            changed_spec(old(self)@, documents@, *now, old(self)@.len()) == (StepView {
                targets: final(self)@,
                messages: listen_view(r.0@),
                error: opt_status(r.1),
            }),
    {
        let ghost start = self@;
        proof {
            use_type_invariant(&*self);
        }
        let mut rest: Vec<Watched> = Vec::new();
        std::mem::swap(&mut self.targets, &mut rest);
        let mut seen: Vec<Watched> = Vec::new();
        let mut messages: Vec<ListenResponse> = Vec::new();
        assert(listen_view(messages@) =~= Seq::empty());
        assert(watched_view(seen@) + start.skip(0) =~= start);
        assert(start.skip(0) =~= start);
        while rest.len() > 0
            invariant
                seen@.len() + rest@.len() == start.len(),
                watched_view(rest@) == start.skip(seen@.len() as int),
                ids_rise(start),
                start == old(self)@,
                self.targets@.len() == 0,
                forall|k: int|
                    0 <= k < seen@.len() ==> (#[trigger] watched_view(seen@)[k]).id == start[k].id,
                changed_spec(start, documents@, *now, seen@.len()) == (StepView {
                    targets: watched_view(seen@) + start.skip(seen@.len() as int),
                    messages: listen_view(messages@),
                    error: None,
                }),
            decreases rest@.len(),
        {
            let ghost i = seen@.len() as int;
            let ghost seen_before = watched_view(seen@);
            let ghost messages_before = listen_view(messages@);
            let ghost all_rest = watched_view(rest@);
            let mut watched = rest.remove(0);
            assert(watched_view(rest@) =~= all_rest.remove(0));
            assert(all_rest.remove(0) =~= start.skip(i + 1));
            let ghost old_watched = watched@;
            assert(old_watched == start[i]) by {
                assert(all_rest[0] == old_watched);
            }
            let outcome = tell(documents, &mut watched, &mut messages, now);
            let ghost now_watched = watched@;
            seen.push(watched);
            assert(watched_view(seen@) =~= seen_before.push(now_watched));
            match outcome {
                None => {
                    assert(watched_view(seen@) + start.skip(i + 1) =~= (seen_before + start.skip(
                        i,
                    )).update(i, now_watched));
                },
                Some(e) => {
                    seen.append(&mut rest);
                    assert(watched_view(seen@) =~= seen_before + start.skip(i));
                    proof {
                        changed_stays(start, documents@, *now, (i + 1) as nat, start.len());
                        assert forall|p: int, q: int| 0 <= p < q < watched_view(seen@).len() implies (
                        #[trigger] watched_view(seen@)[p]).id < (#[trigger] watched_view(
                            seen@,
                        )[q]).id by {
                            assert(start[p].id < start[q].id);
                            if p < i {
                                assert(watched_view(seen@)[p] == seen_before[p]);
                            }
                            if q < i {
                                assert(watched_view(seen@)[q] == seen_before[q]);
                            }
                        }
                    }
                    self.targets = seen;
                    return (messages, Some(e));
                },
            }
        }
        assert(watched_view(seen@) + start.skip(start.len() as int) =~= watched_view(seen@));
        proof {
            assert forall|i: int, j: int| 0 <= i < j < watched_view(seen@).len() implies (
            #[trigger] watched_view(seen@)[i]).id < (#[trigger] watched_view(seen@)[j]).id by {
                assert(start[i].id < start[j].id);
            }
        }
        self.targets = seen;
        (messages, None)
    }
}

proof fn changed_stays(
    targets: Seq<WatchedView>,
    documents: DocumentsView,
    now: Timestamp,
    n: nat,
    m: nat,
)
    requires
        n <= m <= targets.len(),
        changed_spec(targets, documents, now, n).error is Some,
    ensures
        changed_spec(targets, documents, now, m) == changed_spec(targets, documents, now, n),
    decreases m,
{
    if n < m {
        changed_stays(targets, documents, now, n, (m - 1) as nat);
    }
}

} // verus!
