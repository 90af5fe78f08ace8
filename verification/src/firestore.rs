//! The Firestore store: documents, transactions and the requests on them.
use crate::changes::{
    copy_document, document_events, document_outbox_record, document_outbox_records, opt_owned,
    changes_view, change_events, ChangeView, DocumentChange,
};
use crate::document::{Document, DocumentView};
use crate::names::{
    database_document_prefix, database_document_prefix_spec, database_from_resource,
    database_from_resource_spec, document_prefix, validate_document_name,
    validate_document_name_spec,
};
use crate::ordered::{keys_sorted, lookup, put, without, Duplicate, OrderedMap};
use crate::query::{docs_result, docs_view, query_docs, query_docs_spec, StructuredQuery};
use crate::status::{invalid, result_view, status_view, unit_result, Code, Status, StatusView};
use crate::text::{
    cat, is_blank, padded, padded_spec, same, starts_with, texts, trim_end, trim_end_spec,
};
use crate::value::{bytes_equal, copy_bytes, Timestamp};
use crate::writes::{
    apply_batch, apply_write, apply_write_spec, apply_writes, apply_writes_spec, batch_spec,
    check_precondition, check_precondition_spec, results_view, statuses_view, writes_view,
    DocumentsView, Operation, OperationView, Precondition, RpcStatus, Write, WriteResult,
    WriteResultView, WriteView,
};
use vstd::prelude::*;

verus! {

/// Draws the bytes of `uuid::Uuid::new_v4`: sixteen, chosen at random.
#[verifier::external_body]
fn random_token() -> (r: Vec<u8>)
    ensures
        r@.len() == 16,
{
    uuid::Uuid::new_v4().as_bytes().to_vec()
}

/// The open transactions: the database of each token.
pub struct Transactions {
    entries: Vec<(Vec<u8>, String)>,
}

spec fn entries_map(entries: Seq<(Vec<u8>, String)>) -> Map<Seq<u8>, Seq<char>>
    decreases entries.len(),
{
    if entries.len() == 0 {
        Map::empty()
    } else {
        entries_map(entries.drop_last()).insert(entries.last().0@, entries.last().1@)
    }
}

impl View for Transactions {
    type V = Map<Seq<u8>, Seq<char>>;

    closed spec fn view(&self) -> Map<Seq<u8>, Seq<char>> {
        entries_map(self.entries@)
    }
}

/// The transactions of other databases than `database`.
pub open spec fn outside_database(
    transactions: Map<Seq<u8>, Seq<char>>,
    database: Seq<char>,
) -> Map<Seq<u8>, Seq<char>> {
    Map::new(
        |token: Seq<u8>| transactions.dom().contains(token) && transactions[token] != database,
        |token: Seq<u8>| transactions[token],
    )
}

impl Transactions {
    pub fn new() -> (r: Transactions)
        ensures
            r@ == Map::<Seq<u8>, Seq<char>>::empty(),
    {
        Transactions { entries: Vec::new() }
    }

    /// The database of an open transaction.
    pub fn get(&self, token: &Vec<u8>) -> (r: Option<&str>)
        ensures
            match r {
                Some(database) => self@.dom().contains(token@) && self@[token@] == database@,
                None => !self@.dom().contains(token@),
            },
    {
        let mut i: usize = self.entries.len();
        assert(self.entries@.take(i as int) =~= self.entries@);
        while i > 0
            invariant
                i <= self.entries@.len(),
                self@.dom().contains(token@) == entries_map(
                    self.entries@.take(i as int),
                ).dom().contains(token@),
                self@.dom().contains(token@) ==> self@[token@] == entries_map(
                    self.entries@.take(i as int),
                )[token@],
            decreases i,
        {
            assert(self.entries@.take(i as int).drop_last() =~= self.entries@.take(i - 1));
            if bytes_equal(&self.entries[i - 1].0, token) {
                return Some(self.entries[i - 1].1.as_str());
            }
            i -= 1;
        }
        None
    }

    /// Opens a transaction.
    pub fn insert(&mut self, token: Vec<u8>, database: &str)
        ensures
            final(self)@ == old(self)@.insert(token@, database@),
    {
        let ghost before = self.entries@;
        self.entries.push((token, database.to_owned()));
        assert(self.entries@.drop_last() =~= before);
    }

    /// Ends a transaction.
    pub fn remove(&mut self, token: &Vec<u8>)
        ensures
            final(self)@ == old(self)@.remove(token@),
    {
        let mut kept: Vec<(Vec<u8>, String)> = Vec::new();
        let mut i: usize = 0;
        let ghost all = self.entries@;
        assert(entries_map(kept@) =~= entries_map(all.take(0)).remove(token@));
        while i < self.entries.len()
            invariant
                i <= self.entries@.len(),
                all == self.entries@,
                entries_map(kept@) =~= entries_map(all.take(i as int)).remove(token@),
            decreases self.entries@.len() - i,
        {
            assert(all.take(i + 1).drop_last() =~= all.take(i as int));
            if !bytes_equal(&self.entries[i].0, token) {
                let ghost before = kept@;
                let entry = (copy_bytes(&self.entries[i].0), self.entries[i].1.clone());
                kept.push(entry);
                assert(kept@.drop_last() =~= before);
            }
            i += 1;
        }
        assert(all.take(i as int) =~= all);
        self.entries = kept;
    }

    /// Ends every transaction of a database.
    pub fn remove_database(&mut self, database: &str)
        ensures
            final(self)@ == outside_database(old(self)@, database@),
    {
        let mut kept: Vec<(Vec<u8>, String)> = Vec::new();
        let mut i: usize = 0;
        let ghost all = self.entries@;
        assert(entries_map(kept@) =~= outside_database(entries_map(all.take(0)), database@));
        while i < self.entries.len()
            invariant
                i <= self.entries@.len(),
                all == self.entries@,
                entries_map(kept@) =~= outside_database(
                    entries_map(all.take(i as int)),
                    database@,
                ),
            decreases self.entries@.len() - i,
        {
            assert(all.take(i + 1).drop_last() =~= all.take(i as int));
            let ghost before = kept@;
            let ghost token = all[i as int].0@;
            if same(self.entries[i].1.as_str(), database) {
                let mut rest = Transactions { entries: kept };
                rest.remove(&self.entries[i].0);
                kept = rest.entries;
            } else {
                let entry = (copy_bytes(&self.entries[i].0), self.entries[i].1.clone());
                kept.push(entry);
                assert(kept@.drop_last() =~= before);
            }
            assert(entries_map(all.take(i + 1)) =~= entries_map(all.take(i as int)).insert(
                token,
                all[i as int].1@,
            ));
            i += 1;
        }
        assert(all.take(i as int) =~= all);
        self.entries = kept;
    }
}

/// The documents, the open transactions and the number of the last automatic
/// document id.
pub struct Store {
    pub documents: OrderedMap<Document>,
    pub transactions: Transactions,
    pub next_id: u64,
}

/// What a [`Store`] stands for.
#[verifier::ext_equal]
pub struct StoreView {
    pub documents: DocumentsView,
    pub transactions: Map<Seq<u8>, Seq<char>>,
    pub next_id: nat,
}

impl View for Store {
    type V = StoreView;

    open spec fn view(&self) -> StoreView {
        StoreView {
            documents: self.documents@,
            transactions: self.transactions@,
            next_id: self.next_id as nat,
        }
    }
}

pub open spec fn validate_transaction_spec(
    transactions: Map<Seq<u8>, Seq<char>>,
    database: Seq<char>,
    token: Seq<u8>,
) -> Result<(), StatusView> {
    if !transactions.dom().contains(token) {
        Err(invalid("transaction is not active"@))
    } else if transactions[token] != database {
        Err(invalid("transaction does not belong to the requested database"@))
    } else {
        Ok(())
    }
}

/// Refuses a token that is not an open transaction of `database`.
pub fn validate_transaction(transactions: &Transactions, database: &str, token: &Vec<u8>) -> (r:
    Result<(), Status>)
    ensures
        unit_result(r) == validate_transaction_spec(transactions@, database@, token@),
{
    match transactions.get(token) {
        Some(found) => if same(found, database) {
            Ok(())
        } else {
            Err(
                Status::invalid_argument("transaction does not belong to the requested database"),
            )
        },
        None => Err(Status::invalid_argument("transaction is not active")),
    }
}

/// Opens a transaction with a fresh random token of sixteen bytes.
pub fn create_transaction(transactions: &mut Transactions, database: &str) -> (r: Vec<u8>)
    ensures
        r@.len() == 16,
        final(transactions)@ == old(transactions)@.insert(r@, database@),
{
    let token = random_token();
    let copy = copy_bytes(&token);
    transactions.insert(copy, database);
    token
}

/// The last part of a new document's name: the one asked for, or the next
/// automatic one.
pub open spec fn document_id_spec(requested: Seq<char>, counter: nat) -> Seq<char> {
    if requested.len() == 0 {
        "auto-"@ + padded_spec(counter, 20)
    } else {
        requested
    }
}

/// The name of a document in a collection below `parent`.
pub open spec fn child_name_spec(
    parent: Seq<char>,
    collection_id: Seq<char>,
    document_id: Seq<char>,
) -> Seq<char> {
    trim_end_spec(parent, '/') + "/"@ + collection_id + "/"@ + document_id
}

/// The last part of a new document's name.
pub fn document_id(requested: &str, counter: u64) -> (r: String)
    ensures
        r@ == document_id_spec(requested@, counter as nat),
{
    if is_blank(requested) {
        cat("auto-", padded(counter, 20).as_str())
    } else {
        requested.to_owned()
    }
}

/// The name of a document in a collection below `parent`.
pub fn child_name(parent: &str, collection_id: &str, document_id: &str) -> (r: String)
    ensures
        r@ == child_name_spec(parent@, collection_id@, document_id@),
{
    let mut name = trim_end(parent, '/');
    name.append("/");
    name.append(collection_id);
    name.append("/");
    name.append(document_id);
    name
}

/// A request for a new document.
#[derive(PartialEq, Debug)]
pub struct CreateDocumentRequest {
    pub parent: String,
    pub collection_id: String,
    pub document_id: String,
    pub document: Option<Document>,
}

/// What a [`CreateDocumentRequest`] stands for.
pub struct CreateView {
    pub parent: Seq<char>,
    pub collection_id: Seq<char>,
    pub document_id: Seq<char>,
    pub document: Option<DocumentView>,
}

impl View for CreateDocumentRequest {
    type V = CreateView;

    open spec fn view(&self) -> CreateView {
        CreateView {
            parent: self.parent@,
            collection_id: self.collection_id@,
            document_id: self.document_id@,
            document: opt_owned(self.document),
        }
    }
}

/// What is wrong with a request for a new document before any name is made.
pub open spec fn create_refused(request: CreateView) -> Option<StatusView> {
    if request.document is None {
        Some(invalid("document is required"@))
    } else if request.parent.len() == 0 || request.collection_id.len() == 0 {
        Some(invalid("parent and collection_id are required"@))
    } else {
        None
    }
}

/// A new document under its name.
pub open spec fn created_document(
    document: DocumentView,
    name: Seq<char>,
    now: Timestamp,
) -> DocumentView {
    DocumentView {
        name,
        fields: document.fields,
        create_time: Some(now),
        update_time: Some(now),
    }
}

/// The document that a request creates, given the next automatic number and
/// whether its name is taken.
pub open spec fn create_outcome(
    documents: DocumentsView,
    request: CreateView,
    counter: nat,
    now: Timestamp,
) -> Result<DocumentView, StatusView> {
    let name = child_name_spec(
        request.parent,
        request.collection_id,
        document_id_spec(request.document_id, counter),
    );
    match validate_document_name_spec(name) {
        Err(e) => Err(e),
        Ok(_) => if lookup(documents, name) is Some {
            Err(status_view(Code::AlreadyExists, "document already exists: "@ + name))
        } else {
            Ok(created_document(request.document->0, name, now))
        },
    }
}

/// The store after a request for a new document, and what it answers. A number
/// that was drawn for an automatic id is used up even when the name is refused.
pub open spec fn create_document_spec(
    store: StoreView,
    request: CreateView,
    now: Timestamp,
) -> (StoreView, Result<DocumentView, StatusView>) {
    match create_refused(request) {
        Some(e) => (store, Err(e)),
        None => {
            let counter = if request.document_id.len() == 0 {
                store.next_id + 1
            } else {
                store.next_id
            };
            let counted = StoreView { next_id: counter, ..store };
            match create_outcome(store.documents, request, counter, now) {
                Err(e) => (counted, Err(e)),
                Ok(document) => (
                    StoreView {
                        documents: put(store.documents, document.name, document),
                        ..counted
                    },
                    Ok(document),
                ),
            }
        },
    }
}

/// Makes a new document from a request, given the number for an automatic id
/// and the documents that may hold its name already.
pub fn new_document(
    documents: &OrderedMap<Document>,
    request: CreateDocumentRequest,
    counter: u64,
    now: &Timestamp,
) -> (r: Result<Document, Status>)
    requires
        create_refused(request@) is None,
    ensures
        result_view(r) == create_outcome(documents@, request@, counter as nat, *now),
{
    let id = document_id(request.document_id.as_str(), counter);
    let name = child_name(request.parent.as_str(), request.collection_id.as_str(), id.as_str());
    match validate_document_name(name.as_str()) {
        Ok(()) => {},
        Err(e) => {
            return Err(e);
        },
    }
    if documents.contains(name.as_str()) {
        return Err(
            Status::new(
                Code::AlreadyExists,
                cat("document already exists: ", name.as_str()).as_str(),
            ),
        );
    }
    match request.document {
        Some(document) => Ok(
            Document {
                name,
                fields: document.fields,
                create_time: Some(*now),
                update_time: Some(*now),
            },
        ),
        None => Err(Status::invalid_argument("document is required")),
    }
}

/// Refuses a request for a new document that lacks a part.
pub fn check_create(request: &CreateDocumentRequest) -> (r: Result<(), Status>)
    ensures
        match r {
            Ok(_) => create_refused(request@) is None,
            Err(e) => create_refused(request@) == Some(e@),
        },
{
    if request.document.is_none() {
        return Err(Status::invalid_argument("document is required"));
    }
    if is_blank(request.parent.as_str()) || is_blank(request.collection_id.as_str()) {
        return Err(Status::invalid_argument("parent and collection_id are required"));
    }
    Ok(())
}

impl Store {
    pub fn new() -> (r: Store)
        ensures
            r@ == (StoreView {
                documents: Seq::empty(),
                transactions: Map::empty(),
                next_id: 0,
            }),
    {
        Store { documents: OrderedMap::new(), transactions: Transactions::new(), next_id: 0 }
    }

    /// Reads a document.
    pub fn get_document(&self, name: &str) -> (r: Result<Document, Status>)
        ensures
            result_view(r) == match validate_document_name_spec(name@) {
                Err(e) => Err(e),
                Ok(_) => match lookup(self@.documents, name@) {
                    Some(document) => Ok(document),
                    None => Err(status_view(Code::NotFound, "document not found: "@ + name@)),
                },
            },
    {
        match validate_document_name(name) {
            Ok(()) => {},
            Err(e) => {
                return Err(e);
            },
        }
        match self.documents.get(name) {
            Some(document) => Ok(document.duplicate()),
            None => Err(Status::new(Code::NotFound, cat("document not found: ", name).as_str())),
        }
    }

    /// Creates a document.
    pub fn create_document(&mut self, request: CreateDocumentRequest, now: &Timestamp) -> (r:
        Result<Document, Status>)
        requires
            old(self).next_id < u64::MAX,
        ensures
            create_document_spec(old(self)@, request@, *now) == (final(self)@, result_view(r)),
    {
        match check_create(&request) {
            Ok(()) => {},
            Err(e) => {
                return Err(e);
            },
        }
        if is_blank(request.document_id.as_str()) {
            self.next_id = self.next_id + 1;
        }
        match new_document(&self.documents, request, self.next_id, now) {
            Ok(document) => {
                let copy = document.duplicate();
                let name = document.name.clone();
                self.documents.insert(name.as_str(), copy);
                Ok(document)
            },
            Err(e) => Err(e),
        }
    }

    /// Replaces a document or, with a mask, parts of it, and returns it with
    /// the event that the change is worth.
    pub fn update_document(
        &mut self,
        document: Option<Document>,
        update_mask: Option<Vec<String>>,
        current_document: Precondition,
        now: &Timestamp,
    ) -> (r: Result<(Document, Option<DocumentChange>), Status>)
        ensures
            final(self)@.transactions == old(self)@.transactions,
            final(self)@.next_id == old(self)@.next_id,
            match document {
                None => r is Err && r->Err_0@ == invalid("document is required"@)
                    && final(self)@ == old(self)@,
                Some(doc) => {
                    let write = WriteView {
                        operation: OperationView::Update(doc@),
                        update_mask: match update_mask {
                            Some(paths) => Some(texts(paths@)),
                            None => None,
                        },
                        current_document,
                        update_transforms: Seq::empty(),
                    };
                    match apply_write_spec(old(self)@.documents, write, *now) {
                        Err(e) => r is Err && r->Err_0@ == e && final(self)@ == old(self)@,
                        Ok(after) => {
                            &&& final(self)@.documents == after.0
                            &&& r is Ok
                            &&& Some(r->Ok_0.0@) == lookup(after.0, doc@.name)
                            &&& change_events(
                                lookup(old(self)@.documents, doc@.name),
                                lookup(after.0, doc@.name),
                            ) == match r->Ok_0.1 {
                                Some(change) => seq![change@],
                                None => Seq::empty(),
                            }
                        },
                    }
                },
            },
    {
        let document = match document {
            Some(document) => document,
            None => {
                return Err(Status::invalid_argument("document is required"));
            },
        };
        let name = document.name.clone();
        let before = copy_document(self.documents.get(name.as_str()));
        let ghost documents_before = self.documents@;
        let write = Write {
            operation: Operation::Update(document),
            update_mask,
            current_document,
            update_transforms: Vec::new(),
        };
        assert(write@.update_transforms =~= Seq::empty());
        let ghost view = write@;
        match apply_write(&mut self.documents, write, now) {
            Err(e) => Err(e),
            Ok(_) => {
                proof {
                    crate::writes::write_reads_back(documents_before, view, *now);
                }
                match self.documents.get(name.as_str()) {
                    Some(after) => {
                        let before_ref = match &before {
                            Some(d) => Some(d),
                            None => None,
                        };
                        let change = document_outbox_record(before_ref, Some(after));
                        Ok((after.duplicate(), change))
                    },
                    None => Err(Status::new(Code::Internal, "updated document disappeared")),
                }
            },
        }
    }

    /// Removes a document and returns the event that the change is worth.
    pub fn delete_document(&mut self, name: &str, current_document: Precondition) -> (r: Result<
        Option<DocumentChange>,
        Status,
    >)
        ensures
            match validate_document_name_spec(name@) {
                Err(e) => r is Err && r->Err_0@ == e && final(self)@ == old(self)@,
                Ok(_) => match check_precondition_spec(
                    lookup(old(self)@.documents, name@),
                    current_document,
                ) {
                    Err(e) => r is Err && r->Err_0@ == e && final(self)@ == old(self)@,
                    Ok(_) => {
                        &&& final(self)@ == (StoreView {
                            documents: without(old(self)@.documents, name@),
                            ..old(self)@
                        })
                        &&& r is Ok
                        &&& change_events(lookup(old(self)@.documents, name@), None)
                            == match r->Ok_0 {
                            Some(change) => seq![change@],
                            None => Seq::empty(),
                        }
                    },
                },
            },
    {
        match validate_document_name(name) {
            Ok(()) => {},
            Err(e) => {
                return Err(e);
            },
        }
        match check_precondition(self.documents.get(name), current_document) {
            Ok(()) => {},
            Err(e) => {
                return Err(e);
            },
        }
        let before = self.documents.remove(name);
        let before_ref = match &before {
            Some(d) => Some(d),
            None => None,
        };
        Ok(document_outbox_record(before_ref, None))
    }
}

/// A request to write several documents at once.
#[derive(PartialEq, Debug)]
pub struct CommitRequest {
    pub database: String,
    pub writes: Vec<Write>,
    pub transaction: Vec<u8>,
}

/// The store after a commit, what each write answers and the events that the
/// changes are worth; or why nothing changed.
pub open spec fn commit_spec(
    store: StoreView,
    database: Seq<char>,
    writes: Seq<WriteView>,
    transaction: Seq<u8>,
    now: Timestamp,
) -> Result<(StoreView, Seq<WriteResultView>, Seq<ChangeView>), StatusView> {
    match if transaction.len() == 0 {
        Ok(())
    } else {
        validate_transaction_spec(store.transactions, database, transaction)
    } {
        Err(e) => Err(e),
        Ok(_) => match apply_writes_spec(store.documents, writes, now) {
            Err(e) => Err(e),
            Ok(after) => Ok(
                (
                    StoreView {
                        documents: after.0,
                        transactions: if transaction.len() == 0 {
                            store.transactions
                        } else {
                            store.transactions.remove(transaction)
                        },
                        next_id: store.next_id,
                    },
                    after.1,
                    document_events(store.documents, after.0),
                ),
            ),
        },
    }
}

/// Which documents of a transaction a read sees.
#[derive(PartialEq, Eq, Debug)]
pub enum ConsistencySelector {
    Unset,
    Transaction(Vec<u8>),
    NewTransaction,
}

impl Store {
    /// Opens a transaction on a database.
    pub fn begin_transaction(&mut self, database: &str) -> (r: Result<Vec<u8>, Status>)
        ensures
            final(self)@.documents == old(self)@.documents,
            final(self)@.next_id == old(self)@.next_id,
            match database_document_prefix_spec(database@) {
                Err(e) => r is Err && r->Err_0@ == e && final(self)@ == old(self)@,
                Ok(_) => r is Ok && r->Ok_0@.len() == 16 && final(self)@.transactions == old(
                    self,
                )@.transactions.insert(r->Ok_0@, database@),
            },
    {
        match database_document_prefix(database) {
            Ok(_) => Ok(create_transaction(&mut self.transactions, database)),
            Err(e) => Err(e),
        }
    }

    /// Applies all writes or none, and ends the transaction that they belong
    /// to. Returns what each write answers and the events that the changes are
    /// worth.
    pub fn commit(&mut self, request: CommitRequest, now: &Timestamp) -> (r: Result<
        (Vec<WriteResult>, Vec<DocumentChange>),
        Status,
    >)
        ensures
            match commit_spec(
                old(self)@,
                request.database@,
                writes_view(request.writes@),
                request.transaction@,
                *now,
            ) {
                Err(e) => r is Err && r->Err_0@ == e && final(self)@ == old(self)@,
                Ok(after) => r is Ok && final(self)@ == after.0 && results_view(r->Ok_0.0@)
                    == after.1 && changes_view(r->Ok_0.1@) == after.2,
            },
    {
        if request.transaction.len() != 0 {
            match validate_transaction(
                &self.transactions,
                request.database.as_str(),
                &request.transaction,
            ) {
                Ok(()) => {},
                Err(e) => {
                    return Err(e);
                },
            }
        }
        match apply_writes(&self.documents, request.writes, now) {
            Err(e) => Err(e),
            Ok((pending, results)) => {
                let changes = document_outbox_records(&self.documents, &pending);
                self.documents = pending;
                if request.transaction.len() != 0 {
                    self.transactions.remove(&request.transaction);
                }
                Ok((results, changes))
            },
        }
    }

    /// Ends a transaction.
    pub fn rollback(&mut self, database: &str, transaction: &Vec<u8>) -> (r: Result<(), Status>)
        ensures
            unit_result(r) == validate_transaction_spec(
                old(self)@.transactions,
                database@,
                transaction@,
            ),
            final(self)@ == if r is Ok {
                StoreView {
                    transactions: old(self)@.transactions.remove(transaction@),
                    ..old(self)@
                }
            } else {
                old(self)@
            },
    {
        match validate_transaction(&self.transactions, database, transaction) {
            Ok(()) => {
                self.transactions.remove(transaction);
                Ok(())
            },
            Err(e) => Err(e),
        }
    }

    /// Applies each write on its own. Returns what each answers and the events
    /// that the changes are worth.
    pub fn batch_write(&mut self, writes: Vec<Write>, now: &Timestamp) -> (r: (
        Vec<WriteResult>,
        Vec<RpcStatus>,
        Vec<DocumentChange>,
    ))
        ensures
            ({
                let after = batch_spec(old(self)@.documents, writes_view(writes@), *now);
                &&& final(self)@ == (StoreView { documents: after.documents, ..old(self)@ })
                &&& results_view(r.0@) == after.results
                &&& statuses_view(r.1@) == after.statuses
                &&& changes_view(r.2@) == document_events(old(self)@.documents, after.documents)
            }),
    {
        let before = self.documents.duplicate();
        let (results, statuses) = apply_batch(&mut self.documents, writes, now);
        let changes = document_outbox_records(&before, &self.documents);
        (results, statuses, changes)
    }
}

/// What is left after clearing a database: the documents whose names do not
/// begin with its prefix.
pub open spec fn outside_prefix(documents: DocumentsView, prefix: Seq<char>) -> DocumentsView
    decreases documents.len(),
{
    if documents.len() == 0 {
        Seq::empty()
    } else if prefix.is_prefix_of(documents.last().0) {
        outside_prefix(documents.drop_last(), prefix)
    } else {
        outside_prefix(documents.drop_last(), prefix).push(documents.last())
    }
}

/// The documents whose names begin with a prefix.
pub open spec fn inside_prefix(documents: DocumentsView, prefix: Seq<char>) -> Seq<DocumentView>
    decreases documents.len(),
{
    if documents.len() == 0 {
        Seq::empty()
    } else if prefix.is_prefix_of(documents.last().0) {
        inside_prefix(documents.drop_last(), prefix).push(documents.last().1)
    } else {
        inside_prefix(documents.drop_last(), prefix)
    }
}

proof fn outside_prefix_members(documents: DocumentsView, prefix: Seq<char>, i: int)
    requires
        0 <= i < outside_prefix(documents, prefix).len(),
    ensures
        exists|k: int|
            0 <= k < documents.len() && outside_prefix(documents, prefix)[i] == #[trigger] documents[k],
        !prefix.is_prefix_of(outside_prefix(documents, prefix)[i].0),
    decreases documents.len(),
{
    let init = documents.drop_last();
    let kept = outside_prefix(init, prefix);
    if i < kept.len() {
        outside_prefix_members(init, prefix, i);
        let k = choose|k: int| 0 <= k < init.len() && kept[i] == #[trigger] init[k];
        assert(documents[k] == init[k]);
        assert(outside_prefix(documents, prefix)[i] == kept[i]);
    } else {
        assert(documents[documents.len() - 1] == outside_prefix(documents, prefix)[i]);
    }
}

proof fn outside_prefix_sorted(documents: DocumentsView, prefix: Seq<char>)
    requires
        keys_sorted(documents),
    ensures
        keys_sorted(outside_prefix(documents, prefix)),
    decreases documents.len(),
{
    if documents.len() > 0 {
        let init = documents.drop_last();
        assert(keys_sorted(init)) by {
            assert forall|i: int, j: int| 0 <= i < j < init.len() implies crate::text::text_less(
                #[trigger] init[i].0,
                #[trigger] init[j].0,
            ) by {
                assert(init[i] == documents[i] && init[j] == documents[j]);
            }
        }
        outside_prefix_sorted(init, prefix);
        let kept = outside_prefix(init, prefix);
        let all = outside_prefix(documents, prefix);
        assert forall|i: int, j: int| 0 <= i < j < all.len() implies crate::text::text_less(
            #[trigger] all[i].0,
            #[trigger] all[j].0,
        ) by {
            assert(all[i] == kept[i]);
            if j < kept.len() {
                assert(all[j] == kept[j]);
            } else {
                outside_prefix_members(init, prefix, i);
                let k = choose|k: int| 0 <= k < init.len() && kept[i] == #[trigger] init[k];
                assert(init[k] == documents[k]);
                assert(all[j] == documents[documents.len() - 1]);
            }
        }
    }
}

proof fn outside_prefix_keeps(documents: DocumentsView, prefix: Seq<char>, k: int)
    requires
        0 <= k < documents.len(),
        !prefix.is_prefix_of(documents[k].0),
    ensures
        exists|i: int|
            0 <= i < outside_prefix(documents, prefix).len() && #[trigger] outside_prefix(
                documents,
                prefix,
            )[i] == documents[k],
    decreases documents.len(),
{
    let init = documents.drop_last();
    let all = outside_prefix(documents, prefix);
    if k < init.len() {
        outside_prefix_keeps(init, prefix, k);
        let i = choose|i: int|
            0 <= i < outside_prefix(init, prefix).len() && #[trigger] outside_prefix(
                init,
                prefix,
            )[i] == init[k];
        assert(all[i] == documents[k]);
    } else {
        assert(all[all.len() - 1] == documents[k]);
    }
}

/// Clearing a database removes exactly the documents whose names begin with
/// its prefix.
pub proof fn clear_is_scoped(documents: DocumentsView, database: Seq<char>, name: Seq<char>)
    requires
        keys_sorted(documents),
    ensures
        lookup(outside_prefix(documents, document_prefix(database)), name) == if document_prefix(
            database,
        ).is_prefix_of(name) {
            None
        } else {
            lookup(documents, name)
        },
{
    let prefix = document_prefix(database);
    let left = outside_prefix(documents, prefix);
    outside_prefix_sorted(documents, prefix);
    crate::ordered::lookup_found(left, name);
    crate::ordered::lookup_found(documents, name);
    if lookup(left, name) is Some {
        let i = choose|i: int|
            0 <= i < left.len() && #[trigger] left[i] == (name, lookup(left, name)->0);
        outside_prefix_members(documents, prefix, i);
        let k = choose|k: int| 0 <= k < documents.len() && left[i] == #[trigger] documents[k];
        crate::ordered::lookup_at(documents, k);
    } else if !prefix.is_prefix_of(name) && lookup(documents, name) is Some {
        let k = choose|k: int|
            0 <= k < documents.len() && #[trigger] documents[k] == (
                name,
                lookup(documents, name)->0,
            );
        outside_prefix_keeps(documents, prefix, k);
        let i = choose|i: int| 0 <= i < left.len() && #[trigger] left[i] == documents[k];
        crate::ordered::lookup_at(left, i);
    }
}

/// A commit that fails changes neither a document nor a transaction.
pub proof fn failed_commit_changes_nothing(
    store: StoreView,
    database: Seq<char>,
    writes: Seq<WriteView>,
    transaction: Seq<u8>,
    now: Timestamp,
    i: int,
)
    requires
        0 <= i < writes.len(),
        apply_writes_spec(store.documents, writes.take(i), now) is Ok,
        apply_write_spec(
            apply_writes_spec(store.documents, writes.take(i), now)->Ok_0.0,
            writes[i],
            now,
        ) is Err,
    ensures
        commit_spec(store, database, writes, transaction, now) is Err,
{
    apply_writes_fail(store.documents, writes, now, i + 1);
    assert(writes.take(i + 1).drop_last() =~= writes.take(i));
}

proof fn apply_writes_fail(
    documents: DocumentsView,
    writes: Seq<WriteView>,
    now: Timestamp,
    i: int,
)
    requires
        0 < i <= writes.len(),
        apply_writes_spec(documents, writes.take(i - 1), now) is Ok,
        apply_write_spec(
            apply_writes_spec(documents, writes.take(i - 1), now)->Ok_0.0,
            writes[i - 1],
            now,
        ) is Err,
    ensures
        apply_writes_spec(documents, writes, now) is Err,
    decreases writes.len() - i,
{
    assert(writes.take(i).drop_last() =~= writes.take(i - 1));
    assert(apply_writes_spec(documents, writes.take(i), now) is Err);
    still_failing(documents, writes, now, i);
}

proof fn still_failing(documents: DocumentsView, writes: Seq<WriteView>, now: Timestamp, i: int)
    requires
        0 <= i <= writes.len(),
        apply_writes_spec(documents, writes.take(i), now) is Err,
    ensures
        apply_writes_spec(documents, writes, now) is Err,
    decreases writes.len() - i,
{
    if i < writes.len() {
        assert(writes.take(i + 1).drop_last() =~= writes.take(i));
        still_failing(documents, writes, now, i + 1);
    } else {
        assert(writes.take(i) =~= writes);
    }
}

/// A committed or rolled back transaction is no longer active.
pub proof fn transaction_is_consumed(
    transactions: Map<Seq<u8>, Seq<char>>,
    database: Seq<char>,
    token: Seq<u8>,
)
    ensures
        validate_transaction_spec(transactions.remove(token), database, token) == Err::<
            (),
            StatusView,
        >(invalid("transaction is not active"@)),
        validate_transaction_spec(transactions.insert(token, database), database, token) == Ok::<
            (),
            StatusView,
        >(()),
{
}

impl Store {
    /// Removes the documents and ends the transactions of a database.
    pub fn clear_database(&mut self, database: &str) -> (r: Result<(), Status>)
        ensures
            match database_document_prefix_spec(database@) {
                Err(e) => r is Err && r->Err_0@ == e && final(self)@ == old(self)@,
                Ok(prefix) => r is Ok && final(self)@ == (StoreView {
                    documents: outside_prefix(old(self)@.documents, prefix),
                    transactions: outside_database(old(self)@.transactions, database@),
                    next_id: old(self)@.next_id,
                }),
            },
    {
        let prefix = match database_document_prefix(database) {
            Ok(prefix) => prefix,
            Err(e) => {
                return Err(e);
            },
        };
        let mut kept: OrderedMap<Document> = OrderedMap::new();
        let mut i: usize = 0;
        let ghost all = self.documents@;
        assert(all.take(0) =~= Seq::empty());
        while i < self.documents.len()
            invariant
                i <= all.len(),
                all == self.documents@,
                kept@ == outside_prefix(all.take(i as int), prefix@),
            decreases all.len() - i,
        {
            assert(all.take(i + 1).drop_last() =~= all.take(i as int));
            assert(all.take(i + 1).last() == all[i as int]);
            let name = self.documents.key_at(i);
            if !starts_with(name, prefix.as_str()) {
                let ghost before = kept@;
                let doc = self.documents.value_at(i).duplicate();
                proof {
                    assert forall|k: int| 0 <= k < before.len() implies crate::text::text_less(
                        #[trigger] before[k].0,
                        name@,
                    ) by {
                        outside_prefix_members(all.take(i as int), prefix@, k);
                        let m = choose|m: int|
                            0 <= m < i && before[k] == #[trigger] all.take(i as int)[m];
                        assert(all[m] == before[k]);
                        assert(crate::text::text_less(all[m].0, all[i as int].0));
                    }
                    crate::ordered::lower_bound_unique(before, name@, before.len() as int);
                    assert(put(before, name@, doc@) =~= before.push((name@, doc@)));
                }
                kept.insert(name, doc);
            }
            i += 1;
        }
        assert(all.take(i as int) =~= all);
        self.documents = kept;
        self.transactions.remove_database(database);
        Ok(())
    }

    /// The documents of a database in the order of their names.
    pub fn database_documents(&self, database: &str) -> (r: Result<Vec<Document>, Status>)
        ensures
            docs_result(r) == match database_document_prefix_spec(database@) {
                Err(e) => Err(e),
                Ok(prefix) => Ok(inside_prefix(self@.documents, prefix)),
            },
    {
        let prefix = match database_document_prefix(database) {
            Ok(prefix) => prefix,
            Err(e) => {
                return Err(e);
            },
        };
        let mut found: Vec<Document> = Vec::new();
        let mut i: usize = 0;
        let ghost all = self.documents@;
        assert(all.take(0) =~= Seq::empty());
        assert(docs_view(found@) =~= Seq::empty());
        while i < self.documents.len()
            invariant
                i <= all.len(),
                all == self.documents@,
                docs_view(found@) == inside_prefix(all.take(i as int), prefix@),
            decreases all.len() - i,
        {
            assert(all.take(i + 1).drop_last() =~= all.take(i as int));
            assert(all.take(i + 1).last() == all[i as int]);
            if starts_with(self.documents.key_at(i), prefix.as_str()) {
                let ghost before = docs_view(found@);
                let doc = self.documents.value_at(i).duplicate();
                found.push(doc);
                assert(docs_view(found@) =~= before.push(doc@));
            }
            i += 1;
        }
        assert(all.take(i as int) =~= all);
        Ok(found)
    }
}

/// What a batch read found under one name.
#[derive(PartialEq, Debug)]
pub enum BatchGetResult {
    Unset,
    Found(Document),
    Missing(String),
}

/// One answer of a batch read.
#[derive(PartialEq, Debug)]
pub struct BatchGetResponse {
    pub result: BatchGetResult,
    pub transaction: Vec<u8>,
    pub read_time: Timestamp,
}

/// What a [`BatchGetResult`] stands for.
pub enum BatchGetResultView {
    Unset,
    Found(DocumentView),
    Missing(Seq<char>),
}

/// What a [`BatchGetResponse`] stands for.
#[verifier::ext_equal]
pub struct BatchGetView {
    pub result: BatchGetResultView,
    pub transaction: Seq<u8>,
    pub read_time: Timestamp,
}

impl View for BatchGetResponse {
    type V = BatchGetView;

    open spec fn view(&self) -> BatchGetView {
        BatchGetView {
            result: match self.result {
                BatchGetResult::Unset => BatchGetResultView::Unset,
                BatchGetResult::Found(doc) => BatchGetResultView::Found(doc@),
                BatchGetResult::Missing(name) => BatchGetResultView::Missing(name@),
            },
            transaction: self.transaction@,
            read_time: self.read_time,
        }
    }
}

/// The answers to a batch read: one for each name, in the order asked. The
/// first carries the token of a new transaction; when no name was asked for,
/// an answer of its own does.
pub open spec fn batch_get_spec(
    documents: DocumentsView,
    names: Seq<Seq<char>>,
    token: Option<Seq<u8>>,
    read_time: Timestamp,
) -> Seq<BatchGetView> {
    let carried = match token {
        Some(t) => t,
        None => Seq::empty(),
    };
    if names.len() == 0 {
        if token is Some {
            seq![BatchGetView { result: BatchGetResultView::Unset, transaction: carried, read_time }]
        } else {
            Seq::empty()
        }
    } else {
        Seq::new(
            names.len(),
            |i: int|
                BatchGetView {
                    result: match lookup(documents, names[i]) {
                        Some(doc) => BatchGetResultView::Found(doc),
                        None => BatchGetResultView::Missing(names[i]),
                    },
                    transaction: if i == 0 {
                        carried
                    } else {
                        Seq::empty()
                    },
                    read_time,
                },
        )
    }
}

/// The views of the answers to a batch read.
pub open spec fn batch_get_view(responses: Seq<BatchGetResponse>) -> Seq<BatchGetView> {
    responses.map_values(|r: BatchGetResponse| r@)
}

/// The view of a token that may be missing.
pub open spec fn opt_token(token: Option<Vec<u8>>) -> Option<Seq<u8>> {
    match token {
        Some(t) => Some(t@),
        None => None,
    }
}

/// Answers a batch read.
pub fn batch_get_responses(
    documents: &OrderedMap<Document>,
    names: &Vec<String>,
    token: Option<Vec<u8>>,
    read_time: &Timestamp,
) -> (r: Vec<BatchGetResponse>)
    ensures
        batch_get_view(r@) == batch_get_spec(
            documents@,
            texts(names@),
            opt_token(token),
            *read_time,
        ),
{
    let ghost wanted = texts(names@);
    let ghost expected = batch_get_spec(documents@, wanted, opt_token(token), *read_time);
    let started = token.is_some();
    let mut carried: Vec<u8> = match token {
        Some(t) => t,
        None => Vec::new(),
    };
    let mut responses: Vec<BatchGetResponse> = Vec::new();
    if names.len() == 0 {
        if started {
            responses.push(
                BatchGetResponse {
                    result: BatchGetResult::Unset,
                    transaction: carried,
                    read_time: *read_time,
                },
            );
        }
        assert(batch_get_view(responses@) =~= expected);
        return responses;
    }
    let ghost first_token = carried@;
    let mut i: usize = 0;
    while i < names.len()
        invariant
            i <= names.len(),
            wanted == texts(names@),
            wanted.len() > 0,
            expected == batch_get_spec(documents@, wanted, opt_token(token), *read_time),
            first_token == match opt_token(token) {
                Some(t) => t,
                None => Seq::empty(),
            },
            carried@ == if i == 0 {
                first_token
            } else {
                Seq::empty()
            },
            responses@.len() == i,
            forall|j: int| 0 <= j < i ==> (#[trigger] responses@[j])@ == expected[j],
        decreases names.len() - i,
    {
        let name = names[i].as_str();
        let result = match documents.get(name) {
            Some(doc) => BatchGetResult::Found(doc.duplicate()),
            None => BatchGetResult::Missing(name.to_owned()),
        };
        let mut transaction: Vec<u8> = Vec::new();
        std::mem::swap(&mut transaction, &mut carried);
        let response = BatchGetResponse { result, transaction, read_time: *read_time };
        assert(response@ =~= expected[i as int]);
        responses.push(response);
        i += 1;
    }
    assert(batch_get_view(responses@) =~= expected);
    responses
}

/// One answer of a query.
#[derive(PartialEq, Debug)]
pub struct RunQueryResponse {
    pub document: Option<Document>,
    pub transaction: Vec<u8>,
    pub read_time: Timestamp,
    pub done: bool,
}

/// What a [`RunQueryResponse`] stands for.
#[verifier::ext_equal]
pub struct RunQueryView {
    pub document: Option<DocumentView>,
    pub transaction: Seq<u8>,
    pub read_time: Timestamp,
    pub done: bool,
}

impl View for RunQueryResponse {
    type V = RunQueryView;

    open spec fn view(&self) -> RunQueryView {
        RunQueryView {
            document: opt_owned(self.document),
            transaction: self.transaction@,
            read_time: self.read_time,
            done: self.done,
        }
    }
}

/// The answers to a query: one for each document, the first with the token of
/// a new transaction. A query without results has one answer that says so.
pub open spec fn run_query_spec(
    docs: Seq<DocumentView>,
    token: Option<Seq<u8>>,
    read_time: Timestamp,
) -> Seq<RunQueryView> {
    let carried = match token {
        Some(t) => t,
        None => Seq::empty(),
    };
    if docs.len() == 0 {
        seq![RunQueryView { document: None, transaction: carried, read_time, done: true }]
    } else {
        Seq::new(
            docs.len(),
            |i: int|
                RunQueryView {
                    document: Some(docs[i]),
                    transaction: if i == 0 {
                        carried
                    } else {
                        Seq::empty()
                    },
                    read_time,
                    done: false,
                },
        )
    }
}

/// The views of the answers to a query.
pub open spec fn run_query_view(responses: Seq<RunQueryResponse>) -> Seq<RunQueryView> {
    responses.map_values(|r: RunQueryResponse| r@)
}

/// Answers a query with its results.
pub fn run_query_responses(docs: Vec<Document>, token: Option<Vec<u8>>, read_time: &Timestamp) -> (r:
    Vec<RunQueryResponse>)
    ensures
        run_query_view(r@) == run_query_spec(docs_view(docs@), opt_token(token), *read_time),
{
    let ghost all = docs_view(docs@);
    let ghost expected = run_query_spec(all, opt_token(token), *read_time);
    let mut carried: Vec<u8> = match token {
        Some(t) => t,
        None => Vec::new(),
    };
    let mut responses: Vec<RunQueryResponse> = Vec::new();
    if docs.len() == 0 {
        responses.push(
            RunQueryResponse {
                document: None,
                transaction: carried,
                read_time: *read_time,
                done: true,
            },
        );
        assert(run_query_view(responses@) =~= expected);
        return responses;
    }
    let ghost first_token = carried@;
    for doc in it: docs
        invariant
            it.seq() == docs@,
            all == docs_view(docs@),
            all.len() > 0,
            expected == run_query_spec(all, opt_token(token), *read_time),
            first_token == match opt_token(token) {
                Some(t) => t,
                None => Seq::empty(),
            },
            carried@ == if it.index() == 0 {
                first_token
            } else {
                Seq::empty()
            },
            responses@.len() == it.index(),
            forall|j: int|
                0 <= j < responses@.len() ==> (#[trigger] responses@[j])@ == expected[j],
    {
        let ghost i = it.index() as int;
        assert(all[i] == doc@);
        let mut transaction: Vec<u8> = Vec::new();
        std::mem::swap(&mut transaction, &mut carried);
        let response = RunQueryResponse {
            document: Some(doc),
            transaction,
            read_time: *read_time,
            done: false,
        };
        assert(response@ =~= expected[i]);
        responses.push(response);
    }
    assert(run_query_view(responses@) =~= expected);
    responses
}

/// The first name of a list that is no document name.
pub open spec fn validate_names_spec(names: Seq<Seq<char>>) -> Result<(), StatusView>
    decreases names.len(),
{
    if names.len() == 0 {
        Ok(())
    } else {
        match validate_names_spec(names.drop_last()) {
            Err(e) => Err(e),
            Ok(_) => validate_document_name_spec(names.last()),
        }
    }
}

proof fn validate_names_stuck(names: Seq<Seq<char>>, i: int)
    requires
        0 <= i <= names.len(),
        validate_names_spec(names.take(i)) is Err,
    ensures
        validate_names_spec(names) == validate_names_spec(names.take(i)),
    decreases names.len() - i,
{
    if i < names.len() {
        assert(names.take(i + 1).drop_last() =~= names.take(i));
        validate_names_stuck(names, i + 1);
    } else {
        assert(names.take(i) =~= names);
    }
}

/// Refuses a list with a name that is no document name.
pub fn validate_names(names: &Vec<String>) -> (r: Result<(), Status>)
    ensures
        unit_result(r) == validate_names_spec(texts(names@)),
{
    let ghost all = texts(names@);
    let mut i: usize = 0;
    assert(all.take(0) =~= Seq::empty());
    while i < names.len()
        invariant
            i <= names.len(),
            all == texts(names@),
            validate_names_spec(all.take(i as int)) == Ok::<(), StatusView>(()),
        decreases names.len() - i,
    {
        assert(all.take(i + 1).drop_last() =~= all.take(i as int));
        assert(all.take(i + 1).last() == names@[i as int]@);
        match validate_document_name(names[i].as_str()) {
            Ok(()) => {},
            Err(e) => {
                proof {
                    validate_names_stuck(all, i + 1);
                }
                return Err(e);
            },
        }
        i += 1;
    }
    assert(all.take(i as int) =~= all);
    Ok(())
}

/// Whether a read in the transaction that the selector names, or in a new one,
/// may go on: the token of a new transaction, and the transactions after it.
pub open spec fn select_transaction_holds(
    before: Map<Seq<u8>, Seq<char>>,
    after: Map<Seq<u8>, Seq<char>>,
    database: Result<Seq<char>, StatusView>,
    selector: ConsistencySelector,
    r: Result<Option<Vec<u8>>, Status>,
) -> bool {
    match selector {
        ConsistencySelector::Unset => after == before && r is Ok && r->Ok_0 is None,
        ConsistencySelector::Transaction(token) => after == before && match database {
            Err(e) => r is Err && r->Err_0@ == e,
            Ok(name) => match validate_transaction_spec(before, name, token@) {
                Err(e) => r is Err && r->Err_0@ == e,
                Ok(_) => r is Ok && r->Ok_0 is None,
            },
        },
        ConsistencySelector::NewTransaction => match database {
            Err(e) => after == before && r is Err && r->Err_0@ == e,
            Ok(name) => r is Ok && r->Ok_0 is Some && r->Ok_0->0@.len() == 16 && after
                == before.insert(r->Ok_0->0@, name),
        },
    }
}

/// The database of a batch read: only a new transaction needs it to be one.
pub open spec fn batch_get_database(
    database: Seq<char>,
    selector: ConsistencySelector,
) -> Result<Seq<char>, StatusView> {
    if selector is NewTransaction {
        match database_document_prefix_spec(database) {
            Err(e) => Err(e),
            Ok(_) => Ok(database),
        }
    } else {
        Ok(database)
    }
}

/// Checks or opens the transaction of a batch read.
pub fn select_batch_transaction(
    transactions: &mut Transactions,
    database: &str,
    selector: &ConsistencySelector,
) -> (r: Result<Option<Vec<u8>>, Status>)
    ensures
        select_transaction_holds(
            old(transactions)@,
            final(transactions)@,
            batch_get_database(database@, *selector),
            *selector,
            r,
        ),
{
    match selector {
        ConsistencySelector::Unset => Ok(None),
        ConsistencySelector::Transaction(token) => match validate_transaction(
            transactions,
            database,
            token,
        ) {
            Ok(()) => Ok(None),
            Err(e) => Err(e),
        },
        ConsistencySelector::NewTransaction => match database_document_prefix(database) {
            Ok(_) => Ok(Some(create_transaction(transactions, database))),
            Err(e) => Err(e),
        },
    }
}

/// Checks or opens the transaction of a query below `parent`.
pub fn select_query_transaction(
    transactions: &mut Transactions,
    parent: &str,
    selector: &ConsistencySelector,
) -> (r: Result<Option<Vec<u8>>, Status>)
    ensures
        select_transaction_holds(
            old(transactions)@,
            final(transactions)@,
            database_from_resource_spec(parent@),
            *selector,
            r,
        ),
{
    match selector {
        ConsistencySelector::Unset => Ok(None),
        ConsistencySelector::Transaction(token) => match database_from_resource(parent) {
            Ok(database) => match validate_transaction(transactions, database.as_str(), token) {
                Ok(()) => Ok(None),
                Err(e) => Err(e),
            },
            Err(e) => Err(e),
        },
        ConsistencySelector::NewTransaction => match database_from_resource(parent) {
            Ok(database) => Ok(Some(create_transaction(transactions, database.as_str()))),
            Err(e) => Err(e),
        },
    }
}

impl Store {
    /// Reads several documents, in a transaction where one is asked for.
    pub fn batch_get_documents(
        &mut self,
        database: &str,
        names: &Vec<String>,
        selector: &ConsistencySelector,
        read_time: &Timestamp,
    ) -> (r: Result<Vec<BatchGetResponse>, Status>)
        ensures
            final(self)@.documents == old(self)@.documents,
            final(self)@.next_id == old(self)@.next_id,
            match validate_names_spec(texts(names@)) {
                Err(e) => r is Err && r->Err_0@ == e && final(self)@ == old(self)@,
                Ok(_) => exists|token: Result<Option<Vec<u8>>, Status>|
                    #[trigger] select_transaction_holds(
                        old(self)@.transactions,
                        final(self)@.transactions,
                        batch_get_database(database@, *selector),
                        *selector,
                        token,
                    ) && match token {
                        Err(e) => r is Err && r->Err_0@ == e@,
                        Ok(t) => r is Ok && batch_get_view(r->Ok_0@) == batch_get_spec(
                            old(self)@.documents,
                            texts(names@),
                            opt_token(t),
                            *read_time,
                        ),
                    },
            },
    {
        match validate_names(names) {
            Ok(()) => {},
            Err(e) => {
                return Err(e);
            },
        }
        let token = select_batch_transaction(&mut self.transactions, database, selector);
        assert(select_transaction_holds(
            old(self)@.transactions,
            self@.transactions,
            batch_get_database(database@, *selector),
            *selector,
            token,
        ));
        match token {
            Ok(t) => Ok(batch_get_responses(&self.documents, names, t, read_time)),
            Err(e) => Err(e),
        }
    }

    /// Runs a query, in a transaction where one is asked for.
    pub fn run_query(
        &mut self,
        parent: &str,
        query: &Option<StructuredQuery>,
        selector: &ConsistencySelector,
        read_time: &Timestamp,
    ) -> (r: Result<Vec<RunQueryResponse>, Status>)
        ensures
            final(self)@.documents == old(self)@.documents,
            final(self)@.next_id == old(self)@.next_id,
            exists|token: Result<Option<Vec<u8>>, Status>|
                #[trigger] select_transaction_holds(
                    old(self)@.transactions,
                    final(self)@.transactions,
                    database_from_resource_spec(parent@),
                    *selector,
                    token,
                ) && match token {
                    Err(e) => r is Err && r->Err_0@ == e@,
                    Ok(t) => match query {
                        None => r is Err && r->Err_0@ == invalid("structured_query is required"@),
                        Some(q) => match query_docs_spec(old(self)@.documents, parent@, q@) {
                            Err(e) => r is Err && r->Err_0@ == e,
                            Ok(docs) => r is Ok && run_query_view(r->Ok_0@) == run_query_spec(
                                docs,
                                opt_token(t),
                                *read_time,
                            ),
                        },
                    },
                },
    {
        let token = select_query_transaction(&mut self.transactions, parent, selector);
        assert(select_transaction_holds(
            old(self)@.transactions,
            self@.transactions,
            database_from_resource_spec(parent@),
            *selector,
            token,
        ));
        let t = match token {
            Ok(t) => t,
            Err(e) => {
                return Err(e);
            },
        };
        match query {
            None => Err(Status::invalid_argument("structured_query is required")),
            Some(q) => match query_docs(&self.documents, parent, q) {
                Ok(docs) => Ok(run_query_responses(docs, t, read_time)),
                Err(e) => Err(e),
            },
        }
    }
}

} // verus!
