//! The console: looking at projects, editing a field and copying documents.
use crate::buckets::ApiError;
use crate::document::{Document, DocumentView};
use crate::encoding::{base64_encode, base64_text};
use crate::field_path::{quoted_field_path, quoted_field_path_spec};
use crate::firestore::CommitRequest;
use crate::json::{
    empty_object, integer_json_spec, items_view, object1, with_member, Json, JsonView,
};
use crate::ordered::Duplicate;
use crate::pubsub::{
    pairs_view, views, MessageView, PubsubMessage, Subscription, SubscriptionView, Topic, TopicView,
};
use crate::query::docs_view;
use crate::status::{Code, Status, StatusView};
use crate::text::{
    cat, cat3, chars_of, is_blank, same, split, split_spec, starts_with, strip_prefix, texts,
};
use crate::timestamps::{is_rfc3339_of, timestamp_rfc3339};
use crate::value::{fields_view, FieldValue, Timestamp, ValueView};
use crate::web_values::{document_json, document_json_spec, single, value_proto, value_proto_spec};
use crate::writes::{
    transforms_view, writes_view, FieldTransform, Operation, OperationView, Precondition, Write,
    WriteView,
};
use vstd::prelude::*;
use vstd::utf8::encode_utf8;

verus! {

/// The database that a request means where it names none.
pub fn default_database() -> (r: String)
    ensures
        r@ == "(default)"@,
{
    "(default)".to_owned()
}

/// Whether a character may stand in the id of a project or a database.
pub open spec fn is_segment_char(c: char) -> bool {
    ('a' <= c && c <= 'z') || ('A' <= c && c <= 'Z') || ('0' <= c && c <= '9') || c == '-' || c
        == '.' || c == '_' || c == ':' || c == '(' || c == ')'
}

/// Whether a text can be the id of a project or a database.
pub open spec fn is_segment(value: Seq<char>) -> bool {
    &&& 0 < value.len() <= 256
    &&& forall|i: int| 0 <= i < value.len() ==> is_segment_char(#[trigger] value[i])
}

/// Checks the id of a project or a database.
pub fn valid_segment(value: &str) -> (r: bool)
    ensures
        r == is_segment(value@),
{
    let chars = chars_of(value);
    if chars.len() == 0 || chars.len() > 256 {
        return false;
    }
    let mut i: usize = 0;
    while i < chars.len()
        invariant
            i <= chars@.len(),
            chars@ == value@,
            forall|j: int| 0 <= j < i ==> is_segment_char(#[trigger] value@[j]),
        decreases chars.len() - i,
    {
        let c: char = chars[i];
        let fits = ('a' <= c && c <= 'z') || ('A' <= c && c <= 'Z') || ('0' <= c && c <= '9') || c
            == '-' || c == '.' || c == '_' || c == ':' || c == '(' || c == ')';
        if !fits {
            assert(!is_segment_char(value@[i as int]));
            return false;
        }
        i += 1;
    }
    true
}

/// Whether a text can be a part of a document's path: at most 1500 bytes, no
/// dots alone, and no separator.
pub open spec fn is_document_segment(value: Seq<char>) -> bool {
    &&& value.len() > 0
    &&& encode_utf8(value).len() <= 1500
    &&& value != "."@
    &&& value != ".."@
    &&& !value.contains('/')
    &&& !value.contains('\0')
}

/// Checks a part of a document's path.
pub fn valid_document_segment(value: &str) -> (r: bool)
    ensures
        r == is_document_segment(value@),
{
    !is_blank(value) && value.as_bytes().len() <= 1500 && !same(value, ".") && !same(value, "..")
        && !crate::text::contains_char(value, '/') && !crate::text::contains_char(value, '\0')
}

/// Whether all parts of a path can be parts of a document's path.
pub open spec fn is_path(path: Seq<char>) -> bool {
    let parts = split_spec(path, '/');
    forall|i: int| 0 <= i < parts.len() ==> is_document_segment(#[trigger] parts[i])
}

/// Takes a path apart, where all its parts can be parts of a document's path.
/// A separator at its front or its back leaves an empty part.
pub fn path_parts(path: &str) -> (r: Option<Vec<String>>)
    ensures
        match r {
            Some(parts) => is_path(path@) && texts(parts@) == split_spec(path@, '/'),
            None => !is_path(path@),
        },
{
    let parts = split(path, '/');
    let ghost all = texts(parts@);
    let mut i: usize = 0;
    while i < parts.len()
        invariant
            i <= parts@.len(),
            all == texts(parts@),
            all == split_spec(path@, '/'),
            forall|j: int| 0 <= j < i ==> is_document_segment(#[trigger] all[j]),
        decreases parts.len() - i,
    {
        assert(all[i as int] == parts@[i as int]@);
        if !valid_document_segment(parts[i].as_str()) {
            assert(!is_document_segment(all[i as int]));
            return None;
        }
        i += 1;
    }
    Some(parts)
}

/// The name of a database.
pub open spec fn database_name(project: Seq<char>, database: Seq<char>) -> Seq<char> {
    "projects/"@ + project + "/databases/"@ + database
}

fn name_database(project: &str, database: &str) -> (r: String)
    ensures
        r@ == database_name(project@, database@),
{
    let mut name = cat3("projects/", project, "/databases/");
    name.append(database);
    name
}

/// A request to write one field of a document.
pub struct UpdateFieldRequest {
    pub project: String,
    pub database: String,
    pub document_path: String,
    pub field_name: String,
    pub value: Json,
}

/// A commit to a database.
pub open spec fn commit_view(request: CommitRequest) -> (Seq<char>, Seq<WriteView>, Seq<u8>) {
    (request.database@, writes_view(request.writes@), request.transaction@)
}

/// The write of one field of a document that must exist. The name of the field
/// is taken literally.
pub open spec fn field_write(name: Seq<char>, field: Seq<char>, value: ValueView) -> WriteView {
    WriteView {
        operation: OperationView::Update(
            DocumentView {
                name,
                fields: seq![(field, value)],
                create_time: None,
                update_time: None,
            },
        ),
        update_mask: Some(seq![quoted_field_path_spec(field)]),
        current_document: Precondition::Exists(true),
        update_transforms: Seq::empty(),
    }
}

/// The commit that writes one field, or why the request is refused.
pub open spec fn update_field_spec(
    project: Seq<char>,
    database: Seq<char>,
    path: Seq<char>,
    field: Seq<char>,
    value: JsonView,
) -> Result<(Seq<char>, Seq<WriteView>, Seq<u8>), (u16, Seq<char>)> {
    if !is_segment(project) || !is_segment(database) || !is_document_segment(field) {
        Err((400, "invalid project, database, or field name"@))
    } else if !is_path(path) {
        Err((400, "invalid document path"@))
    } else if split_spec(path, '/').len() % 2 != 0 {
        Err((400, "path must identify a document"@))
    } else {
        match value_proto_spec(value) {
            Err(e) => Err((400, e.message)),
            Ok(v) => {
                let base = database_name(project, database);
                Ok((base, seq![field_write(base + "/documents/"@ + path, field, v)], Seq::empty()))
            },
        }
    }
}

fn one_write(write: Write) -> (r: Vec<Write>)
    ensures
        writes_view(r@) == seq![write@],
{
    let mut out: Vec<Write> = Vec::new();
    out.push(write);
    assert(writes_view(out@) =~= seq![write@]);
    out
}

/// Makes the commit that writes one field.
pub fn update_field(request: UpdateFieldRequest) -> (r: Result<CommitRequest, ApiError>)
    ensures
        (match r {
            Ok(commit) => Ok(commit_view(commit)),
            Err(e) => Err(e@),
        }) == update_field_spec(
            request.project@,
            request.database@,
            request.document_path@,
            request.field_name@,
            request.value@,
        ),
{
    if !valid_segment(request.project.as_str()) || !valid_segment(request.database.as_str())
        || !valid_document_segment(request.field_name.as_str()) {
        return Err(ApiError::new(400, "invalid project, database, or field name"));
    }
    let parts = match path_parts(request.document_path.as_str()) {
        Some(parts) => parts,
        None => {
            return Err(ApiError::new(400, "invalid document path"));
        },
    };
    assert(texts(parts@).len() == parts@.len());
    if parts.len() % 2 != 0 {
        return Err(ApiError::new(400, "path must identify a document"));
    }
    let value = match value_proto(&request.value) {
        Ok(value) => value,
        Err(e) => {
            return Err(ApiError { status: 400, message: e.message });
        },
    };
    let database = name_database(request.project.as_str(), request.database.as_str());
    let name = cat3(database.as_str(), "/documents/", request.document_path.as_str());
    let mut mask: Vec<String> = Vec::new();
    mask.push(quoted_field_path(request.field_name.as_str()));
    assert(texts(mask@) =~= seq![quoted_field_path_spec(request.field_name@)]);
    let mut fields: Vec<(String, FieldValue)> = Vec::new();
    let ghost field = request.field_name@;
    fields.push((request.field_name, value));
    assert(fields_view(fields@) =~= seq![(field, value@)]);
    let transforms: Vec<FieldTransform> = Vec::new();
    assert(transforms_view(transforms@) =~= Seq::empty());
    let write = Write {
        operation: Operation::Update(
            Document { name, fields, create_time: None, update_time: None },
        ),
        update_mask: Some(mask),
        current_document: Precondition::Exists(true),
        update_transforms: transforms,
    };
    let transaction: Vec<u8> = Vec::new();
    assert(transaction@ =~= Seq::empty());
    Ok(CommitRequest { database, writes: one_write(write), transaction })
}

/// The answer to a field that could not be written.
pub open spec fn field_refused(error: StatusView) -> (u16, Seq<char>) {
    if error.code == Code::FailedPrecondition {
        (404, "document no longer exists"@)
    } else {
        (400, error.message)
    }
}

/// Answers a field that could not be written.
pub fn update_field_error(error: Status) -> (r: ApiError)
    ensures
        r@ == field_refused(error@),
{
    if error.code == Code::FailedPrecondition {
        ApiError::new(404, "document no longer exists")
    } else {
        ApiError { status: 400, message: error.message }
    }
}

/// A request to copy a document.
pub struct CloneRequest {
    pub project: String,
    pub database: String,
    pub source_path: String,
    pub destination_collection_path: String,
    pub destination_id: String,
    pub include_subcollections: bool,
}

/// Why a request to copy a document is refused, if it is.
pub open spec fn clone_refused(
    project: Seq<char>,
    database: Seq<char>,
    source: Seq<char>,
    collection: Seq<char>,
    id: Seq<char>,
) -> Option<Seq<char>> {
    if !is_segment(project) || !is_segment(database) || !is_document_segment(id) {
        Some("invalid project, database, or destination document ID"@)
    } else if !is_path(source) {
        Some("invalid source document path"@)
    } else if !is_path(collection) {
        Some("invalid destination collection path"@)
    } else if split_spec(source, '/').len() % 2 != 0 || split_spec(collection, '/').len() % 2 != 1 {
        Some("source must be a document path and destination must be a collection path"@)
    } else {
        None
    }
}

/// Checks a request to copy a document.
pub fn check_clone(request: &CloneRequest) -> (r: Result<(), ApiError>)
    ensures
        match r {
            Ok(_) => clone_refused(
                request.project@,
                request.database@,
                request.source_path@,
                request.destination_collection_path@,
                request.destination_id@,
            ) is None,
            Err(e) => e@.0 == 400 && clone_refused(
                request.project@,
                request.database@,
                request.source_path@,
                request.destination_collection_path@,
                request.destination_id@,
            ) == Some(e@.1),
        },
{
    if !valid_segment(request.project.as_str()) || !valid_segment(request.database.as_str())
        || !valid_document_segment(request.destination_id.as_str()) {
        return Err(ApiError::new(400, "invalid project, database, or destination document ID"));
    }
    let source = match path_parts(request.source_path.as_str()) {
        Some(parts) => parts,
        None => {
            return Err(ApiError::new(400, "invalid source document path"));
        },
    };
    let collection = match path_parts(request.destination_collection_path.as_str()) {
        Some(parts) => parts,
        None => {
            return Err(ApiError::new(400, "invalid destination collection path"));
        },
    };
    assert(texts(source@).len() == source@.len());
    assert(texts(collection@).len() == collection@.len());
    if source.len() % 2 != 0 || collection.len() % 2 != 1 {
        return Err(
            ApiError::new(
                400,
                "source must be a document path and destination must be a collection path",
            ),
        );
    }
    Ok(())
}

/// Whether a document is copied: the source itself and, where they are asked
/// for, the documents below it.
pub open spec fn is_cloned(name: Seq<char>, source: Seq<char>, deep: bool) -> bool {
    name == source || (deep && (source + "/"@).is_prefix_of(name))
}

/// The write that copies a document: to a name that must be free, without the
/// times of the source.
pub open spec fn clone_write(doc: DocumentView, source: Seq<char>, destination: Seq<char>)
    -> WriteView {
    WriteView {
        operation: OperationView::Update(
            DocumentView {
                name: destination + doc.name.skip(source.len() as int),
                fields: doc.fields,
                create_time: None,
                update_time: None,
            },
        ),
        update_mask: None,
        current_document: Precondition::Exists(false),
        update_transforms: Seq::empty(),
    }
}

/// The writes that copy those of the first `n` documents that are to be.
pub open spec fn clone_writes(
    docs: Seq<DocumentView>,
    n: nat,
    source: Seq<char>,
    destination: Seq<char>,
    deep: bool,
) -> Seq<WriteView>
    decreases n,
{
    if n == 0 || n > docs.len() {
        Seq::empty()
    } else {
        let before = clone_writes(docs, (n - 1) as nat, source, destination, deep);
        if is_cloned(docs[n - 1].name, source, deep) {
            before.push(clone_write(docs[n - 1], source, destination))
        } else {
            before
        }
    }
}

/// Whether a document of a name is among some.
pub open spec fn has_document(docs: Seq<DocumentView>, name: Seq<char>) -> bool {
    exists|i: int| 0 <= i < docs.len() && (#[trigger] docs[i]).name == name
}

/// The commit that copies a document, given the documents of the database in
/// the order of their names; or why there is none.
pub open spec fn clone_spec(
    project: Seq<char>,
    database: Seq<char>,
    source_path: Seq<char>,
    collection: Seq<char>,
    id: Seq<char>,
    deep: bool,
    docs: Seq<DocumentView>,
) -> Result<(Seq<char>, Seq<WriteView>, Seq<u8>), (u16, Seq<char>)> {
    let base = database_name(project, database);
    let prefix = base + "/documents/"@;
    let source = prefix + source_path;
    let destination = prefix + collection + "/"@ + id;
    if !has_document(docs, source) {
        Err((404, "source document not found"@))
    } else {
        Ok((base, clone_writes(docs, docs.len(), source, destination, deep), Seq::empty()))
    }
}

fn copy_write(doc: &Document, source: &str, destination: &str) -> (r: Write)
    requires
        source@.is_prefix_of(doc.name@),
    ensures
        r@ == clone_write(doc@, source@, destination@),
{
    let suffix = match strip_prefix(doc.name.as_str(), source) {
        Some(suffix) => suffix,
        None => String::new(),
    };
    assert(suffix@ =~= doc.name@.skip(source@.len() as int));
    let copy = doc.duplicate();
    let transforms: Vec<FieldTransform> = Vec::new();
    assert(transforms_view(transforms@) =~= Seq::empty());
    Write {
        operation: Operation::Update(
            Document {
                name: cat(destination, suffix.as_str()),
                fields: copy.fields,
                create_time: None,
                update_time: None,
            },
        ),
        update_mask: None,
        current_document: Precondition::Exists(false),
        update_transforms: transforms,
    }
}

/// Makes the commit that copies a document, given the documents of the
/// database in the order of their names.
pub fn clone_document(request: &CloneRequest, docs: &Vec<Document>) -> (r: Result<
    CommitRequest,
    ApiError,
>)
    ensures
        (match r {
            Ok(commit) => Ok(commit_view(commit)),
            Err(e) => Err(e@),
        }) == clone_spec(
            request.project@,
            request.database@,
            request.source_path@,
            request.destination_collection_path@,
            request.destination_id@,
            request.include_subcollections,
            docs_view(docs@),
        ),
{
    let ghost all = docs_view(docs@);
    let database = name_database(request.project.as_str(), request.database.as_str());
    let prefix = cat(database.as_str(), "/documents/");
    let source = cat(prefix.as_str(), request.source_path.as_str());
    let mut destination = cat3(
        prefix.as_str(),
        request.destination_collection_path.as_str(),
        "/",
    );
    destination.append(request.destination_id.as_str());
    let below = cat(source.as_str(), "/");
    let deep = request.include_subcollections;
    let mut writes: Vec<Write> = Vec::new();
    let mut found = false;
    let mut i: usize = 0;
    assert(writes_view(writes@) =~= Seq::empty());
    while i < docs.len()
        invariant
            i <= docs@.len(),
            all == docs_view(docs@),
            below@ == source@ + "/"@,
            found == exists|j: int| 0 <= j < i && (#[trigger] all[j]).name == source@,
            writes_view(writes@) == clone_writes(all, i as nat, source@, destination@, deep),
        decreases docs.len() - i,
    {
        let doc = &docs[i];
        assert(all[i as int] == doc@);
        let itself = same(doc.name.as_str(), source.as_str());
        let inside = deep && starts_with(doc.name.as_str(), below.as_str());
        if itself {
            assert(all[i as int].name == source@);
            found = true;
        }
        if itself || inside {
            proof {
                if itself {
                    assert(source@.is_prefix_of(doc.name@));
                } else {
                    assert(below@.is_prefix_of(doc.name@));
                    assert(doc.name@.take(source@.len() as int) =~= source@) by {
                        let part = doc.name@.take(below@.len() as int);
                        assert(part == below@);
                        assert forall|k: int| 0 <= k < source@.len() implies doc.name@[k]
                            == source@[k] by {
                            assert(part[k] == below@[k]);
                        }
                    }
                }
            }
            let ghost before = writes_view(writes@);
            let write = copy_write(doc, source.as_str(), destination.as_str());
            writes.push(write);
            assert(writes_view(writes@) =~= before.push(write@));
        }
        i += 1;
    }
    if !found {
        return Err(ApiError::new(404, "source document not found"));
    }
    let transaction: Vec<u8> = Vec::new();
    assert(transaction@ =~= Seq::empty());
    Ok(CommitRequest { database, writes, transaction })
}

/// Every write of a copy demands that its place is free, so that copying never
/// replaces a document.
pub proof fn cloning_never_overwrites(
    docs: Seq<DocumentView>,
    n: nat,
    source: Seq<char>,
    destination: Seq<char>,
    deep: bool,
)
    ensures
        forall|i: int|
            0 <= i < clone_writes(docs, n, source, destination, deep).len() ==> (
            #[trigger] clone_writes(docs, n, source, destination, deep)[i]).current_document
                == Precondition::Exists(false),
    decreases n,
{
    if n > 0 && n <= docs.len() {
        cloning_never_overwrites(docs, (n - 1) as nat, source, destination, deep);
        let before = clone_writes(docs, (n - 1) as nat, source, destination, deep);
        let out = clone_writes(docs, n, source, destination, deep);
        assert forall|i: int| 0 <= i < out.len() implies (#[trigger] out[i]).current_document
            == Precondition::Exists(false) by {
            if i < before.len() {
                assert(out[i] == before[i]);
            }
        }
    }
}

/// A copy keeps the fields of a document as they are.
pub proof fn cloning_keeps_fields(doc: DocumentView, source: Seq<char>, destination: Seq<char>)
    ensures
        clone_write(doc, source, destination).operation matches OperationView::Update(copy)
            && copy.fields == doc.fields,
{
}

/// The answer to a copy that could not be made.
pub open spec fn clone_error_spec(error: StatusView) -> (u16, Seq<char>) {
    if error.code == Code::FailedPrecondition || error.code == Code::AlreadyExists {
        (409, "destination exists; cloning never overwrites documents"@)
    } else {
        (400, error.message)
    }
}

/// Answers a copy that could not be made.
pub fn clone_error(error: Status) -> (r: ApiError)
    ensures
        r@ == clone_error_spec(error@),
{
    if error.code == Code::FailedPrecondition || error.code == Code::AlreadyExists {
        ApiError::new(409, "destination exists; cloning never overwrites documents")
    } else {
        ApiError { status: 400, message: error.message }
    }
}

/// The answer to a copy that was made.
pub fn clone_json(request: &CloneRequest, count: usize) -> (r: Json)
    ensures
        r@ == with_member(
            with_member(
                object1(
                    "destinationPath"@,
                    JsonView::Text(
                        request.destination_collection_path@ + "/"@ + request.destination_id@,
                    ),
                ),
                "documentsCloned"@,
                JsonView::Unsigned(count as u64),
            ),
            "subcollectionsIncluded"@,
            JsonView::Bool(request.include_subcollections),
        ),
{
    let path = cat3(
        request.destination_collection_path.as_str(),
        "/",
        request.destination_id.as_str(),
    );
    single("destinationPath", Json::Text(path)).with(
        "documentsCloned",
        Json::Unsigned(count as u64),
    ).with("subcollectionsIncluded", Json::Bool(request.include_subcollections))
}

/// The JSON of documents.
pub fn documents_json(docs: &Vec<Document>) -> (r: Json)
    ensures
        r@ == object1(
            "documents"@,
            JsonView::Array(docs_view(docs@).map_values(|d: DocumentView| document_json_spec(d))),
        ),
{
    let mut items: Vec<Json> = Vec::new();
    let mut i: usize = 0;
    while i < docs.len()
        invariant
            i <= docs@.len(),
            items@.len() == i,
            forall|j: int| 0 <= j < i ==> (#[trigger] items@[j])@ == document_json_spec(docs@[j]@),
        decreases docs.len() - i,
    {
        items.push(document_json(&docs[i]));
        i += 1;
    }
    assert(items_view(items@) =~= docs_view(docs@).map_values(
        |d: DocumentView| document_json_spec(d),
    ));
    single("documents", Json::array(items))
}

/// Labels as JSON.
pub open spec fn labels_json(pairs: Seq<(Seq<char>, Seq<char>)>, n: nat) -> JsonView
    decreases n,
{
    if n == 0 || n > pairs.len() {
        empty_object()
    } else {
        with_member(
            labels_json(pairs, (n - 1) as nat),
            pairs[n - 1].0,
            JsonView::Text(pairs[n - 1].1),
        )
    }
}

fn write_labels(pairs: &Vec<(String, String)>) -> (r: Json)
    ensures
        r@ == labels_json(pairs_view(pairs@), pairs@.len()),
{
    let ghost all = pairs_view(pairs@);
    let mut v = Json::object();
    let mut i: usize = 0;
    while i < pairs.len()
        invariant
            i <= pairs@.len(),
            all == pairs_view(pairs@),
            v@ == labels_json(all, i as nat),
        decreases pairs.len() - i,
    {
        assert(all[i as int] == (pairs@[i as int].0@, pairs@[i as int].1@));
        v = v.with(pairs[i].0.as_str(), Json::of_text(pairs[i].1.as_str()));
        i += 1;
    }
    v
}

/// The JSON of a subscription. Settings that are not supported are never
/// stored, so they show as missing.
pub open spec fn subscription_json_spec(s: SubscriptionView) -> JsonView {
    let v = object1("name"@, JsonView::Text(s.name));
    let v = with_member(v, "topic"@, JsonView::Text(s.topic));
    let v = with_member(
        v,
        "ackDeadlineSeconds"@,
        integer_json_spec(s.ack_deadline_seconds as int),
    );
    let v = with_member(
        v,
        "retainAckedMessages"@,
        JsonView::Bool(s.options.retain_acked_messages),
    );
    let v = with_member(v, "messageRetentionDuration"@, JsonView::Null);
    let v = with_member(v, "labels"@, labels_json(s.labels, s.labels.len()));
    let v = with_member(v, "filter"@, JsonView::Text(""@));
    let v = with_member(
        v,
        "enableMessageOrdering"@,
        JsonView::Bool(s.options.message_ordering),
    );
    let v = with_member(
        v,
        "enableExactlyOnceDelivery"@,
        JsonView::Bool(s.options.exactly_once_delivery),
    );
    with_member(v, "state"@, integer_json_spec(s.state as int))
}

/// Writes a subscription as JSON.
pub fn subscription_json(s: &Subscription) -> (r: Json)
    ensures
        r@ == subscription_json_spec(s@),
{
    assert(s@.labels.len() == s.labels@.len());
    single("name", Json::of_text(s.name.as_str())).with(
        "topic",
        Json::of_text(s.topic.as_str()),
    ).with("ackDeadlineSeconds", Json::of_integer(s.ack_deadline_seconds as i64)).with(
        "retainAckedMessages",
        Json::Bool(s.options.retain_acked_messages),
    ).with("messageRetentionDuration", Json::Null).with("labels", write_labels(&s.labels)).with(
        "filter",
        Json::of_text(""),
    ).with("enableMessageOrdering", Json::Bool(s.options.message_ordering)).with(
        "enableExactlyOnceDelivery",
        Json::Bool(s.options.exactly_once_delivery),
    ).with("state", Json::of_integer(s.state as i64))
}

/// The JSON of those of the first `n` subscriptions that are to a topic.
pub open spec fn subscribed(subscriptions: Seq<SubscriptionView>, topic: Seq<char>, n: nat) -> Seq<
    JsonView,
>
    decreases n,
{
    if n == 0 || n > subscriptions.len() {
        Seq::empty()
    } else {
        let before = subscribed(subscriptions, topic, (n - 1) as nat);
        if subscriptions[n - 1].topic == topic {
            before.push(subscription_json_spec(subscriptions[n - 1]))
        } else {
            before
        }
    }
}

/// The JSON of a topic with its subscriptions.
pub open spec fn topic_json_spec(topic: TopicView, subscriptions: Seq<SubscriptionView>) -> JsonView {
    let v = object1("name"@, JsonView::Text(topic.name));
    let v = with_member(v, "labels"@, labels_json(topic.labels, topic.labels.len()));
    let v = with_member(v, "messageRetentionDuration"@, JsonView::Null);
    let v = with_member(v, "state"@, integer_json_spec(topic.state as int));
    with_member(
        v,
        "subscriptions"@,
        JsonView::Array(subscribed(subscriptions, topic.name, subscriptions.len())),
    )
}

/// Writes a topic with its subscriptions as JSON.
pub fn topic_json(topic: &Topic, subscriptions: &Vec<Subscription>) -> (r: Json)
    ensures
        r@ == topic_json_spec(topic@, views(subscriptions@)),
{
    let ghost all = views(subscriptions@);
    let mut items: Vec<Json> = Vec::new();
    let mut i: usize = 0;
    assert(items_view(items@) =~= Seq::empty());
    while i < subscriptions.len()
        invariant
            i <= subscriptions@.len(),
            all == views(subscriptions@),
            items_view(items@) == subscribed(all, topic.name@, i as nat),
        decreases subscriptions.len() - i,
    {
        assert(all[i as int] == subscriptions@[i as int]@);
        if same(subscriptions[i].topic.as_str(), topic.name.as_str()) {
            let ghost before = items_view(items@);
            let item = subscription_json(&subscriptions[i]);
            items.push(item);
            assert(items_view(items@) =~= before.push(item@));
        }
        i += 1;
    }
    assert(topic@.labels.len() == topic.labels@.len());
    single("name", Json::of_text(topic.name.as_str())).with(
        "labels",
        write_labels(&topic.labels),
    ).with("messageRetentionDuration", Json::Null).with(
        "state",
        Json::of_integer(topic.state as i64),
    ).with("subscriptions", Json::array(items))
}

/// Whether a topic of a name is among some.
pub open spec fn has_topic(topics: Seq<TopicView>, name: Seq<char>) -> bool {
    exists|i: int| 0 <= i < topics.len() && (#[trigger] topics[i]).name == name
}

/// The JSON of those of the first `n` subscriptions whose topic is gone.
pub open spec fn detached(
    topics: Seq<TopicView>,
    subscriptions: Seq<SubscriptionView>,
    n: nat,
) -> Seq<JsonView>
    decreases n,
{
    if n == 0 || n > subscriptions.len() {
        Seq::empty()
    } else {
        let before = detached(topics, subscriptions, (n - 1) as nat);
        if has_topic(topics, subscriptions[n - 1].topic) {
            before
        } else {
            before.push(subscription_json_spec(subscriptions[n - 1]))
        }
    }
}

/// The JSON of all topics and subscriptions of a project, given the names of
/// the subscriptions in order.
pub open spec fn resources_spec(
    topics: Seq<TopicView>,
    subscriptions: Seq<SubscriptionView>,
) -> JsonView {
    let v = object1(
        "topics"@,
        JsonView::Array(topics.map_values(|t: TopicView| topic_json_spec(t, subscriptions))),
    );
    let v = with_member(
        v,
        "subscriptions"@,
        JsonView::Array(
            subscriptions.map_values(|s: SubscriptionView| JsonView::Text(s.name)),
        ),
    );
    with_member(
        v,
        "detachedSubscriptions"@,
        JsonView::Array(detached(topics, subscriptions, subscriptions.len())),
    )
}

fn topic_known(topics: &Vec<Topic>, name: &str) -> (r: bool)
    ensures
        r == has_topic(views(topics@), name@),
{
    let ghost all = views(topics@);
    let mut i: usize = 0;
    while i < topics.len()
        invariant
            i <= topics@.len(),
            all == views(topics@),
            forall|j: int| 0 <= j < i ==> (#[trigger] all[j]).name != name@,
        decreases topics.len() - i,
    {
        assert(all[i as int] == topics@[i as int]@);
        if same(topics[i].name.as_str(), name) {
            assert(all[i as int].name == name@);
            return true;
        }
        i += 1;
    }
    false
}

/// Writes all topics and subscriptions of a project, each list in the order of
/// its names.
pub fn resources_json(topics: &Vec<Topic>, subscriptions: &Vec<Subscription>) -> (r: Json)
    ensures
        r@ == resources_spec(views(topics@), views(subscriptions@)),
{
    let ghost all = views(topics@);
    let ghost subs = views(subscriptions@);
    let mut listed: Vec<Json> = Vec::new();
    let mut i: usize = 0;
    while i < topics.len()
        invariant
            i <= topics@.len(),
            listed@.len() == i,
            forall|j: int|
                0 <= j < i ==> (#[trigger] listed@[j])@ == topic_json_spec(
                    topics@[j]@,
                    views(subscriptions@),
                ),
        decreases topics.len() - i,
    {
        listed.push(topic_json(&topics[i], subscriptions));
        i += 1;
    }
    assert(items_view(listed@) =~= all.map_values(|t: TopicView| topic_json_spec(t, subs)));
    let mut names: Vec<Json> = Vec::new();
    let mut gone: Vec<Json> = Vec::new();
    let mut k: usize = 0;
    assert(items_view(gone@) =~= Seq::empty());
    while k < subscriptions.len()
        invariant
            k <= subscriptions@.len(),
            all == views(topics@),
            subs == views(subscriptions@),
            names@.len() == k,
            forall|j: int|
                0 <= j < k ==> (#[trigger] names@[j])@ == JsonView::Text(subscriptions@[j].name@),
            items_view(gone@) == detached(all, subs, k as nat),
        decreases subscriptions.len() - k,
    {
        assert(subs[k as int] == subscriptions@[k as int]@);
        names.push(Json::of_text(subscriptions[k].name.as_str()));
        if !topic_known(topics, subscriptions[k].topic.as_str()) {
            let ghost before = items_view(gone@);
            let item = subscription_json(&subscriptions[k]);
            gone.push(item);
            assert(items_view(gone@) =~= before.push(item@));
        }
        k += 1;
    }
    assert(items_view(names@) =~= subs.map_values(
        |s: SubscriptionView| JsonView::Text(s.name),
    ));
    single("topics", Json::array(listed)).with("subscriptions", Json::array(names)).with(
        "detachedSubscriptions",
        Json::array(gone),
    )
}

/// What the console is told first.
pub fn config_json(default_project: &str) -> (r: Json)
    ensures
        r@ == with_member(
            object1("defaultProject"@, JsonView::Text(default_project@)),
            "objectCopyFormat"@,
            JsonView::Text("Firestore REST Value JSON v1"@),
        ),
{
    single("defaultProject", Json::of_text(default_project)).with(
        "objectCopyFormat",
        Json::of_text("Firestore REST Value JSON v1"),
    )
}

/// The JSON of a message that was published at a time.
pub open spec fn message_json_spec(m: MessageView, published: Seq<char>) -> JsonView {
    let v = object1("data"@, JsonView::Text(base64_text(m.data)));
    let v = with_member(v, "attributes"@, labels_json(m.attributes, m.attributes.len()));
    let v = with_member(v, "messageId"@, JsonView::Text(m.message_id));
    let v = with_member(v, "publishTime"@, JsonView::Text(published));
    with_member(v, "orderingKey"@, JsonView::Text(m.ordering_key))
}

/// The second and the millisecond that a time is shown with; what lies before
/// 1970 is shown as 1970.
pub open spec fn shown_time(t: Timestamp) -> (int, int) {
    (
        if t.seconds > 0 {
            t.seconds as int
        } else {
            0
        },
        if t.nanos > 0 {
            t.nanos as int / 1_000_000
        } else {
            0
        },
    )
}

/// Writes a message as JSON.
pub fn message_json(m: &PubsubMessage) -> (r: Json)
    ensures
        match m@.publish_time {
            Some(t) => exists|published: Seq<char>|
                #[trigger] is_rfc3339_of(published, shown_time(t).0, shown_time(t).1) && r@
                    == message_json_spec(m@, published),
            None => r@ == message_json_spec(m@, "1970-01-01T00:00:00.000Z"@),
        },
{
    let published = match &m.publish_time {
        Some(t) => timestamp_rfc3339(t),
        None => "1970-01-01T00:00:00.000Z".to_owned(),
    };
    proof {
        if m@.publish_time is Some {
            let t = m@.publish_time->0;
            assert(is_rfc3339_of(published@, shown_time(t).0, shown_time(t).1));
        }
        assert(m@.attributes.len() == m.attributes@.len());
    }
    single("data", Json::Text(base64_encode(m.data.as_slice()))).with(
        "attributes",
        write_labels(&m.attributes),
    ).with("messageId", Json::of_text(m.message_id.as_str())).with(
        "publishTime",
        Json::Text(published),
    ).with("orderingKey", Json::of_text(m.ordering_key.as_str()))
}

} // verus!
