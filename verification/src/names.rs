//! Firestore resource names.
use crate::status::{invalid, result_view, unit_result, Status, StatusView};
use crate::text::{
    after_prefix, cat, is_blank, join, join_spec, same, split, split_spec, strip_prefix, texts,
    trim_end, trim_end_spec,
};
use vstd::prelude::*;

verus! {

/// Whether a name reads `projects/{project}/databases/{database}`.
pub open spec fn is_database_name(database: Seq<char>) -> bool {
    let parts = split_spec(database, '/');
    parts.len() == 4 && parts[0] == "projects"@ && parts[1].len() > 0 && parts[2] == "databases"@
        && parts[3].len() > 0
}

/// What every document name of a database begins with.
pub open spec fn document_prefix(database: Seq<char>) -> Seq<char> {
    database + "/documents/"@
}

pub open spec fn database_document_prefix_spec(database: Seq<char>) -> Result<
    Seq<char>,
    StatusView,
> {
    if is_database_name(database) {
        Ok(document_prefix(database))
    } else {
        Err(invalid("invalid database name: "@ + database))
    }
}

/// What every document name of `database` begins with.
pub fn database_document_prefix(database: &str) -> (r: Result<String, Status>)
    ensures
        result_view(r) == database_document_prefix_spec(database@),
{
    let parts = split(database, '/');
    assert(texts(parts@).len() == parts@.len());
    if parts.len() != 4 || !same(parts[0].as_str(), "projects") || is_blank(parts[1].as_str()) || !same(
        parts[2].as_str(),
        "databases",
    ) || is_blank(parts[3].as_str()) {
        return Err(Status::invalid_argument(cat("invalid database name: ", database).as_str()));
    }
    Ok(cat(database, "/documents/"))
}

pub open spec fn database_from_resource_spec(resource: Seq<char>) -> Result<
    Seq<char>,
    StatusView,
> {
    let parts = split_spec(resource, '/');
    if parts.len() < 4 {
        Err(invalid("invalid Firestore resource: "@ + resource))
    } else {
        let database = join_spec(parts.take(4), "/"@);
        match database_document_prefix_spec(database) {
            Ok(_) => Ok(database),
            Err(e) => Err(e),
        }
    }
}

/// The database that a resource belongs to.
pub fn database_from_resource(resource: &str) -> (r: Result<String, Status>)
    ensures
        result_view(r) == database_from_resource_spec(resource@),
{
    let parts = split(resource, '/');
    assert(texts(parts@).len() == parts@.len());
    if parts.len() < 4 {
        return Err(
            Status::invalid_argument(cat("invalid Firestore resource: ", resource).as_str()),
        );
    }
    let mut first: Vec<String> = Vec::new();
    let mut i: usize = 0;
    while i < 4
        invariant
            i <= 4 <= parts@.len(),
            texts(first@) == texts(parts@).take(i as int),
        decreases 4 - i,
    {
        let ghost before = texts(first@);
        let part = parts[i].clone();
        first.push(part);
        assert(texts(first@) =~= before.push(part@));
        assert(texts(parts@).take(i + 1) =~= texts(parts@).take(i as int).push(part@));
        i += 1;
    }
    let database = join(&first, "/");
    match database_document_prefix(database.as_str()) {
        Ok(_) => Ok(database),
        Err(e) => Err(e),
    }
}

/// Whether a name reads
/// `projects/{project}/databases/{database}/documents/{path}` with a path that
/// alternates collections and documents and ends in a document.
pub open spec fn is_document_name(name: Seq<char>) -> bool {
    let parts = split_spec(name, '/');
    parts.len() >= 7 && parts[0] == "projects"@ && parts[1].len() > 0 && parts[2] == "databases"@
        && parts[3].len() > 0 && parts[4] == "documents"@ && (parts.len() - 5) % 2 == 0
}

pub open spec fn validate_document_name_spec(name: Seq<char>) -> Result<(), StatusView> {
    if is_document_name(name) {
        Ok(())
    } else {
        Err(invalid("invalid document name: "@ + name))
    }
}

/// Refuses what is not a document name.
pub fn validate_document_name(name: &str) -> (r: Result<(), Status>)
    ensures
        unit_result(r) == validate_document_name_spec(name@),
{
    let parts = split(name, '/');
    assert(texts(parts@).len() == parts@.len());
    let valid_prefix = parts.len() >= 7 && same(parts[0].as_str(), "projects")
        && !is_blank(parts[1].as_str()) && same(parts[2].as_str(), "databases") && !is_blank(parts[3].as_str())
        && same(parts[4].as_str(), "documents");
    if !valid_prefix || (parts.len() - 5) % 2 != 0 {
        return Err(Status::invalid_argument(cat("invalid document name: ", name).as_str()));
    }
    Ok(())
}

/// Whether `name` is a document of the collection `collection_id` right below
/// `parent`, or of any collection of that id below `parent`.
pub open spec fn matches_collection_spec(
    name: Seq<char>,
    parent: Seq<char>,
    collection_id: Seq<char>,
    descendants: bool,
) -> bool {
    match after_prefix(name, trim_end_spec(parent, '/') + "/"@) {
        None => false,
        Some(relative) => {
            let parts = split_spec(relative, '/');
            if descendants {
                parts.len() >= 2 && parts.len() % 2 == 0 && parts[parts.len() - 2] == collection_id
            } else {
                parts.len() == 2 && parts[0] == collection_id
            }
        },
    }
}

/// Whether a query on a collection below `parent` reaches the document `name`.
pub fn matches_collection(name: &str, parent: &str, collection_id: &str, descendants: bool) -> (r:
    bool)
    ensures
        r == matches_collection_spec(name@, parent@, collection_id@, descendants),
{
    let parent = trim_end(parent, '/');
    match strip_prefix(name, cat(parent.as_str(), "/").as_str()) {
        None => false,
        Some(relative) => {
            let parts = split(relative.as_str(), '/');
            assert(texts(parts@).len() == parts@.len());
            if descendants {
                parts.len() >= 2 && parts.len() % 2 == 0 && same(
                    parts[parts.len() - 2].as_str(),
                    collection_id,
                )
            } else {
                parts.len() == 2 && same(parts[0].as_str(), collection_id)
            }
        },
    }
}

} // verus!
