//! What is read back of an object after it was saved, and what becomes of an
//! upload in several requests.
use crate::account_laws::{added, began, text_member};
use crate::buckets::{
    api_error_json, bucket_json_spec, extended, is_live, named_offset, object_at, pruned,
    resume_spec, saved_object, saved_object_is_found, storage_sorted, with_object, ResumedView,
    StorageView, UploadView,
};
use crate::json::{member, object1, with_member, JsonView};
use crate::json_laws::{is_object, members_are_added, one_member_is_alone};
use crate::multipart::{found_is_first, stands_at};
use crate::ordered::{
    keys_sorted, lookup, lookup_after_keep, lookup_after_put, lookup_after_without,
};
use crate::storage::{
    etag, object_json_spec, percent_bytes, self_link, texts_json, with_text, MetadataView,
    ObjectView,
};
use crate::text::{all_digits, decimal_reads_back, decimal_spec, digits_value};
use vstd::prelude::*;
use vstd::utf8::encode_utf8;

verus! {

/// Whether an object holds some content: its bytes, all of them, and how many
/// they are.
pub open spec fn holds_content(object: ObjectView, content: Seq<u8>) -> bool {
    &&& object.bytes == Some(content)
    &&& object.blob_name is None
    &&& object.size == content.len()
}

/// A saved object is found under its bucket and its name with the content and
/// with what was said of it. Its type is the one that was named, else that of
/// the content, else that of plain bytes. It was created when an object was
/// first saved there, and its generation is above the last one. Every other
/// object, and every upload, is as before.
pub proof fn saved_objects_are_read_back(
    s: StorageView,
    bucket: Seq<char>,
    name: Seq<char>,
    content: Seq<u8>,
    metadata: MetadataView,
    fallback: Option<Seq<char>>,
    now: Seq<char>,
    token: Seq<char>,
)
    requires
        storage_sorted(s),
        s.next_generation < u64::MAX,
        content.len() <= u64::MAX,
    ensures
        ({
            let after = with_object(
                s,
                saved_object(s, bucket, name, content, metadata, fallback, now, token),
            );
            let found = object_at(after, bucket, name);
            &&& found is Some
            &&& found->0.bucket == bucket && found->0.name == name
            &&& holds_content(found->0, content)
            &&& metadata.content_type is Some ==> found->0.content_type
                == metadata.content_type->0
            &&& metadata.content_type is None && fallback is Some ==> found->0.content_type
                == fallback->0
            &&& metadata.content_type is None && fallback is None ==> found->0.content_type
                == "application/octet-stream"@
            &&& found->0.metadata == metadata.metadata
            &&& found->0.cache_control == metadata.cache_control
            &&& found->0.content_disposition == metadata.content_disposition
            &&& found->0.content_encoding == metadata.content_encoding
            &&& found->0.updated == now
            &&& object_at(s, bucket, name) is None ==> found->0.created == now
            &&& object_at(s, bucket, name) is Some ==> found->0.created == object_at(
                s,
                bucket,
                name,
            )->0.created
            &&& found->0.download_token == token
            &&& found->0.generation == s.next_generation + 1
            &&& after.next_generation == s.next_generation + 1
            &&& after.uploads == s.uploads
            &&& forall|b: Seq<char>, n: Seq<char>|
                (b, n) != (bucket, name) ==> #[trigger] object_at(after, b, n) == object_at(s, b, n)
        }),
{
    let object = saved_object(s, bucket, name, content, metadata, fallback, now, token);
    let after = with_object(s, object);
    saved_object_is_found(s, object, bucket, name);
    assert forall|b: Seq<char>, n: Seq<char>| (b, n) != (bucket, name) implies #[trigger] object_at(
        after,
        b,
        n,
    ) == object_at(s, b, n) by {
        saved_object_is_found(s, object, b, n);
    }
}

/// Whether JSON tells a number as text in decimal digits.
pub open spec fn tells_number(v: Option<JsonView>, n: nat) -> bool {
    v is Some && v->0 is Text && all_digits(v->0->Text_0) && digits_value(v->0->Text_0) == n
}

/// Whether JSON tells custom metadata: every name in turn, with its text.
pub open spec fn tells_texts(v: Option<JsonView>, entries: Seq<(Seq<char>, Seq<char>)>) -> bool {
    &&& v is Some && v->0 is Object
    &&& v->0->Object_0.len() == entries.len()
    &&& forall|i: int|
        0 <= i < entries.len() ==> (#[trigger] v->0->Object_0[i]).0 == entries[i].0
            && v->0->Object_0[i].1 == JsonView::Text(entries[i].1)
}

/// Whether JSON tells of an object.
pub open spec fn tells_object(v: JsonView, object: ObjectView) -> bool {
    &&& member(v, "kind"@) == Some(JsonView::Text("storage#object"@))
    &&& member(v, "name"@) == Some(JsonView::Text(object.name))
    &&& member(v, "bucket"@) == Some(JsonView::Text(object.bucket))
    &&& tells_number(member(v, "generation"@), object.generation as nat)
    &&& member(v, "metageneration"@) == Some(JsonView::Text("1"@))
    &&& member(v, "contentType"@) == Some(JsonView::Text(object.content_type))
    &&& tells_number(member(v, "size"@), object.size as nat)
    &&& member(v, "crc32c"@) == Some(JsonView::Text(object.crc32c))
    &&& member(v, "timeCreated"@) == Some(JsonView::Text(object.created))
    &&& member(v, "updated"@) == Some(JsonView::Text(object.updated))
    &&& tells_texts(member(v, "metadata"@), object.metadata)
    &&& member(v, "downloadTokens"@) == Some(JsonView::Text(object.download_token))
    &&& member(v, "cacheControl"@) == text_member(object.cache_control)
    &&& member(v, "contentDisposition"@) == text_member(object.content_disposition)
    &&& member(v, "contentEncoding"@) == text_member(object.content_encoding)
}

proof fn object_keys_differ()
    ensures
        "kind"@.len() == 4 && "kind"@[0] == 'k',
        "id"@.len() == 2,
        "selfLink"@.len() == 8 && "selfLink"@[0] == 's',
        "mediaLink"@.len() == 9,
        "name"@.len() == 4 && "name"@[0] == 'n',
        "bucket"@.len() == 6 && "bucket"@[0] == 'b',
        "generation"@.len() == 10,
        "metageneration"@.len() == 14 && "metageneration"@[0] == 'm',
        "contentType"@.len() == 11 && "contentType"@[0] == 'c',
        "size"@.len() == 4 && "size"@[0] == 's',
        "crc32c"@.len() == 6 && "crc32c"@[0] == 'c',
        "timeCreated"@.len() == 11 && "timeCreated"@[0] == 't',
        "updated"@.len() == 7,
        "etag"@.len() == 4 && "etag"@[0] == 'e',
        "metadata"@.len() == 8 && "metadata"@[0] == 'm',
        "downloadTokens"@.len() == 14 && "downloadTokens"@[0] == 'd',
        "cacheControl"@.len() == 12 && "cacheControl"@[0] == 'c',
        "contentDisposition"@.len() == 18,
        "contentEncoding"@.len() == 15,
        "storageClass"@.len() == 12 && "storageClass"@[0] == 's',
        "location"@.len() == 8 && "location"@[0] == 'l',
{
    reveal_strlit("kind");
    reveal_strlit("id");
    reveal_strlit("selfLink");
    reveal_strlit("mediaLink");
    reveal_strlit("name");
    reveal_strlit("bucket");
    reveal_strlit("generation");
    reveal_strlit("metageneration");
    reveal_strlit("contentType");
    reveal_strlit("size");
    reveal_strlit("crc32c");
    reveal_strlit("timeCreated");
    reveal_strlit("updated");
    reveal_strlit("etag");
    reveal_strlit("metadata");
    reveal_strlit("downloadTokens");
    reveal_strlit("cacheControl");
    reveal_strlit("contentDisposition");
    reveal_strlit("contentEncoding");
    reveal_strlit("storageClass");
    reveal_strlit("location");
}

/// What the JSON of an object holds under a key.
spec fn object_member(object: ObjectView, key: Seq<char>) -> Option<JsonView> {
    let generation = decimal_spec(object.generation as nat);
    let id = JsonView::Text(object.bucket + "/"@ + object.name + "/"@ + generation);
    let link = JsonView::Text(self_link(object));
    let media = JsonView::Text(self_link(object) + "?alt=media"@);
    let size = JsonView::Text(decimal_spec(object.size as nat));
    let tag = JsonView::Text(etag(object.generation));
    let custom = JsonView::Object(texts_json(object.metadata));
    if key == "contentEncoding"@ && object.content_encoding is Some {
        text_member(object.content_encoding)
    } else if key == "contentDisposition"@ && object.content_disposition is Some {
        text_member(object.content_disposition)
    } else if key == "cacheControl"@ && object.cache_control is Some {
        text_member(object.cache_control)
    } else if key == "downloadTokens"@ {
        Some(JsonView::Text(object.download_token))
    } else if key == "metadata"@ {
        Some(custom)
    } else if key == "etag"@ {
        Some(tag)
    } else if key == "updated"@ {
        Some(JsonView::Text(object.updated))
    } else if key == "timeCreated"@ {
        Some(JsonView::Text(object.created))
    } else if key == "crc32c"@ {
        Some(JsonView::Text(object.crc32c))
    } else if key == "size"@ {
        Some(size)
    } else if key == "contentType"@ {
        Some(JsonView::Text(object.content_type))
    } else if key == "metageneration"@ {
        Some(JsonView::Text("1"@))
    } else if key == "generation"@ {
        Some(JsonView::Text(generation))
    } else if key == "bucket"@ {
        Some(JsonView::Text(object.bucket))
    } else if key == "name"@ {
        Some(JsonView::Text(object.name))
    } else if key == "mediaLink"@ {
        Some(media)
    } else if key == "selfLink"@ {
        Some(link)
    } else if key == "id"@ {
        Some(id)
    } else if key == "kind"@ {
        Some(JsonView::Text("storage#object"@))
    } else {
        None
    }
}

proof fn text_is_added(v: JsonView, key: Seq<char>, text: Option<Seq<char>>, other: Seq<char>)
    requires
        is_object(v),
    ensures
        is_object(with_text(v, key, text)),
        member(with_text(v, key, text), other) == if other == key && text is Some {
            text_member(text)
        } else {
            member(v, other)
        },
{
    if text is Some {
        members_are_added(v, key, JsonView::Text(text->0), other);
    }
}

#[verifier::rlimit(40)]
proof fn object_members(object: ObjectView, key: Seq<char>)
    ensures
        member(object_json_spec(object), key) == object_member(object, key),
{
    let generation = decimal_spec(object.generation as nat);
    let id = JsonView::Text(object.bucket + "/"@ + object.name + "/"@ + generation);
    let link = JsonView::Text(self_link(object));
    let media = JsonView::Text(self_link(object) + "?alt=media"@);
    let size = JsonView::Text(decimal_spec(object.size as nat));
    let tag = JsonView::Text(etag(object.generation));
    let custom = JsonView::Object(texts_json(object.metadata));
    let v0 = object1("kind"@, JsonView::Text("storage#object"@));
    one_member_is_alone("kind"@, JsonView::Text("storage#object"@), key);
    members_are_added(v0, "id"@, id, key);
    let v1 = with_member(v0, "id"@, id);
    members_are_added(v1, "selfLink"@, link, key);
    let v2 = with_member(v1, "selfLink"@, link);
    members_are_added(v2, "mediaLink"@, media, key);
    let v3 = with_member(v2, "mediaLink"@, media);
    members_are_added(v3, "name"@, JsonView::Text(object.name), key);
    let v4 = with_member(v3, "name"@, JsonView::Text(object.name));
    members_are_added(v4, "bucket"@, JsonView::Text(object.bucket), key);
    let v5 = with_member(v4, "bucket"@, JsonView::Text(object.bucket));
    members_are_added(v5, "generation"@, JsonView::Text(generation), key);
    let v6 = with_member(v5, "generation"@, JsonView::Text(generation));
    members_are_added(v6, "metageneration"@, JsonView::Text("1"@), key);
    let v7 = with_member(v6, "metageneration"@, JsonView::Text("1"@));
    members_are_added(v7, "contentType"@, JsonView::Text(object.content_type), key);
    let v8 = with_member(v7, "contentType"@, JsonView::Text(object.content_type));
    members_are_added(v8, "size"@, size, key);
    let v9 = with_member(v8, "size"@, size);
    members_are_added(v9, "crc32c"@, JsonView::Text(object.crc32c), key);
    let v10 = with_member(v9, "crc32c"@, JsonView::Text(object.crc32c));
    members_are_added(v10, "timeCreated"@, JsonView::Text(object.created), key);
    let v11 = with_member(v10, "timeCreated"@, JsonView::Text(object.created));
    members_are_added(v11, "updated"@, JsonView::Text(object.updated), key);
    let v12 = with_member(v11, "updated"@, JsonView::Text(object.updated));
    members_are_added(v12, "etag"@, tag, key);
    let v13 = with_member(v12, "etag"@, tag);
    members_are_added(v13, "metadata"@, custom, key);
    let v14 = with_member(v13, "metadata"@, custom);
    members_are_added(v14, "downloadTokens"@, JsonView::Text(object.download_token), key);
    let v15 = with_member(v14, "downloadTokens"@, JsonView::Text(object.download_token));
    text_is_added(v15, "cacheControl"@, object.cache_control, key);
    let v16 = with_text(v15, "cacheControl"@, object.cache_control);
    text_is_added(v16, "contentDisposition"@, object.content_disposition, key);
    let v17 = with_text(v16, "contentDisposition"@, object.content_disposition);
    text_is_added(v17, "contentEncoding"@, object.content_encoding, key);
    let v18 = with_text(v17, "contentEncoding"@, object.content_encoding);
    assert(object_json_spec(object) == v18);
}

/// The JSON of an object tells its name, its bucket, its generation, its type,
/// its size, its checksum, its times, its custom metadata, its token and its
/// headers, each under its own key. Its id, its links and its etag are made of
/// the bucket, the name and the generation.
pub proof fn objects_are_told(object: ObjectView)
    ensures
        tells_object(object_json_spec(object), object),
        member(object_json_spec(object), "id"@) == Some(
            JsonView::Text(
                object.bucket + "/"@ + object.name + "/"@ + decimal_spec(object.generation as nat),
            ),
        ),
        member(object_json_spec(object), "selfLink"@) == Some(
            JsonView::Text(
                "/storage/v1/b/"@ + percent_bytes(encode_utf8(object.bucket)) + "/o/"@
                    + percent_bytes(encode_utf8(object.name)),
            ),
        ),
        member(object_json_spec(object), "mediaLink"@) == Some(
            JsonView::Text(
                "/storage/v1/b/"@ + percent_bytes(encode_utf8(object.bucket)) + "/o/"@
                    + percent_bytes(encode_utf8(object.name)) + "?alt=media"@,
            ),
        ),
        member(object_json_spec(object), "etag"@) == Some(
            JsonView::Text("\""@ + decimal_spec(object.generation as nat) + "\""@),
        ),
{
    object_keys_differ();
    decimal_reads_back(object.generation as nat);
    decimal_reads_back(object.size as nat);
    object_members(object, "kind"@);
    object_members(object, "id"@);
    object_members(object, "selfLink"@);
    object_members(object, "mediaLink"@);
    object_members(object, "name"@);
    object_members(object, "bucket"@);
    object_members(object, "generation"@);
    object_members(object, "metageneration"@);
    object_members(object, "contentType"@);
    object_members(object, "size"@);
    object_members(object, "crc32c"@);
    object_members(object, "timeCreated"@);
    object_members(object, "updated"@);
    object_members(object, "etag"@);
    object_members(object, "metadata"@);
    object_members(object, "downloadTokens"@);
    object_members(object, "cacheControl"@);
    object_members(object, "contentDisposition"@);
    object_members(object, "contentEncoding"@);
}

/// A refusal tells its status and its message, the message twice.
pub proof fn refusals_are_told(status: u16, message: Seq<char>)
    ensures
        ({
            let error = member(api_error_json((status, message)), "error"@);
            &&& error is Some
            &&& member(error->0, "code"@) == Some(JsonView::Unsigned(status as u64))
            &&& member(error->0, "message"@) == Some(JsonView::Text(message))
            &&& member(error->0, "errors"@) is Some
            &&& member(error->0, "errors"@)->0 is Array
            &&& member(error->0, "errors"@)->0->Array_0.len() == 1
            &&& member(member(error->0, "errors"@)->0->Array_0[0], "message"@) == Some(
                JsonView::Text(message),
            )
        }),
{
    reveal_strlit("code");
    reveal_strlit("message");
    reveal_strlit("errors");
    assert("code"@.len() == 4 && "message"@.len() == 7 && "errors"@.len() == 6);
    let text = JsonView::Text(message);
    let v0 = object1("code"@, JsonView::Unsigned(status as u64));
    began("code"@, JsonView::Unsigned(status as u64));
    added(v0, "message"@, text);
    let v1 = with_member(v0, "message"@, text);
    let list = JsonView::Array(seq![object1("message"@, text)]);
    added(v1, "errors"@, list);
    began("error"@, with_member(v1, "errors"@, list));
    began("message"@, text);
}

/// A bucket tells its name.
pub proof fn buckets_are_told(bucket: Seq<char>)
    ensures
        member(bucket_json_spec(bucket), "kind"@) == Some(JsonView::Text("storage#bucket"@)),
        member(bucket_json_spec(bucket), "id"@) == Some(JsonView::Text(bucket)),
        member(bucket_json_spec(bucket), "name"@) == Some(JsonView::Text(bucket)),
        member(bucket_json_spec(bucket), "location"@) == Some(JsonView::Text("US"@)),
        member(bucket_json_spec(bucket), "storageClass"@) == Some(JsonView::Text("STANDARD"@)),
        member(bucket_json_spec(bucket), "metageneration"@) == Some(JsonView::Text("1"@)),
{
    object_keys_differ();
    let v0 = object1("kind"@, JsonView::Text("storage#bucket"@));
    began("kind"@, JsonView::Text("storage#bucket"@));
    added(v0, "id"@, JsonView::Text(bucket));
    let v1 = with_member(v0, "id"@, JsonView::Text(bucket));
    added(v1, "name"@, JsonView::Text(bucket));
    let v2 = with_member(v1, "name"@, JsonView::Text(bucket));
    added(v2, "location"@, JsonView::Text("US"@));
    let v3 = with_member(v2, "location"@, JsonView::Text("US"@));
    added(v3, "storageClass"@, JsonView::Text("STANDARD"@));
    let v4 = with_member(v3, "storageClass"@, JsonView::Text("STANDARD"@));
    added(v4, "metageneration"@, JsonView::Text("1"@));
}

/// Whether an upload goes on from another with more bytes behind the ones that
/// it had.
pub open spec fn goes_on(after: UploadView, before: UploadView, body: Seq<u8>) -> bool {
    &&& after.bucket == before.bucket
    &&& after.name == before.name
    &&& after.metadata == before.metadata
    &&& after.created_at == before.created_at
    &&& after.bytes == before.bytes + body
}

/// An upload that the bucket does not have is refused, and nothing changes.
pub proof fn unknown_uploads_are_refused(
    uploads: Seq<(Seq<char>, UploadView)>,
    bucket: Seq<char>,
    id: Seq<char>,
    command: Seq<char>,
    offset: Option<Seq<char>>,
    body: Seq<u8>,
)
    requires
        lookup(uploads, id) is Some ==> lookup(uploads, id)->0.bucket != bucket,
    ensures
        resume_spec(uploads, bucket, id, command, offset, body).0 == uploads,
        resume_spec(uploads, bucket, id, command, offset, body).1 == ResumedView::Refused(
            (404, "upload session not found"@),
        ),
{
}

/// A cancelled upload is gone, and one that is asked after goes on unchanged
/// and tells how many bytes it has.
pub proof fn uploads_are_cancelled_and_asked_after(
    uploads: Seq<(Seq<char>, UploadView)>,
    bucket: Seq<char>,
    id: Seq<char>,
    offset: Option<Seq<char>>,
    body: Seq<u8>,
)
    requires
        keys_sorted(uploads),
        lookup(uploads, id) is Some,
        lookup(uploads, id)->0.bucket == bucket,
    ensures
        resume_spec(uploads, bucket, id, "cancel"@, offset, body).1 is Cancelled,
        lookup(resume_spec(uploads, bucket, id, "cancel"@, offset, body).0, id) is None,
        resume_spec(uploads, bucket, id, "query"@, offset, body).0 == uploads,
        resume_spec(uploads, bucket, id, "query"@, offset, body).1 == ResumedView::Active(
            lookup(uploads, id)->0.bytes.len(),
        ),
{
    reveal_strlit("cancel");
    reveal_strlit("query");
    assert("cancel"@.len() == 6 && "query"@.len() == 5);
    lookup_after_without(uploads, id, id);
}

/// A body goes behind the bytes that an upload has, where it is sent at that
/// place and the whole fits in sixty-four mebibytes. Without a command, or with
/// one that holds `finalize`, the upload is then complete with all of its bytes
/// and is no longer kept; with another it is kept. A body sent at another
/// place, or one too large, is refused and changes nothing.
pub proof fn bodies_are_added_to_uploads(
    uploads: Seq<(Seq<char>, UploadView)>,
    bucket: Seq<char>,
    id: Seq<char>,
    command: Seq<char>,
    offset: Option<Seq<char>>,
    body: Seq<u8>,
)
    requires
        keys_sorted(uploads),
        lookup(uploads, id) is Some,
        lookup(uploads, id)->0.bucket == bucket,
        command != "cancel"@,
        command != "query"@,
    ensures
        ({
            let before = lookup(uploads, id)->0;
            let (after, outcome) = resume_spec(uploads, bucket, id, command, offset, body);
            let elsewhere = named_offset(offset) is Some && named_offset(offset)->0
                != before.bytes.len();
            let finalizes = command.len() == 0 || exists|i: int|
                stands_at(command, "finalize"@, i);
            let total = before.bytes.len() + body.len();
            &&& elsewhere ==> after == uploads && outcome == ResumedView::Refused(
                (400, "upload offset does not match received size"@),
            )
            &&& !elsewhere && total > 64 * 1024 * 1024 ==> after == uploads && outcome
                == ResumedView::Refused((413, "object exceeds 64 MiB limit"@))
            &&& !elsewhere && total <= 64 * 1024 * 1024 && !finalizes ==> outcome
                == ResumedView::Active(total) && lookup(after, id) is Some && goes_on(
                lookup(after, id)->0,
                before,
                body,
            )
            &&& !elsewhere && total <= 64 * 1024 * 1024 && finalizes ==> outcome is Complete
                && goes_on(outcome->Complete_0, before, body) && lookup(after, id) is None
        }),
{
    found_is_first(command, "finalize"@, 0);
    let before = lookup(uploads, id)->0;
    lookup_after_put(uploads, id, extended(before, body), id);
    lookup_after_without(uploads, id, id);
}

/// A request of one upload leaves every other as it was.
pub proof fn other_uploads_stay(
    uploads: Seq<(Seq<char>, UploadView)>,
    bucket: Seq<char>,
    id: Seq<char>,
    command: Seq<char>,
    offset: Option<Seq<char>>,
    body: Seq<u8>,
    other: Seq<char>,
)
    requires
        keys_sorted(uploads),
        other != id,
    ensures
        lookup(resume_spec(uploads, bucket, id, command, offset, body).0, other) == lookup(
            uploads,
            other,
        ),
{
    if lookup(uploads, id) is Some {
        let before = lookup(uploads, id)->0;
        lookup_after_put(uploads, id, extended(before, body), other);
    }
    lookup_after_without(uploads, id, other);
}

/// An upload is kept for an hour: it is found as it was as long as fewer than
/// 3600 seconds have passed since it was opened, and gone after that. No object
/// changes.
pub proof fn uploads_are_kept_for_an_hour(s: StorageView, now: u64, id: Seq<char>)
    requires
        keys_sorted(s.uploads),
    ensures
        lookup(s.uploads, id) is None ==> lookup(pruned(s, now).uploads, id) is None,
        lookup(s.uploads, id) is Some && now < u64::MAX ==> {
            let upload = lookup(s.uploads, id)->0;
            lookup(pruned(s, now).uploads, id) == if now < upload.created_at + 3600 {
                Some(upload)
            } else {
                None
            }
        },
        pruned(s, now).objects == s.objects,
        pruned(s, now).next_generation == s.next_generation,
{
    lookup_after_keep(s.uploads, is_live(now), id);
}

} // verus!
