//! What is made of the headers and the body of an upload, and what a download
//! says of its object.
use crate::listing::{
    custom_metadata, header_spec, media_headers_spec, media_plan_spec, metadata_from_headers_spec,
    multipart_plan_spec, resumable_plan_spec, upload_kind_spec, upload_name_spec, with_header,
    HeaderView, PlanView, UploadKind,
};
use crate::multipart::{
    boundary_spec, content_type_from, find_spec, found_is_first, headers_end, hyphens, line_end,
    multipart_spec, parts_spec, same_but_case, stands_at, trim_spec, MultipartView,
};
use crate::ordered::{keys_sorted, lookup, lookup_after_put, put_sorted};
use crate::storage::{MetadataView, ObjectView};
use crate::text::{decimal_spec, split_once_spec, split_spec};
use vstd::prelude::*;
use vstd::utf8::{decode_utf8, encode_utf8, valid_utf8};

verus! {

/// Whether the headers from `i` on hold a name with a value, the first of that
/// name; or, where there is no value, do not hold the name.
pub open spec fn says(headers: Seq<HeaderView>, i: int, name: Seq<char>, value: Option<Seq<char>>)
    -> bool {
    match value {
        Some(v) => exists|k: int|
            i <= k < headers.len() && #[trigger] headers[k] == (name, v) && forall|j: int|
                i <= j < k ==> (#[trigger] headers[j]).0 != name,
        None => forall|j: int| i <= j < headers.len() ==> (#[trigger] headers[j]).0 != name,
    }
}

proof fn headers_are_found(headers: Seq<HeaderView>, name: Seq<char>, i: int)
    requires
        0 <= i <= headers.len(),
    ensures
        says(headers, i, name, header_spec(headers, name, i)),
    decreases headers.len() - i,
{
    if i < headers.len() {
        if headers[i].0 == name {
            assert(headers[i] == (name, headers[i].1));
        } else {
            headers_are_found(headers, name, i + 1);
        }
    }
}

/// A header that is looked for is the first of its name; none is found where
/// no header has the name.
pub proof fn first_headers_are_found(headers: Seq<HeaderView>, name: Seq<char>)
    ensures
        says(headers, 0, name, header_spec(headers, name, 0)),
{
    headers_are_found(headers, name, 0);
}

/// Whether a header names custom metadata under a key.
pub open spec fn names_custom(header: HeaderView, key: Seq<char>) -> bool {
    header.0 == "x-goog-meta-"@ + key
}

proof fn custom_metadata_found(headers: Seq<HeaderView>, n: nat, key: Seq<char>)
    requires
        n <= headers.len(),
    ensures
        keys_sorted(custom_metadata(headers, n)),
        match lookup(custom_metadata(headers, n), key) {
            Some(v) => exists|k: int|
                0 <= k < n && names_custom(#[trigger] headers[k], key) && headers[k].1 == v
                    && forall|j: int| k < j < n ==> !names_custom(#[trigger] headers[j], key),
            None => forall|j: int| 0 <= j < n ==> !names_custom(#[trigger] headers[j], key),
        },
    decreases n,
{
    if n > 0 {
        let m = (n - 1) as nat;
        custom_metadata_found(headers, m, key);
        let before = custom_metadata(headers, m);
        let prefix = "x-goog-meta-"@;
        let last = headers[m as int];
        assert(names_custom(last, key) ==> prefix.is_prefix_of(last.0) && last.0.skip(
            prefix.len() as int,
        ) == key) by {
            if names_custom(last, key) {
                assert(prefix =~= last.0.subrange(0, prefix.len() as int));
                assert(last.0.skip(prefix.len() as int) =~= key);
            }
        }
        if prefix.is_prefix_of(last.0) {
            let found = last.0.skip(prefix.len() as int);
            assert(last.0 =~= prefix + found);
            put_sorted(before, found, last.1);
            lookup_after_put(before, found, last.1, key);
            if found == key {
                assert(names_custom(headers[m as int], key));
            }
        }
    }
}

/// The headers of an upload tell the caching, the disposition and the encoding
/// of its object, each by the first header of its name. A header whose name
/// begins with `x-goog-meta-` tells custom metadata under what stands behind
/// that; of several for one name the last counts.
pub proof fn headers_tell_of_the_object(headers: Seq<HeaderView>, key: Seq<char>)
    ensures
        ({
            let metadata = metadata_from_headers_spec(headers);
            &&& says(headers, 0, "cache-control"@, metadata.cache_control)
            &&& says(headers, 0, "content-disposition"@, metadata.content_disposition)
            &&& says(headers, 0, "content-encoding"@, metadata.content_encoding)
            &&& metadata.name is None
            &&& metadata.content_type is None
            &&& keys_sorted(metadata.metadata)
            &&& match lookup(metadata.metadata, key) {
                Some(v) => exists|k: int|
                    0 <= k < headers.len() && names_custom(#[trigger] headers[k], key)
                        && headers[k].1 == v && forall|j: int|
                        k < j < headers.len() ==> !names_custom(#[trigger] headers[j], key),
                None => forall|j: int|
                    0 <= j < headers.len() ==> !names_custom(#[trigger] headers[j], key),
            }
        }),
{
    headers_are_found(headers, "cache-control"@, 0);
    headers_are_found(headers, "content-disposition"@, 0);
    headers_are_found(headers, "content-encoding"@, 0);
    custom_metadata_found(headers, headers.len(), key);
}

/// Whether headers hold a value under a name, and under that name no other;
/// or, where there is no value, do not hold the name.
pub open spec fn carries(headers: Seq<HeaderView>, name: Seq<char>, value: Option<Seq<char>>)
    -> bool {
    forall|v: Seq<char>| #[trigger] headers.contains((name, v)) <==> value == Some(v)
}

proof fn header_added(
    headers: Seq<HeaderView>,
    name: Seq<char>,
    value: Option<Seq<char>>,
    other: HeaderView,
)
    ensures
        with_header(headers, name, value).contains(other) <==> headers.contains(other) || value
            is Some && other == (name, value->0),
{
    if value is Some {
        let after = headers.push((name, value->0));
        assert(after[headers.len() as int] == (name, value->0));
        if headers.contains(other) {
            let i = choose|i: int| 0 <= i < headers.len() && headers[i] == other;
            assert(after[i] == other);
        }
    }
}

proof fn download_header(object: ObjectView, name: Seq<char>, v: Seq<char>)
    ensures
        media_headers_spec(object).contains((name, v)) <==> {
            ||| (name, v) == ("x-goog-hash"@, "crc32c="@ + object.crc32c)
            ||| (name, v) == ("x-goog-stored-content-encoding"@, "identity"@)
            ||| (name, v) == ("content-type"@, object.content_type)
            ||| name == "cache-control"@ && object.cache_control == Some(v)
            ||| name == "content-disposition"@ && object.content_disposition == Some(v)
            ||| name == "content-encoding"@ && object.content_encoding == Some(v)
            ||| (name, v) == (
                "etag"@,
                "\""@ + decimal_spec(object.generation as nat) + "\""@,
            )
        },
{
    let h0 = seq![
        ("x-goog-hash"@, "crc32c="@ + object.crc32c),
        ("x-goog-stored-content-encoding"@, "identity"@),
        ("content-type"@, object.content_type),
    ];
    assert(h0[0] == ("x-goog-hash"@, "crc32c="@ + object.crc32c));
    assert(h0[1] == ("x-goog-stored-content-encoding"@, "identity"@));
    assert(h0[2] == ("content-type"@, object.content_type));
    assert(h0.contains((name, v)) <==> (name, v) == h0[0] || (name, v) == h0[1] || (name, v)
        == h0[2]);
    header_added(h0, "cache-control"@, object.cache_control, (name, v));
    let h1 = with_header(h0, "cache-control"@, object.cache_control);
    header_added(h1, "content-disposition"@, object.content_disposition, (name, v));
    let h2 = with_header(h1, "content-disposition"@, object.content_disposition);
    header_added(h2, "content-encoding"@, object.content_encoding, (name, v));
    let h3 = with_header(h2, "content-encoding"@, object.content_encoding);
    let tag = "\""@ + decimal_spec(object.generation as nat) + "\""@;
    header_added(h3, "etag"@, Some(tag), (name, v));
    assert(media_headers_spec(object) == with_header(h3, "etag"@, Some(tag)));
}

/// A download carries the checksum, the type and the generation of its object,
/// and its caching, its disposition and its encoding where it has them.
pub proof fn downloads_tell_of_the_object(object: ObjectView)
    ensures
        ({
            let headers = media_headers_spec(object);
            &&& carries(headers, "x-goog-hash"@, Some("crc32c="@ + object.crc32c))
            &&& carries(headers, "x-goog-stored-content-encoding"@, Some("identity"@))
            &&& carries(headers, "content-type"@, Some(object.content_type))
            &&& carries(headers, "cache-control"@, object.cache_control)
            &&& carries(headers, "content-disposition"@, object.content_disposition)
            &&& carries(headers, "content-encoding"@, object.content_encoding)
            &&& carries(
                headers,
                "etag"@,
                Some("\""@ + decimal_spec(object.generation as nat) + "\""@),
            )
        }),
{
    reveal_strlit("x-goog-hash");
    reveal_strlit("x-goog-stored-content-encoding");
    reveal_strlit("content-type");
    reveal_strlit("cache-control");
    reveal_strlit("content-disposition");
    reveal_strlit("content-encoding");
    reveal_strlit("etag");
    assert("x-goog-hash"@.len() == 11);
    assert("x-goog-stored-content-encoding"@.len() == 30);
    assert("content-type"@.len() == 12);
    assert("cache-control"@.len() == 13);
    assert("content-disposition"@.len() == 19);
    assert("content-encoding"@.len() == 16);
    assert("etag"@.len() == 4);
    assert forall|name: Seq<char>, v: Seq<char>| #[trigger]
        media_headers_spec(object).contains((name, v)) <==> {
        ||| (name, v) == ("x-goog-hash"@, "crc32c="@ + object.crc32c)
        ||| (name, v) == ("x-goog-stored-content-encoding"@, "identity"@)
        ||| (name, v) == ("content-type"@, object.content_type)
        ||| name == "cache-control"@ && object.cache_control == Some(v)
        ||| name == "content-disposition"@ && object.content_disposition == Some(v)
        ||| name == "content-encoding"@ && object.content_encoding == Some(v)
        ||| (name, v) == ("etag"@, "\""@ + decimal_spec(object.generation as nat) + "\""@)
    } by {
        download_header(object, name, v);
    }
}

/// An object is named by the query, and by its metadata where the query names
/// none. Without a name, or with an empty one, an upload is refused.
pub proof fn uploads_are_named(query: Option<Seq<char>>, metadata: Option<Seq<char>>)
    ensures
        query is Some && query->0.len() > 0 ==> upload_name_spec(query, metadata) == Ok::<
            Seq<char>,
            (u16, Seq<char>),
        >(query->0),
        query is None && metadata is Some && metadata->0.len() > 0 ==> upload_name_spec(
            query,
            metadata,
        ) == Ok::<Seq<char>, (u16, Seq<char>)>(metadata->0),
        upload_name_spec(query, metadata) is Err ==> upload_name_spec(query, metadata)->Err_0 == (
            400u16,
            "missing object name"@,
        ),
        upload_name_spec(query, metadata) is Ok ==> upload_name_spec(query, metadata)->Ok_0.len()
            > 0,
        query is None && metadata is None ==> upload_name_spec(query, metadata) is Err,
        query is Some && query->0.len() == 0 ==> upload_name_spec(query, metadata) is Err,
{
}

/// An upload that names another goes on with it. Otherwise the query says what
/// it is, or the header where the query says nothing, or it is plain content.
pub proof fn kinds_of_uploads_are_told(upload_type: Option<Seq<char>>, protocol: Option<Seq<char>>)
    ensures
        upload_kind_spec(true, upload_type, protocol) == Ok::<UploadKind, (u16, Seq<char>)>(
            UploadKind::Resume,
        ),
        upload_type is Some ==> upload_kind_spec(false, upload_type, protocol) == upload_kind_spec(
            false,
            None,
            upload_type,
        ),
        upload_kind_spec(false, None, None) == Ok::<UploadKind, (u16, Seq<char>)>(
            UploadKind::Media,
        ),
        upload_kind_spec(false, None, Some("media"@)) == Ok::<UploadKind, (u16, Seq<char>)>(
            UploadKind::Media,
        ),
        upload_kind_spec(false, None, Some("resumable"@)) == Ok::<UploadKind, (u16, Seq<char>)>(
            UploadKind::Resumable,
        ),
        upload_kind_spec(false, None, Some("multipart"@)) == Ok::<UploadKind, (u16, Seq<char>)>(
            UploadKind::Multipart,
        ),
        protocol is Some && protocol->0 != "media"@ && protocol->0 != "resumable"@ && protocol->0
            != "multipart"@ ==> upload_kind_spec(false, None, protocol) == Err::<
            UploadKind,
            (u16, Seq<char>),
        >((400, "unsupported uploadType: "@ + protocol->0)),
{
    reveal_strlit("media");
    reveal_strlit("resumable");
    reveal_strlit("multipart");
    assert("media"@.len() == 5 && "resumable"@.len() == 9 && "multipart"@.len() == 9);
    assert("resumable"@[0] == 'r' && "multipart"@[0] == 'm');
}

/// A named upload of plain content saves its body under the name, with the type
/// that its headers name.
pub proof fn plain_content_is_saved(name: Seq<char>, headers: Seq<HeaderView>, body: Seq<u8>)
    requires
        name.len() > 0,
    ensures
        media_plan_spec(Some(name), headers, body) matches Ok(PlanView::Save(n, content, said, t))
            && n == name && content == body && t is None && says(
            headers,
            0,
            "content-type"@,
            said.content_type,
        ) && says(headers, 0, "cache-control"@, said.cache_control),
        media_plan_spec(None, headers, body) is Err,
{
    headers_are_found(headers, "content-type"@, 0);
    headers_are_found(headers, "cache-control"@, 0);
}

/// An upload in two parts saves the second with what the first says and, as
/// its type where the first names none, the type of the second. It is named by
/// the query or by the first part.
pub proof fn second_parts_are_saved(
    query: Option<Seq<char>>,
    upload: MultipartView,
    metadata: MetadataView,
)
    ensures
        match multipart_plan_spec(query, upload, metadata) {
            Ok(PlanView::Save(name, content, said, t)) => content == upload.media && said
                == metadata && t == upload.media_type && name.len() > 0 && if query is Some {
                name == query->0
            } else {
                metadata.name == Some(name)
            },
            Ok(PlanView::Open(..)) => false,
            Err(e) => e == (400u16, "missing object name"@) && if query is Some {
                query->0.len() == 0
            } else {
                metadata.name is None || metadata.name->0.len() == 0
            },
        },
{
}

/// An upload in several requests is opened with what was said of its object,
/// and with the announced type where no type was named.
pub proof fn announced_types_are_taken(
    query: Option<Seq<char>>,
    headers: Seq<HeaderView>,
    metadata: MetadataView,
)
    ensures
        match resumable_plan_spec(query, headers, metadata) {
            Ok(PlanView::Open(name, said)) => {
                &&& name.len() > 0
                &&& query is Some ==> name == query->0
                &&& query is None ==> metadata.name == Some(name)
                &&& metadata.content_type is Some ==> said.content_type == metadata.content_type
                &&& metadata.content_type is None ==> says(
                    headers,
                    0,
                    "x-upload-content-type"@,
                    said.content_type,
                )
                &&& said.cache_control == metadata.cache_control
                &&& said.content_disposition == metadata.content_disposition
                &&& said.content_encoding == metadata.content_encoding
                &&& said.metadata == metadata.metadata
            },
            Ok(PlanView::Save(..)) => false,
            Err(e) => e == (400u16, "missing object name"@) && if query is Some {
                query->0.len() == 0
            } else {
                metadata.name is None || metadata.name->0.len() == 0
            },
        },
{
    headers_are_found(headers, "x-upload-content-type"@, 0);
}

/// Whether a line ends at `i`.
pub open spec fn line_ends_at(body: Seq<u8>, i: int) -> bool {
    0 <= i && i + 2 <= body.len() && body[i] == 13 && body[i + 1] == 10
}

/// Whether a part stands in a body between the markers at `at` and at `next`:
/// behind the first marker a line ends; the headers follow up to the first
/// empty line, and the content up to the first line that begins with a marker.
pub open spec fn is_part(
    body: Seq<u8>,
    marker: Seq<u8>,
    at: int,
    headers: Seq<u8>,
    content: Seq<u8>,
    next: int,
) -> bool {
    let start = at + marker.len() + 2;
    let end = start + headers.len();
    &&& 0 <= at
    &&& next == end + 4 + content.len() + 2
    &&& stands_at(body, marker, at)
    &&& line_ends_at(body, start - 2)
    &&& stands_at(body, headers, start)
    &&& line_ends_at(body, end) && line_ends_at(body, end + 2)
    &&& stands_at(body, content, end + 4)
    &&& line_ends_at(body, next - 2)
    &&& stands_at(body, marker, next)
    &&& forall|j: int|
        start <= j < end ==> !(#[trigger] line_ends_at(body, j) && line_ends_at(body, j + 2))
    &&& forall|j: int|
        end + 4 <= j < next - 2 ==> !(#[trigger] line_ends_at(body, j) && stands_at(
            body,
            marker,
            j + 2,
        ))
}

proof fn first_place<T>(hay: Seq<T>, needle: Seq<T>, i: int, k: int)
    requires
        0 <= i <= k,
        stands_at(hay, needle, k),
        forall|j: int| i <= j < k ==> !#[trigger] stands_at(hay, needle, j),
    ensures
        find_spec(hay, needle, i) == Some(k),
{
    found_is_first(hay, needle, i);
}

proof fn empty_line(body: Seq<u8>, j: int)
    ensures
        stands_at(body, headers_end(), j) <==> line_ends_at(body, j) && line_ends_at(body, j + 2),
{
    if 0 <= j && j + 4 <= body.len() {
        let part = body.subrange(j, j + 4);
        if line_ends_at(body, j) && line_ends_at(body, j + 2) {
            assert(part =~= headers_end());
        }
        if part == headers_end() {
            assert(part[0] == 13 && part[1] == 10 && part[2] == 13 && part[3] == 10);
        }
    }
}

proof fn marker_on_a_line(body: Seq<u8>, marker: Seq<u8>, j: int)
    ensures
        stands_at(body, line_end() + marker, j) <==> line_ends_at(body, j) && stands_at(
            body,
            marker,
            j + 2,
        ),
{
    let n = marker.len() as int;
    if 0 <= j && j + 2 + n <= body.len() {
        let part = body.subrange(j, j + 2 + n);
        let rest = body.subrange(j + 2, j + 2 + n);
        let wanted = line_end() + marker;
        assert(wanted.len() == 2 + n);
        assert(rest =~= part.skip(2));
        assert(wanted.skip(2) =~= marker);
        assert(wanted[0] == 13 && wanted[1] == 10);
        if line_ends_at(body, j) && rest == marker {
            assert(part =~= wanted);
        }
        if part == wanted {
            assert(part[0] == 13 && part[1] == 10);
        }
    }
}

proof fn part_is_read(
    body: Seq<u8>,
    marker: Seq<u8>,
    at: int,
    headers: Seq<u8>,
    content: Seq<u8>,
    next: int,
)
    requires
        is_part(body, marker, at, headers, content, next),
        valid_utf8(headers),
    ensures
        parts_spec(body, marker, at) == match parts_spec(body, marker, next) {
            Err(e) => Err(e),
            Ok(rest) => Ok::<Seq<(Seq<char>, Seq<u8>)>, Seq<char>>(
                seq![(decode_utf8(headers), content)] + rest,
            ),
        },
{
    let after = at + marker.len();
    let start = after + 2;
    let end = start + headers.len();
    assert(!stands_at(body, hyphens(), after)) by {
        if stands_at(body, hyphens(), after) {
            assert(body.subrange(after, after + 2)[0] == hyphens()[0]);
        }
    }
    assert(stands_at(body, line_end(), after)) by {
        assert(body.subrange(after, after + 2) =~= line_end());
    }
    empty_line(body, end);
    assert forall|j: int| start <= j < end implies !#[trigger] stands_at(
        body,
        headers_end(),
        j,
    ) by {
        empty_line(body, j);
    }
    first_place(body, headers_end(), start, end);
    marker_on_a_line(body, marker, next - 2);
    assert forall|j: int| end + 4 <= j < next - 2 implies !#[trigger] stands_at(
        body,
        line_end() + marker,
        j,
    ) by {
        marker_on_a_line(body, marker, j);
    }
    first_place(body, line_end() + marker, end + 4, next - 2);
}

/// A body with two parts between its markers gives back both: the content of
/// the first as the metadata, the content of the second as the media, each byte
/// for byte, and the type that the headers of the second name.
pub proof fn parts_are_read_back(
    content_type: Seq<char>,
    name: Seq<char>,
    body: Seq<u8>,
    first: int,
    first_headers: Seq<u8>,
    metadata: Seq<u8>,
    second: int,
    second_headers: Seq<u8>,
    media: Seq<u8>,
    end: int,
)
    requires
        boundary_spec(content_type) == Some(name),
        forall|j: int| 0 <= j < first ==> !#[trigger] stands_at(body, encode_utf8("--"@ + name), j),
        is_part(body, encode_utf8("--"@ + name), first, first_headers, metadata, second),
        is_part(body, encode_utf8("--"@ + name), second, second_headers, media, end),
        stands_at(body, seq![0x2d, 0x2d], end + encode_utf8("--"@ + name).len()),
        valid_utf8(first_headers),
        valid_utf8(second_headers),
    ensures
        multipart_spec(content_type, body) matches Ok(upload) && upload.metadata == metadata
            && upload.media == media && upload.media_type == content_type_from(
            split_spec(decode_utf8(second_headers), '\n'),
            0,
        ),
{
    let marker = encode_utf8("--"@ + name);
    first_place(body, marker, 0, first);
    part_is_read(body, marker, first, first_headers, metadata, second);
    part_is_read(body, marker, second, second_headers, media, end);
    assert(parts_spec(body, marker, end) == Ok::<Seq<(Seq<char>, Seq<u8>)>, Seq<char>>(
        Seq::empty(),
    ));
}

/// A part's type is what stands behind the colon, without the white space
/// around it, in its first line that is named `content-type` in large or small
/// letters.
pub proof fn types_of_parts_are_read(lines: Seq<Seq<char>>, i: int)
    requires
        0 <= i < lines.len(),
    ensures
        split_once_spec(lines[i], ':') is Some && same_but_case(
            (split_once_spec(lines[i], ':')->0).0,
            "content-type"@,
        ) ==> content_type_from(lines, i) == Some(
            trim_spec((split_once_spec(lines[i], ':')->0).1),
        ),
        split_once_spec(lines[i], ':') is None ==> content_type_from(lines, i) == content_type_from(
            lines,
            i + 1,
        ),
        content_type_from(lines, lines.len() as int) is None,
{
}

} // verus!
