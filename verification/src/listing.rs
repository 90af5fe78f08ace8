//! Listings of a bucket, the headers of a download, and what an upload asks
//! for.
use crate::buckets::{bucket_of, find_text, ApiError, StorageData};
use crate::encoding::{base64_bytes, base64_decode, base64_encode, base64_text, text_of_utf8};
use crate::json::{items_view, object1, with_member, Json, JsonView};
use crate::multipart::{find_spec, Multipart, MultipartView};
use crate::ordered::{keys_sorted, put, put_sorted, OrderedMap};
use crate::storage::{
    etag, etag_text, object_json, object_json_spec, MetadataView, ObjectView, StoredObject,
    UploadMetadata,
};
use crate::text::{
    after_prefix, cat, chars_of, decimal, decimal_reads_back, decimal_spec, is_blank, opt_text,
    parse_unsigned, parse_unsigned_spec, same, starts_with, strip_prefix, text_of,
};
use crate::web_values::single;
use vstd::prelude::*;
use vstd::utf8::{
    decode_utf8, encode_utf8, encode_utf8_decode_utf8, encode_utf8_valid_utf8, valid_utf8,
};

verus! {

/// One line of a listing: an object, or the front that several names share.
pub struct Entry {
    pub item: Option<Json>,
}

impl View for Entry {
    type V = Option<JsonView>;

    open spec fn view(&self) -> Option<JsonView> {
        match self.item {
            Some(item) => Some(item@),
            None => None,
        }
    }
}

/// The front of a name up to the first delimiter behind the prefix, where
/// there is one.
pub open spec fn shared_front(
    name: Seq<char>,
    prefix: Seq<char>,
    delimiter: Option<Seq<char>>,
) -> Option<Seq<char>> {
    match delimiter {
        None => None,
        Some(d) => match find_spec(name.skip(prefix.len() as int), d, 0) {
            Some(k) => Some(name.take(prefix.len() + k + d.len())),
            None => None,
        },
    }
}

/// The lines of a listing of the first `n` objects, by name. Names that share
/// a front make one line together.
pub open spec fn entries_spec(
    objects: Seq<ObjectView>,
    n: nat,
    prefix: Seq<char>,
    delimiter: Option<Seq<char>>,
) -> Seq<(Seq<char>, Option<JsonView>)>
    decreases n,
{
    if n == 0 || n > objects.len() {
        Seq::empty()
    } else {
        let before = entries_spec(objects, (n - 1) as nat, prefix, delimiter);
        let object = objects[n - 1];
        match shared_front(object.name, prefix, delimiter) {
            Some(front) => put(before, front, None),
            None => put(before, object.name, Some(object_json_spec(object))),
        }
    }
}

/// Where a page begins: at the start where no token is given, else where the
/// token says; none where it says nothing, given what it was decoded to.
pub open spec fn offset_spec(token: Option<Seq<char>>, decoded: Option<Seq<u8>>) -> Option<nat> {
    match token {
        None => Some(0),
        Some(_) => match decoded {
            None => None,
            Some(bytes) => if valid_utf8(bytes) {
                parse_unsigned_spec(decode_utf8(bytes), usize::MAX as nat)
            } else {
                None
            },
        },
    }
}

/// How many lines a page has at most: between 1 and 1000.
pub open spec fn limit_spec(max_results: Option<usize>) -> nat {
    match max_results {
        None => 1000,
        Some(n) => if n < 1 {
            1
        } else if n > 1000 {
            1000
        } else {
            n as nat
        },
    }
}

/// The lines of a page.
pub open spec fn page_lines(
    entries: Seq<(Seq<char>, Option<JsonView>)>,
    offset: nat,
    limit: nat,
) -> Seq<(Seq<char>, Option<JsonView>)> {
    if offset >= entries.len() {
        Seq::empty()
    } else if offset + limit < entries.len() {
        entries.subrange(offset as int, (offset + limit) as int)
    } else {
        entries.skip(offset as int)
    }
}

/// The objects among lines.
pub open spec fn line_items(lines: Seq<(Seq<char>, Option<JsonView>)>) -> Seq<JsonView>
    decreases lines.len(),
{
    if lines.len() == 0 {
        Seq::empty()
    } else {
        let before = line_items(lines.drop_last());
        match lines.last().1 {
            Some(item) => before.push(item),
            None => before,
        }
    }
}

/// The shared fronts among lines.
pub open spec fn line_fronts(lines: Seq<(Seq<char>, Option<JsonView>)>) -> Seq<JsonView>
    decreases lines.len(),
{
    if lines.len() == 0 {
        Seq::empty()
    } else {
        let before = line_fronts(lines.drop_last());
        match lines.last().1 {
            Some(_) => before,
            None => before.push(JsonView::Text(lines.last().0)),
        }
    }
}

/// The token of the page that begins at `offset`.
pub open spec fn token_spec(offset: nat) -> Seq<char> {
    base64_text(encode_utf8(decimal_spec(offset)))
}

/// The JSON of a page. It names the next page where there is one.
pub open spec fn page_json_spec(
    entries: Seq<(Seq<char>, Option<JsonView>)>,
    offset: nat,
    limit: nat,
) -> JsonView {
    let lines = page_lines(entries, offset, limit);
    let v = object1("kind"@, JsonView::Text("storage#objects"@));
    let v = with_member(v, "items"@, JsonView::Array(line_items(lines)));
    let v = with_member(v, "prefixes"@, JsonView::Array(line_fronts(lines)));
    if offset + limit < entries.len() {
        with_member(v, "nextPageToken"@, JsonView::Text(token_spec(offset + limit)))
    } else {
        v
    }
}

/// The lines of the page at `offset` and of all pages behind it.
pub open spec fn pages_from(
    entries: Seq<(Seq<char>, Option<JsonView>)>,
    offset: nat,
    limit: nat,
) -> Seq<(Seq<char>, Option<JsonView>)>
    decreases entries.len() - offset,
{
    let lines = page_lines(entries, offset, limit);
    if limit > 0 && offset + limit < entries.len() {
        lines + pages_from(entries, offset + limit, limit)
    } else {
        lines
    }
}

/// A client that follows the pages from the start is told every line once and
/// in order.
pub proof fn pages_make_the_listing(
    entries: Seq<(Seq<char>, Option<JsonView>)>,
    offset: nat,
    max_results: Option<usize>,
)
    requires
        offset <= entries.len(),
    ensures
        pages_from(entries, offset, limit_spec(max_results)) == entries.skip(offset as int),
    decreases entries.len() - offset,
{
    let limit = limit_spec(max_results);
    if offset + limit < entries.len() {
        pages_make_the_listing(entries, offset + limit, max_results);
        assert(entries.subrange(offset as int, (offset + limit) as int) + entries.skip(
            (offset + limit) as int,
        ) =~= entries.skip(offset as int));
    } else if offset >= entries.len() {
        assert(entries.skip(offset as int) =~= Seq::empty());
    }
}

/// The lines of a listing stand in the order of their names, each once.
pub proof fn listing_is_sorted(
    objects: Seq<ObjectView>,
    n: nat,
    prefix: Seq<char>,
    delimiter: Option<Seq<char>>,
)
    ensures
        keys_sorted(entries_spec(objects, n, prefix, delimiter)),
    decreases n,
{
    if n > 0 && n <= objects.len() {
        listing_is_sorted(objects, (n - 1) as nat, prefix, delimiter);
        let before = entries_spec(objects, (n - 1) as nat, prefix, delimiter);
        let object = objects[n - 1];
        match shared_front(object.name, prefix, delimiter) {
            Some(front) => put_sorted(before, front, None),
            None => put_sorted(before, object.name, Some(object_json_spec(object))),
        }
    }
}

/// The view of a list of objects.
pub open spec fn objects_view(objects: Seq<&StoredObject>) -> Seq<ObjectView> {
    objects.map_values(|o: &StoredObject| o@)
}

fn front_of(name: &str, prefix: &str, delimiter: Option<&str>) -> (r: Option<String>)
    requires
        prefix@.is_prefix_of(name@),
    ensures
        opt_text(r) == shared_front(
            name@,
            prefix@,
            match delimiter {
                Some(d) => Some(d@),
                None => None,
            },
        ),
{
    match delimiter {
        None => None,
        Some(d) => {
            let chars = chars_of(name);
            let from: usize = chars_of(prefix).len();
            let length: usize = chars_of(d).len();
            let rest = text_of(chars.as_slice(), from, chars.len());
            assert(rest@ =~= name@.skip(from as int));
            match find_text(rest.as_str(), d) {
                Some(k) => {
                    let front = text_of(chars.as_slice(), 0, from + k + length);
                    assert(front@ =~= name@.take(prefix@.len() + k + d@.len()));
                    Some(front)
                },
                None => None,
            }
        },
    }
}

fn lines_of(matching: &Vec<&StoredObject>, prefix: &str, delimiter: Option<&str>) -> (r: OrderedMap<
    Entry,
>)
    requires
        forall|i: int| 0 <= i < matching@.len() ==> prefix@.is_prefix_of((#[trigger] matching@[i]).name@),
    ensures
        r@ == entries_spec(
            objects_view(matching@),
            matching@.len(),
            prefix@,
            match delimiter {
                Some(d) => Some(d@),
                None => None,
            },
        ),
{
    let ghost all = objects_view(matching@);
    let mut lines: OrderedMap<Entry> = OrderedMap::new();
    let mut i: usize = 0;
    while i < matching.len()
        invariant
            i <= matching@.len(),
            all == objects_view(matching@),
            forall|i: int|
                0 <= i < matching@.len() ==> prefix@.is_prefix_of((#[trigger] matching@[i]).name@),
            lines@ == entries_spec(
                all,
                i as nat,
                prefix@,
                match delimiter {
                    Some(d) => Some(d@),
                    None => None,
                },
            ),
        decreases matching.len() - i,
    {
        let object = matching[i];
        assert(all[i as int] == object@);
        assert(prefix@.is_prefix_of(matching@[i as int].name@));
        match front_of(object.name.as_str(), prefix, delimiter) {
            Some(front) => {
                lines.insert(front.as_str(), Entry { item: None });
            },
            None => {
                lines.insert(object.name.as_str(), Entry { item: Some(object_json(object)) });
            },
        }
        i += 1;
    }
    lines
}

/// Lists objects whose names begin with `prefix`, given what the page token
/// was decoded to.
pub fn decoded_list(
    matching: &Vec<&StoredObject>,
    prefix: &str,
    delimiter: Option<&str>,
    page_token: Option<&str>,
    decoded: Option<Vec<u8>>,
    max_results: Option<usize>,
) -> (r: Result<Json, ApiError>)
    requires
        forall|i: int| 0 <= i < matching@.len() ==> prefix@.is_prefix_of((#[trigger] matching@[i]).name@),
    ensures
        match offset_spec(
            match page_token {
                Some(token) => Some(token@),
                None => None,
            },
            crate::storage::opt_bytes(decoded),
        ) {
            None => r is Err && r->Err_0@ == (400u16, "invalid page token"@),
            Some(offset) => r is Ok && r->Ok_0@ == page_json_spec(
                entries_spec(
                    objects_view(matching@),
                    matching@.len(),
                    prefix@,
                    match delimiter {
                        Some(d) => Some(d@),
                        None => None,
                    },
                ),
                offset,
                limit_spec(max_results),
            ),
        },
{
    let lines = lines_of(matching, prefix, delimiter);
    let offset: usize = match page_token {
        None => 0,
        Some(_) => match decoded {
            None => {
                return Err(ApiError::new(400, "invalid page token"));
            },
            Some(bytes) => match text_of_utf8(bytes) {
                None => {
                    return Err(ApiError::new(400, "invalid page token"));
                },
                Some(text) => match parse_unsigned(text.as_str(), usize::MAX as u64) {
                    Some(n) => n as usize,
                    None => {
                        return Err(ApiError::new(400, "invalid page token"));
                    },
                },
            },
        },
    };
    let limit: usize = match max_results {
        None => 1000,
        Some(n) => if n < 1 {
            1
        } else if n > 1000 {
            1000
        } else {
            n
        },
    };
    let total: usize = lines.len();
    let has_more = offset < total && limit < total - offset;
    let end: usize = if has_more {
        offset + limit
    } else {
        total
    };
    let ghost page = page_lines(lines@, offset as nat, limit as nat);
    let mut items: Vec<Json> = Vec::new();
    let mut fronts: Vec<Json> = Vec::new();
    let mut i: usize = offset;
    assert(page.take(0) =~= Seq::empty());
    assert(items_view(items@) =~= Seq::empty());
    assert(items_view(fronts@) =~= Seq::empty());
    while i < end
        invariant
            offset <= end ==> offset <= i <= end,
            offset > end ==> i == offset,
            end <= lines@.len(),
            page == page_lines(lines@, offset as nat, limit as nat),
            offset <= end ==> page.len() == end - offset,
            offset <= end ==> forall|j: int| 0 <= j < page.len() ==> page[j] == lines@[offset + j],
            items_view(items@) == line_items(page.take(i - offset)),
            items_view(fronts@) == line_fronts(page.take(i - offset)),
        decreases end - i,
    {
        let ghost n = i - offset;
        assert(page.take(n + 1).drop_last() =~= page.take(n));
        assert(page.take(n + 1).last() == lines@[i as int]);
        match &lines.value_at(i).item {
            Some(item) => {
                let ghost before = items_view(items@);
                let copy = item.duplicate();
                items.push(copy);
                assert(items_view(items@) =~= before.push(copy@));
            },
            None => {
                let ghost before = items_view(fronts@);
                let front = Json::of_text(lines.key_at(i));
                fronts.push(front);
                assert(items_view(fronts@) =~= before.push(front@));
            },
        }
        i += 1;
    }
    assert(page.take(i - offset) =~= page);
    let listing = single("kind", Json::of_text("storage#objects")).with(
        "items",
        Json::array(items),
    ).with("prefixes", Json::array(fronts));
    if has_more {
        Ok(listing.with("nextPageToken", Json::Text(write_page_token(end))))
    } else {
        Ok(listing)
    }
}

/// Lists objects whose names begin with `prefix`.
pub fn list_response(
    matching: &Vec<&StoredObject>,
    prefix: &str,
    delimiter: Option<&str>,
    page_token: Option<&str>,
    max_results: Option<usize>,
) -> (r: Result<Json, ApiError>)
    requires
        forall|i: int| 0 <= i < matching@.len() ==> prefix@.is_prefix_of((#[trigger] matching@[i]).name@),
    ensures
        match offset_spec(
            match page_token {
                Some(token) => Some(token@),
                None => None,
            },
            match page_token {
                Some(token) => base64_bytes(token@),
                None => None,
            },
        ) {
            None => r is Err && r->Err_0@ == (400u16, "invalid page token"@),
            Some(offset) => r is Ok && r->Ok_0@ == page_json_spec(
                entries_spec(
                    objects_view(matching@),
                    matching@.len(),
                    prefix@,
                    match delimiter {
                        Some(d) => Some(d@),
                        None => None,
                    },
                ),
                offset,
                limit_spec(max_results),
            ),
        },
{
    let decoded = match page_token {
        Some(token) => base64_decode(token),
        None => None,
    };
    decoded_list(matching, prefix, delimiter, page_token, decoded, max_results)
}

/// Writes the token of the page that begins at `offset`. A listing that is
/// handed the token begins there.
pub fn write_page_token(offset: usize) -> (r: String)
    ensures
        r@ == token_spec(offset as nat),
        offset_spec(Some(r@), base64_bytes(r@)) == Some(offset as nat),
{
    let text = decimal(offset as u64);
    proof {
        encode_utf8_valid_utf8(text@);
        encode_utf8_decode_utf8(text@);
        decimal_reads_back(offset as nat);
    }
    base64_encode(text.as_str().as_bytes())
}

/// Those of the first `n` objects whose names begin with `prefix`.
pub open spec fn beginning_with(
    objects: Seq<(Seq<char>, ObjectView)>,
    n: nat,
    prefix: Seq<char>,
) -> Seq<ObjectView>
    decreases n,
{
    if n == 0 || n > objects.len() {
        Seq::empty()
    } else {
        let before = beginning_with(objects, (n - 1) as nat, prefix);
        if prefix.is_prefix_of(objects[n - 1].1.name) {
            before.push(objects[n - 1].1)
        } else {
            before
        }
    }
}

/// The text of a parameter, empty where it is missing.
pub open spec fn or_empty(text: Option<&str>) -> Seq<char> {
    match text {
        Some(t) => t@,
        None => Seq::empty(),
    }
}

/// A delimiter that is not empty.
pub open spec fn used_delimiter(delimiter: Option<&str>) -> Option<Seq<char>> {
    match delimiter {
        Some(d) => if d@.len() > 0 {
            Some(d@)
        } else {
            None
        },
        None => None,
    }
}

impl StorageData {
    /// Lists the objects of a bucket.
    pub fn list_objects(
        &self,
        bucket: &str,
        prefix: Option<&str>,
        delimiter: Option<&str>,
        page_token: Option<&str>,
        max_results: Option<usize>,
    ) -> (r: Result<Json, ApiError>)
        ensures
            match offset_spec(
                match page_token {
                    Some(token) => Some(token@),
                    None => None,
                },
                match page_token {
                    Some(token) => base64_bytes(token@),
                    None => None,
                },
            ) {
                None => r is Err && r->Err_0@ == (400u16, "invalid page token"@),
                Some(offset) => {
                    let objects = bucket_of(self@, bucket@);
                    let found = beginning_with(objects, objects.len(), or_empty(prefix));
                    r is Ok && r->Ok_0@ == page_json_spec(
                        entries_spec(
                            found,
                            found.len(),
                            or_empty(prefix),
                            used_delimiter(delimiter),
                        ),
                        offset,
                        limit_spec(max_results),
                    )
                },
            },
    {
        let front = match prefix {
            Some(p) => p.to_owned(),
            None => String::new(),
        };
        assert(front@ =~= or_empty(prefix));
        let cut = match delimiter {
            Some(d) => if is_blank(d) {
                None
            } else {
                Some(d)
            },
            None => None,
        };
        let mut matching: Vec<&StoredObject> = Vec::new();
        assert(objects_view(matching@) =~= Seq::empty());
        if let Some(objects) = self.objects.get(bucket) {
            let mut i: usize = 0;
            while i < objects.len()
                invariant
                    i <= objects@.len(),
                    front@ == or_empty(prefix),
                    objects_view(matching@) == beginning_with(objects@, i as nat, front@),
                    forall|j: int|
                        0 <= j < matching@.len() ==> front@.is_prefix_of(
                            (#[trigger] matching@[j]).name@,
                        ),
                decreases objects@.len() - i,
            {
                let object = objects.value_at(i);
                if starts_with(object.name.as_str(), front.as_str()) {
                    let ghost before = objects_view(matching@);
                    matching.push(object);
                    assert(objects_view(matching@) =~= before.push(object@));
                }
                i += 1;
            }
        }
        list_response(&matching, front.as_str(), cut, page_token, max_results)
    }
}

/// One header: its name and its value.
pub type HeaderView = (Seq<char>, Seq<char>);

/// The view of headers.
pub open spec fn headers_view(headers: Seq<(String, String)>) -> Seq<HeaderView> {
    headers.map_values(|h: (String, String)| (h.0@, h.1@))
}

/// A header where there is a text for it.
pub open spec fn with_header(headers: Seq<HeaderView>, name: Seq<char>, value: Option<Seq<char>>)
    -> Seq<HeaderView> {
    match value {
        Some(v) => headers.push((name, v)),
        None => headers,
    }
}

/// The headers of a download.
pub open spec fn media_headers_spec(object: ObjectView) -> Seq<HeaderView> {
    let h = seq![
        ("x-goog-hash"@, "crc32c="@ + object.crc32c),
        ("x-goog-stored-content-encoding"@, "identity"@),
        ("content-type"@, object.content_type),
    ];
    let h = with_header(h, "cache-control"@, object.cache_control);
    let h = with_header(h, "content-disposition"@, object.content_disposition);
    let h = with_header(h, "content-encoding"@, object.content_encoding);
    h.push(("etag"@, etag(object.generation)))
}

fn add_header(headers: &mut Vec<(String, String)>, name: &str, value: &Option<String>)
    ensures
        headers_view(final(headers)@) == with_header(
            headers_view(old(headers)@),
            name@,
            opt_text(*value),
        ),
{
    if let Some(v) = value {
        let ghost before = headers_view(headers@);
        headers.push((name.to_owned(), v.clone()));
        assert(headers_view(headers@) =~= before.push((name@, v@)));
    }
}

/// Writes the headers of a download.
pub fn media_headers(object: &StoredObject) -> (r: Vec<(String, String)>)
    ensures
        headers_view(r@) == media_headers_spec(object@),
{
    let mut headers: Vec<(String, String)> = Vec::new();
    let hash = cat("crc32c=", object.crc32c.as_str());
    headers.push(("x-goog-hash".to_owned(), hash));
    headers.push(("x-goog-stored-content-encoding".to_owned(), "identity".to_owned()));
    headers.push(("content-type".to_owned(), object.content_type.clone()));
    assert(headers_view(headers@) =~= seq![
        ("x-goog-hash"@, "crc32c="@ + object.crc32c@),
        ("x-goog-stored-content-encoding"@, "identity"@),
        ("content-type"@, object.content_type@),
    ]);
    add_header(&mut headers, "cache-control", &object.cache_control);
    add_header(&mut headers, "content-disposition", &object.content_disposition);
    add_header(&mut headers, "content-encoding", &object.content_encoding);
    let ghost before = headers_view(headers@);
    headers.push(("etag".to_owned(), etag_text(object.generation)));
    assert(headers_view(headers@) =~= before.push(("etag"@, etag(object.generation))));
    headers
}

/// The value of the first header of a name.
pub open spec fn header_spec(headers: Seq<HeaderView>, name: Seq<char>, i: int) -> Option<Seq<char>>
    decreases headers.len() - i,
{
    if i < 0 || i >= headers.len() {
        None
    } else if headers[i].0 == name {
        Some(headers[i].1)
    } else {
        header_spec(headers, name, i + 1)
    }
}

/// Finds a header.
pub fn header_string(headers: &Vec<(String, String)>, name: &str) -> (r: Option<String>)
    ensures
        opt_text(r) == header_spec(headers_view(headers@), name@, 0),
{
    let ghost all = headers_view(headers@);
    let mut i: usize = 0;
    while i < headers.len()
        invariant
            i <= headers@.len(),
            all == headers_view(headers@),
            header_spec(all, name@, 0) == header_spec(all, name@, i as int),
        decreases headers.len() - i,
    {
        assert(all[i as int] == (headers@[i as int].0@, headers@[i as int].1@));
        if same(headers[i].0.as_str(), name) {
            return Some(headers[i].1.clone());
        }
        i += 1;
    }
    None
}

/// The custom metadata that the first `n` headers name. Of two with the same
/// name the later stays.
pub open spec fn custom_metadata(headers: Seq<HeaderView>, n: nat) -> Seq<(Seq<char>, Seq<char>)>
    decreases n,
{
    if n == 0 || n > headers.len() {
        Seq::empty()
    } else {
        let before = custom_metadata(headers, (n - 1) as nat);
        match after_prefix(headers[n - 1].0, "x-goog-meta-"@) {
            Some(key) => put(before, key, headers[n - 1].1),
            None => before,
        }
    }
}

/// What the headers of an upload say of its object.
pub open spec fn metadata_from_headers_spec(headers: Seq<HeaderView>) -> MetadataView {
    MetadataView {
        name: None,
        content_type: None,
        cache_control: header_spec(headers, "cache-control"@, 0),
        content_disposition: header_spec(headers, "content-disposition"@, 0),
        content_encoding: header_spec(headers, "content-encoding"@, 0),
        metadata: custom_metadata(headers, headers.len()),
    }
}

/// Reads what the headers of an upload say of its object. The names of the
/// headers are in small letters.
pub fn metadata_from_headers(headers: &Vec<(String, String)>) -> (r: UploadMetadata)
    ensures
        r@ == metadata_from_headers_spec(headers_view(headers@)),
{
    let ghost all = headers_view(headers@);
    let mut metadata: OrderedMap<String> = OrderedMap::new();
    let mut i: usize = 0;
    while i < headers.len()
        invariant
            i <= headers@.len(),
            all == headers_view(headers@),
            metadata@ == custom_metadata(all, i as nat),
        decreases headers.len() - i,
    {
        assert(all[i as int] == (headers@[i as int].0@, headers@[i as int].1@));
        if let Some(key) = strip_prefix(headers[i].0.as_str(), "x-goog-meta-") {
            metadata.insert(key.as_str(), headers[i].1.clone());
        }
        i += 1;
    }
    UploadMetadata {
        name: None,
        content_type: None,
        cache_control: header_string(headers, "cache-control"),
        content_disposition: header_string(headers, "content-disposition"),
        content_encoding: header_string(headers, "content-encoding"),
        metadata,
    }
}

/// What an upload asks for.
#[derive(Clone, Copy, PartialEq, Eq, Debug, Structural)]
pub enum UploadKind {
    /// To go on with an upload in several requests.
    Resume,
    /// To open an upload in several requests.
    Resumable,
    /// To save the second part of the body under the metadata of the first.
    Multipart,
    /// To save the body.
    Media,
}

/// The protocol of an upload: the one that the query names, else the one of
/// the header, else that of plain content.
pub open spec fn protocol_spec(upload_type: Option<Seq<char>>, protocol: Option<Seq<char>>) -> Seq<
    char,
> {
    match upload_type {
        Some(t) => t,
        None => match protocol {
            Some(p) => p,
            None => "media"@,
        },
    }
}

/// What an upload asks for, or why it is refused.
pub open spec fn upload_kind_spec(
    resumes: bool,
    upload_type: Option<Seq<char>>,
    protocol: Option<Seq<char>>,
) -> Result<UploadKind, (u16, Seq<char>)> {
    let named = protocol_spec(upload_type, protocol);
    if resumes {
        Ok(UploadKind::Resume)
    } else if named == "resumable"@ {
        Ok(UploadKind::Resumable)
    } else if named == "multipart"@ {
        Ok(UploadKind::Multipart)
    } else if named == "media"@ {
        Ok(UploadKind::Media)
    } else {
        Err((400, "unsupported uploadType: "@ + named))
    }
}

/// Decides what an upload asks for. It resumes another where it names one.
pub fn upload_kind(resumes: bool, upload_type: Option<String>, protocol: Option<String>) -> (r:
    Result<UploadKind, ApiError>)
    ensures
        match upload_kind_spec(resumes, opt_text(upload_type), opt_text(protocol)) {
            Ok(kind) => r == Ok::<UploadKind, ApiError>(kind),
            Err(e) => r is Err && r->Err_0@ == e,
        },
{
    if resumes {
        return Ok(UploadKind::Resume);
    }
    let named = match upload_type {
        Some(t) => t,
        None => match protocol {
            Some(p) => p,
            None => "media".to_owned(),
        },
    };
    if same(named.as_str(), "resumable") {
        Ok(UploadKind::Resumable)
    } else if same(named.as_str(), "multipart") {
        Ok(UploadKind::Multipart)
    } else if same(named.as_str(), "media") {
        Ok(UploadKind::Media)
    } else {
        Err(ApiError { status: 400, message: cat("unsupported uploadType: ", named.as_str()) })
    }
}

/// The name of an upload's object: the one of the query, else the one of its
/// metadata. It must not be empty.
pub open spec fn upload_name_spec(query: Option<Seq<char>>, metadata: Option<Seq<char>>) -> Result<
    Seq<char>,
    (u16, Seq<char>),
> {
    let name = match query {
        Some(n) => Some(n),
        None => metadata,
    };
    match name {
        Some(n) => if n.len() > 0 {
            Ok(n)
        } else {
            Err((400, "missing object name"@))
        },
        None => Err((400, "missing object name"@)),
    }
}

/// Chooses the name of an upload's object.
pub fn upload_name(query: Option<String>, metadata: Option<String>) -> (r: Result<String, ApiError>)
    ensures
        match upload_name_spec(opt_text(query), opt_text(metadata)) {
            Ok(name) => r is Ok && r->Ok_0@ == name,
            Err(e) => r is Err && r->Err_0@ == e,
        },
{
    let name = match query {
        Some(n) => Some(n),
        None => metadata,
    };
    match name {
        Some(n) => if is_blank(n.as_str()) {
            Err(ApiError::new(400, "missing object name"))
        } else {
            Ok(n)
        },
        None => Err(ApiError::new(400, "missing object name")),
    }
}

/// An upload in several requests as it is opened: the name of its object, and
/// its metadata with the type that the header announces where it names none.
pub open spec fn opening_spec(
    query: Option<Seq<char>>,
    metadata: MetadataView,
    announced: Option<Seq<char>>,
) -> Result<(Seq<char>, MetadataView), (u16, Seq<char>)> {
    match upload_name_spec(query, metadata.name) {
        Err(e) => Err(e),
        Ok(name) => Ok(
            (
                name,
                MetadataView {
                    name: if query is Some {
                        metadata.name
                    } else {
                        None
                    },
                    content_type: if metadata.content_type is Some {
                        metadata.content_type
                    } else {
                        announced
                    },
                    ..metadata
                },
            ),
        ),
    }
}

/// Prepares an upload in several requests.
pub fn opening(query: Option<String>, metadata: UploadMetadata, announced: Option<String>) -> (r:
    Result<(String, UploadMetadata), ApiError>)
    ensures
        match opening_spec(opt_text(query), metadata@, opt_text(announced)) {
            Ok(pair) => r is Ok && r->Ok_0.0@ == pair.0 && r->Ok_0.1@ == pair.1,
            Err(e) => r is Err && r->Err_0@ == e,
        },
{
    let (name, kept) = match query {
        Some(n) => (Some(n), metadata.name),
        None => (metadata.name, None),
    };
    let chosen = match upload_name(name, None) {
        Ok(n) => n,
        Err(e) => {
            return Err(e);
        },
    };
    let content_type = match metadata.content_type {
        Some(t) => Some(t),
        None => announced,
    };
    Ok(
        (
            chosen,
            UploadMetadata {
                name: kept,
                content_type,
                cache_control: metadata.cache_control,
                content_disposition: metadata.content_disposition,
                content_encoding: metadata.content_encoding,
                metadata: metadata.metadata,
            },
        ),
    )
}

/// What is done with an upload.
pub enum UploadPlan {
    /// An upload in several requests is opened for an object.
    Open(String, UploadMetadata),
    /// An object is saved: its name, its content, what is said of it, and the
    /// type of its content.
    Save(String, Vec<u8>, UploadMetadata, Option<String>),
}

/// What an [`UploadPlan`] stands for.
pub enum PlanView {
    Open(Seq<char>, MetadataView),
    Save(Seq<char>, Seq<u8>, MetadataView, Option<Seq<char>>),
}

impl View for UploadPlan {
    type V = PlanView;

    open spec fn view(&self) -> PlanView {
        match self {
            UploadPlan::Open(name, metadata) => PlanView::Open(name@, metadata@),
            UploadPlan::Save(name, content, metadata, fallback) => PlanView::Save(
                name@,
                content@,
                metadata@,
                opt_text(*fallback),
            ),
        }
    }
}

/// An upload in two parts, given what its metadata was read as: an object with
/// the second part as its content.
pub open spec fn multipart_plan_spec(
    query: Option<Seq<char>>,
    upload: MultipartView,
    metadata: MetadataView,
) -> Result<PlanView, (u16, Seq<char>)> {
    match upload_name_spec(query, metadata.name) {
        Err(e) => Err(e),
        Ok(name) => Ok(PlanView::Save(name, upload.media, metadata, upload.media_type)),
    }
}

/// The view of a plan or a refusal.
pub open spec fn plan_result(r: Result<UploadPlan, ApiError>) -> Result<PlanView, (u16, Seq<char>)> {
    match r {
        Ok(plan) => Ok(plan@),
        Err(e) => Err(e@),
    }
}

/// Plans an upload in two parts, given what its metadata was read as.
pub fn multipart_plan(query: Option<String>, upload: Multipart, metadata: UploadMetadata) -> (r:
    Result<UploadPlan, ApiError>)
    ensures
        plan_result(r) == multipart_plan_spec(opt_text(query), upload@, metadata@),
{
    let named = crate::accounts::copy_text(&metadata.name);
    match upload_name(query, named) {
        Ok(name) => Ok(UploadPlan::Save(name, upload.media, metadata, upload.media_type)),
        Err(e) => Err(e),
    }
}

/// What headers say of an object whose content is the body of the request.
pub open spec fn media_metadata(headers: Seq<HeaderView>) -> MetadataView {
    MetadataView {
        content_type: header_spec(headers, "content-type"@, 0),
        ..metadata_from_headers_spec(headers)
    }
}

/// An upload of plain content: what is said of it stands in the headers.
pub open spec fn media_plan_spec(
    query: Option<Seq<char>>,
    headers: Seq<HeaderView>,
    body: Seq<u8>,
) -> Result<PlanView, (u16, Seq<char>)> {
    match upload_name_spec(query, None) {
        Err(e) => Err(e),
        Ok(name) => Ok(PlanView::Save(name, body, media_metadata(headers), None)),
    }
}

/// Plans an upload of plain content.
pub fn media_plan(query: Option<String>, headers: &Vec<(String, String)>, body: Vec<u8>) -> (r:
    Result<UploadPlan, ApiError>)
    ensures
        plan_result(r) == media_plan_spec(opt_text(query), headers_view(headers@), body@),
{
    match upload_name(query, None) {
        Ok(name) => {
            let mut metadata = metadata_from_headers(headers);
            metadata.content_type = header_string(headers, "content-type");
            Ok(UploadPlan::Save(name, body, metadata, None))
        },
        Err(e) => Err(e),
    }
}

/// An upload that opens one in several requests, given what its metadata was
/// read as.
pub open spec fn resumable_plan_spec(
    query: Option<Seq<char>>,
    headers: Seq<HeaderView>,
    metadata: MetadataView,
) -> Result<PlanView, (u16, Seq<char>)> {
    match opening_spec(query, metadata, header_spec(headers, "x-upload-content-type"@, 0)) {
        Err(e) => Err(e),
        Ok(pair) => Ok(PlanView::Open(pair.0, pair.1)),
    }
}

/// Plans an upload that opens one in several requests.
pub fn resumable_plan(
    query: Option<String>,
    headers: &Vec<(String, String)>,
    metadata: UploadMetadata,
) -> (r: Result<UploadPlan, ApiError>)
    ensures
        plan_result(r) == resumable_plan_spec(
            opt_text(query),
            headers_view(headers@),
            metadata@,
        ),
{
    match opening(query, metadata, header_string(headers, "x-upload-content-type")) {
        Ok((name, metadata)) => Ok(UploadPlan::Open(name, metadata)),
        Err(e) => Err(e),
    }
}

/// Where an upload in several requests goes on.
pub fn upload_location(host: Option<String>, bucket: &str, id: &str) -> (r: String)
    ensures
        r@ == "http://"@ + (match host {
            Some(h) => h@,
            None => "127.0.0.1:9199"@,
        }) + "/upload/storage/v1/b/"@ + crate::storage::percent_bytes(encode_utf8(bucket@))
            + "/o?uploadType=resumable&upload_id="@ + id@,
{
    let name = match host {
        Some(h) => h,
        None => "127.0.0.1:9199".to_owned(),
    };
    let mut location = cat("http://", name.as_str());
    location.append("/upload/storage/v1/b/");
    location.append(crate::storage::percent_encode(bucket).as_str());
    location.append("/o?uploadType=resumable&upload_id=");
    location.append(id);
    location
}

/// Whether a blob file belongs to no object.
pub fn is_orphan(name: &str, referenced: &Vec<String>) -> (r: bool)
    ensures
        r == !crate::text::texts(referenced@).contains(name@),
{
    let ghost all = crate::text::texts(referenced@);
    let mut i: usize = 0;
    while i < referenced.len()
        invariant
            i <= referenced@.len(),
            all == crate::text::texts(referenced@),
            forall|j: int| 0 <= j < i ==> all[j] != name@,
        decreases referenced.len() - i,
    {
        assert(all[i as int] == referenced@[i as int]@);
        if same(referenced[i].as_str(), name) {
            return false;
        }
        i += 1;
    }
    true
}

} // verus!
