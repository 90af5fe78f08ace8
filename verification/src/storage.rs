//! Storage objects: what is known of them, their checksums and their JSON.
use crate::broker::is_uuid_char;
use crate::encoding::{base64_encode, base64_text};
use crate::json::{
    json_object_view, members_view, object1, with_member, Json, JsonView, MembersView,
};
use crate::ordered::OrderedMap;
use crate::text::{cat, cat3, decimal, decimal_spec, opt_text, same};
use crate::web_values::single;
use vstd::prelude::*;
use vstd::utf8::encode_utf8;

verus! {

/// The CRC-32C of bytes, as `crc32c::crc32c` computes it.
pub uninterp spec fn crc32c_of(bytes: Seq<u8>) -> u32;

/// `crc32c::crc32c` computes the checksum of bytes from the bytes alone.
pub assume_specification[ crc32c::crc32c ](data: &[u8]) -> (r: u32)
    ensures
        r == crc32c_of(data@),
;

/// The bytes of a number, the highest first.
pub open spec fn big_endian(n: u32) -> Seq<u8> {
    seq![
        (n / 0x100_0000) as u8,
        (n / 0x1_0000 % 0x100) as u8,
        (n / 0x100 % 0x100) as u8,
        (n % 0x100) as u8,
    ]
}

/// A checksum as text: its bytes, the highest first, in base64.
pub fn checksum_text(crc: u32) -> (r: String)
    ensures
        r@ == base64_text(big_endian(crc)),
{
    let mut bytes: Vec<u8> = Vec::new();
    bytes.push((crc / 0x100_0000) as u8);
    bytes.push((crc / 0x1_0000 % 0x100) as u8);
    bytes.push((crc / 0x100 % 0x100) as u8);
    bytes.push((crc % 0x100) as u8);
    assert(bytes@ =~= big_endian(crc));
    base64_encode(bytes.as_slice())
}

/// The checksum of bytes as text.
pub open spec fn crc32c_base64_spec(bytes: Seq<u8>) -> Seq<char> {
    base64_text(big_endian(crc32c_of(bytes)))
}

/// Computes the checksum of bytes.
pub fn crc32c_base64(bytes: &[u8]) -> (r: String)
    ensures
        r@ == crc32c_base64_spec(bytes@),
{
    checksum_text(crc32c::crc32c(bytes))
}

/// Whether a byte stands for itself in a percent-encoded text: a letter, a
/// digit or one of `-_.~`.
pub open spec fn is_unreserved(b: u8) -> bool {
    ||| 0x30 <= b <= 0x39
    ||| 0x41 <= b <= 0x5a
    ||| 0x61 <= b <= 0x7a
    ||| b == 0x2d
    ||| b == 0x5f
    ||| b == 0x2e
    ||| b == 0x7e
}

/// A capital hexadecimal digit.
pub open spec fn hex_char(n: u8) -> char {
    if n < 10 {
        ((0x30 + n) as u8) as char
    } else {
        ((0x41 + (n - 10)) as u8) as char
    }
}

/// The percent-encoding of a byte.
pub open spec fn percent_byte(b: u8) -> Seq<char> {
    if is_unreserved(b) {
        seq![b as char]
    } else {
        seq!['%', hex_char(b / 16), hex_char(b % 16)]
    }
}

/// The percent-encoding of bytes.
pub open spec fn percent_bytes(bytes: Seq<u8>) -> Seq<char>
    decreases bytes.len(),
{
    if bytes.len() == 0 {
        Seq::empty()
    } else {
        percent_bytes(bytes.drop_last()) + percent_byte(bytes.last())
    }
}

fn hex_digit_char(n: u8) -> (r: char)
    requires
        n < 16,
    ensures
        r == hex_char(n),
{
    if n < 10 {
        (0x30 + n) as char
    } else {
        (0x41 + (n - 10)) as char
    }
}

/// Percent-encodes the UTF-8 bytes of a text.
pub fn percent_encode(value: &str) -> (r: String)
    ensures
        r@ == percent_bytes(encode_utf8(value@)),
{
    let bytes = value.as_bytes();
    let mut output = String::new();
    let mut i: usize = 0;
    assert(bytes@.take(0) =~= Seq::empty());
    while i < bytes.len()
        invariant
            i <= bytes@.len(),
            output@ == percent_bytes(bytes@.take(i as int)),
        decreases bytes.len() - i,
    {
        let b: u8 = bytes[i];
        let ghost before = output@;
        assert(bytes@.take(i + 1).drop_last() =~= bytes@.take(i as int));
        assert(bytes@.take(i + 1).last() == b);
        let plain = (0x30 <= b && b <= 0x39) || (0x41 <= b && b <= 0x5a) || (0x61 <= b && b <= 0x7a)
            || b == 0x2d || b == 0x5f || b == 0x2e || b == 0x7e;
        if plain {
            output.push(b as char);
            assert(output@ =~= before + percent_byte(b));
        } else {
            output.push('%');
            output.push(hex_digit_char(b / 16));
            output.push(hex_digit_char(b % 16));
            assert(output@ =~= before + percent_byte(b));
        }
        i += 1;
    }
    assert(bytes@.take(i as int) =~= bytes@);
    output
}

/// The canonical text of the UUID that `uuid::Uuid::parse_str` reads from a
/// text, if it reads one.
pub uninterp spec fn uuid_of_text(text: Seq<char>) -> Option<Seq<char>>;

/// Reads a UUID with `uuid::Uuid::parse_str` and writes it as its `Display`
/// does: 36 small hexadecimal digits and hyphens.
#[verifier::external_body]
pub(crate) fn canonical_uuid(text: &str) -> (r: Option<String>)
    ensures
        opt_text(r) == uuid_of_text(text@),
        r matches Some(id) ==> id@.len() == 36 && forall|i: int|
            0 <= i < 36 ==> #[trigger] is_uuid_char(id@[i]),
{
    uuid::Uuid::parse_str(text).ok().map(|id| id.to_string())
}

/// Why the name of a blob file is refused.
#[derive(Clone, Copy, PartialEq, Eq, Debug, Structural)]
pub enum BlobNameError {
    Invalid,
    NonCanonical,
}

/// Checks the name of a blob file, given the canonical text of the UUID in it.
pub fn check_blob_name(name: &str, parsed: Option<String>) -> (r: Result<(), BlobNameError>)
    ensures
        r == match opt_text(parsed) {
            None => Err::<(), _>(BlobNameError::Invalid),
            Some(id) => if id == name@ {
                Ok::<_, BlobNameError>(())
            } else {
                Err(BlobNameError::NonCanonical)
            },
        },
{
    match parsed {
        None => Err(BlobNameError::Invalid),
        Some(id) => if same(id.as_str(), name) {
            Ok(())
        } else {
            Err(BlobNameError::NonCanonical)
        },
    }
}

/// Checks the name of a blob file: it must be a UUID in its canonical form, so
/// it has no separators and names a file of the directory itself.
pub fn blob_name(name: &str) -> (r: Result<(), BlobNameError>)
    ensures
        r == match uuid_of_text(name@) {
            None => Err::<(), _>(BlobNameError::Invalid),
            Some(id) => if id == name@ {
                Ok::<_, BlobNameError>(())
            } else {
                Err(BlobNameError::NonCanonical)
            },
        },
        r is Ok ==> name@.len() == 36 && forall|i: int|
            0 <= i < 36 ==> #[trigger] is_uuid_char(name@[i]),
{
    check_blob_name(name, canonical_uuid(name))
}

/// What an upload says of its object.
pub struct UploadMetadata {
    pub name: Option<String>,
    pub content_type: Option<String>,
    pub cache_control: Option<String>,
    pub content_disposition: Option<String>,
    pub content_encoding: Option<String>,
    pub metadata: OrderedMap<String>,
}

/// What an [`UploadMetadata`] stands for.
#[verifier::ext_equal]
pub struct MetadataView {
    pub name: Option<Seq<char>>,
    pub content_type: Option<Seq<char>>,
    pub cache_control: Option<Seq<char>>,
    pub content_disposition: Option<Seq<char>>,
    pub content_encoding: Option<Seq<char>>,
    pub metadata: Seq<(Seq<char>, Seq<char>)>,
}

impl View for UploadMetadata {
    type V = MetadataView;

    open spec fn view(&self) -> MetadataView {
        MetadataView {
            name: opt_text(self.name),
            content_type: opt_text(self.content_type),
            cache_control: opt_text(self.cache_control),
            content_disposition: opt_text(self.content_disposition),
            content_encoding: opt_text(self.content_encoding),
            metadata: self.metadata@,
        }
    }
}

impl UploadMetadata {
    /// Metadata that says nothing.
    pub open spec fn none_spec() -> MetadataView {
        MetadataView {
            name: None,
            content_type: None,
            cache_control: None,
            content_disposition: None,
            content_encoding: None,
            metadata: Seq::empty(),
        }
    }

    pub fn none() -> (r: UploadMetadata)
        ensures
            r@ == UploadMetadata::none_spec(),
    {
        UploadMetadata {
            name: None,
            content_type: None,
            cache_control: None,
            content_disposition: None,
            content_encoding: None,
            metadata: OrderedMap::new(),
        }
    }
}

/// A stored object. Its content is held in memory or in a blob file.
pub struct StoredObject {
    pub bucket: String,
    pub name: String,
    pub bytes: Option<Vec<u8>>,
    pub blob_name: Option<String>,
    pub size: u64,
    pub crc32c: String,
    pub content_type: String,
    pub metadata: OrderedMap<String>,
    pub cache_control: Option<String>,
    pub content_disposition: Option<String>,
    pub content_encoding: Option<String>,
    pub generation: u64,
    pub created: String,
    pub updated: String,
    pub download_token: String,
}

/// What a [`StoredObject`] stands for.
#[verifier::ext_equal]
pub struct ObjectView {
    pub bucket: Seq<char>,
    pub name: Seq<char>,
    pub bytes: Option<Seq<u8>>,
    pub blob_name: Option<Seq<char>>,
    pub size: u64,
    pub crc32c: Seq<char>,
    pub content_type: Seq<char>,
    pub metadata: Seq<(Seq<char>, Seq<char>)>,
    pub cache_control: Option<Seq<char>>,
    pub content_disposition: Option<Seq<char>>,
    pub content_encoding: Option<Seq<char>>,
    pub generation: u64,
    pub created: Seq<char>,
    pub updated: Seq<char>,
    pub download_token: Seq<char>,
}

/// The view of bytes that may be missing.
pub open spec fn opt_bytes(bytes: Option<Vec<u8>>) -> Option<Seq<u8>> {
    match bytes {
        Some(b) => Some(b@),
        None => None,
    }
}

impl View for StoredObject {
    type V = ObjectView;

    open spec fn view(&self) -> ObjectView {
        ObjectView {
            bucket: self.bucket@,
            name: self.name@,
            bytes: opt_bytes(self.bytes),
            blob_name: opt_text(self.blob_name),
            size: self.size,
            crc32c: self.crc32c@,
            content_type: self.content_type@,
            metadata: self.metadata@,
            cache_control: opt_text(self.cache_control),
            content_disposition: opt_text(self.content_disposition),
            content_encoding: opt_text(self.content_encoding),
            generation: self.generation,
            created: self.created@,
            updated: self.updated@,
            download_token: self.download_token@,
        }
    }
}

/// The content type of an object: the one that its metadata names, else the
/// one of its content, else that of plain bytes.
pub open spec fn chosen_type(named: Option<Seq<char>>, fallback: Option<Seq<char>>) -> Seq<char> {
    match named {
        Some(t) => t,
        None => match fallback {
            Some(t) => t,
            None => "application/octet-stream"@,
        },
    }
}

/// Where and when an object is stored: its generation, when it was first
/// created, the present time and the token that its downloads carry.
pub struct Stamp {
    pub generation: u64,
    pub created: Option<String>,
    pub now: String,
    pub token: String,
}

/// What a [`Stamp`] stands for.
pub struct StampView {
    pub generation: u64,
    pub created: Option<Seq<char>>,
    pub now: Seq<char>,
    pub token: Seq<char>,
}

impl View for Stamp {
    type V = StampView;

    open spec fn view(&self) -> StampView {
        StampView {
            generation: self.generation,
            created: opt_text(self.created),
            now: self.now@,
            token: self.token@,
        }
    }
}

/// An object of some content under a stamp. It keeps the time at which it was
/// first created.
pub open spec fn stamped_object(
    bucket: Seq<char>,
    name: Seq<char>,
    content: Seq<u8>,
    bytes: Option<Seq<u8>>,
    blob_name: Option<Seq<char>>,
    metadata: MetadataView,
    fallback: Option<Seq<char>>,
    stamp: StampView,
) -> ObjectView {
    ObjectView {
        bucket,
        name,
        bytes,
        blob_name,
        size: content.len() as u64,
        crc32c: crc32c_base64_spec(content),
        content_type: chosen_type(metadata.content_type, fallback),
        metadata: metadata.metadata,
        cache_control: metadata.cache_control,
        content_disposition: metadata.content_disposition,
        content_encoding: metadata.content_encoding,
        generation: stamp.generation,
        created: match stamp.created {
            Some(created) => created,
            None => stamp.now,
        },
        updated: stamp.now,
        download_token: stamp.token,
    }
}

/// Makes the object of some content. Its content goes into a blob file where
/// one is named, and stays in memory where none is.
pub fn new_object(
    bucket: String,
    name: String,
    content: Vec<u8>,
    blob_name: Option<String>,
    metadata: UploadMetadata,
    fallback: Option<String>,
    stamp: Stamp,
) -> (r: StoredObject)
    ensures
        r@ == stamped_object(
            bucket@,
            name@,
            content@,
            if blob_name is Some {
                None
            } else {
                Some(content@)
            },
            opt_text(blob_name),
            metadata@,
            opt_text(fallback),
            stamp@,
        ),
{
    let size: u64 = content.len() as u64;
    let crc32c = crc32c_base64(content.as_slice());
    let content_type = match metadata.content_type {
        Some(t) => t,
        None => match fallback {
            Some(t) => t,
            None => "application/octet-stream".to_owned(),
        },
    };
    let updated = stamp.now.clone();
    let created = match stamp.created {
        Some(created) => created,
        None => stamp.now,
    };
    let bytes = if blob_name.is_some() {
        None
    } else {
        Some(content)
    };
    StoredObject {
        bucket,
        name,
        bytes,
        blob_name,
        size,
        crc32c,
        content_type,
        metadata: metadata.metadata,
        cache_control: metadata.cache_control,
        content_disposition: metadata.content_disposition,
        content_encoding: metadata.content_encoding,
        generation: stamp.generation,
        created,
        updated,
        download_token: stamp.token,
    }
}

/// Whether the content of a blob file is that of its object.
pub fn blob_matches(object: &StoredObject, content: &[u8]) -> (r: bool)
    ensures
        r == (content@.len() == object.size && crc32c_base64_spec(content@) == object.crc32c@),
{
    content.len() as u64 == object.size && same(
        crc32c_base64(content).as_str(),
        object.crc32c.as_str(),
    )
}

/// The generation of a stored row, which must be positive.
pub fn stored_generation(generation: i64) -> (r: Option<u64>)
    ensures
        r == if generation > 0 {
            Some(generation as u64)
        } else {
            None
        },
{
    if generation <= 0 {
        None
    } else {
        Some(generation as u64)
    }
}

/// What is kept of an object beside its content, its name and its times.
pub struct StoredMetadata {
    pub content_type: String,
    pub metadata: OrderedMap<String>,
    pub cache_control: Option<String>,
    pub content_disposition: Option<String>,
    pub content_encoding: Option<String>,
    pub download_token: String,
    pub size: u64,
    pub crc32c: String,
}

/// Puts an object together from a stored row. Its content stays in a blob
/// file; its generation must be positive.
pub fn stored_object(
    bucket: String,
    name: String,
    blob_name: String,
    metadata: StoredMetadata,
    generation: i64,
    created: String,
    updated: String,
) -> (r: Result<StoredObject, String>)
    ensures
        if generation <= 0 {
            r is Err && r->Err_0@ == "negative Storage generation for "@ + bucket@ + "/"@ + name@
        } else {
            r is Ok && r->Ok_0@ == (ObjectView {
                bucket: bucket@,
                name: name@,
                bytes: None,
                blob_name: Some(blob_name@),
                size: metadata.size,
                crc32c: metadata.crc32c@,
                content_type: metadata.content_type@,
                metadata: metadata.metadata@,
                cache_control: opt_text(metadata.cache_control),
                content_disposition: opt_text(metadata.content_disposition),
                content_encoding: opt_text(metadata.content_encoding),
                generation: generation as u64,
                created: created@,
                updated: updated@,
                download_token: metadata.download_token@,
            })
        },
{
    let positive: u64 = match stored_generation(generation) {
        Some(n) => n,
        None => {
            let mut message = cat3("negative Storage generation for ", bucket.as_str(), "/");
            message.append(name.as_str());
            return Err(message);
        },
    };
    Ok(
        StoredObject {
            bucket,
            name,
            bytes: None,
            blob_name: Some(blob_name),
            size: metadata.size,
            crc32c: metadata.crc32c,
            content_type: metadata.content_type,
            metadata: metadata.metadata,
            cache_control: metadata.cache_control,
            content_disposition: metadata.content_disposition,
            content_encoding: metadata.content_encoding,
            generation: positive,
            created,
            updated,
            download_token: metadata.download_token,
        },
    )
}

/// Custom metadata as members of an object.
pub open spec fn texts_json(entries: Seq<(Seq<char>, Seq<char>)>) -> MembersView {
    entries.map_values(|e: (Seq<char>, Seq<char>)| (e.0, JsonView::Text(e.1)))
}

fn metadata_members(metadata: &OrderedMap<String>) -> (r: Json)
    ensures
        r@ == JsonView::Object(texts_json(metadata@)),
{
    let mut members: Vec<(String, Json)> = Vec::new();
    let mut i: usize = 0;
    while i < metadata.len()
        invariant
            i <= metadata@.len(),
            members@.len() == i,
            forall|j: int|
                0 <= j < i ==> (#[trigger] members@[j]).0@ == metadata@[j].0 && members@[j].1@
                    == JsonView::Text(metadata@[j].1),
        decreases metadata@.len() - i,
    {
        members.push(
            (metadata.key_at(i).to_owned(), Json::of_text(metadata.value_at(i).as_str())),
        );
        i += 1;
    }
    proof {
        json_object_view(members);
        assert(members_view(members@) =~= texts_json(metadata@));
    }
    Json::Object(members)
}

/// A link to an object.
pub open spec fn self_link(object: ObjectView) -> Seq<char> {
    "/storage/v1/b/"@ + percent_bytes(encode_utf8(object.bucket)) + "/o/"@ + percent_bytes(
        encode_utf8(object.name),
    )
}

/// A member where there is a text for it.
pub open spec fn with_text(v: JsonView, key: Seq<char>, text: Option<Seq<char>>) -> JsonView {
    match text {
        Some(t) => with_member(v, key, JsonView::Text(t)),
        None => v,
    }
}

/// A number between quotation marks.
pub open spec fn etag(generation: u64) -> Seq<char> {
    "\""@ + decimal_spec(generation as nat) + "\""@
}

/// The JSON of an object.
pub open spec fn object_json_spec(object: ObjectView) -> JsonView {
    let generation = decimal_spec(object.generation as nat);
    let v = object1("kind"@, JsonView::Text("storage#object"@));
    let v = with_member(
        v,
        "id"@,
        JsonView::Text(object.bucket + "/"@ + object.name + "/"@ + generation),
    );
    let v = with_member(v, "selfLink"@, JsonView::Text(self_link(object)));
    let v = with_member(v, "mediaLink"@, JsonView::Text(self_link(object) + "?alt=media"@));
    let v = with_member(v, "name"@, JsonView::Text(object.name));
    let v = with_member(v, "bucket"@, JsonView::Text(object.bucket));
    let v = with_member(v, "generation"@, JsonView::Text(generation));
    let v = with_member(v, "metageneration"@, JsonView::Text("1"@));
    let v = with_member(v, "contentType"@, JsonView::Text(object.content_type));
    let v = with_member(v, "size"@, JsonView::Text(decimal_spec(object.size as nat)));
    let v = with_member(v, "crc32c"@, JsonView::Text(object.crc32c));
    let v = with_member(v, "timeCreated"@, JsonView::Text(object.created));
    let v = with_member(v, "updated"@, JsonView::Text(object.updated));
    let v = with_member(v, "etag"@, JsonView::Text(etag(object.generation)));
    let v = with_member(v, "metadata"@, JsonView::Object(texts_json(object.metadata)));
    let v = with_member(v, "downloadTokens"@, JsonView::Text(object.download_token));
    let v = with_text(v, "cacheControl"@, object.cache_control);
    let v = with_text(v, "contentDisposition"@, object.content_disposition);
    with_text(v, "contentEncoding"@, object.content_encoding)
}

pub(crate) fn add_text(v: Json, key: &str, text: &Option<String>) -> (r: Json)
    ensures
        r@ == with_text(v@, key@, opt_text(*text)),
{
    match text {
        Some(t) => v.with(key, Json::of_text(t.as_str())),
        None => v,
    }
}

pub(crate) fn etag_text(generation: u64) -> (r: String)
    ensures
        r@ == etag(generation),
{
    cat3("\"", decimal(generation).as_str(), "\"")
}

/// Writes an object as JSON.
pub fn object_json(object: &StoredObject) -> (r: Json)
    ensures
        r@ == object_json_spec(object@),
{
    let generation = decimal(object.generation);
    let id = cat3(
        cat3(object.bucket.as_str(), "/", object.name.as_str()).as_str(),
        "/",
        generation.as_str(),
    );
    assert(id@ =~= object.bucket@ + "/"@ + object.name@ + "/"@ + generation@);
    let link = cat3(
        cat("/storage/v1/b/", percent_encode(object.bucket.as_str()).as_str()).as_str(),
        "/o/",
        percent_encode(object.name.as_str()).as_str(),
    );
    assert(link@ =~= self_link(object@));
    let v = single("kind", Json::of_text("storage#object"));
    let v = v.with("id", Json::Text(id));
    let media = cat(link.as_str(), "?alt=media");
    let v = v.with("selfLink", Json::Text(link));
    let v = v.with("mediaLink", Json::Text(media));
    let v = v.with("name", Json::of_text(object.name.as_str()));
    let v = v.with("bucket", Json::of_text(object.bucket.as_str()));
    let v = v.with("generation", Json::Text(generation));
    let v = v.with("metageneration", Json::of_text("1"));
    let v = v.with("contentType", Json::of_text(object.content_type.as_str()));
    let v = v.with("size", Json::Text(decimal(object.size)));
    let v = v.with("crc32c", Json::of_text(object.crc32c.as_str()));
    let v = v.with("timeCreated", Json::of_text(object.created.as_str()));
    let v = v.with("updated", Json::of_text(object.updated.as_str()));
    let v = v.with("etag", Json::Text(etag_text(object.generation)));
    let v = v.with("metadata", metadata_members(&object.metadata));
    let v = v.with("downloadTokens", Json::of_text(object.download_token.as_str()));
    let v = add_text(v, "cacheControl", &object.cache_control);
    let v = add_text(v, "contentDisposition", &object.content_disposition);
    add_text(v, "contentEncoding", &object.content_encoding)
}

} // verus!
