//! The objects of all buckets: saving, finding, listing and deleting them, and
//! uploads in several requests.
use crate::broker::{is_drawn_id, random_id};
use crate::json::{items_view, object1, with_member, Json, JsonView};
use crate::multipart::{find_spec, stands_at};
use crate::ordered::{
    keep_entries, keys_sorted, lookup, lookup_after_put, lookup_after_without, lookup_found, put,
    put_after_without, put_sorted, without, without_sorted, OrderedMap,
};
use crate::storage::{
    canonical_uuid, new_object, object_json, object_json_spec, stamped_object, uuid_of_text,
    MetadataView, ObjectView, Stamp, StampView, StoredObject, UploadMetadata,
};
use crate::text::{chars_of, is_blank, opt_text, parse_unsigned, parse_unsigned_spec, same};
use crate::timestamps::{chrono_timestamp, is_rfc3339_of, unix_now};
use crate::web_values::single;
use vstd::prelude::*;

verus! {

/// How many seconds an upload in several requests may stay incomplete.
pub const RESUMABLE_UPLOAD_TTL_SECS: u64 = 3600;

/// The largest object, in bytes.
pub const MAX_UPLOAD_BYTES: usize = 67_108_864;

/// Why a request for an object is refused: an HTTP status and a message.
#[derive(PartialEq, Eq, Debug)]
pub struct ApiError {
    pub status: u16,
    pub message: String,
}

impl View for ApiError {
    type V = (u16, Seq<char>);

    open spec fn view(&self) -> (u16, Seq<char>) {
        (self.status, self.message@)
    }
}

impl ApiError {
    pub fn new(status: u16, message: &str) -> (r: ApiError)
        ensures
            r@ == (status, message@),
    {
        ApiError { status, message: message.to_owned() }
    }
}

/// The JSON of a refusal.
pub open spec fn api_error_json(error: (u16, Seq<char>)) -> JsonView {
    let message = JsonView::Text(error.1);
    object1(
        "error"@,
        with_member(
            with_member(
                object1("code"@, JsonView::Unsigned(error.0 as u64)),
                "message"@,
                message,
            ),
            "errors"@,
            JsonView::Array(seq![object1("message"@, message)]),
        ),
    )
}

/// Writes a refusal as JSON.
pub fn api_error(error: &ApiError) -> (r: Json)
    ensures
        r@ == api_error_json(error@),
{
    let mut errors: Vec<Json> = Vec::new();
    let first = single("message", Json::of_text(error.message.as_str()));
    errors.push(first);
    assert(items_view(errors@) =~= seq![first@]);
    single(
        "error",
        single("code", Json::Unsigned(error.status as u64)).with(
            "message",
            Json::of_text(error.message.as_str()),
        ).with("errors", Json::array(errors)),
    )
}

/// The JSON of a bucket.
pub open spec fn bucket_json_spec(bucket: Seq<char>) -> JsonView {
    let v = object1("kind"@, JsonView::Text("storage#bucket"@));
    let v = with_member(v, "id"@, JsonView::Text(bucket));
    let v = with_member(v, "name"@, JsonView::Text(bucket));
    let v = with_member(v, "location"@, JsonView::Text("US"@));
    let v = with_member(v, "storageClass"@, JsonView::Text("STANDARD"@));
    with_member(v, "metageneration"@, JsonView::Text("1"@))
}

/// Writes what is known of a bucket as JSON.
pub fn bucket_metadata(bucket: &str) -> (r: Json)
    ensures
        r@ == bucket_json_spec(bucket@),
{
    single("kind", Json::of_text("storage#bucket")).with("id", Json::of_text(bucket)).with(
        "name",
        Json::of_text(bucket),
    ).with("location", Json::of_text("US")).with("storageClass", Json::of_text("STANDARD")).with(
        "metageneration",
        Json::of_text("1"),
    )
}

/// An upload that is not complete yet.
pub struct PendingUpload {
    pub bucket: String,
    pub name: String,
    pub metadata: UploadMetadata,
    pub bytes: Vec<u8>,
    pub created_at: u64,
}

/// What a [`PendingUpload`] stands for.
#[verifier::ext_equal]
pub struct UploadView {
    pub bucket: Seq<char>,
    pub name: Seq<char>,
    pub metadata: MetadataView,
    pub bytes: Seq<u8>,
    pub created_at: u64,
}

impl View for PendingUpload {
    type V = UploadView;

    open spec fn view(&self) -> UploadView {
        UploadView {
            bucket: self.bucket@,
            name: self.name@,
            metadata: self.metadata@,
            bytes: self.bytes@,
            created_at: self.created_at,
        }
    }
}

/// The objects of a bucket by name.
pub type BucketView = Seq<(Seq<char>, ObjectView)>;

/// All objects in memory, by bucket and name, and the incomplete uploads by
/// id.
pub struct StorageData {
    pub next_generation: u64,
    pub objects: OrderedMap<OrderedMap<StoredObject>>,
    pub uploads: OrderedMap<PendingUpload>,
}

/// What a [`StorageData`] stands for.
#[verifier::ext_equal]
pub struct StorageView {
    pub next_generation: u64,
    pub objects: Seq<(Seq<char>, BucketView)>,
    pub uploads: Seq<(Seq<char>, UploadView)>,
}

impl View for StorageData {
    type V = StorageView;

    open spec fn view(&self) -> StorageView {
        StorageView {
            next_generation: self.next_generation,
            objects: self.objects@,
            uploads: self.uploads@,
        }
    }
}

/// The objects of a bucket; none where nothing was saved in it.
pub open spec fn bucket_of(s: StorageView, bucket: Seq<char>) -> BucketView {
    match lookup(s.objects, bucket) {
        Some(objects) => objects,
        None => Seq::empty(),
    }
}

/// An object by bucket and name.
pub open spec fn object_at(s: StorageView, bucket: Seq<char>, name: Seq<char>) -> Option<ObjectView> {
    lookup(bucket_of(s, bucket), name)
}

/// Whether the buckets, and the objects of each, stand in the order of their
/// names.
pub open spec fn storage_sorted(s: StorageView) -> bool {
    &&& keys_sorted(s.objects)
    &&& forall|i: int| 0 <= i < s.objects.len() ==> keys_sorted((#[trigger] s.objects[i]).1)
}

/// The object that a save makes.
pub open spec fn saved_object(
    s: StorageView,
    bucket: Seq<char>,
    name: Seq<char>,
    content: Seq<u8>,
    metadata: MetadataView,
    fallback: Option<Seq<char>>,
    now: Seq<char>,
    token: Seq<char>,
) -> ObjectView {
    stamped_object(
        bucket,
        name,
        content,
        Some(content),
        None,
        metadata,
        fallback,
        StampView {
            generation: (s.next_generation + 1) as u64,
            created: match object_at(s, bucket, name) {
                Some(old) => Some(old.created),
                None => None,
            },
            now,
            token,
        },
    )
}

/// The storage after an object was put in its place.
pub open spec fn with_object(s: StorageView, object: ObjectView) -> StorageView {
    StorageView {
        next_generation: object.generation,
        objects: put(
            s.objects,
            object.bucket,
            put(bucket_of(s, object.bucket), object.name, object),
        ),
        ..s
    }
}

/// The storage without an object.
pub open spec fn without_object(s: StorageView, bucket: Seq<char>, name: Seq<char>) -> StorageView {
    if lookup(s.objects, bucket) is Some {
        StorageView {
            objects: put(s.objects, bucket, without(bucket_of(s, bucket), name)),
            ..s
        }
    } else {
        s
    }
}

/// Saving and deleting keep the order of buckets and objects.
pub proof fn storage_stays_sorted(s: StorageView, object: ObjectView, bucket: Seq<char>, name: Seq<char>)
    requires
        storage_sorted(s),
    ensures
        storage_sorted(with_object(s, object)),
        storage_sorted(without_object(s, bucket, name)),
{
    bucket_sorted(s, object.bucket);
    bucket_sorted(s, bucket);
    put_sorted(bucket_of(s, object.bucket), object.name, object);
    without_sorted(bucket_of(s, bucket), name);
    put_all_sorted(s.objects, object.bucket, put(bucket_of(s, object.bucket), object.name, object));
    put_all_sorted(s.objects, bucket, without(bucket_of(s, bucket), name));
}

proof fn put_all_sorted(entries: Seq<(Seq<char>, BucketView)>, key: Seq<char>, value: BucketView)
    requires
        keys_sorted(entries),
        keys_sorted(value),
        forall|i: int| 0 <= i < entries.len() ==> keys_sorted((#[trigger] entries[i]).1),
    ensures
        keys_sorted(put(entries, key, value)),
        forall|i: int|
            0 <= i < put(entries, key, value).len() ==> keys_sorted(
                (#[trigger] put(entries, key, value)[i]).1,
            ),
{
    put_sorted(entries, key, value);
    crate::ordered::lower_bound_properties(entries, key);
    let b = crate::ordered::lower_bound(entries, key);
    let out = put(entries, key, value);
    assert forall|i: int| 0 <= i < out.len() implies keys_sorted((#[trigger] out[i]).1) by {
        if i == b {
        } else if lookup(entries, key) is Some || i < b {
            assert(out[i] == entries[i]);
        } else {
            assert(out[i] == entries[i - 1]);
        }
    }
}

proof fn bucket_sorted(s: StorageView, bucket: Seq<char>)
    requires
        storage_sorted(s),
    ensures
        keys_sorted(bucket_of(s, bucket)),
{
    lookup_found(s.objects, bucket);
    if lookup(s.objects, bucket) is Some {
        let i = choose|i: int|
            0 <= i < s.objects.len() && #[trigger] s.objects[i] == (
                bucket,
                lookup(s.objects, bucket)->0,
            );
        assert(keys_sorted(s.objects[i].1));
    }
}

/// What was saved is found, and every other object is as before.
pub proof fn saved_object_is_found(
    s: StorageView,
    object: ObjectView,
    bucket: Seq<char>,
    name: Seq<char>,
)
    requires
        storage_sorted(s),
    ensures
        object_at(with_object(s, object), object.bucket, object.name) == Some(object),
        (bucket, name) != (object.bucket, object.name) ==> object_at(
            with_object(s, object),
            bucket,
            name,
        ) == object_at(s, bucket, name),
{
    bucket_sorted(s, object.bucket);
    let inner = put(bucket_of(s, object.bucket), object.name, object);
    lookup_after_put(s.objects, object.bucket, inner, bucket);
    lookup_after_put(bucket_of(s, object.bucket), object.name, object, name);
}

/// What was deleted is gone, and every other object is as before.
pub proof fn deleted_object_is_gone(
    s: StorageView,
    bucket: Seq<char>,
    name: Seq<char>,
    other_bucket: Seq<char>,
    other_name: Seq<char>,
)
    requires
        storage_sorted(s),
    ensures
        object_at(without_object(s, bucket, name), bucket, name) is None,
        (other_bucket, other_name) != (bucket, name) ==> object_at(
            without_object(s, bucket, name),
            other_bucket,
            other_name,
        ) == object_at(s, other_bucket, other_name),
{
    bucket_sorted(s, bucket);
    let inner = without(bucket_of(s, bucket), name);
    lookup_after_put(s.objects, bucket, inner, other_bucket);
    lookup_after_without(bucket_of(s, bucket), name, other_name);
    lookup_after_without(bucket_of(s, bucket), name, name);
}

/// Saving over an object keeps the time at which it was created and gives it a
/// higher generation than any before.
pub proof fn overwriting_keeps_creation(
    s: StorageView,
    bucket: Seq<char>,
    name: Seq<char>,
    content: Seq<u8>,
    metadata: MetadataView,
    fallback: Option<Seq<char>>,
    now: Seq<char>,
    token: Seq<char>,
)
    requires
        s.next_generation < u64::MAX,
        object_at(s, bucket, name) is Some,
        object_at(s, bucket, name)->0.generation <= s.next_generation,
    ensures
        ({
            let object = saved_object(s, bucket, name, content, metadata, fallback, now, token);
            let old = object_at(s, bucket, name)->0;
            object.created == old.created && object.generation > old.generation
        }),
{
}

/// Whether no object has a higher generation than the last one given.
pub open spec fn generations_bounded(s: StorageView) -> bool {
    forall|bucket: Seq<char>, name: Seq<char>|
        (#[trigger] object_at(s, bucket, name)) matches Some(object) ==> object.generation
            <= s.next_generation
}

/// Saving and deleting keep the generations bounded by the last one given, so
/// that every save gives a generation that no object had before.
pub proof fn generations_stay_bounded(
    s: StorageView,
    object: ObjectView,
    bucket: Seq<char>,
    name: Seq<char>,
)
    requires
        storage_sorted(s),
        generations_bounded(s),
        object.generation > s.next_generation,
    ensures
        generations_bounded(with_object(s, object)),
        generations_bounded(without_object(s, bucket, name)),
{
    let saved = with_object(s, object);
    assert forall|b: Seq<char>, n: Seq<char>|
        (#[trigger] object_at(saved, b, n)) is Some implies object_at(saved, b, n)->0.generation
        <= saved.next_generation by {
        saved_object_is_found(s, object, b, n);
        let _ = object_at(s, b, n);
    }
    let rest = without_object(s, bucket, name);
    assert forall|b: Seq<char>, n: Seq<char>|
        (#[trigger] object_at(rest, b, n)) is Some implies object_at(rest, b, n)->0.generation
        <= rest.next_generation by {
        deleted_object_is_gone(s, bucket, name, b, n);
        let _ = object_at(s, b, n);
    }
}

/// Whether an upload has not expired at `now`.
pub open spec fn is_live(now: u64) -> spec_fn((Seq<char>, UploadView)) -> bool {
    |entry: (Seq<char>, UploadView)|
        entry.1.created_at > u64::MAX - RESUMABLE_UPLOAD_TTL_SECS && u64::MAX > now
            || entry.1.created_at <= u64::MAX - RESUMABLE_UPLOAD_TTL_SECS && entry.1.created_at
            + RESUMABLE_UPLOAD_TTL_SECS > now
}

/// The storage without the uploads that have expired.
pub open spec fn pruned(s: StorageView, now: u64) -> StorageView {
    StorageView { uploads: keep_entries(s.uploads, is_live(now)), ..s }
}

/// What a request of an upload in several requests comes to.
pub enum Resumed {
    Refused(ApiError),
    Cancelled,
    /// The upload goes on; so many bytes have been received.
    Active(usize),
    /// The upload is complete.
    Complete(PendingUpload),
}

/// What a [`Resumed`] stands for.
pub enum ResumedView {
    Refused((u16, Seq<char>)),
    Cancelled,
    Active(nat),
    Complete(UploadView),
}

impl View for Resumed {
    type V = ResumedView;

    open spec fn view(&self) -> ResumedView {
        match self {
            Resumed::Refused(e) => ResumedView::Refused(e@),
            Resumed::Cancelled => ResumedView::Cancelled,
            Resumed::Active(n) => ResumedView::Active(*n as nat),
            Resumed::Complete(upload) => ResumedView::Complete(upload@),
        }
    }
}

/// The offset that a request names, where it names one.
pub open spec fn named_offset(offset: Option<Seq<char>>) -> Option<nat> {
    match offset {
        Some(text) => parse_unsigned_spec(text, usize::MAX as nat),
        None => None,
    }
}

/// Whether a command completes an upload: none at all, or one that says so.
pub open spec fn completes(command: Seq<char>) -> bool {
    command.len() == 0 || find_spec(command, "finalize"@, 0) is Some
}

/// An upload with more bytes.
pub open spec fn extended(upload: UploadView, body: Seq<u8>) -> UploadView {
    UploadView { bytes: upload.bytes + body, ..upload }
}

/// The uploads after a request of one, and what the request comes to.
pub open spec fn resume_spec(
    uploads: Seq<(Seq<char>, UploadView)>,
    bucket: Seq<char>,
    id: Seq<char>,
    command: Seq<char>,
    offset: Option<Seq<char>>,
    body: Seq<u8>,
) -> (Seq<(Seq<char>, UploadView)>, ResumedView) {
    if lookup(uploads, id) is None || lookup(uploads, id)->0.bucket != bucket {
        (uploads, ResumedView::Refused((404, "upload session not found"@)))
    } else {
        let upload = lookup(uploads, id)->0;
        if command == "cancel"@ {
            (without(uploads, id), ResumedView::Cancelled)
        } else if command == "query"@ {
            (uploads, ResumedView::Active(upload.bytes.len()))
        } else if named_offset(offset) is Some && named_offset(offset)->0 != upload.bytes.len() {
            (
                uploads,
                ResumedView::Refused((400, "upload offset does not match received size"@)),
            )
        } else if upload.bytes.len() + body.len() > MAX_UPLOAD_BYTES {
            (uploads, ResumedView::Refused((413, "object exceeds 64 MiB limit"@)))
        } else if !completes(command) {
            (
                put(uploads, id, extended(upload, body)),
                ResumedView::Active(upload.bytes.len() + body.len()),
            )
        } else {
            (without(uploads, id), ResumedView::Complete(extended(upload, body)))
        }
    }
}

/// A chunk that is sent at the offset reached is kept behind the others, and
/// one sent at another offset changes nothing.
pub proof fn chunks_are_kept(
    uploads: Seq<(Seq<char>, UploadView)>,
    bucket: Seq<char>,
    id: Seq<char>,
    command: Seq<char>,
    offset: nat,
    text: Seq<char>,
    body: Seq<u8>,
)
    requires
        keys_sorted(uploads),
        lookup(uploads, id) is Some,
        lookup(uploads, id)->0.bucket == bucket,
        command != "cancel"@,
        command != "query"@,
        !completes(command),
        parse_unsigned_spec(text, usize::MAX as nat) == Some(offset),
        lookup(uploads, id)->0.bytes.len() + body.len() <= MAX_UPLOAD_BYTES,
    ensures
        ({
            let upload = lookup(uploads, id)->0;
            let (after, outcome) = resume_spec(uploads, bucket, id, command, Some(text), body);
            if offset == upload.bytes.len() {
                &&& lookup(after, id) == Some(extended(upload, body))
                &&& outcome == ResumedView::Active(upload.bytes.len() + body.len())
            } else {
                &&& after == uploads
                &&& outcome is Refused
            }
        }),
{
    lookup_after_put(uploads, id, extended(lookup(uploads, id)->0, body), id);
}

fn chars_stand_at(hay: &Vec<char>, needle: &Vec<char>, i: usize) -> (r: bool)
    requires
        i + needle@.len() <= hay@.len(),
    ensures
        r == stands_at(hay@, needle@, i as int),
{
    let total: usize = hay.len();
    let mut k: usize = 0;
    while k < needle.len()
        invariant
            k <= needle@.len(),
            i + needle@.len() <= total,
            total == hay@.len(),
            forall|j: int| 0 <= j < k ==> hay@[i + j] == needle@[j],
        decreases needle.len() - k,
    {
        if hay[i + k] != needle[k] {
            assert(hay@.subrange(i as int, i + needle@.len())[k as int] != needle@[k as int]);
            return false;
        }
        k += 1;
    }
    assert(hay@.subrange(i as int, i + needle@.len()) =~= needle@);
    true
}

/// Where a text first stands in another.
pub fn find_text(hay: &str, needle: &str) -> (r: Option<usize>)
    ensures
        match r {
            Some(k) => find_spec(hay@, needle@, 0) == Some(k as int) && k + needle@.len()
                <= hay@.len(),
            None => find_spec(hay@, needle@, 0) is None,
        },
{
    let x = chars_of(hay);
    let y = chars_of(needle);
    let mut i: usize = 0;
    while i <= x.len() && y.len() <= x.len() - i
        invariant
            x@ == hay@,
            y@ == needle@,
            find_spec(hay@, needle@, 0) == find_spec(hay@, needle@, i as int),
        decreases x@.len() + 1 - i,
    {
        if chars_stand_at(&x, &y, i) {
            return Some(i);
        }
        if i == x.len() {
            assert(find_spec(hay@, needle@, i + 1) is None);
            return None;
        }
        i += 1;
    }
    None
}

impl StorageData {
    /// Storage without objects and uploads.
    pub fn new() -> (r: StorageData)
        ensures
            r@ == (StorageView {
                next_generation: 0,
                objects: Seq::empty(),
                uploads: Seq::empty(),
            }),
            storage_sorted(r@),
    {
        StorageData {
            next_generation: 0,
            objects: OrderedMap::new(),
            uploads: OrderedMap::new(),
        }
    }

    /// Finds an object.
    pub fn get_object(&self, bucket: &str, name: &str) -> (r: Option<&StoredObject>)
        ensures
            match r {
                Some(object) => object_at(self@, bucket@, name@) == Some(object@),
                None => object_at(self@, bucket@, name@) is None,
            },
    {
        match self.objects.get(bucket) {
            Some(objects) => objects.get(name),
            None => None,
        }
    }

    /// Saves an object in memory under the next generation.
    pub fn save_stamped(
        &mut self,
        bucket: String,
        name: String,
        content: Vec<u8>,
        metadata: UploadMetadata,
        fallback: Option<String>,
        now: String,
        token: String,
    ) -> (r: Json)
        requires
            old(self).next_generation < u64::MAX,
        ensures
            ({
                let object = saved_object(
                    old(self)@,
                    bucket@,
                    name@,
                    content@,
                    metadata@,
                    opt_text(fallback),
                    now@,
                    token@,
                );
                &&& final(self)@ == with_object(old(self)@, object)
                &&& r@ == object_json_spec(object)
            }),
    {
        let ghost start = self@;
        let generation: u64 = self.next_generation + 1;
        let created = match self.get_object(bucket.as_str(), name.as_str()) {
            Some(old) => Some(old.created.clone()),
            None => None,
        };
        let stamp = Stamp { generation, created, now, token };
        let place = bucket.clone();
        let key = name.clone();
        let object = new_object(bucket, name, content, None, metadata, fallback, stamp);
        let written = object_json(&object);
        self.next_generation = generation;
        let _count = self.objects.len();
        let mut objects = match self.objects.remove(place.as_str()) {
            Some(objects) => objects,
            None => OrderedMap::new(),
        };
        assert(objects@ == bucket_of(start, place@));
        let ghost value = object@;
        objects.insert(key.as_str(), object);
        proof {
            put_after_without(start.objects, place@, objects@);
        }
        self.objects.insert(place.as_str(), objects);
        assert(self@ =~= with_object(start, value));
        written
    }

    /// Saves an object in memory. Its times are the present second, and its
    /// downloads carry a token drawn at random.
    pub fn save_object(
        &mut self,
        bucket: String,
        name: String,
        content: Vec<u8>,
        metadata: UploadMetadata,
        fallback: Option<String>,
    ) -> (r: Json)
        requires
            old(self).next_generation < u64::MAX,
        ensures
            exists|now: Seq<char>, token: Seq<char>, seconds: int|
                #![trigger is_rfc3339_of(now, seconds, 0), is_drawn_id(token)]
                {
                    let object = saved_object(
                        old(self)@,
                        bucket@,
                        name@,
                        content@,
                        metadata@,
                        opt_text(fallback),
                        now,
                        token,
                    );
                    &&& 0 <= seconds <= i64::MAX
                    &&& is_rfc3339_of(now, seconds, 0)
                    &&& is_drawn_id(token)
                    &&& final(self)@ == with_object(old(self)@, object)
                    &&& r@ == object_json_spec(object)
                },
    {
        let now = chrono_timestamp();
        let token = random_id();
        let ghost seconds = choose|seconds: int|
            0 <= seconds <= i64::MAX && #[trigger] is_rfc3339_of(now@, seconds, 0);
        assert(is_drawn_id(token@));
        assert(is_rfc3339_of(now@, seconds, 0));
        self.save_stamped(bucket, name, content, metadata, fallback, now, token)
    }

    /// Deletes an object.
    pub fn delete_object(&mut self, bucket: &str, name: &str) -> (r: Option<StoredObject>)
        ensures
            match r {
                Some(object) => object_at(old(self)@, bucket@, name@) == Some(object@),
                None => object_at(old(self)@, bucket@, name@) is None,
            },
            final(self)@ == without_object(old(self)@, bucket@, name@),
    {
        let ghost start = self@;
        let _count = self.objects.len();
        match self.objects.remove(bucket) {
            None => None,
            Some(mut objects) => {
                let removed = objects.remove(name);
                proof {
                    put_after_without(start.objects, bucket@, objects@);
                }
                self.objects.insert(bucket, objects);
                assert(self@ =~= without_object(start, bucket@, name@));
                removed
            },
        }
    }

    /// Forgets the uploads that have expired at `now`.
    pub fn prune_expired_uploads(&mut self, now: u64)
        ensures
            final(self)@ == pruned(old(self)@, now),
    {
        let mut flags: Vec<bool> = Vec::new();
        let mut i: usize = 0;
        while i < self.uploads.len()
            invariant
                i <= self.uploads@.len(),
                *self == *old(self),
                flags@.len() == i,
                forall|j: int|
                    0 <= j < i ==> flags@[j] == is_live(now)(#[trigger] self.uploads@[j]),
            decreases self.uploads@.len() - i,
        {
            let created: u64 = self.uploads.value_at(i).created_at;
            let end: u64 = if created > u64::MAX - RESUMABLE_UPLOAD_TTL_SECS {
                u64::MAX
            } else {
                created + RESUMABLE_UPLOAD_TTL_SECS
            };
            flags.push(end > now);
            i += 1;
        }
        self.uploads.retain_flagged(&flags, Ghost(is_live(now)));
        assert(self@ =~= pruned(old(self)@, now));
    }

    /// Opens an upload in several requests under an id.
    pub fn begin_upload(
        &mut self,
        id: &str,
        bucket: String,
        name: String,
        metadata: UploadMetadata,
        now: u64,
    )
        ensures
            final(self)@ == (StorageView {
                uploads: put(
                    pruned(old(self)@, now).uploads,
                    id@,
                    UploadView {
                        bucket: bucket@,
                        name: name@,
                        metadata: metadata@,
                        bytes: Seq::empty(),
                        created_at: now,
                    },
                ),
                ..old(self)@
            }),
    {
        self.prune_expired_uploads(now);
        let bytes: Vec<u8> = Vec::new();
        assert(bytes@ =~= Seq::empty());
        self.uploads.insert(id, PendingUpload { bucket, name, metadata, bytes, created_at: now });
    }

    /// Opens an upload in several requests under an id drawn at random, and
    /// returns the id.
    pub fn open_upload(&mut self, bucket: String, name: String, metadata: UploadMetadata) -> (r:
        String)
        ensures
            is_drawn_id(r@),
            exists|now: u64|
                #![trigger pruned(old(self)@, now)]
                final(self)@ == (StorageView {
                    uploads: put(
                        pruned(old(self)@, now).uploads,
                        r@,
                        UploadView {
                            bucket: bucket@,
                            name: name@,
                            metadata: metadata@,
                            bytes: Seq::empty(),
                            created_at: now,
                        },
                    ),
                    ..old(self)@
                }),
    {
        let now: u64 = unix_now();
        let id = random_id();
        assert(is_drawn_id(id@));
        let ghost touched = pruned(self@, now);
        self.begin_upload(id.as_str(), bucket, name, metadata, now);
        id
    }

    /// Serves a request of an upload under its id, at `now`.
    pub fn resume_at(
        &mut self,
        bucket: &str,
        id: &str,
        command: &str,
        offset: Option<&str>,
        body: &[u8],
        now: u64,
    ) -> (r: Resumed)
        ensures
            ({
                let (uploads, outcome) = resume_spec(
                    pruned(old(self)@, now).uploads,
                    bucket@,
                    id@,
                    command@,
                    match offset {
                        Some(text) => Some(text@),
                        None => None,
                    },
                    body@,
                );
                &&& final(self)@ == (StorageView { uploads, ..old(self)@ })
                &&& r@ == outcome
            }),
    {
        self.prune_expired_uploads(now);
        let ghost uploads = self@.uploads;
        let (received, known) = match self.uploads.get(id) {
            Some(upload) => (upload.bytes.len(), same(upload.bucket.as_str(), bucket)),
            None => (0usize, false),
        };
        if !known {
            return Resumed::Refused(ApiError::new(404, "upload session not found"));
        }
        if same(command, "cancel") {
            let _gone = self.uploads.remove(id);
            return Resumed::Cancelled;
        }
        if same(command, "query") {
            return Resumed::Active(received);
        }
        let wrong = match offset {
            Some(text) => match parse_unsigned(text, usize::MAX as u64) {
                Some(n) => n != received as u64,
                None => false,
            },
            None => false,
        };
        if wrong {
            return Resumed::Refused(
                ApiError::new(400, "upload offset does not match received size"),
            );
        }
        if received > MAX_UPLOAD_BYTES || body.len() > MAX_UPLOAD_BYTES - received {
            return Resumed::Refused(ApiError::new(413, "object exceeds 64 MiB limit"));
        }
        let last = is_blank(command) || find_text(command, "finalize").is_some();
        let _count = self.uploads.len();
        match self.uploads.remove(id) {
            None => Resumed::Refused(ApiError::new(404, "upload session not found")),
            Some(mut upload) => {
                let ghost before = upload@;
                upload.bytes.extend_from_slice(body);
                assert(upload@.bytes =~= before.bytes + body@);
                assert(upload@ =~= extended(before, body@));
                if !last {
                    proof {
                        put_after_without(uploads, id@, upload@);
                    }
                    self.uploads.insert(id, upload);
                    Resumed::Active(received + body.len())
                } else {
                    Resumed::Complete(upload)
                }
            },
        }
    }

    /// Serves a request of an upload at the present second. The id is any text
    /// of a UUID.
    pub fn resumable_put(
        &mut self,
        bucket: &str,
        upload_id: Option<&str>,
        command: &str,
        offset: Option<&str>,
        body: &[u8],
    ) -> (r: Resumed)
        ensures
            match upload_id {
                None => r@ == ResumedView::Refused((400, "missing upload_id"@)) && final(self)@
                    == old(self)@,
                Some(text) => match uuid_of_text(text@) {
                    None => r@ == ResumedView::Refused((400, "missing upload_id"@)) && final(self)@
                        == old(self)@,
                    Some(id) => exists|now: u64|
                        #![trigger pruned(old(self)@, now)]
                        {
                            let (uploads, outcome) = resume_spec(
                                pruned(old(self)@, now).uploads,
                                bucket@,
                                id,
                                command@,
                                match offset {
                                    Some(text) => Some(text@),
                                    None => None,
                                },
                                body@,
                            );
                            &&& final(self)@ == (StorageView { uploads, ..old(self)@ })
                            &&& r@ == outcome
                        },
                },
            },
    {
        let id = match upload_id {
            Some(text) => match canonical_uuid(text) {
                Some(id) => id,
                None => {
                    return Resumed::Refused(ApiError::new(400, "missing upload_id"));
                },
            },
            None => {
                return Resumed::Refused(ApiError::new(400, "missing upload_id"));
            },
        };
        let now: u64 = unix_now();
        let ghost touched = pruned(self@, now);
        self.resume_at(bucket, id.as_str(), command, offset, body, now)
    }
}

} // verus!
