use firebase_emu::buckets::{
    api_error, bucket_metadata, ApiError, PendingUpload, Resumed, StorageData, MAX_UPLOAD_BYTES,
    RESUMABLE_UPLOAD_TTL_SECS,
};
use firebase_emu::json::Json;
use firebase_emu::listing::{
    is_orphan, media_headers, metadata_from_headers, opening, upload_kind, upload_location,
    upload_name, write_page_token, UploadKind,
};
use firebase_emu::multipart::{find_bytes, parse_multipart, part_content_type, trim};
use firebase_emu::storage::{
    blob_matches, blob_name, checksum_text, crc32c_base64, object_json, percent_encode,
    stored_generation, BlobNameError, UploadMetadata,
};
use firebase_emu::timestamps::timestamp_from_unix;

fn save(data: &mut StorageData, name: &str, bytes: &[u8], fallback: Option<&str>) -> Json {
    data.save_object(
        "bucket".to_owned(),
        name.to_owned(),
        bytes.to_vec(),
        UploadMetadata::none(),
        fallback.map(str::to_owned),
    )
}

fn member_texts(v: &Json, list: &str, key: &str) -> Vec<String> {
    v.items(list).unwrap().iter().map(|item| item.text(key)).collect()
}

#[test]
fn parses_binary_multipart_upload() {
    let body = b"--edge\r\nContent-Type: application/json; charset=UTF-8\r\n\r\n{\"name\":\"folder/a.bin\",\"metadata\":{\"owner\":\"test\"}}\r\n--edge\r\nContent-Type: application/octet-stream\r\n\r\nabc\x00\xffxyz\r\n--edge--\r\n";
    let upload = parse_multipart("multipart/related; boundary=edge", body).unwrap();
    let metadata = Json::parse(std::str::from_utf8(&upload.metadata).unwrap()).unwrap();
    assert_eq!(metadata.text("name"), "folder/a.bin");
    assert_eq!(metadata.get("metadata").unwrap().text("owner"), "test");
    assert_eq!(upload.media, b"abc\x00\xffxyz");
    assert_eq!(upload.media_type.as_deref(), Some("application/octet-stream"));
}

#[test]
fn formats_unix_epoch_as_rfc3339() {
    assert_eq!(timestamp_from_unix(0), "1970-01-01T00:00:00.000Z");
    assert_eq!(timestamp_from_unix(1_704_067_200), "2024-01-01T00:00:00.000Z");
}

#[test]
fn percent_encodes_object_names_for_json_api_links() {
    assert_eq!(percent_encode("folder/a b.txt"), "folder%2Fa%20b.txt");
}

#[test]
fn emits_gcs_crc32c_checksum_format() {
    assert_eq!(crc32c_base64(b"hello emulator"), "LIKQWQ==");
    assert_eq!(checksum_text(0x0102_0304), "AQIDBA==");
}

#[test]
fn store_overwrite_preserves_creation_time_and_delete_removes_object() {
    let mut data = StorageData::new();
    save(&mut data, "file.txt", b"one", Some("text/plain"));
    let first = data.get_object("bucket", "file.txt").unwrap();
    let (generation, created) = (first.generation, first.created.clone());
    assert_eq!(first.content_type, "text/plain");
    save(&mut data, "file.txt", b"two", None);
    let second = data.get_object("bucket", "file.txt").unwrap();
    assert_eq!(second.bytes.as_deref(), Some(b"two".as_slice()));
    assert!(second.generation > generation);
    assert_eq!(second.created, created);
    assert!(data.delete_object("bucket", "file.txt").is_some());
    assert!(data.get_object("bucket", "file.txt").is_none());
    assert!(data.delete_object("bucket", "file.txt").is_none());
}

#[test]
fn delimiter_listing_separates_items_and_prefixes() {
    let mut data = StorageData::new();
    for name in ["logs/a.txt", "logs/2024/jan.txt", "logs/2025/feb.txt"] {
        save(&mut data, name, b"data", None);
    }
    let listing = data
        .list_objects("bucket", Some("logs/"), Some("/"), None, None)
        .unwrap();
    assert_eq!(member_texts(&listing, "items", "name"), vec!["logs/a.txt"]);
    assert_eq!(
        listing.items("prefixes").unwrap(),
        &vec![Json::Text("logs/2024/".into()), Json::Text("logs/2025/".into())]
    );
}

#[test]
fn browser_multipart_is_visible_to_gcs_and_listing_pages() {
    let mut data = StorageData::new();
    let body = b"--edge\r\nContent-Type: application/json\r\n\r\n{\"name\":\"folder/a.bin\"}\r\n--edge\r\nContent-Type: application/octet-stream\r\n\r\n\x00\xff\r\n--edge--\r\n";
    assert_eq!(
        upload_kind(false, None, Some("multipart".into())).unwrap(),
        UploadKind::Multipart
    );
    let upload = parse_multipart("multipart/related; boundary=edge", body).unwrap();
    let metadata = Json::parse(std::str::from_utf8(&upload.metadata).unwrap()).unwrap();
    let name = upload_name(None, Some(metadata.text("name"))).unwrap();
    data.save_object(
        "bucket".into(),
        name,
        upload.media,
        UploadMetadata::none(),
        upload.media_type,
    );
    let object = data.get_object("bucket", "folder/a.bin").unwrap();
    let headers = media_headers(object);
    assert_eq!(
        headers[0],
        ("x-goog-hash".to_string(), format!("crc32c={}", crc32c_base64(&[0, 255])))
    );
    assert_eq!(object.bytes.as_deref(), Some([0u8, 255].as_slice()));
    save(&mut data, "folder/b.bin", b"", None);
    let first = data.list_objects("bucket", None, None, None, Some(1)).unwrap();
    assert_eq!(member_texts(&first, "items", "name"), vec!["folder/a.bin"]);
    let token = first.text("nextPageToken");
    assert_eq!(token, write_page_token(1));
    let second = data.list_objects("bucket", None, None, Some(&token), Some(1)).unwrap();
    assert_eq!(member_texts(&second, "items", "name"), vec!["folder/b.bin"]);
    assert!(second.get("nextPageToken").is_none());
    let bad = data.list_objects("bucket", None, None, Some("!"), None).unwrap_err();
    assert_eq!(bad, ApiError { status: 400, message: "invalid page token".into() });
}

#[test]
fn resumable_checks_offsets_and_keeps_all_chunks() {
    let mut data = StorageData::new();
    let id = data.open_upload("bucket".into(), "file".into(), UploadMetadata::none());
    for (offset, command, body, outcome) in [
        ("0", "upload", "one", 200),
        ("0", "upload", "bad", 400),
        ("3", "upload, finalize", "two", 200),
    ] {
        let status = match data.resumable_put(
            "bucket",
            Some(&id.to_uppercase()),
            command,
            Some(offset),
            body.as_bytes(),
        ) {
            Resumed::Refused(e) => e.status,
            Resumed::Active(size) => {
                assert_eq!(size, 3);
                200
            }
            Resumed::Complete(upload) => {
                data.save_object(upload.bucket, upload.name, upload.bytes, upload.metadata, None);
                200
            }
            Resumed::Cancelled => 200,
        };
        assert_eq!(status, outcome);
    }
    assert_eq!(
        data.get_object("bucket", "file").unwrap().bytes.as_deref(),
        Some(b"onetwo".as_slice())
    );
}

fn pending(created_at: u64) -> PendingUpload {
    PendingUpload {
        bucket: "bucket".into(),
        name: "file".into(),
        metadata: UploadMetadata::none(),
        bytes: Vec::new(),
        created_at,
    }
}

#[test]
fn abandoned_resumable_uploads_expire_opportunistically() {
    let mut data = StorageData::new();
    data.uploads.insert("expired", pending(1));
    data.uploads.insert("active", pending(RESUMABLE_UPLOAD_TTL_SECS + 1));
    data.prune_expired_uploads(RESUMABLE_UPLOAD_TTL_SECS + 2);
    assert!(!data.uploads.contains("expired"));
    assert!(data.uploads.contains("active"));
}

fn refused(outcome: Resumed) -> (u16, String) {
    match outcome {
        Resumed::Refused(e) => (e.status, e.message),
        _ => panic!("not refused"),
    }
}

#[test]
fn uploads_are_refused_for_a_reason() {
    let mut data = StorageData::new();
    assert_eq!(
        refused(data.resumable_put("bucket", None, "", None, b"")),
        (400, "missing upload_id".into())
    );
    assert_eq!(
        refused(data.resumable_put("bucket", Some("no id"), "", None, b"")),
        (400, "missing upload_id".into())
    );
    let id = data.open_upload("bucket".into(), "file".into(), UploadMetadata::none());
    assert_eq!(
        refused(data.resumable_put("other", Some(&id), "", None, b"")),
        (404, "upload session not found".into())
    );
    assert_eq!(
        refused(data.resumable_put("bucket", Some(&id), "", None, &vec![0; MAX_UPLOAD_BYTES + 1])),
        (413, "object exceeds 64 MiB limit".into())
    );
    assert!(matches!(
        data.resumable_put("bucket", Some(&id), "query", None, b""),
        Resumed::Active(0)
    ));
    assert!(matches!(
        data.resumable_put("bucket", Some(&id), "cancel", None, b""),
        Resumed::Cancelled
    ));
    assert_eq!(
        refused(data.resumable_put("bucket", Some(&id), "query", None, b"")),
        (404, "upload session not found".into())
    );
}

#[test]
fn multipart_bodies_are_refused_for_a_reason() {
    for (content_type, body, message) in [
        ("multipart/related", "", "multipart boundary is missing"),
        ("multipart/related; boundary=\"\"", "", "multipart boundary is missing"),
        ("x; boundary=edge", "nothing", "multipart boundary not found"),
        ("x; boundary=edge", "--edge\r\nA: b", "multipart part headers are incomplete"),
        ("x; boundary=edge", "--edge\r\nA: b\r\n\r\ncontent", "multipart closing boundary is missing"),
        (
            "x; boundary=\"edge\"",
            "--edge\r\nA: b\r\n\r\ncontent\r\n--edge--",
            "multipart upload requires metadata and media parts",
        ),
    ] {
        assert_eq!(parse_multipart(content_type, body.as_bytes()).unwrap_err(), message);
    }
    assert_eq!(
        parse_multipart("x; boundary=edge", b"--edge\r\n\xff\r\n\r\nx\r\n--edge--").unwrap_err(),
        "multipart part headers are not UTF-8"
    );
}

#[test]
fn bytes_and_headers_are_found() {
    assert_eq!(find_bytes(b"hello", b"ll"), Some(2));
    assert_eq!(find_bytes(b"hello", b""), Some(0));
    assert_eq!(find_bytes(b"", b"x"), None);
    assert_eq!(
        part_content_type("X: y\r\nCONTENT-type: \u{3000}text/plain \r\n").as_deref(),
        Some("text/plain")
    );
    assert_eq!(part_content_type("nothing"), None);
    assert_eq!(trim(" \u{85}a b\u{2003}"), "a b");
}

#[test]
fn blob_names_are_canonical_ids() {
    assert_eq!(blob_name("67e55044-10b1-426f-9247-bb680e5fe0c8"), Ok(()));
    assert_eq!(
        blob_name("67E55044-10B1-426F-9247-BB680E5FE0C8"),
        Err(BlobNameError::NonCanonical)
    );
    assert_eq!(blob_name("../outside"), Err(BlobNameError::Invalid));
    assert_eq!(stored_generation(0), None);
    assert_eq!(stored_generation(7), Some(7));
    assert!(is_orphan("a", &vec!["b".into()]));
    assert!(!is_orphan("b", &vec!["b".into()]));
}

#[test]
fn objects_are_written_as_json() {
    let mut data = StorageData::new();
    let mut metadata = UploadMetadata::none();
    metadata.cache_control = Some("no-store".into());
    metadata.metadata.insert("owner", "test".into());
    data.save_object("b k".into(), "f/x".into(), b"hi".to_vec(), metadata, None);
    let object = data.get_object("b k", "f/x").unwrap();
    assert!(blob_matches(object, b"hi"));
    assert!(!blob_matches(object, b"ho"));
    let v = object_json(object);
    assert_eq!(v.text("id"), "b k/f/x/1");
    assert_eq!(v.text("mediaLink"), "/storage/v1/b/b%20k/o/f%2Fx?alt=media");
    assert_eq!(v.text("size"), "2");
    assert_eq!(v.text("etag"), "\"1\"");
    assert_eq!(v.text("cacheControl"), "no-store");
    assert_eq!(v.get("metadata").unwrap().text("owner"), "test");
    assert!(v.get("contentEncoding").is_none());
    assert_eq!(v.text("contentType"), "application/octet-stream");
    assert_eq!(v.text("timeCreated").len(), 24);
    assert_eq!(v.text("downloadTokens").len(), 36);
    assert_eq!(bucket_metadata("b").text("kind"), "storage#bucket");
    let error = api_error(&ApiError { status: 404, message: "object not found".into() });
    assert_eq!(
        error.to_text(),
        "{\"error\":{\"code\":404,\"errors\":[{\"message\":\"object not found\"}],\"message\":\"object not found\"}}"
    );
}

#[test]
fn uploads_are_planned() {
    assert_eq!(upload_kind(true, None, None).unwrap(), UploadKind::Resume);
    assert_eq!(upload_kind(false, None, None).unwrap(), UploadKind::Media);
    assert_eq!(
        upload_kind(false, Some("x".into()), None).unwrap_err().message,
        "unsupported uploadType: x"
    );
    assert_eq!(upload_name(None, None).unwrap_err().message, "missing object name");
    assert_eq!(upload_name(Some("".into()), Some("n".into())).unwrap_err().status, 400);
    let mut metadata = UploadMetadata::none();
    metadata.name = Some("n".into());
    let (name, metadata) = opening(None, metadata, Some("text/plain".into())).unwrap();
    assert_eq!(name, "n");
    assert_eq!(metadata.content_type.as_deref(), Some("text/plain"));
    assert_eq!(
        upload_location(None, "b k", "id"),
        "http://127.0.0.1:9199/upload/storage/v1/b/b%20k/o?uploadType=resumable&upload_id=id"
    );
    let headers = vec![
        ("cache-control".to_string(), "no-cache".to_string()),
        ("x-goog-meta-owner".to_string(), "test".to_string()),
    ];
    let read = metadata_from_headers(&headers);
    assert_eq!(read.cache_control.as_deref(), Some("no-cache"));
    assert_eq!(read.metadata.get("owner").map(String::as_str), Some("test"));
}
