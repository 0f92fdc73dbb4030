use madsim::model::{CompletedMultipartUpload, CompletedPart, Delete, ExpirationStatus, LifecycleRule, ObjectIdentifier, BucketLifecycleConfiguration};
use madsim::range::{parse_decimal, parse_range};
use madsim::s3::{S3Error, S3Service};
use madsim::text::{str_has_prefix, str_lt};

fn service() -> S3Service {
    let mut s = S3Service::new();
    s.create_bucket("b");
    s
}

#[test]
fn put_get_head_roundtrip() {
    let mut s = service();
    s.put_object("b", "k", b"hello".to_vec()).unwrap();
    assert_eq!(s.get_object("b", "k", None, None).unwrap().body, b"hello".to_vec());
    assert_eq!(s.head_object("b", "k").unwrap().content_length, 0);
    s.put_object("b", "k", b"bye".to_vec()).unwrap();
    assert_eq!(s.get_object("b", "k", None, None).unwrap().body, b"bye".to_vec());
}

#[test]
fn missing_bucket_and_key_errors() {
    let mut s = service();
    assert_eq!(s.put_object("nope", "k", vec![]), Err(S3Error::NoSuchBucket("nope".to_string())));
    assert_eq!(s.get_object("nope", "k", None, None), Err(S3Error::NoSuchBucket("nope".to_string())));
    assert_eq!(s.get_object("b", "k", None, None), Err(S3Error::NoSuchKey("k".to_string())));
    assert_eq!(s.head_object("b", "k"), Err(S3Error::NotFound("k".to_string())));
    assert_eq!(s.delete_object("nope", "k"), Err(S3Error::NoSuchBucket("nope".to_string())));
    assert!(s.delete_object("b", "k").is_ok());
    assert!(s.list_objects_v2("nope", None).is_err());
}

#[test]
fn ranged_reads() {
    let mut s = service();
    s.put_object("b", "k", b"0123456789".to_vec()).unwrap();
    let get = |s: &S3Service, r: &str| s.get_object("b", "k", Some(r), None);
    assert_eq!(get(&s, "bytes=2-4").unwrap().body, b"234".to_vec());
    assert_eq!(get(&s, "bytes=7-").unwrap().body, b"789".to_vec());
    assert_eq!(get(&s, "bytes=-3").unwrap().body, b"789".to_vec());
    assert_eq!(get(&s, "bytes=-").unwrap().body, b"0123456789".to_vec());
    assert_eq!(get(&s, "bytes=+1-1").unwrap().body, b"1".to_vec());
    assert_eq!(get(&s, "bytes=3-2").unwrap().body, Vec::<u8>::new());
    assert_eq!(get(&s, "items=0-1"), Err(S3Error::UnsupportedRangeUnit("items".to_string())));
    assert_eq!(get(&s, "bytes"), Err(S3Error::InvalidRange("bytes".to_string())));
    assert_eq!(get(&s, "bytes=5"), Err(S3Error::InvalidRange("bytes=5".to_string())));
    assert_eq!(get(&s, "bytes=a-3"), Err(S3Error::InvalidRange("bytes=a-3".to_string())));
    assert_eq!(get(&s, "bytes=0-10"), Err(S3Error::InvalidRange("bytes=0-10".to_string())));
    assert_eq!(get(&s, "bytes=-11"), Err(S3Error::InvalidRange("bytes=-11".to_string())));
}

#[test]
fn part_number_reads_are_refused() {
    let mut s = service();
    s.put_object("b", "k", b"abc".to_vec()).unwrap();
    assert_eq!(s.get_object("b", "k", None, Some(-1)), Err(S3Error::InvalidPartNumber(-1)));
    assert_eq!(s.get_object("b", "k", None, Some(3)), Err(S3Error::InvalidPartNumber(3)));
    assert_eq!(s.get_object("b", "k", None, Some(1)), Err(S3Error::PartNumberUnsupported(1)));
}

#[test]
fn listing_is_in_key_order_with_prefix_filter() {
    let mut s = service();
    s.create_bucket("other");
    s.put_object("b", "zeta", vec![1]).unwrap();
    s.put_object("b", "alpha/1", vec![1]).unwrap();
    s.put_object("other", "alpha/2", vec![1]).unwrap();
    s.put_object("b", "alpha/0", vec![1]).unwrap();
    let keys = |out: madsim::output::ListObjectsV2Output| -> Vec<String> {
        out.contents.unwrap().into_iter().map(|o| o.key.unwrap()).collect()
    };
    assert_eq!(keys(s.list_objects_v2("b", None).unwrap()), vec!["alpha/0", "alpha/1", "zeta"]);
    assert_eq!(keys(s.list_objects_v2("b", Some("alpha/")).unwrap()), vec!["alpha/0", "alpha/1"]);
    let out = s.list_objects_v2("b", Some("q")).unwrap();
    assert!(!out.is_truncated);
    assert_eq!(out.next_continuation_token, None);
    assert_eq!(keys(out), Vec::<String>::new());
}

#[test]
fn batch_delete_reports_named_keys() {
    let mut s = service();
    s.put_object("b", "x", vec![1]).unwrap();
    s.put_object("b", "y", vec![2]).unwrap();
    let delete = Delete {
        objects: Some(vec![
            ObjectIdentifier { key: Some("x".to_string()) },
            ObjectIdentifier { key: None },
            ObjectIdentifier { key: Some("missing".to_string()) },
        ]),
    };
    let out = s.delete_objects("b", delete).unwrap();
    assert_eq!(out.deleted, vec!["x".to_string(), "missing".to_string()]);
    assert!(s.get_object("b", "x", None, None).is_err());
    assert!(s.get_object("b", "y", None, None).is_ok());
    assert_eq!(s.delete_objects("b", Delete { objects: None }).unwrap().deleted, Vec::<String>::new());
}

#[test]
fn multipart_upload_assembles_chosen_parts_in_upload_order() {
    let mut s = service();
    let id = s
        .create_multipart_upload("b", "big", &vec!["7".to_string()])
        .unwrap()
        .upload_id
        .unwrap();
    assert_eq!(id, "7");
    // The object exists but is not complete yet.
    assert_eq!(s.get_object("b", "big", None, None), Err(S3Error::NoSuchKey("big".to_string())));
    s.upload_part("b", "big", b"BB".to_vec(), 2, "7", "e2").unwrap();
    let out = s.upload_part("b", "big", b"AA".to_vec(), 1, "7", "e1").unwrap();
    assert_eq!(out.e_tag, Some("e1".to_string()));
    s.upload_part("b", "big", b"CC".to_vec(), 3, "7", "e3").unwrap();
    let req = CompletedMultipartUpload {
        parts: Some(vec![
            CompletedPart { e_tag: None, part_number: 1 },
            CompletedPart { e_tag: Some("e2".to_string()), part_number: 2 },
            CompletedPart { e_tag: Some("wrong".to_string()), part_number: 3 },
        ]),
    };
    s.complete_multipart_upload("b", "big", req, "7").unwrap();
    assert_eq!(s.get_object("b", "big", None, None).unwrap().body, b"BBAA".to_vec());
    assert_eq!(
        s.upload_part("b", "big", vec![], 1, "7", "e"),
        Err(S3Error::NoSuchUpload("7".to_string()))
    );
}

#[test]
fn upload_ids_are_chosen_among_free_candidates() {
    let mut s = service();
    let first = s.create_multipart_upload("b", "k", &vec!["1".to_string()]).unwrap();
    assert_eq!(first.upload_id, Some("1".to_string()));
    let second = s
        .create_multipart_upload("b", "k", &vec!["1".to_string(), "2".to_string()])
        .unwrap();
    assert_eq!(second.upload_id, Some("2".to_string()));
    assert_eq!(
        s.create_multipart_upload("b", "k", &vec!["1".to_string(), "2".to_string()]),
        Err(S3Error::UploadIdsExhausted)
    );
    assert!(s.abort_multipart_upload("b", "k", "1").is_ok());
    assert_eq!(s.abort_multipart_upload("b", "k", "1"), Err(S3Error::NoSuchUpload("1".to_string())));
    assert_eq!(s.abort_multipart_upload("b", "none", "1"), Err(S3Error::NoSuchKey("none".to_string())));
    // Completing without a part list drops the upload only.
    s.complete_multipart_upload("b", "k", CompletedMultipartUpload { parts: None }, "2").unwrap();
    assert!(s.get_object("b", "k", None, None).is_err());
}

#[test]
fn delete_during_upload_keeps_an_empty_object() {
    let mut s = service();
    s.put_object("b", "k", b"data".to_vec()).unwrap();
    s.create_multipart_upload("b", "k", &vec!["9".to_string()]).unwrap();
    s.delete_object("b", "k").unwrap();
    assert!(s.get_object("b", "k", None, None).is_err());
    // The object is still there for the upload.
    s.upload_part("b", "k", b"x".to_vec(), 1, "9", "t").unwrap();
}

#[test]
fn lifecycle_rules_round_trip() {
    let mut s = service();
    assert_eq!(s.get_bucket_lifecycle_configuration("b").unwrap().rules, Some(vec![]));
    let rule = LifecycleRule {
        id: Some("expire".to_string()),
        prefix: Some("tmp/".to_string()),
        status: ExpirationStatus::Enabled,
        expiration_days: Some(3),
    };
    let config = BucketLifecycleConfiguration { rules: Some(vec![rule.clone()]) };
    s.put_bucket_lifecycle_configuration("b", Some(config)).unwrap();
    assert_eq!(s.get_bucket_lifecycle_configuration("b").unwrap().rules, Some(vec![rule]));
    s.put_bucket_lifecycle_configuration("b", None).unwrap();
    assert_eq!(s.get_bucket_lifecycle_configuration("b").unwrap().rules, Some(vec![]));
}

#[test]
fn decimal_and_range_parsing() {
    assert_eq!(parse_decimal("42"), Some(42));
    assert_eq!(parse_decimal("+7"), Some(7));
    assert_eq!(parse_decimal("+"), None);
    assert_eq!(parse_decimal(""), None);
    assert_eq!(parse_decimal("-1"), None);
    assert_eq!(parse_decimal("18446744073709551615"), Some(usize::MAX));
    assert_eq!(parse_decimal("18446744073709551616"), None);
    assert_eq!(parse_range("bytes=1-2=junk", 5), Ok((1, 3)));
    assert_eq!(parse_range("=1-2", 5), Err(Some(String::new())));
}

#[test]
fn string_order_and_prefix() {
    assert!(str_lt("a", "b"));
    assert!(str_lt("ab", "abc"));
    assert!(!str_lt("abc", "ab"));
    assert!(!str_lt("x", "x"));
    assert!(str_has_prefix("alpha/1", "alpha/"));
    assert!(!str_has_prefix("al", "alpha"));
}
