use madsim::input::{
    get_bucket_lifecycle_configuration_input, put_bucket_lifecycle_configuration_input,
    AbortMultipartUploadInput, CompleteMultipartUploadInput, CreateMultipartUploadInput,
    DeleteObjectInput, DeleteObjectsInput, GetObjectInput, HeadObjectInput, ListObjectsV2Input,
    PutObjectInput, UploadPartInput,
};
use madsim::model::{
    BucketLifecycleConfiguration, CompletedMultipartUpload, CompletedPart, Delete,
    ExpirationStatus, LifecycleRule, ObjectIdentifier,
};

#[test]
fn upload_part_defaults_and_fields() {
    let input = UploadPartInput::builder()
        .bucket("b")
        .key("k")
        .upload_id("u")
        .build()
        .unwrap();
    assert_eq!(input.bucket(), Some("b"));
    assert_eq!(input.key(), Some("k"));
    assert_eq!(input.upload_id(), Some("u"));
    assert_eq!(input.content_length(), 0);
    assert_eq!(input.part_number(), 0);
    let input = UploadPartInput::builder()
        .content_length(5)
        .part_number(3)
        .set_bucket(Some("x".to_string()))
        .set_bucket(None)
        .build()
        .unwrap();
    assert_eq!(input.content_length(), 5);
    assert_eq!(input.part_number(), 3);
    assert_eq!(input.bucket(), None);
    assert_eq!(input.upload_id(), None);
}

#[test]
fn get_object_fields() {
    let input = GetObjectInput::builder()
        .bucket("b")
        .key("k")
        .range("bytes=0-4")
        .part_number(2)
        .build()
        .unwrap();
    assert_eq!(input.range(), Some("bytes=0-4"));
    assert_eq!(input.part_number(), Some(2));
    let empty = GetObjectInput::builder().set_range(None).build().unwrap();
    assert_eq!(empty.range(), None);
    assert_eq!(empty.part_number(), None);
    assert_eq!(
        GetObjectInput::builder().set_part_number(Some(1)).set_key(Some("z".to_string())).build().unwrap(),
        GetObjectInput::builder().part_number(1).key("z").build().unwrap()
    );
}

#[test]
fn put_object_fields() {
    let input = PutObjectInput::builder()
        .bucket("b")
        .key("k")
        .content_length(3)
        .build()
        .unwrap();
    assert_eq!(input.bucket(), Some("b"));
    assert_eq!(input.key(), Some("k"));
    let _ = input.body();
}

#[test]
fn multipart_inputs() {
    let parts = CompletedMultipartUpload {
        parts: Some(vec![CompletedPart { e_tag: Some("e".to_string()), part_number: 1 }]),
    };
    let input = CompleteMultipartUploadInput::builder()
        .bucket("b")
        .key("k")
        .upload_id("u")
        .multipart_upload(parts.clone())
        .build()
        .unwrap();
    assert_eq!(input.multipart_upload(), Some(&parts));
    assert_eq!(input.upload_id(), Some("u"));
    let none = CompleteMultipartUploadInput::builder().set_multipart_upload(None).build().unwrap();
    assert_eq!(none.multipart_upload(), None);

    let abort = AbortMultipartUploadInput::builder().bucket("b").key("k").upload_id("u").build().unwrap();
    assert_eq!((abort.bucket(), abort.key(), abort.upload_id()), (Some("b"), Some("k"), Some("u")));
    let create = CreateMultipartUploadInput::builder().bucket("b").key("k").build().unwrap();
    assert_eq!((create.bucket(), create.key()), (Some("b"), Some("k")));
}

#[test]
fn object_inputs() {
    let del = DeleteObjectInput::builder().bucket("b").set_key(Some("k".to_string())).build().unwrap();
    assert_eq!((del.bucket(), del.key()), (Some("b"), Some("k")));
    let head = HeadObjectInput::builder().bucket("b").key("k").build().unwrap();
    assert_eq!((head.bucket(), head.key()), (Some("b"), Some("k")));
    let list = ListObjectsV2Input::builder()
        .bucket("b")
        .prefix("p/")
        .continuation_token("t")
        .build()
        .unwrap();
    assert_eq!(list.prefix(), Some("p/"));
    assert_eq!(list.continuation_token(), Some("t"));
    let batch = Delete {
        objects: Some(vec![ObjectIdentifier { key: Some("k".to_string()) }]),
    };
    let dels = DeleteObjectsInput::builder().bucket("b").delete(batch.clone()).build().unwrap();
    assert_eq!(dels.delete(), Some(&batch));
    assert_eq!(dels.bucket(), Some("b"));
}

#[test]
fn lifecycle_inputs() {
    let config = BucketLifecycleConfiguration {
        rules: Some(vec![LifecycleRule {
            id: Some("r".to_string()),
            prefix: None,
            status: ExpirationStatus::Enabled,
            expiration_days: Some(1),
        }]),
    };
    let put = put_bucket_lifecycle_configuration_input::Builder::default()
        .bucket("b")
        .lifecycle_configuration(config.clone())
        .expected_bucket_owner("o")
        .build()
        .unwrap();
    assert_eq!(put.lifecycle_configuration(), Some(&config));
    assert_eq!(put.expected_bucket_owner(), Some("o"));
    let get = get_bucket_lifecycle_configuration_input::Builder::default()
        .bucket("b")
        .set_expected_bucket_owner(None)
        .build()
        .unwrap();
    assert_eq!(get.bucket(), Some("b"));
    assert_eq!(get.expected_bucket_owner(), None);
}
