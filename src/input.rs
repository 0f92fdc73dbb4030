//! The inputs of the object-storage requests, each made by a builder that
//! holds every field as optional until `build`.
use vstd::prelude::*;

use aws_smithy_http::byte_stream::ByteStream;

use crate::model::{BucketLifecycleConfiguration, CompletedMultipartUpload, Delete};

pub mod upload_part_input;
pub mod complete_multipart_upload_input;
pub mod abort_multipart_upload_input;
pub mod get_object_input;
pub mod put_object_input;
pub mod delete_object_input;
pub mod delete_objects_input;
pub mod create_multipart_upload_input;
pub mod head_object_input;
pub mod list_objects_v2_input;
pub mod put_bucket_lifecycle_configuration_input;
pub mod get_bucket_lifecycle_configuration_input;

verus! {

/// The characters of an optional owned string.
pub open spec fn text(o: Option<String>) -> Option<Seq<char>> {
    match o {
        Some(s) => Some(s@),
        None => None,
    }
}

/// The characters of an optional borrowed string.
pub open spec fn text_ref(o: Option<&str>) -> Option<Seq<char>> {
    match o {
        Some(s) => Some(s@),
        None => None,
    }
}

/// Borrows the string inside an `Option<String>`.
pub(crate) fn as_text(o: &Option<String>) -> (r: Option<&str>)
    ensures
        text_ref(r) == text(*o),
{
    match o {
        Some(s) => Some(s.as_str()),
        None => None,
    }
}

/// The input of the request that uploads one part of a multipart upload.
#[non_exhaustive]
#[derive(Debug)]
pub struct UploadPartInput {
    pub body: ByteStream,
    pub bucket: Option<String>,
    pub content_length: i64,
    pub key: Option<String>,
    pub part_number: i32,
    pub upload_id: Option<String>,
}

impl UploadPartInput {
    /// A builder with no field set.
    pub fn builder() -> (r: upload_part_input::Builder)
        ensures
            r == (upload_part_input::Builder {
                body: None,
                bucket: None,
                content_length: None,
                key: None,
                part_number: None,
                upload_id: None,
            }),
    {
        upload_part_input::Builder::default()
    }

    pub fn body(&self) -> (r: &ByteStream)
        ensures
            *r == self.body,
    {
        &self.body
    }

    pub fn bucket(&self) -> (r: Option<&str>)
        ensures
            text_ref(r) == text(self.bucket),
    {
        as_text(&self.bucket)
    }

    pub fn content_length(&self) -> (r: i64)
        ensures
            r == self.content_length,
    {
        self.content_length
    }

    pub fn key(&self) -> (r: Option<&str>)
        ensures
            text_ref(r) == text(self.key),
    {
        as_text(&self.key)
    }

    pub fn part_number(&self) -> (r: i32)
        ensures
            r == self.part_number,
    {
        self.part_number
    }

    pub fn upload_id(&self) -> (r: Option<&str>)
        ensures
            text_ref(r) == text(self.upload_id),
    {
        as_text(&self.upload_id)
    }
}

/// The input of the request that completes a multipart upload from its parts.
#[non_exhaustive]
#[derive(Clone, Debug, PartialEq, Eq)]
pub struct CompleteMultipartUploadInput {
    pub bucket: Option<String>,
    pub key: Option<String>,
    pub multipart_upload: Option<CompletedMultipartUpload>,
    pub upload_id: Option<String>,
}

impl CompleteMultipartUploadInput {
    /// A builder with no field set.
    pub fn builder() -> (r: complete_multipart_upload_input::Builder)
        ensures
            r == (complete_multipart_upload_input::Builder {
                bucket: None,
                key: None,
                multipart_upload: None,
                upload_id: None,
            }),
    {
        complete_multipart_upload_input::Builder::default()
    }

    pub fn bucket(&self) -> (r: Option<&str>)
        ensures
            text_ref(r) == text(self.bucket),
    {
        as_text(&self.bucket)
    }

    pub fn key(&self) -> (r: Option<&str>)
        ensures
            text_ref(r) == text(self.key),
    {
        as_text(&self.key)
    }

    pub fn multipart_upload(&self) -> (r: Option<&CompletedMultipartUpload>)
        ensures
            match r {
                Some(v) => self.multipart_upload == Some(*v),
                None => self.multipart_upload is None,
            },
    {
        match &self.multipart_upload {
            Some(v) => Some(v),
            None => None,
        }
    }

    pub fn upload_id(&self) -> (r: Option<&str>)
        ensures
            text_ref(r) == text(self.upload_id),
    {
        as_text(&self.upload_id)
    }
}

/// The input of the request that abandons a multipart upload.
#[non_exhaustive]
#[derive(Clone, Debug, PartialEq, Eq)]
pub struct AbortMultipartUploadInput {
    pub bucket: Option<String>,
    pub key: Option<String>,
    pub upload_id: Option<String>,
}

impl AbortMultipartUploadInput {
    /// A builder with no field set.
    pub fn builder() -> (r: abort_multipart_upload_input::Builder)
        ensures
            r == (abort_multipart_upload_input::Builder { bucket: None, key: None, upload_id: None }),
    {
        abort_multipart_upload_input::Builder::default()
    }

    pub fn bucket(&self) -> (r: Option<&str>)
        ensures
            text_ref(r) == text(self.bucket),
    {
        as_text(&self.bucket)
    }

    pub fn key(&self) -> (r: Option<&str>)
        ensures
            text_ref(r) == text(self.key),
    {
        as_text(&self.key)
    }

    pub fn upload_id(&self) -> (r: Option<&str>)
        ensures
            text_ref(r) == text(self.upload_id),
    {
        as_text(&self.upload_id)
    }
}

/// The input of the request that reads an object, whole or a byte range of it.
#[non_exhaustive]
#[derive(Clone, Debug, PartialEq, Eq)]
pub struct GetObjectInput {
    pub bucket: Option<String>,
    pub key: Option<String>,
    pub range: Option<String>,
    pub part_number: Option<i32>,
}

impl GetObjectInput {
    /// A builder with no field set.
    pub fn builder() -> (r: get_object_input::Builder)
        ensures
            r == (get_object_input::Builder {
                bucket: None,
                key: None,
                range: None,
                part_number: None,
            }),
    {
        get_object_input::Builder::default()
    }

    pub fn bucket(&self) -> (r: Option<&str>)
        ensures
            text_ref(r) == text(self.bucket),
    {
        as_text(&self.bucket)
    }

    pub fn key(&self) -> (r: Option<&str>)
        ensures
            text_ref(r) == text(self.key),
    {
        as_text(&self.key)
    }

    pub fn range(&self) -> (r: Option<&str>)
        ensures
            text_ref(r) == text(self.range),
    {
        as_text(&self.range)
    }

    pub fn part_number(&self) -> (r: Option<i32>)
        ensures
            r == self.part_number,
    {
        self.part_number
    }
}

/// The input of the request that stores an object.
#[non_exhaustive]
#[derive(Debug)]
pub struct PutObjectInput {
    pub body: ByteStream,
    pub bucket: Option<String>,
    pub key: Option<String>,
}

impl PutObjectInput {
    /// A builder with no field set.
    pub fn builder() -> (r: put_object_input::Builder)
        ensures
            r == (put_object_input::Builder {
                body: None,
                bucket: None,
                key: None,
                content_length: None,
            }),
    {
        put_object_input::Builder::default()
    }

    pub fn body(&self) -> (r: &ByteStream)
        ensures
            *r == self.body,
    {
        &self.body
    }

    pub fn bucket(&self) -> (r: Option<&str>)
        ensures
            text_ref(r) == text(self.bucket),
    {
        as_text(&self.bucket)
    }

    pub fn key(&self) -> (r: Option<&str>)
        ensures
            text_ref(r) == text(self.key),
    {
        as_text(&self.key)
    }
}

/// The input of the request that deletes one object.
#[non_exhaustive]
#[derive(Clone, Debug, PartialEq, Eq)]
pub struct DeleteObjectInput {
    pub bucket: Option<String>,
    pub key: Option<String>,
}

impl DeleteObjectInput {
    /// A builder with no field set.
    pub fn builder() -> (r: delete_object_input::Builder)
        ensures
            r == (delete_object_input::Builder { bucket: None, key: None }),
    {
        delete_object_input::Builder::default()
    }

    pub fn bucket(&self) -> (r: Option<&str>)
        ensures
            text_ref(r) == text(self.bucket),
    {
        as_text(&self.bucket)
    }

    pub fn key(&self) -> (r: Option<&str>)
        ensures
            text_ref(r) == text(self.key),
    {
        as_text(&self.key)
    }
}

/// The input of the request that deletes several objects of a bucket.
#[non_exhaustive]
#[derive(Clone, Debug, PartialEq, Eq)]
pub struct DeleteObjectsInput {
    pub bucket: Option<String>,
    pub delete: Option<Delete>,
}

impl DeleteObjectsInput {
    /// A builder with no field set.
    pub fn builder() -> (r: delete_objects_input::Builder)
        ensures
            r == (delete_objects_input::Builder { bucket: None, delete: None }),
    {
        delete_objects_input::Builder::default()
    }

    pub fn bucket(&self) -> (r: Option<&str>)
        ensures
            text_ref(r) == text(self.bucket),
    {
        as_text(&self.bucket)
    }

    pub fn delete(&self) -> (r: Option<&Delete>)
        ensures
            match r {
                Some(v) => self.delete == Some(*v),
                None => self.delete is None,
            },
    {
        match &self.delete {
            Some(v) => Some(v),
            None => None,
        }
    }
}

/// The input of the request that starts a multipart upload.
#[non_exhaustive]
#[derive(Clone, Debug, PartialEq, Eq)]
pub struct CreateMultipartUploadInput {
    pub bucket: Option<String>,
    pub key: Option<String>,
}

impl CreateMultipartUploadInput {
    /// A builder with no field set.
    pub fn builder() -> (r: create_multipart_upload_input::Builder)
        ensures
            r == (create_multipart_upload_input::Builder { bucket: None, key: None }),
    {
        create_multipart_upload_input::Builder::default()
    }

    pub fn bucket(&self) -> (r: Option<&str>)
        ensures
            text_ref(r) == text(self.bucket),
    {
        as_text(&self.bucket)
    }

    pub fn key(&self) -> (r: Option<&str>)
        ensures
            text_ref(r) == text(self.key),
    {
        as_text(&self.key)
    }
}

/// The input of the request that reads an object's metadata.
#[non_exhaustive]
#[derive(Clone, Debug, PartialEq, Eq)]
pub struct HeadObjectInput {
    pub bucket: Option<String>,
    pub key: Option<String>,
}

impl HeadObjectInput {
    /// A builder with no field set.
    pub fn builder() -> (r: head_object_input::Builder)
        ensures
            r == (head_object_input::Builder { bucket: None, key: None }),
    {
        head_object_input::Builder::default()
    }

    pub fn bucket(&self) -> (r: Option<&str>)
        ensures
            text_ref(r) == text(self.bucket),
    {
        as_text(&self.bucket)
    }

    pub fn key(&self) -> (r: Option<&str>)
        ensures
            text_ref(r) == text(self.key),
    {
        as_text(&self.key)
    }
}

/// The input of the request that lists the objects of a bucket.
#[non_exhaustive]
#[derive(Clone, Debug, PartialEq, Eq)]
pub struct ListObjectsV2Input {
    pub bucket: Option<String>,
    pub prefix: Option<String>,
    pub continuation_token: Option<String>,
}

impl ListObjectsV2Input {
    /// A builder with no field set.
    pub fn builder() -> (r: list_objects_v2_input::Builder)
        ensures
            r == (list_objects_v2_input::Builder {
                bucket: None,
                prefix: None,
                continuation_token: None,
            }),
    {
        list_objects_v2_input::Builder::default()
    }

    pub fn bucket(&self) -> (r: Option<&str>)
        ensures
            text_ref(r) == text(self.bucket),
    {
        as_text(&self.bucket)
    }

    pub fn prefix(&self) -> (r: Option<&str>)
        ensures
            text_ref(r) == text(self.prefix),
    {
        as_text(&self.prefix)
    }

    pub fn continuation_token(&self) -> (r: Option<&str>)
        ensures
            text_ref(r) == text(self.continuation_token),
    {
        as_text(&self.continuation_token)
    }
}

/// The input of the request that sets the lifecycle rules of a bucket.
#[non_exhaustive]
#[derive(Clone, Debug, PartialEq)]
pub struct PutBucketLifecycleConfigurationInput {
    pub bucket: Option<String>,
    pub lifecycle_configuration: Option<BucketLifecycleConfiguration>,
    pub expected_bucket_owner: Option<String>,
}

impl PutBucketLifecycleConfigurationInput {
    pub fn bucket(&self) -> (r: Option<&str>)
        ensures
            text_ref(r) == text(self.bucket),
    {
        as_text(&self.bucket)
    }

    pub fn lifecycle_configuration(&self) -> (r: Option<&BucketLifecycleConfiguration>)
        ensures
            match r {
                Some(v) => self.lifecycle_configuration == Some(*v),
                None => self.lifecycle_configuration is None,
            },
    {
        match &self.lifecycle_configuration {
            Some(v) => Some(v),
            None => None,
        }
    }

    pub fn expected_bucket_owner(&self) -> (r: Option<&str>)
        ensures
            text_ref(r) == text(self.expected_bucket_owner),
    {
        as_text(&self.expected_bucket_owner)
    }
}

/// The input of the request that reads the lifecycle rules of a bucket.
#[non_exhaustive]
#[derive(Clone, Debug, PartialEq, Eq)]
pub struct GetBucketLifecycleConfigurationInput {
    pub bucket: Option<String>,
    pub expected_bucket_owner: Option<String>,
}

impl GetBucketLifecycleConfigurationInput {
    pub fn bucket(&self) -> (r: Option<&str>)
        ensures
            text_ref(r) == text(self.bucket),
    {
        as_text(&self.bucket)
    }

    pub fn expected_bucket_owner(&self) -> (r: Option<&str>)
        ensures
            text_ref(r) == text(self.expected_bucket_owner),
    {
        as_text(&self.expected_bucket_owner)
    }
}

} // verus!
