//! What the object-storage requests return.
use vstd::prelude::*;

use crate::model::{LifecycleRule, Object};

verus! {

#[derive(Clone, Debug, PartialEq, Eq)]
pub struct CreateMultipartUploadOutput {
    pub upload_id: Option<String>,
}

#[derive(Clone, Debug, PartialEq, Eq)]
pub struct UploadPartOutput {
    pub e_tag: Option<String>,
}

#[derive(Clone, Debug, PartialEq, Eq)]
pub struct CompleteMultipartUploadOutput {}

#[derive(Clone, Debug, PartialEq, Eq)]
pub struct AbortMultipartUploadOutput {}

#[derive(Clone, Debug, PartialEq, Eq)]
pub struct GetObjectOutput {
    pub body: Vec<u8>,
}

#[derive(Clone, Debug, PartialEq, Eq)]
pub struct PutObjectOutput {}

#[derive(Clone, Debug, PartialEq, Eq)]
pub struct DeleteObjectOutput {}

#[derive(Clone, Debug, PartialEq, Eq)]
pub struct DeleteObjectsOutput {
    /// The keys of the objects named for deletion, in the order named.
    pub deleted: Vec<String>,
}

#[derive(Clone, Debug, PartialEq, Eq)]
pub struct HeadObjectOutput {
    pub content_length: i64,
}

#[derive(Clone, Debug, PartialEq, Eq)]
pub struct ListObjectsV2Output {
    pub is_truncated: bool,
    pub contents: Option<Vec<Object>>,
    pub next_continuation_token: Option<String>,
}

#[derive(Clone, Debug, PartialEq, Eq)]
pub struct GetBucketLifecycleConfigurationOutput {
    pub rules: Option<Vec<LifecycleRule>>,
}

#[derive(Clone, Debug, PartialEq, Eq)]
pub struct PutBucketLifecycleConfigurationOutput {}

} // verus!
