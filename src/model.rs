//! Plain data that object-storage requests carry.
use vstd::prelude::*;

verus! {

/// One uploaded part named when a multipart upload completes.
#[derive(Clone, Debug, PartialEq, Eq, Default)]
pub struct CompletedPart {
    pub e_tag: Option<String>,
    pub part_number: i32,
}

/// The parts that make up a completed multipart upload.
#[derive(Clone, Debug, PartialEq, Eq, Default)]
pub struct CompletedMultipartUpload {
    pub parts: Option<Vec<CompletedPart>>,
}

/// One object named in a batch delete.
#[derive(Clone, Debug, PartialEq, Eq, Default)]
pub struct ObjectIdentifier {
    pub key: Option<String>,
}

/// The objects that a batch delete removes.
#[derive(Clone, Debug, PartialEq, Eq, Default)]
pub struct Delete {
    pub objects: Option<Vec<ObjectIdentifier>>,
}

/// One object as a listing shows it.
#[derive(Clone, Debug, PartialEq, Eq)]
pub struct Object {
    pub key: Option<String>,
    pub e_tag: Option<String>,
    pub size: i64,
}

/// Whether a lifecycle rule is in force.
#[derive(Clone, Copy, Debug, PartialEq, Eq)]
pub enum ExpirationStatus {
    Enabled,
    Disabled,
}

/// One lifecycle rule of a bucket.
#[derive(Clone, Debug, PartialEq, Eq)]
pub struct LifecycleRule {
    pub id: Option<String>,
    pub prefix: Option<String>,
    pub status: ExpirationStatus,
    pub expiration_days: Option<i32>,
}

/// The lifecycle rules of a bucket.
#[derive(Clone, Debug, PartialEq, Eq, Default)]
pub struct BucketLifecycleConfiguration {
    pub rules: Option<Vec<LifecycleRule>>,
}

} // verus!
