//! The builder of [`GetBucketLifecycleConfigurationInput`].
use vstd::prelude::*;

use aws_smithy_http::operation::error::BuildError;

use crate::input::{text, GetBucketLifecycleConfigurationInput};

verus! {

/// Collects the fields of a [`GetBucketLifecycleConfigurationInput`]; each starts unset.
#[derive(Clone, Debug, PartialEq, Eq)]
pub struct Builder {
    pub bucket: Option<String>,
    pub expected_bucket_owner: Option<String>,
}

impl Default for Builder {
    fn default() -> (r: Self)
        ensures
            r == (Builder { bucket: None, expected_bucket_owner: None }),
    {
        Builder { bucket: None, expected_bucket_owner: None }
    }
}

impl Builder {
    /// Sets the bucket.
    pub fn bucket(self, input: &str) -> (r: Self)
        ensures
            text(r.bucket) == Some(input@),
            r == (Builder { bucket: r.bucket, ..self }),
    {
        Builder { bucket: Some(input.to_owned()), ..self }
    }

    /// Sets or clears the bucket.
    pub fn set_bucket(self, input: Option<String>) -> (r: Self)
        ensures
            r == (Builder { bucket: input, ..self }),
    {
        Builder { bucket: input, ..self }
    }

    /// Sets the expected bucket owner.
    pub fn expected_bucket_owner(self, input: &str) -> (r: Self)
        ensures
            text(r.expected_bucket_owner) == Some(input@),
            r == (Builder { expected_bucket_owner: r.expected_bucket_owner, ..self }),
    {
        Builder { expected_bucket_owner: Some(input.to_owned()), ..self }
    }

    /// Sets or clears the expected bucket owner.
    pub fn set_expected_bucket_owner(self, input: Option<String>) -> (r: Self)
        ensures
            r == (Builder { expected_bucket_owner: input, ..self }),
    {
        Builder { expected_bucket_owner: input, ..self }
    }

    /// The input with the fields as set; never fails.
    pub fn build(self) -> (r: Result<GetBucketLifecycleConfigurationInput, BuildError>)
        ensures
            r == Ok::<GetBucketLifecycleConfigurationInput, BuildError>(
                GetBucketLifecycleConfigurationInput {
                    bucket: self.bucket,
                    expected_bucket_owner: self.expected_bucket_owner,
                },
            ),
    {
        Ok(GetBucketLifecycleConfigurationInput {
            bucket: self.bucket,
            expected_bucket_owner: self.expected_bucket_owner,
        })
    }
}

} // verus!
