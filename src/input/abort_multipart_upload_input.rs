//! The builder of [`AbortMultipartUploadInput`].
use vstd::prelude::*;

use aws_smithy_http::operation::error::BuildError;

use crate::input::{text, AbortMultipartUploadInput};

verus! {

/// Collects the fields of an [`AbortMultipartUploadInput`]; each starts unset.
#[derive(Clone, Debug, PartialEq, Eq)]
pub struct Builder {
    pub bucket: Option<String>,
    pub key: Option<String>,
    pub upload_id: Option<String>,
}

impl Default for Builder {
    fn default() -> (r: Self)
        ensures
            r == (Builder { bucket: None, key: None, upload_id: None }),
    {
        Builder { bucket: None, key: None, upload_id: None }
    }
}

impl Builder {
    /// Sets the bucket.
    pub fn bucket(self, input: &str) -> (r: Self)
        ensures
            text(r.bucket) == Some(input@),
            r == (Builder { bucket: r.bucket, ..self }),
    {
        Builder { bucket: Some(input.to_owned()), ..self }
    }

    /// Sets or clears the bucket.
    pub fn set_bucket(self, input: Option<String>) -> (r: Self)
        ensures
            r == (Builder { bucket: input, ..self }),
    {
        Builder { bucket: input, ..self }
    }

    /// Sets the key.
    pub fn key(self, input: &str) -> (r: Self)
        ensures
            text(r.key) == Some(input@),
            r == (Builder { key: r.key, ..self }),
    {
        Builder { key: Some(input.to_owned()), ..self }
    }

    /// Sets or clears the key.
    pub fn set_key(self, input: Option<String>) -> (r: Self)
        ensures
            r == (Builder { key: input, ..self }),
    {
        Builder { key: input, ..self }
    }

    /// Sets the upload id.
    pub fn upload_id(self, input: &str) -> (r: Self)
        ensures
            text(r.upload_id) == Some(input@),
            r == (Builder { upload_id: r.upload_id, ..self }),
    {
        Builder { upload_id: Some(input.to_owned()), ..self }
    }

    /// Sets or clears the upload id.
    pub fn set_upload_id(self, input: Option<String>) -> (r: Self)
        ensures
            r == (Builder { upload_id: input, ..self }),
    {
        Builder { upload_id: input, ..self }
    }

    /// The input with the fields as set; never fails.
    pub fn build(self) -> (r: Result<AbortMultipartUploadInput, BuildError>)
        ensures
            r == Ok::<AbortMultipartUploadInput, BuildError>(
                AbortMultipartUploadInput {
                    bucket: self.bucket,
                    key: self.key,
                    upload_id: self.upload_id,
                },
            ),
    {
        Ok(AbortMultipartUploadInput {
            bucket: self.bucket,
            key: self.key,
            upload_id: self.upload_id,
        })
    }
}

} // verus!
