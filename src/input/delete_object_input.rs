//! The builder of [`DeleteObjectInput`].
use vstd::prelude::*;

use aws_smithy_http::operation::error::BuildError;

use crate::input::{text, DeleteObjectInput};

verus! {

/// Collects the fields of a [`DeleteObjectInput`]; each starts unset.
#[derive(Clone, Debug, PartialEq, Eq)]
pub struct Builder {
    pub bucket: Option<String>,
    pub key: Option<String>,
}

impl Default for Builder {
    fn default() -> (r: Self)
        ensures
            r == (Builder { bucket: None, key: None }),
    {
        Builder { bucket: None, key: None }
    }
}

impl Builder {
    /// Sets the bucket.
    pub fn bucket(self, input: &str) -> (r: Self)
        ensures
            text(r.bucket) == Some(input@),
            r == (Builder { bucket: r.bucket, ..self }),
    {
        Builder { bucket: Some(input.to_owned()), ..self }
    }

    /// Sets or clears the bucket.
    pub fn set_bucket(self, input: Option<String>) -> (r: Self)
        ensures
            r == (Builder { bucket: input, ..self }),
    {
        Builder { bucket: input, ..self }
    }

    /// Sets the key.
    pub fn key(self, input: &str) -> (r: Self)
        ensures
            text(r.key) == Some(input@),
            r == (Builder { key: r.key, ..self }),
    {
        Builder { key: Some(input.to_owned()), ..self }
    }

    /// Sets or clears the key.
    pub fn set_key(self, input: Option<String>) -> (r: Self)
        ensures
            r == (Builder { key: input, ..self }),
    {
        Builder { key: input, ..self }
    }

    /// The input with the fields as set; never fails.
    pub fn build(self) -> (r: Result<DeleteObjectInput, BuildError>)
        ensures
            r == Ok::<DeleteObjectInput, BuildError>(
                DeleteObjectInput { bucket: self.bucket, key: self.key },
            ),
    {
        Ok(DeleteObjectInput { bucket: self.bucket, key: self.key })
    }
}

} // verus!
