//! The builder of [`ListObjectsV2Input`].
use vstd::prelude::*;

use aws_smithy_http::operation::error::BuildError;

use crate::input::{text, ListObjectsV2Input};

verus! {

/// Collects the fields of a [`ListObjectsV2Input`]; each starts unset.
#[derive(Clone, Debug, PartialEq, Eq)]
pub struct Builder {
    pub bucket: Option<String>,
    pub prefix: Option<String>,
    pub continuation_token: Option<String>,
}

impl Default for Builder {
    fn default() -> (r: Self)
        ensures
            r == (Builder { bucket: None, prefix: None, continuation_token: None }),
    {
        Builder { bucket: None, prefix: None, continuation_token: None }
    }
}

impl Builder {
    /// Sets the bucket.
    pub fn bucket(self, input: &str) -> (r: Self)
        ensures
            text(r.bucket) == Some(input@),
            r == (Builder { bucket: r.bucket, ..self }),
    {
        Builder { bucket: Some(input.to_owned()), ..self }
    }

    /// Sets or clears the bucket.
    pub fn set_bucket(self, input: Option<String>) -> (r: Self)
        ensures
            r == (Builder { bucket: input, ..self }),
    {
        Builder { bucket: input, ..self }
    }

    /// Sets the prefix.
    pub fn prefix(self, input: &str) -> (r: Self)
        ensures
            text(r.prefix) == Some(input@),
            r == (Builder { prefix: r.prefix, ..self }),
    {
        Builder { prefix: Some(input.to_owned()), ..self }
    }

    /// Sets or clears the prefix.
    pub fn set_prefix(self, input: Option<String>) -> (r: Self)
        ensures
            r == (Builder { prefix: input, ..self }),
    {
        Builder { prefix: input, ..self }
    }

    /// Sets the continuation token.
    pub fn continuation_token(self, input: &str) -> (r: Self)
        ensures
            text(r.continuation_token) == Some(input@),
            r == (Builder { continuation_token: r.continuation_token, ..self }),
    {
        Builder { continuation_token: Some(input.to_owned()), ..self }
    }

    /// Sets or clears the continuation token.
    pub fn set_continuation_token(self, input: Option<String>) -> (r: Self)
        ensures
            r == (Builder { continuation_token: input, ..self }),
    {
        Builder { continuation_token: input, ..self }
    }

    /// The input with the fields as set; never fails.
    pub fn build(self) -> (r: Result<ListObjectsV2Input, BuildError>)
        ensures
            r == Ok::<ListObjectsV2Input, BuildError>(
                ListObjectsV2Input {
                    bucket: self.bucket,
                    prefix: self.prefix,
                    continuation_token: self.continuation_token,
                },
            ),
    {
        Ok(ListObjectsV2Input {
            bucket: self.bucket,
            prefix: self.prefix,
            continuation_token: self.continuation_token,
        })
    }
}

} // verus!
