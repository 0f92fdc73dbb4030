//! The builder of [`GetObjectInput`].
use vstd::prelude::*;

use aws_smithy_http::operation::error::BuildError;

use crate::input::{text, GetObjectInput};

verus! {

/// Collects the fields of a [`GetObjectInput`]; each starts unset.
#[derive(Clone, Debug, PartialEq, Eq)]
pub struct Builder {
    pub bucket: Option<String>,
    pub key: Option<String>,
    pub range: Option<String>,
    pub part_number: Option<i32>,
}

impl Default for Builder {
    fn default() -> (r: Self)
        ensures
            r == (Builder { bucket: None, key: None, range: None, part_number: None }),
    {
        Builder { bucket: None, key: None, range: None, part_number: None }
    }
}

impl Builder {
    /// Sets the bucket.
    pub fn bucket(self, input: &str) -> (r: Self)
        ensures
            text(r.bucket) == Some(input@),
            r == (Builder { bucket: r.bucket, ..self }),
    {
        Builder { bucket: Some(input.to_owned()), ..self }
    }

    /// Sets or clears the bucket.
    pub fn set_bucket(self, input: Option<String>) -> (r: Self)
        ensures
            r == (Builder { bucket: input, ..self }),
    {
        Builder { bucket: input, ..self }
    }

    /// Sets the key.
    pub fn key(self, input: &str) -> (r: Self)
        ensures
            text(r.key) == Some(input@),
            r == (Builder { key: r.key, ..self }),
    {
        Builder { key: Some(input.to_owned()), ..self }
    }

    /// Sets or clears the key.
    pub fn set_key(self, input: Option<String>) -> (r: Self)
        ensures
            r == (Builder { key: input, ..self }),
    {
        Builder { key: input, ..self }
    }

    /// Sets the range.
    pub fn range(self, input: &str) -> (r: Self)
        ensures
            text(r.range) == Some(input@),
            r == (Builder { range: r.range, ..self }),
    {
        Builder { range: Some(input.to_owned()), ..self }
    }

    /// Sets or clears the range.
    pub fn set_range(self, input: Option<String>) -> (r: Self)
        ensures
            r == (Builder { range: input, ..self }),
    {
        Builder { range: input, ..self }
    }

    /// Sets the part number.
    pub fn part_number(self, input: i32) -> (r: Self)
        ensures
            r == (Builder { part_number: Some(input), ..self }),
    {
        Builder { part_number: Some(input), ..self }
    }

    /// Sets or clears the part number.
    pub fn set_part_number(self, input: Option<i32>) -> (r: Self)
        ensures
            r == (Builder { part_number: input, ..self }),
    {
        Builder { part_number: input, ..self }
    }

    /// The input with the fields as set; never fails.
    pub fn build(self) -> (r: Result<GetObjectInput, BuildError>)
        ensures
            r == Ok::<GetObjectInput, BuildError>(
                GetObjectInput {
                    bucket: self.bucket,
                    key: self.key,
                    range: self.range,
                    part_number: self.part_number,
                },
            ),
    {
        Ok(GetObjectInput {
            bucket: self.bucket,
            key: self.key,
            range: self.range,
            part_number: self.part_number,
        })
    }
}

} // verus!
