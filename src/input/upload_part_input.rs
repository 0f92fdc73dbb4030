//! The builder of [`UploadPartInput`].
use vstd::prelude::*;

use aws_smithy_http::byte_stream::ByteStream;
use aws_smithy_http::operation::error::BuildError;

use crate::input::{text, UploadPartInput};
use crate::types::empty_body;

verus! {

/// Collects the fields of an [`UploadPartInput`]; each starts unset.
#[derive(Debug)]
pub struct Builder {
    pub body: Option<ByteStream>,
    pub bucket: Option<String>,
    pub content_length: Option<i64>,
    pub key: Option<String>,
    pub part_number: Option<i32>,
    pub upload_id: Option<String>,
}

impl Default for Builder {
    fn default() -> (r: Self)
        ensures
            r == (Builder {
                body: None,
                bucket: None,
                content_length: None,
                key: None,
                part_number: None,
                upload_id: None,
            }),
    {
        Builder {
            body: None,
            bucket: None,
            content_length: None,
            key: None,
            part_number: None,
            upload_id: None,
        }
    }
}

impl Builder {
    /// Sets the body.
    pub fn body(self, input: ByteStream) -> (r: Self)
        ensures
            r == (Builder { body: Some(input), ..self }),
    {
        Builder { body: Some(input), ..self }
    }

    /// Sets or clears the body.
    pub fn set_body(self, input: Option<ByteStream>) -> (r: Self)
        ensures
            r == (Builder { body: input, ..self }),
    {
        Builder { body: input, ..self }
    }

    /// Sets the bucket.
    pub fn bucket(self, input: &str) -> (r: Self)
        ensures
            text(r.bucket) == Some(input@),
            r == (Builder { bucket: r.bucket, ..self }),
    {
        Builder { bucket: Some(input.to_owned()), ..self }
    }

    /// Sets or clears the bucket.
    pub fn set_bucket(self, input: Option<String>) -> (r: Self)
        ensures
            r == (Builder { bucket: input, ..self }),
    {
        Builder { bucket: input, ..self }
    }

    /// Sets the content length.
    pub fn content_length(self, input: i64) -> (r: Self)
        ensures
            r == (Builder { content_length: Some(input), ..self }),
    {
        Builder { content_length: Some(input), ..self }
    }

    /// Sets or clears the content length.
    pub fn set_content_length(self, input: Option<i64>) -> (r: Self)
        ensures
            r == (Builder { content_length: input, ..self }),
    {
        Builder { content_length: input, ..self }
    }

    /// Sets the key.
    pub fn key(self, input: &str) -> (r: Self)
        ensures
            text(r.key) == Some(input@),
            r == (Builder { key: r.key, ..self }),
    {
        Builder { key: Some(input.to_owned()), ..self }
    }

    /// Sets or clears the key.
    pub fn set_key(self, input: Option<String>) -> (r: Self)
        ensures
            r == (Builder { key: input, ..self }),
    {
        Builder { key: input, ..self }
    }

    /// Sets the part number.
    pub fn part_number(self, input: i32) -> (r: Self)
        ensures
            r == (Builder { part_number: Some(input), ..self }),
    {
        Builder { part_number: Some(input), ..self }
    }

    /// Sets or clears the part number.
    pub fn set_part_number(self, input: Option<i32>) -> (r: Self)
        ensures
            r == (Builder { part_number: input, ..self }),
    {
        Builder { part_number: input, ..self }
    }

    /// Sets the upload id.
    pub fn upload_id(self, input: &str) -> (r: Self)
        ensures
            text(r.upload_id) == Some(input@),
            r == (Builder { upload_id: r.upload_id, ..self }),
    {
        Builder { upload_id: Some(input.to_owned()), ..self }
    }

    /// Sets or clears the upload id.
    pub fn set_upload_id(self, input: Option<String>) -> (r: Self)
        ensures
            r == (Builder { upload_id: input, ..self }),
    {
        Builder { upload_id: input, ..self }
    }

    /// The input with the fields as set, numbers that were not set as zero
    /// and a body that was not set as empty; never fails.
    pub fn build(self) -> (r: Result<UploadPartInput, BuildError>)
        ensures
            r is Ok,
            r matches Ok(x) ==> ((self.body matches Some(b) ==> x.body == b)
                && x.bucket == self.bucket
                && x.content_length == (match self.content_length { Some(v) => v, None => 0 })
                && x.key == self.key
                && x.part_number == (match self.part_number { Some(v) => v, None => 0 })
                && x.upload_id == self.upload_id),
    {
        Ok(UploadPartInput {
            body: match self.body {
                Some(b) => b,
                None => empty_body(),
            },
            bucket: self.bucket,
            content_length: match self.content_length {
                Some(v) => v,
                None => 0,
            },
            key: self.key,
            part_number: match self.part_number {
                Some(v) => v,
                None => 0,
            },
            upload_id: self.upload_id,
        })
    }
}

} // verus!
