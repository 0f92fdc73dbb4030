//! The builder of [`DeleteObjectsInput`].
use vstd::prelude::*;

use aws_smithy_http::operation::error::BuildError;

use crate::input::{text, DeleteObjectsInput};
use crate::model::Delete;

verus! {

/// Collects the fields of a [`DeleteObjectsInput`]; each starts unset.
#[derive(Clone, Debug, PartialEq, Eq)]
pub struct Builder {
    pub bucket: Option<String>,
    pub delete: Option<Delete>,
}

impl Default for Builder {
    fn default() -> (r: Self)
        ensures
            r == (Builder { bucket: None, delete: None }),
    {
        Builder { bucket: None, delete: None }
    }
}

impl Builder {
    /// Sets the bucket.
    pub fn bucket(self, input: &str) -> (r: Self)
        ensures
            text(r.bucket) == Some(input@),
            r == (Builder { bucket: r.bucket, ..self }),
    {
        Builder { bucket: Some(input.to_owned()), ..self }
    }

    /// Sets or clears the bucket.
    pub fn set_bucket(self, input: Option<String>) -> (r: Self)
        ensures
            r == (Builder { bucket: input, ..self }),
    {
        Builder { bucket: input, ..self }
    }

    /// Sets the delete.
    pub fn delete(self, input: Delete) -> (r: Self)
        ensures
            r == (Builder { delete: Some(input), ..self }),
    {
        Builder { delete: Some(input), ..self }
    }

    /// Sets or clears the delete.
    pub fn set_delete(self, input: Option<Delete>) -> (r: Self)
        ensures
            r == (Builder { delete: input, ..self }),
    {
        Builder { delete: input, ..self }
    }

    /// The input with the fields as set; never fails.
    pub fn build(self) -> (r: Result<DeleteObjectsInput, BuildError>)
        ensures
            r == Ok::<DeleteObjectsInput, BuildError>(
                DeleteObjectsInput { bucket: self.bucket, delete: self.delete },
            ),
    {
        Ok(DeleteObjectsInput { bucket: self.bucket, delete: self.delete })
    }
}

} // verus!
