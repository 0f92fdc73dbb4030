//! Outside types that request inputs carry without looking inside.
use vstd::prelude::*;

use aws_smithy_http::byte_stream::ByteStream;

verus! {

/// The request body type of aws-smithy-http, carried through unread.
#[verifier::external_type_specification]
#[verifier::external_body]
pub struct ExByteStream(aws_smithy_http::byte_stream::ByteStream);

/// The error type of aws-smithy-http for an input that cannot be built; the
/// builders here never return one.
#[verifier::external_type_specification]
#[verifier::external_body]
pub struct ExBuildError(aws_smithy_http::operation::error::BuildError);

/// Relies on `ByteStream::default`: a stream over no bytes, the body of a
/// request that was given none.
#[verifier::external_body]
pub(crate) fn empty_body() -> ByteStream {
    ByteStream::default()
}

} // verus!
