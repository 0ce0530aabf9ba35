//! The self-describing streaming wire format: records follow one another as
//! CBOR items, with nothing between them. Decoding the items is the business
//! of whoever owns the transport; this module says what a decoder error
//! means for the loop.

use vstd::prelude::*;
use crate::codec::DecodeFailure;

verus! {

/// `serde_cbor::Error`, the decoder's error: carried through as it is, and
/// asked only through the three functions below.
#[verifier::external_type_specification]
#[verifier::external_body]
pub struct ExCborError(serde_cbor::Error);

/// The cause of a decoder error, as the decoder sorts it.
#[derive(Clone, Copy, Debug, PartialEq, Eq, Structural)]
pub enum ErrorCategory {
    /// Bytes could not be read.
    Io,
    /// The input is not well-formed CBOR.
    Syntax,
    /// The input is CBOR, but not the expected record.
    Data,
    /// The input ended early.
    Eof,
}

/// The category under which `serde_cbor::Error::classify` files `error`.
pub uninterp spec fn cbor_category(error: serde_cbor::Error) -> ErrorCategory;

/// What `serde_cbor::Error::is_scratch_too_small` says of `error`.
pub uninterp spec fn cbor_scratch_too_small(error: serde_cbor::Error) -> bool;

/// What `serde_cbor::Error::offset` says of `error`.
pub uninterp spec fn cbor_offset(error: serde_cbor::Error) -> u64;

/// `serde_cbor::Error::offset`: the byte offset that the error carries. The
/// result depends on the error alone.
pub assume_specification[ serde_cbor::Error::offset ](error: &serde_cbor::Error) -> (offset: u64)
    ensures
        offset == cbor_offset(*error),
;

/// `serde_cbor::Error::is_scratch_too_small`: whether the error says that a
/// record did not fit the decoder's scratch buffer. The result depends on the
/// error alone.
pub assume_specification[ serde_cbor::Error::is_scratch_too_small ](
    error: &serde_cbor::Error,
) -> (too_small: bool)
    ensures
        too_small == cbor_scratch_too_small(*error),
;

/// `serde_cbor::Error::classify`, with the decoder's category turned into
/// this crate's. The result depends on the error alone.
#[verifier::external_body]
fn category_of(error: &serde_cbor::Error) -> (category: ErrorCategory)
    ensures
        category == cbor_category(*error),
{
    match error.classify() {
        serde_cbor::error::Category::Io => ErrorCategory::Io,
        serde_cbor::error::Category::Syntax => ErrorCategory::Syntax,
        serde_cbor::error::Category::Data => ErrorCategory::Data,
        serde_cbor::error::Category::Eof => ErrorCategory::Eof,
    }
}

/// The failure that stands for a decoder error with these properties. An
/// undersized scratch buffer is told apart first: the decoder files it under
/// `Io`, but it costs one record and not the transport.
pub open spec fn failure_of(scratch_too_small: bool, category: ErrorCategory, offset: u64)
    -> DecodeFailure {
    if scratch_too_small {
        DecodeFailure::ScratchTooSmall
    } else {
        match category {
            ErrorCategory::Io => DecodeFailure::Io,
            ErrorCategory::Syntax => DecodeFailure::Syntax { offset },
            ErrorCategory::Data => DecodeFailure::Data { offset },
            ErrorCategory::Eof => DecodeFailure::Eof,
        }
    }
}

/// Sorts a decoder error by what the decoder says of it.
pub fn failure_from(scratch_too_small: bool, category: ErrorCategory, offset: u64) -> (failure:
    DecodeFailure)
    ensures
        failure == failure_of(scratch_too_small, category, offset),
{
    if scratch_too_small {
        return DecodeFailure::ScratchTooSmall;
    }
    match category {
        ErrorCategory::Io => DecodeFailure::Io,
        ErrorCategory::Syntax => DecodeFailure::Syntax { offset },
        ErrorCategory::Data => DecodeFailure::Data { offset },
        ErrorCategory::Eof => DecodeFailure::Eof,
    }
}

/// Sorts a decoder error.
pub fn classify(error: &serde_cbor::Error) -> (failure: DecodeFailure)
    ensures
        failure == failure_of(
            cbor_scratch_too_small(*error),
            cbor_category(*error),
            cbor_offset(*error),
        ),
{
    failure_from(error.is_scratch_too_small(), category_of(error), error.offset())
}

} // verus!
