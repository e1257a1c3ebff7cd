//! Why one extraction directive produced no value.

use vstd::prelude::*;

verus! {

/// A failed extraction. Each one concerns a single directive; the others of
/// the same response are not affected.
#[derive(Debug)]
pub enum ExtractError {
    /// The body is not valid UTF-8 text.
    NotText,
    /// The body is not JSON; `message` is the parser's account of why.
    InvalidJson { message: String },
    /// The index of a path segment does not fit in a `usize`.
    BadIndex { segment: String },
    /// A path segment names a key that the current value does not have.
    MissingKey { segment: String, selector: String },
    /// A segment with an index names a value that is not an array.
    NotAnArray { segment: String },
    /// A segment's index is past the end of its array.
    IndexOutOfRange { segment: String, index: usize },
    /// The response has no header of that name.
    MissingHeader { name: String },
    /// The directive starts with neither `json:` nor `header:`.
    UnknownExtractor { directive: String },
}

/// [`ExtractError`] as plain values; the parser's message is left out.
pub enum ExtractFailure {
    NotText,
    InvalidJson,
    BadIndex { segment: Seq<char> },
    MissingKey { segment: Seq<char>, selector: Seq<char> },
    NotAnArray { segment: Seq<char> },
    IndexOutOfRange { segment: Seq<char>, index: nat },
    MissingHeader { name: Seq<char> },
    UnknownExtractor { directive: Seq<char> },
}

impl View for ExtractError {
    type V = ExtractFailure;

    open spec fn view(&self) -> ExtractFailure {
        match self {
            ExtractError::NotText => ExtractFailure::NotText,
            ExtractError::InvalidJson { .. } => ExtractFailure::InvalidJson,
            ExtractError::BadIndex { segment } => ExtractFailure::BadIndex { segment: segment@ },
            ExtractError::MissingKey { segment, selector } => ExtractFailure::MissingKey {
                segment: segment@,
                selector: selector@,
            },
            ExtractError::NotAnArray { segment } => ExtractFailure::NotAnArray { segment: segment@ },
            ExtractError::IndexOutOfRange { segment, index } => ExtractFailure::IndexOutOfRange {
                segment: segment@,
                index: *index as nat,
            },
            ExtractError::MissingHeader { name } => ExtractFailure::MissingHeader { name: name@ },
            ExtractError::UnknownExtractor { directive } => ExtractFailure::UnknownExtractor {
                directive: directive@,
            },
        }
    }
}

/// The outcome of one extraction as plain values.
pub open spec fn outcome(r: Result<String, ExtractError>) -> Result<Seq<char>, ExtractFailure> {
    match r {
        Ok(s) => Ok(s@),
        Err(e) => Err(e@),
    }
}

} // verus!
