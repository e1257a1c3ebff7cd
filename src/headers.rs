//! Extraction of a response header by its exact name.

use crate::error::{ExtractError, ExtractFailure, outcome};
use crate::response::Response;
use vstd::prelude::*;

verus! {

/// Result of looking up the header `name` (case-sensitive).
pub open spec fn header_extraction(name: Seq<char>, headers: Map<Seq<char>, Seq<char>>) -> Result<
    Seq<char>,
    ExtractFailure,
> {
    if headers.contains_key(name) {
        Ok(headers[name])
    } else {
        Err(ExtractFailure::MissingHeader { name })
    }
}

/// The value of the header named `extract_string`.
pub fn extract(extract_string: &str, response: &Response) -> (r: Result<String, ExtractError>)
    ensures
        outcome(r) == header_extraction(extract_string@, response@.headers),
{
    match response.headers().get(extract_string) {
        Some(value) => Ok(value.clone()),
        None => Err(ExtractError::MissingHeader { name: extract_string.to_owned() }),
    }
}

} // verus!
