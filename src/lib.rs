//! Templating and extraction engine of a request-chaining runner: placeholder
//! resolution over request templates against layered properties, and value
//! extraction from responses (JSON paths and headers).

pub mod collection;
pub mod error;
pub mod extractor;
pub mod headers;
pub mod json;
pub mod request;
pub mod response;
pub mod string_map;
pub mod template;
pub mod text;
