//! A response as the transport hands it over: status, headers and body.

use crate::string_map::StringMap;
use vstd::prelude::*;

verus! {

pub struct ResponseView {
    pub status: u16,
    pub body: Seq<u8>,
    pub headers: Map<Seq<char>, Seq<char>>,
}

pub struct Response {
    status: u16,
    body: Vec<u8>,
    headers: StringMap,
}

impl View for Response {
    type V = ResponseView;

    closed spec fn view(&self) -> ResponseView {
        ResponseView { status: self.status, body: self.body@, headers: self.headers@ }
    }
}

impl Response {
    pub fn body(&self) -> (r: &Vec<u8>)
        ensures
            r@ == self@.body,
    {
        &self.body
    }

    pub fn status(&self) -> (r: u16)
        ensures
            r == self@.status,
    {
        self.status
    }

    pub fn headers(&self) -> (r: &StringMap)
        ensures
            r@ == self@.headers,
    {
        &self.headers
    }
}

/// Assembles a [`Response`]; unset parts are status 0, an empty body and no
/// headers.
pub struct ResponseBuilder {
    status: u16,
    body: Vec<u8>,
    headers: StringMap,
}

impl View for ResponseBuilder {
    type V = ResponseView;

    closed spec fn view(&self) -> ResponseView {
        ResponseView { status: self.status, body: self.body@, headers: self.headers@ }
    }
}

impl ResponseBuilder {
    pub fn new() -> (r: ResponseBuilder)
        ensures
            r@ == (ResponseView { status: 0, body: Seq::empty(), headers: Map::empty() }),
    {
        ResponseBuilder { status: 0, body: Vec::new(), headers: StringMap::new() }
    }

    pub fn body(self, body: Vec<u8>) -> (r: ResponseBuilder)
        ensures
            r@ == (ResponseView { body: body@, ..self@ }),
    {
        ResponseBuilder { status: self.status, body, headers: self.headers }
    }

    pub fn status(self, status: u16) -> (r: ResponseBuilder)
        ensures
            r@ == (ResponseView { status, ..self@ }),
    {
        ResponseBuilder { status, body: self.body, headers: self.headers }
    }

    pub fn headers(self, headers: StringMap) -> (r: ResponseBuilder)
        ensures
            r@ == (ResponseView { headers: headers@, ..self@ }),
    {
        ResponseBuilder { status: self.status, body: self.body, headers }
    }

    pub fn build(self) -> (r: Response)
        ensures
            r@ == self@,
    {
        Response { status: self.status, body: self.body, headers: self.headers }
    }
}

} // verus!
