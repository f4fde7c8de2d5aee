//! The structured request the parser produces.
use crate::http_method::HttpMethod;
use crate::string_map::StringMap;
use vstd::prelude::*;

verus! {

/// A parsed request: method, raw path, headers as received (last write wins
/// on duplicate keys), and the body text.
#[derive(Debug)]
pub struct HttpRequest {
    pub method: HttpMethod,
    pub path: String,
    pub headers: StringMap,
    pub body: String,
}

impl HttpRequest {
    /// The header association holds each key once.
    pub open spec fn wf(&self) -> bool {
        self.headers.wf()
    }

    /// A placeholder request: `GET` of the empty path with no headers or body.
    pub fn empty() -> (r: HttpRequest)
        ensures
            r.method == HttpMethod::Get,
            r.path@ == Seq::<char>::empty(),
            r.headers@ == Map::<Seq<char>, Seq<char>>::empty(),
            r.headers.kvs() == Seq::<(Seq<char>, Seq<char>)>::empty(),
            r.body@ == Seq::<char>::empty(),
            r.wf(),
    {
        HttpRequest {
            method: HttpMethod::Get,
            path: String::new(),
            headers: StringMap::new(),
            body: String::new(),
        }
    }

    /// Bundles the given parts into a request.
    pub fn new(method: HttpMethod, path: String, headers: StringMap, body: String) -> (r: HttpRequest)
        ensures
            r.method == method,
            r.path == path,
            r.headers == headers,
            r.body == body,
    {
        HttpRequest { method, path, headers, body }
    }
}

} // verus!
