//! The closed set of request methods the server accepts.
use crate::api_err::ApiErr;
use crate::text::str_eq;
use vstd::prelude::*;

verus! {

/// A request method. Any verb outside this set is rejected before routing.
#[derive(Clone, Copy, Debug, PartialEq, Eq, Structural)]
pub enum HttpMethod {
    Get,
    Post,
    Put,
    Delete,
    Patch,
}

/// The wire spelling of a method.
pub open spec fn method_chars(m: HttpMethod) -> Seq<char> {
    match m {
        HttpMethod::Get => "GET"@,
        HttpMethod::Post => "POST"@,
        HttpMethod::Put => "PUT"@,
        HttpMethod::Delete => "DELETE"@,
        HttpMethod::Patch => "PATCH"@,
    }
}

/// The five verb spellings denote the five methods, and nothing else does:
/// rendering a method and parsing it back yields the same method.
pub proof fn lemma_method_round_trip(m: HttpMethod)
    ensures
        method_of(method_chars(m)) == Some(m),
{
    reveal_strlit("GET");
    reveal_strlit("POST");
    reveal_strlit("PUT");
    reveal_strlit("DELETE");
    reveal_strlit("PATCH");
    assert("GET"@.len() == 3);
    assert("POST"@.len() == 4);
    assert("PUT"@.len() == 3);
    assert("DELETE"@.len() == 6);
    assert("PATCH"@.len() == 5);
    assert("GET"@[0] == 'G');
    assert("PUT"@[0] == 'P');
}

/// The method a verb token denotes, if any.
pub open spec fn method_of(s: Seq<char>) -> Option<HttpMethod> {
    if s == "GET"@ {
        Some(HttpMethod::Get)
    } else if s == "POST"@ {
        Some(HttpMethod::Post)
    } else if s == "PUT"@ {
        Some(HttpMethod::Put)
    } else if s == "DELETE"@ {
        Some(HttpMethod::Delete)
    } else if s == "PATCH"@ {
        Some(HttpMethod::Patch)
    } else {
        None
    }
}

impl HttpMethod {
    /// Maps a verb token to its method; every other token is an invalid-method error.
    pub fn from_string(verb: &str) -> (r: Result<HttpMethod, ApiErr>)
        ensures
            match method_of(verb@) {
                Some(m) => r == Ok::<HttpMethod, ApiErr>(m),
                None => r == Err::<HttpMethod, ApiErr>(ApiErr::InvalidMethod),
            },
    {
        if str_eq(verb, "GET") {
            Ok(HttpMethod::Get)
        } else if str_eq(verb, "POST") {
            Ok(HttpMethod::Post)
        } else if str_eq(verb, "PUT") {
            Ok(HttpMethod::Put)
        } else if str_eq(verb, "DELETE") {
            Ok(HttpMethod::Delete)
        } else if str_eq(verb, "PATCH") {
            Ok(HttpMethod::Patch)
        } else {
            Err(ApiErr::InvalidMethod)
        }
    }

    /// The wire spelling of the method.
    pub fn as_str(&self) -> (r: &'static str)
        ensures
            r@ == method_chars(*self),
    {
        match self {
            HttpMethod::Get => "GET",
            HttpMethod::Post => "POST",
            HttpMethod::Put => "PUT",
            HttpMethod::Delete => "DELETE",
            HttpMethod::Patch => "PATCH",
        }
    }
}

} // verus!
