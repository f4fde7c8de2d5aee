//! The per-connection response context: the parsed request, the response
//! headers accumulated so far, the parameters the router extracted, and the
//! bytes written to the connection. A terminal write serializes the status
//! line, every header, a blank line, and the body.
use crate::http_request::HttpRequest;
use crate::http_status::HttpStatus;
use crate::http_status::status_chars;
use crate::string_map::StringMap;
use crate::string_map::map_of;
use crate::text::dec_chars;
use crate::text::str_eq;
use crate::text::to_dec_string;
use vstd::prelude::*;
use vstd::utf8::encode_utf8;

verus! {

/// One header as written on the wire.
pub open spec fn header_line(k: Seq<char>, v: Seq<char>) -> Seq<char> {
    k + ": "@ + v + "\r\n"@
}

/// The serialized header block, one line per entry, in iteration order.
pub open spec fn header_block(kvs: Seq<(Seq<char>, Seq<char>)>) -> Seq<char>
    decreases kvs.len(),
{
    if kvs.len() == 0 {
        Seq::empty()
    } else {
        header_block(kvs.drop_last()) + header_line(kvs.last().0, kvs.last().1)
    }
}

/// Body bytes follow the blank line only when a `Content-Length` header is
/// present and is not `"0"`.
pub open spec fn body_included(headers: Map<Seq<char>, Seq<char>>) -> bool {
    headers.contains_key("Content-Length"@) && headers["Content-Length"@] != "0"@
}

/// The full response text a terminal write produces.
pub open spec fn response_chars(
    status: HttpStatus,
    kvs: Seq<(Seq<char>, Seq<char>)>,
    body: Seq<char>,
) -> Seq<char> {
    "HTTP/1.1 "@ + status_chars(status) + "\r\n"@ + header_block(kvs) + "\r\n"@
        + if body_included(map_of(kvs)) {
            body
        } else {
            Seq::<char>::empty()
        }
}

/// How many bytes a text occupies on the wire.
pub open spec fn byte_len(s: Seq<char>) -> nat {
    encode_utf8(s).len() as usize as nat
}

/// The bytes of the full response text.
pub open spec fn response_bytes(
    status: HttpStatus,
    kvs: Seq<(Seq<char>, Seq<char>)>,
    body: Seq<char>,
) -> Seq<u8> {
    encode_utf8(response_chars(status, kvs, body))
}

/// The JSON text serde_json serializes for a two-entry object holding the
/// given status and body strings; it depends on the two strings alone.
pub uninterp spec fn json_wrap_of(status_text: Seq<char>, body: Seq<char>) -> Seq<char>;

/// Relies on serde_json::Value: serializes the object holding the status
/// text under "status" and the body under "body".
#[verifier::external_body]
fn json_wrap(status_text: &str, body: &str) -> (r: String)
    ensures
        r@ == json_wrap_of(status_text@, body@),
{
    let mut fields = serde_json::Map::new();
    fields.insert("status".to_string(), serde_json::Value::String(status_text.to_string()));
    fields.insert("body".to_string(), serde_json::Value::String(body.to_string()));
    serde_json::Value::Object(fields).to_string()
}

/// The per-connection handle a handler works with.
///
/// A terminal write (`string` or `json`) is expected at most once per
/// context. A second call is not guarded against: it appends a second,
/// independent response to the same connection. Whether that should instead
/// fail loudly is an open question; the permissive behaviour is kept.
pub struct Context {
    pub request: HttpRequest,
    pub response_headers: StringMap,
    pub path_params: StringMap,
    pub written: Vec<u8>,
}

impl Context {
    /// Every string association holds each key once.
    pub open spec fn wf(&self) -> bool {
        self.request.wf() && self.response_headers.wf() && self.path_params.wf()
    }

    /// A fresh context: a placeholder request, no headers, no parameters,
    /// nothing written.
    pub fn new() -> (r: Context)
        ensures
            r.wf(),
            r.request.method == crate::http_method::HttpMethod::Get,
            r.request.path@ == Seq::<char>::empty(),
            r.request.headers.kvs() == Seq::<(Seq<char>, Seq<char>)>::empty(),
            r.request.body@ == Seq::<char>::empty(),
            r.response_headers.kvs() == Seq::<(Seq<char>, Seq<char>)>::empty(),
            r.path_params.kvs() == Seq::<(Seq<char>, Seq<char>)>::empty(),
            r.written@ == Seq::<u8>::empty(),
    {
        Context {
            request: HttpRequest::empty(),
            response_headers: StringMap::new(),
            path_params: StringMap::new(),
            written: Vec::new(),
        }
    }

    /// Sets a response header; a later write of the same key wins.
    pub fn add_response_header(&mut self, k: &str, v: &str)
        requires
            old(self).wf(),
        ensures
            final(self).wf(),
            final(self).response_headers@ == old(self).response_headers@.insert(k@, v@),
            final(self).request == old(self).request,
            final(self).path_params == old(self).path_params,
            final(self).written == old(self).written,
    {
        self.response_headers.insert(String::from_str(k), String::from_str(v));
    }

    /// The terminal write: status line, headers in iteration order, a blank
    /// line, and the body when the recorded Content-Length is present and
    /// nonzero.
    fn send_response(&mut self, status: HttpStatus, body: &str)
        requires
            old(self).wf(),
        ensures
            final(self).wf(),
            final(self).request == old(self).request,
            final(self).path_params == old(self).path_params,
            final(self).response_headers == old(self).response_headers,
            final(self).written@ == old(self).written@
                + response_bytes(status, old(self).response_headers.kvs(), body@),
    {
        let ghost kvs = self.response_headers.kvs();
        let mut resp = String::from_str("HTTP/1.1 ");
        resp.append(status.as_str());
        resp.append("\r\n");
        let ghost prefix = "HTTP/1.1 "@ + status_chars(status) + "\r\n"@;
        let count = self.response_headers.len();
        let mut i: usize = 0;
        proof {
            assert(kvs.take(0) =~= Seq::<(Seq<char>, Seq<char>)>::empty());
        }
        while i < count
            invariant
                0 <= i <= count,
                count == kvs.len(),
                self == old(self),
                kvs == self.response_headers.kvs(),
                resp@ == prefix + header_block(kvs.take(i as int)),
            decreases count - i,
        {
            let kv = self.response_headers.get_at(i);
            resp.append(kv.0.as_str());
            resp.append(": ");
            resp.append(kv.1.as_str());
            resp.append("\r\n");
            proof {
                assert(kvs.take(i + 1).drop_last() =~= kvs.take(i as int));
                assert(kvs.take(i + 1).last() == kvs[i as int]);
                assert(resp@ =~= prefix + header_block(kvs.take(i + 1)));
            }
            i += 1;
        }
        proof {
            assert(kvs.take(count as int) =~= kvs);
        }
        resp.append("\r\n");
        let with_body = match self.response_headers.get("Content-Length") {
            Some(size) => !str_eq(size.as_str(), "0"),
            None => false,
        };
        if with_body {
            resp.append(body);
        }
        proof {
            assert(resp@ =~= response_chars(status, kvs, body@));
        }
        let bytes = resp.as_str().as_bytes();
        self.written.extend_from_slice(bytes);
        proof {
            assert(final(self).written@ =~= old(self).written@ + response_bytes(status, kvs, body@));
        }
    }

    /// Answers with a plain-text body: sets `Content-Type` and an exact
    /// `Content-Length`, then performs the terminal write.
    pub fn string(&mut self, status: HttpStatus, body: &str)
        requires
            old(self).wf(),
        ensures
            final(self).wf(),
            final(self).request == old(self).request,
            final(self).path_params == old(self).path_params,
            final(self).response_headers@ == old(self).response_headers@
                .insert("Content-Type"@, "text/plain"@)
                .insert("Content-Length"@, dec_chars(byte_len(body@))),
            final(self).written@ == old(self).written@
                + response_bytes(status, final(self).response_headers.kvs(), body@),
    {
        self.add_response_header("Content-Type", "text/plain");
        let length = to_dec_string(body.len() as u64);
        self.response_headers.insert(String::from_str("Content-Length"), length);
        self.send_response(status, body);
    }

    /// Answers with a JSON body: the given text is wrapped in an object
    /// that records the status and the body, `Content-Type` and an exact
    /// `Content-Length` are set, and the terminal write is performed.
    pub fn json(&mut self, status: HttpStatus, body: &str)
        requires
            old(self).wf(),
        ensures
            final(self).wf(),
            final(self).request == old(self).request,
            final(self).path_params == old(self).path_params,
            final(self).response_headers@ == old(self).response_headers@
                .insert("Content-Type"@, "application/json"@)
                .insert("Content-Length"@, dec_chars(byte_len(json_wrap_of(status_chars(status), body@)))),
            final(self).written@ == old(self).written@
                + response_bytes(status, final(self).response_headers.kvs(), json_wrap_of(status_chars(status), body@)),
    {
        let wrapped = json_wrap(status.as_str(), body);
        self.add_response_header("Content-Type", "application/json");
        let length = to_dec_string(wrapped.as_str().len() as u64);
        self.response_headers.insert(String::from_str("Content-Length"), length);
        self.send_response(status, wrapped.as_str());
    }

    /// The path parameter bound under `key` by the matched route, if any.
    pub fn param(&self, key: &str) -> (r: Option<String>)
        requires
            self.wf(),
        ensures
            match r {
                Some(v) => self.path_params@.contains_key(key@) && v@ == self.path_params@[key@],
                None => !self.path_params@.contains_key(key@),
            },
    {
        match self.path_params.get(key) {
            Some(v) => Some(v.clone()),
            None => None,
        }
    }

    /// The request header stored under `key`, if any.
    pub fn header(&self, key: &str) -> (r: Option<String>)
        requires
            self.wf(),
        ensures
            match r {
                Some(v) => self.request.headers@.contains_key(key@) && v@ == self.request.headers@[key@],
                None => !self.request.headers@.contains_key(key@),
            },
    {
        match self.request.headers.get(key) {
            Some(v) => Some(v.clone()),
            None => None,
        }
    }

    /// The request body.
    pub fn body(&self) -> (r: String)
        ensures
            r@ == self.request.body@,
    {
        self.request.body.clone()
    }
}

/// The missed-route answer is never empty: its body is nine bytes long,
/// the Content-Length header states exactly that length, and the body is
/// therefore written on the wire.
pub proof fn lemma_not_found_response(headers: Map<Seq<char>, Seq<char>>)
    requires
        headers.contains_key("Content-Length"@),
        headers["Content-Length"@] == dec_chars(byte_len("Not Found"@)),
    ensures
        "Not Found"@.len() == 9,
        byte_len("Not Found"@) == 9,
        headers["Content-Length"@] == "9"@,
        body_included(headers),
{
    reveal_strlit("Not Found");
    reveal_strlit("9");
    reveal_strlit("0");
    let chars = "Not Found"@;
    assert(vstd::utf8::is_ascii_chars(chars)) by {
        assert(chars[0] == 'N' && chars[1] == 'o' && chars[2] == 't' && chars[3] == ' '
            && chars[4] == 'F' && chars[5] == 'o' && chars[6] == 'u' && chars[7] == 'n'
            && chars[8] == 'd');
    }
    vstd::utf8::is_ascii_chars_encode_utf8(chars);
    assert(dec_chars(9) =~= "9"@);
    assert("9"@[0] == '9' && "0"@[0] == '0');
    assert("9"@ != "0"@);
}

} // verus!
