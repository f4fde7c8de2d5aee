//! The wire-level request parser: reads a head byte by byte until the
//! blank-line terminator, splits it into start line and headers, then reads
//! exactly the declared number of body bytes. Its contract pins the outcome
//! for every possible incoming byte stream.
use crate::api_err::ApiErr;
use crate::bytes::crlf2_at;
use crate::bytes::find_byte;
use crate::bytes::find_crlf2;
use crate::bytes::lemma_find_crlf2;
use crate::bytes::lossy_of;
use crate::bytes::bytes_to_string_lossy;
use crate::bytes::split_crlf;
use crate::bytes::split_crlf_vec;
use crate::bytes::split_colon;
use crate::bytes::split_ws;
use crate::bytes::tokens_of;
use crate::bytes::trim_ws;
use crate::bytes::trim_ws_seq;
use crate::http_method::HttpMethod;
use crate::http_method::method_of;
use crate::http_request::HttpRequest;
use crate::mock_stream::MockTcpStream;
use crate::mock_stream::short_read_chars;
use crate::string_map::StringMap;
use crate::text::all_digits;
use crate::text::dec_value;
use crate::text::parse_usize;
use vstd::prelude::*;

verus! {

/// How many bytes of `rem` the head occupies, terminator included, or -1
/// when no terminator ever arrives.
pub open spec fn head_len(rem: Seq<u8>) -> int {
    if find_crlf2(rem) == -1 {
        -1
    } else {
        find_crlf2(rem) + 4
    }
}

/// The head bytes with surrounding whitespace (the terminator included)
/// removed.
pub open spec fn head_of(rem: Seq<u8>) -> Seq<u8> {
    trim_ws_seq(rem.take(head_len(rem)))
}

/// The head split into lines.
pub open spec fn head_lines(rem: Seq<u8>) -> Seq<Seq<u8>> {
    split_crlf(head_of(rem))
}

/// The whitespace-separated tokens of the start line.
pub open spec fn start_tokens(rem: Seq<u8>) -> Seq<Seq<u8>> {
    tokens_of(head_lines(rem)[0])
}

/// The header mapping a sequence of header lines denotes: each line is cut at
/// its first colon, the value is trimmed, lines without a colon are skipped,
/// and a later occurrence of a key overrides an earlier one.
pub open spec fn headers_map_of(lines: Seq<Seq<u8>>) -> Map<Seq<char>, Seq<char>>
    decreases lines.len(),
{
    if lines.len() == 0 {
        Map::empty()
    } else {
        let m = headers_map_of(lines.drop_last());
        let l = lines.last();
        let f = find_byte(l, 58);
        if f == -1 {
            m
        } else {
            m.insert(lossy_of(l.take(f)), lossy_of(trim_ws_seq(l.skip(f + 1))))
        }
    }
}

/// The headers the incoming bytes declare.
pub open spec fn req_headers(rem: Seq<u8>) -> Map<Seq<char>, Seq<char>> {
    headers_map_of(head_lines(rem).skip(1))
}

/// A usable body-length declaration: nonempty, all digits, and within
/// machine range.
pub open spec fn valid_length(cs: Seq<char>) -> bool {
    cs.len() > 0 && all_digits(cs) && dec_value(cs) <= usize::MAX
}

/// What a byte stream parses to. `consumed` counts the bytes taken off the
/// stream; errors that give up before the body leave everything after the
/// head unread.
pub enum ParsedWire {
    /// The terminator never arrives: the whole stream is consumed in vain.
    NoHead,
    /// The start line has fewer than two tokens.
    BadStart,
    /// The declared content length is not a machine-ranged number.
    BadLength,
    /// Fewer body bytes than declared are available.
    ShortBody { consumed: int },
    /// The verb is outside the accepted set; found only after the body is read.
    BadMethod { consumed: int },
    /// A complete request.
    Parsed {
        method: HttpMethod,
        path: Seq<char>,
        headers: Map<Seq<char>, Seq<char>>,
        body: Seq<char>,
        consumed: int,
    },
}

/// The parse outcome a given byte stream determines.
pub open spec fn parse_wire(rem: Seq<u8>) -> ParsedWire {
    if head_len(rem) < 0 {
        ParsedWire::NoHead
    } else {
        let toks = start_tokens(rem);
        if toks.len() < 2 {
            ParsedWire::BadStart
        } else {
            let hm = req_headers(rem);
            if hm.contains_key("Content-Length"@) && !valid_length(hm["Content-Length"@]) {
                ParsedWire::BadLength
            } else {
                let n: int = if hm.contains_key("Content-Length"@) {
                    dec_value(hm["Content-Length"@]) as int
                } else {
                    0
                };
                if head_len(rem) + n > rem.len() {
                    ParsedWire::ShortBody { consumed: head_len(rem) }
                } else {
                    let body = if hm.contains_key("Content-Length"@) {
                        lossy_of(rem.subrange(head_len(rem), head_len(rem) + n))
                    } else {
                        Seq::<char>::empty()
                    };
                    match method_of(lossy_of(toks[0])) {
                        None => ParsedWire::BadMethod { consumed: head_len(rem) + n },
                        Some(m) => ParsedWire::Parsed {
                            method: m,
                            path: lossy_of(toks[1]),
                            headers: hm,
                            body: body,
                            consumed: head_len(rem) + n,
                        },
                    }
                }
            }
        }
    }
}

/// Reads one byte at a time until the last four bytes read are the head
/// terminator, then returns the head with surrounding whitespace removed.
/// A stream that ends first is a stream error with everything consumed.
pub fn read_head(stream: &mut MockTcpStream) -> (r: Result<Vec<u8>, ApiErr>)
    requires
        old(stream).wf(),
    ensures
        final(stream).wf(),
        final(stream).read_data == old(stream).read_data,
        final(stream).write_data == old(stream).write_data,
        head_len(old(stream).remaining()) >= 0 ==> {
            &&& r matches Ok(v) && v@ == head_of(old(stream).remaining())
            &&& final(stream).position == old(stream).position + head_len(old(stream).remaining())
        },
        head_len(old(stream).remaining()) < 0 ==> {
            &&& r matches Err(e) && e matches ApiErr::StreamError(m) && m@ == short_read_chars()
            &&& final(stream).position == old(stream).read_data@.len()
        },
{
    let ghost rem = old(stream).remaining();
    let mut buffer: Vec<u8> = Vec::new();
    proof {
        assert(buffer@ =~= rem.take(0));
    }
    loop
        invariant
            stream.wf(),
            stream.read_data == old(stream).read_data,
            stream.write_data == old(stream).write_data,
            old(stream).position <= stream.position,
            buffer@.len() == stream.position - old(stream).position,
            buffer@ == rem.take(buffer@.len() as int),
            rem == old(stream).remaining(),
            forall|k: int| 0 <= k && k + 4 <= buffer@.len() ==> !crlf2_at(rem, k),
        decreases stream.read_data@.len() - stream.position,
    {
        let ghost blen_old = buffer@.len() as int;
        let byte = match stream.read_exact(1) {
            Ok(v) => v,
            Err(e) => {
                proof {
                    assert(buffer@.len() == rem.len());
                    lemma_find_crlf2(rem);
                    if find_crlf2(rem) != -1 {
                        assert(crlf2_at(rem, find_crlf2(rem)));
                    }
                }
                return Err(e);
            },
        };
        proof {
            assert(rem.skip(blen_old)[0] == rem[blen_old]);
        }
        buffer.push(byte[0]);
        proof {
            assert(buffer@ =~= rem.take(blen_old + 1));
        }
        let blen = buffer.len();
        if blen >= 4 {
            let b0 = buffer[blen - 4];
            let b1 = buffer[blen - 3];
            let b2 = buffer[blen - 2];
            let b3 = buffer[blen - 1];
            if b0 == 13 && b1 == 10 && b2 == 13 && b3 == 10 {
                proof {
                    assert(crlf2_at(rem, blen - 4));
                    lemma_find_crlf2(rem);
                    if find_crlf2(rem) == -1 {
                        assert(!crlf2_at(rem, blen - 4));
                    }
                    assert(find_crlf2(rem) == blen - 4) by {
                        if find_crlf2(rem) < blen - 4 {
                            assert(!crlf2_at(rem, find_crlf2(rem)));
                        }
                        if find_crlf2(rem) > blen - 4 {
                            assert(!crlf2_at(rem, blen - 4));
                        }
                    }
                    assert(head_len(rem) == blen);
                }
                let out = trim_ws(buffer.as_slice());
                return Ok(out);
            }
        }
    }
}

/// Parses one connection's request off the stream: the head, then, when a
/// `Content-Length` header is present, exactly that many body bytes. Every
/// outcome, success or failure, is the one `parse_wire` assigns to the
/// incoming bytes.
pub fn handle_connection(stream: &mut MockTcpStream) -> (r: Result<HttpRequest, ApiErr>)
    requires
        old(stream).wf(),
    ensures
        final(stream).wf(),
        final(stream).read_data == old(stream).read_data,
        final(stream).write_data == old(stream).write_data,
        match parse_wire(old(stream).remaining()) {
            ParsedWire::NoHead => {
                &&& r matches Err(e) && e matches ApiErr::StreamError(m) && m@ == short_read_chars()
                &&& final(stream).position == old(stream).read_data@.len()
            },
            ParsedWire::BadStart => {
                &&& r == Err::<HttpRequest, ApiErr>(ApiErr::InvalidRequest)
                &&& final(stream).position == old(stream).position + head_len(old(stream).remaining())
            },
            ParsedWire::BadLength => {
                &&& r == Err::<HttpRequest, ApiErr>(ApiErr::InvalidRequest)
                &&& final(stream).position == old(stream).position + head_len(old(stream).remaining())
            },
            ParsedWire::ShortBody { consumed } => {
                &&& r matches Err(e) && e matches ApiErr::StreamError(m) && m@ == short_read_chars()
                &&& final(stream).position == old(stream).position + consumed
            },
            ParsedWire::BadMethod { consumed } => {
                &&& r == Err::<HttpRequest, ApiErr>(ApiErr::InvalidMethod)
                &&& final(stream).position == old(stream).position + consumed
            },
            ParsedWire::Parsed { method, path, headers, body, consumed } => {
                &&& r matches Ok(req)
                &&& req.method == method
                &&& req.path@ == path
                &&& req.headers@ == headers
                &&& req.wf()
                &&& req.body@ == body
                &&& final(stream).position == old(stream).position + consumed
            },
        },
{
    let ghost rem = old(stream).remaining();
    let head = match read_head(stream) {
        Ok(h) => h,
        Err(e) => {
            return Err(e);
        },
    };
    let lines = split_crlf_vec(head.as_slice());
    proof {
        assert(lines.deep_view() == head_lines(rem));
        assert(lines.deep_view()[0] == lines@[0]@);
    }
    let toks = split_ws(lines[0].as_slice());
    proof {
        assert(toks.deep_view() == start_tokens(rem));
    }
    if toks.len() < 2 {
        return Err(ApiErr::InvalidRequest);
    }
    let mut headers = StringMap::new();
    let mut li: usize = 1;
    proof {
        assert(lines.deep_view().subrange(1, 1) =~= Seq::<Seq<u8>>::empty());
    }
    while li < lines.len()
        invariant
            1 <= li <= lines@.len(),
            lines.deep_view().len() == lines@.len(),
            headers.wf(),
            headers@ == headers_map_of(lines.deep_view().subrange(1, li as int)),
        decreases lines@.len() - li,
    {
        let ghost seen = lines.deep_view().subrange(1, li as int);
        let ghost seen1 = lines.deep_view().subrange(1, li + 1);
        proof {
            assert(seen1.drop_last() =~= seen);
            assert(seen1.last() == lines.deep_view()[li as int]);
            assert(lines.deep_view()[li as int] == lines@[li as int]@);
        }
        match split_colon(lines[li].as_slice()) {
            Some(kv) => {
                let key = bytes_to_string_lossy(kv.0.as_slice());
                let trimmed = trim_ws(kv.1.as_slice());
                let value = bytes_to_string_lossy(trimmed.as_slice());
                headers.insert(key, value);
            },
            None => {
            },
        }
        li += 1;
    }
    proof {
        assert(lines.deep_view().subrange(1, lines@.len() as int) =~= lines.deep_view().skip(1));
        assert(headers@ == req_headers(rem));
    }
    let ghost hl = head_len(rem);
    let mut body = String::new();
    let cl = headers.get("Content-Length");
    match cl {
        Some(v) => {
            let n = match parse_usize(v.as_str()) {
                Some(n) => n,
                None => {
                    return Err(ApiErr::InvalidRequest);
                },
            };
            proof {
                assert(stream.remaining() =~= rem.skip(hl));
            }
            let body_bytes = match stream.read_exact(n) {
                Ok(b) => b,
                Err(e) => {
                    return Err(e);
                },
            };
            proof {
                assert(body_bytes@ == rem.skip(hl).take(n as int));
                assert(rem.skip(hl).take(n as int) =~= rem.subrange(hl, hl + n));
            }
            body = bytes_to_string_lossy(body_bytes.as_slice());
        },
        None => {
        },
    }
    let verb = bytes_to_string_lossy(toks[0].as_slice());
    proof {
        assert(toks.deep_view()[0] == toks@[0]@);
        assert(toks.deep_view()[1] == toks@[1]@);
    }
    let method = match HttpMethod::from_string(verb.as_str()) {
        Ok(m) => m,
        Err(e) => {
            return Err(e);
        },
    };
    let path = bytes_to_string_lossy(toks[1].as_slice());
    Ok(HttpRequest::new(method, path, headers, body))
}

/// How many body bytes a raw head (as read off the wire, terminator
/// included) declares: the value of its `Content-Length` header, zero when
/// the header is absent, and a malformed-request error when the value is not
/// a machine-ranged number.
pub fn declared_body_length(head: &[u8]) -> (r: Result<usize, ApiErr>)
    ensures
        ({
            let hm = headers_map_of(split_crlf(trim_ws_seq(head@)).skip(1));
            if hm.contains_key("Content-Length"@) {
                if valid_length(hm["Content-Length"@]) {
                    r == Ok::<usize, ApiErr>(dec_value(hm["Content-Length"@]) as usize)
                } else {
                    r == Err::<usize, ApiErr>(ApiErr::InvalidRequest)
                }
            } else {
                r == Ok::<usize, ApiErr>(0usize)
            }
        }),
{
    let trimmed = trim_ws(head);
    let lines = split_crlf_vec(trimmed.as_slice());
    let mut headers = StringMap::new();
    let mut li: usize = 1;
    proof {
        assert(lines.deep_view().subrange(1, 1) =~= Seq::<Seq<u8>>::empty());
    }
    while li < lines.len()
        invariant
            1 <= li <= lines@.len(),
            lines.deep_view().len() == lines@.len(),
            headers.wf(),
            headers@ == headers_map_of(lines.deep_view().subrange(1, li as int)),
        decreases lines@.len() - li,
    {
        let ghost seen = lines.deep_view().subrange(1, li as int);
        let ghost seen1 = lines.deep_view().subrange(1, li + 1);
        proof {
            assert(seen1.drop_last() =~= seen);
            assert(seen1.last() == lines.deep_view()[li as int]);
            assert(lines.deep_view()[li as int] == lines@[li as int]@);
        }
        match split_colon(lines[li].as_slice()) {
            Some(kv) => {
                let key = bytes_to_string_lossy(kv.0.as_slice());
                let value_trimmed = trim_ws(kv.1.as_slice());
                let value = bytes_to_string_lossy(value_trimmed.as_slice());
                headers.insert(key, value);
            },
            None => {
            },
        }
        li += 1;
    }
    proof {
        assert(lines.deep_view().subrange(1, lines@.len() as int) =~= lines.deep_view().skip(1));
    }
    match headers.get("Content-Length") {
        Some(v) => {
            match parse_usize(v.as_str()) {
                Some(n) => Ok(n),
                None => Err(ApiErr::InvalidRequest),
            }
        },
        None => Ok(0),
    }
}

/// How many workers serve a route table: five per route, at most forty.
pub fn pool_threads(route_count: usize) -> (r: usize)
    ensures
        r == if route_count * 5 <= 40 { route_count * 5 } else { 40int },
{
    if route_count >= 8 {
        40
    } else {
        route_count * 5
    }
}

} // verus!
