//! A minimal HTTP/1.1 server core: a byte-level request parser, a path
//! router with literal and `{param}` segments, and a per-connection response
//! context that serializes status line, headers, and body. Each piece
//! carries a contract that pins its behaviour for every input.

pub mod api_err;
pub mod bytes;
pub mod context;
pub mod http_method;
pub mod http_request;
pub mod http_status;
pub mod mock_stream;
pub mod router;
pub mod server;
pub mod string_map;
pub mod text;
