use http_server::api_err::ApiErr;
use http_server::context::Context;
use http_server::http_status::HttpStatus;
use http_server::text::parse_usize;
use http_server::text::to_dec_string;

#[test]
fn string_response_wire_format() {
    let mut ctx = Context::new();
    ctx.string(HttpStatus::Okay, "Hello");
    let expected = "HTTP/1.1 200 OK\r\nContent-Type: text/plain\r\nContent-Length: 5\r\n\r\nHello";
    assert_eq!(ctx.written, expected.as_bytes().to_vec());
}

#[test]
fn string_response_empty_body_omits_bytes() {
    let mut ctx = Context::new();
    ctx.string(HttpStatus::NoContent, "");
    let expected = "HTTP/1.1 204 No Content\r\nContent-Type: text/plain\r\nContent-Length: 0\r\n\r\n";
    assert_eq!(ctx.written, expected.as_bytes().to_vec());
}

#[test]
fn string_response_header_overwrite_last_wins() {
    let mut ctx = Context::new();
    ctx.add_response_header("X-Tag", "1");
    ctx.add_response_header("X-Tag", "2");
    ctx.string(HttpStatus::Okay, "ok");
    let expected = "HTTP/1.1 200 OK\r\nX-Tag: 2\r\nContent-Type: text/plain\r\nContent-Length: 2\r\n\r\nok";
    assert_eq!(ctx.written, expected.as_bytes().to_vec());
}

#[test]
fn json_response_wraps_status_and_body() {
    let mut ctx = Context::new();
    ctx.json(HttpStatus::Okay, "hi");
    let expected = "HTTP/1.1 200 OK\r\nContent-Type: application/json\r\nContent-Length: 31\r\n\r\n{\"body\":\"hi\",\"status\":\"200 OK\"}";
    assert_eq!(ctx.written, expected.as_bytes().to_vec());
}

#[test]
fn api_err_statuses_and_messages() {
    assert_eq!(ApiErr::InvalidMethod.http_status(), HttpStatus::BadRequest);
    assert_eq!(ApiErr::InvalidRequest.http_status(), HttpStatus::BadRequest);
    assert_eq!(
        ApiErr::MediaTypeNotSupported.http_status(),
        HttpStatus::BadRequest
    );
    assert_eq!(
        ApiErr::StreamError("gone".to_string()).http_status(),
        HttpStatus::InternalServerError
    );
    assert_eq!(
        ApiErr::InternalError("oops".to_string()).http_status(),
        HttpStatus::InternalServerError
    );
    assert_eq!(
        ApiErr::Conflict("user".to_string()).http_status(),
        HttpStatus::Conflict
    );
    assert_eq!(ApiErr::InvalidMethod.message(), "Invalid method.");
    assert_eq!(ApiErr::InvalidRequest.message(), "Invalid request.");
    assert_eq!(
        ApiErr::Conflict("user".to_string()).message(),
        "user already exists!"
    );
}

#[test]
fn api_err_to_value_wraps_message() {
    let value = ApiErr::InvalidMethod.to_value();
    assert_eq!(value.to_string(), "{\"message\":\"Invalid method.\"}");
}

#[test]
fn decimal_rendering_and_parsing() {
    assert_eq!(to_dec_string(0), "0");
    assert_eq!(to_dec_string(9), "9");
    assert_eq!(to_dec_string(1234), "1234");
    assert_eq!(parse_usize("0"), Some(0));
    assert_eq!(parse_usize("1234"), Some(1234));
    assert_eq!(parse_usize(""), None);
    assert_eq!(parse_usize("12a"), None);
    assert_eq!(parse_usize("99999999999999999999999999"), None);
}
