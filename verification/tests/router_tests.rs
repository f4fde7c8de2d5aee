use http_server::context::Context;
use http_server::http_method::HttpMethod;
use http_server::http_request::HttpRequest;
use http_server::router::Handler;
use http_server::router::Route;
use http_server::router::Router;
use http_server::string_map::StringMap;

struct DummyHandler;

impl Handler for DummyHandler {
    fn handle(&self, ctx: Context) -> Context {
        ctx
    }
}

#[test]
fn test_router_get_route() {
    let mut router = Router::new();
    router.get("/test", DummyHandler);
    let route = router.get_route(HttpMethod::Get, &["test"]);
    assert!(route.is_some());
    assert_eq!(route.unwrap().path, vec!["test".to_string()]);
}

#[test]
fn test_router_get_empty_route() {
    let mut router = Router::new();
    let path = "/".to_string();
    router.get(&path, DummyHandler);
    let path: Vec<&str> = path
        .trim_end_matches("/")
        .trim_start_matches("/")
        .split("/")
        .collect();
    let route = router.get_route(HttpMethod::Get, &path);
    assert!(route.is_some());
    assert_eq!(route.unwrap().path, vec!["".to_string()]);
}

#[test]
fn test_router_get_route_not_found() {
    let mut router = Router::new();
    router.get("/test", DummyHandler);
    let route = router.get_route(HttpMethod::Get, &["test", "1"]);
    assert!(route.is_none());
}

#[test]
fn test_router_get_with_params() {
    let mut router = Router::new();
    router.get("/test/{param}", DummyHandler);
    let route = router.get_route(HttpMethod::Get, &["test", "1"]);
    assert!(route.is_some());
    assert_eq!(
        route.unwrap().path,
        vec!["test".to_string(), "{param}".to_string()]
    );
}

#[test]
fn test_router_get_with_params_many_routes() {
    let mut router = Router::new();
    router.get("/test/{param}", DummyHandler);
    router.get("/test/test", DummyHandler);
    let route = router.get_route(HttpMethod::Get, &["test", "test"]);
    assert!(route.is_some());
    assert_eq!(
        route.unwrap().path,
        vec!["test".to_string(), "test".to_string()]
    );
}

#[test]
fn test_router_get_with_params_not_found() {
    let mut router = Router::new();
    router.get("/test/{param}", DummyHandler);
    let route = router.get_route(HttpMethod::Get, &["test", "1", "2"]);
    assert!(route.is_none());
}

#[test]
fn test_router_get_mathces_start_but_not_end() {
    let mut router = Router::new();
    router.get("/test/1/2/3/4", DummyHandler);
    let route = router.get_route(HttpMethod::Get, &["test", "1", "2", "3", "4", "5"]);
    assert!(route.is_none());
}

#[test]
fn test_router_get_with_multiple_routes() {
    let mut router = Router::new();
    router.get("/test/1/2/", DummyHandler);
    router.post("/test/1/2/", DummyHandler);
    router.get("/test/{param}", DummyHandler);
    router.post("/test/{param}/test", DummyHandler);

    let get1 = router.get_route(HttpMethod::Get, &["test", "1", "2"]);
    let get2 = router.get_route(HttpMethod::Get, &["test", "1"]);
    let post1 = router.get_route(HttpMethod::Post, &["test", "1", "2"]);
    let post2 = router.get_route(HttpMethod::Post, &["test", "1", "test"]);
    let not_found = router.get_route(HttpMethod::Get, &["new"]);
    assert!(get1.is_some());
    assert!(get2.is_some());
    assert!(post1.is_some());
    assert!(post2.is_some());
    assert!(not_found.is_none());
}

#[test]
fn test_route_compare_path_at() {
    let route = Route::new(HttpMethod::Get, "/test/{param}", DummyHandler);
    assert!(route.compare_path_at("test", 0));
    assert!(route.compare_path_at("any", 1)); // the route has a param at the index 1
    assert!(!route.compare_path_at("not", 0));
    assert!(!route.compare_path_at("test", 2)); // the route has only two parts
}

#[test]
fn test_route_get_path_params() {
    let route = Route::new(HttpMethod::Get, "/test/{param}", DummyHandler);
    let path = vec!["test", "1"];
    let mut ctx = Context::new();
    ctx.request = HttpRequest::new(
        HttpMethod::Get,
        "/test/1".into(),
        StringMap::new(),
        "".into(),
    );
    route.set_path_params(&path, &mut ctx);
    assert_eq!(ctx.param("param"), Some("1".to_string()));
}

#[test]
fn test_route_matches_counts_literal_positions() {
    let route = Route::new(HttpMethod::Get, "/test/new", DummyHandler);
    assert_eq!(route.matches(&["test", "new"]), 2);
    assert_eq!(route.matches(&["test", "new", "other"]), 2);
    assert_eq!(route.matches(&["test", "other"]), 1);
}

#[test]
fn test_router_tie_prefers_first_registered() {
    let mut router = Router::new();
    router.get("/a/{x}", DummyHandler);
    router.get("/{y}/b", DummyHandler);
    let route = router.get_route(HttpMethod::Get, &["a", "b"]);
    assert!(route.is_some());
    assert_eq!(route.unwrap().path, vec!["a".to_string(), "{x}".to_string()]);
}

#[test]
fn test_handle_request_not_found_response() {
    let router: Router<DummyHandler> = Router::new();
    let mut ctx = Context::new();
    ctx.request = HttpRequest::new(
        HttpMethod::Get,
        "/missing".into(),
        StringMap::new(),
        "".into(),
    );
    let ctx = router.handle_request(ctx);
    let expected = "HTTP/1.1 404 Not Found\r\nContent-Type: text/plain\r\nContent-Length: 9\r\n\r\nNot Found";
    assert_eq!(ctx.written, expected.as_bytes().to_vec());
}

struct RecordingHandler;

impl Handler for RecordingHandler {
    fn handle(&self, mut ctx: Context) -> Context {
        let id = ctx.param("id").unwrap();
        ctx.string(http_server::http_status::HttpStatus::Okay, &id);
        ctx
    }
}

#[test]
fn test_handle_request_binds_params_and_runs_handler() {
    let mut router = Router::new();
    router.get("/users/{id}", RecordingHandler);
    let mut ctx = Context::new();
    ctx.request = HttpRequest::new(
        HttpMethod::Get,
        "/users/42".into(),
        StringMap::new(),
        "".into(),
    );
    let ctx = router.handle_request(ctx);
    let expected = "HTTP/1.1 200 OK\r\nContent-Type: text/plain\r\nContent-Length: 2\r\n\r\n42";
    assert_eq!(ctx.written, expected.as_bytes().to_vec());
}

#[test]
fn test_route_new_normalizes_pattern() {
    let route = Route::new(HttpMethod::Get, "//a//b/", DummyHandler);
    assert_eq!(
        route.path,
        vec!["a".to_string(), "".to_string(), "b".to_string()]
    );
    let route = Route::new(HttpMethod::Get, "", DummyHandler);
    assert_eq!(route.path, vec!["".to_string()]);
}
