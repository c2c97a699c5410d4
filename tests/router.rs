use std::cell::Cell;
use std::rc::Rc;

use friday::codec::parse_request;
use friday::router::not_found;
use friday::{Handler, Method, Middleware, Request, RequireHeader, Response, Router};

struct Fixed {
    status: u16,
    body: &'static str,
    calls: Rc<Cell<usize>>,
}

impl Fixed {
    fn new(status: u16, body: &'static str) -> Fixed {
        Fixed { status, body, calls: Rc::new(Cell::new(0)) }
    }
}

impl Handler for Fixed {
    fn handle(&self, _r: Request) -> Response {
        self.calls.set(self.calls.get() + 1);
        Response::new(self.status, self.body.to_string())
    }
}

enum Guard {
    Header(RequireHeader),
    Always(u16),
}

impl Middleware for Guard {
    fn execute(&self, r: &Request) -> Option<Response> {
        match self {
            Guard::Header(h) => h.execute(r),
            Guard::Always(s) => Some(Response::new(*s, format!("guard {s}"))),
        }
    }
}

fn request(bytes: &[u8]) -> Request {
    parse_request(bytes).unwrap()
}

#[test]
fn first_registered_route_wins() {
    let mut router: Router<Fixed, Guard> = Router::new();
    router.path("/func", Fixed::new(200, "func"));
    router.path("/funct", Fixed::new(200, "funct"));
    let r = request(b"GET /functional HTTP/1.1\r\n\r\n");
    assert_eq!(router.find_route(&r), Some(0));
    assert_eq!(router.handle(r).body, Some("func".to_string()));

    let mut router: Router<Fixed, Guard> = Router::new();
    router.path("/funct", Fixed::new(200, "funct"));
    router.path("/func", Fixed::new(200, "func"));
    let r = request(b"GET /functional HTTP/1.1\r\n\r\n");
    assert_eq!(router.handle(r).body, Some("funct".to_string()));
}

#[test]
fn route_matches_anywhere_in_the_path() {
    let mut router: Router<Fixed, Guard> = Router::new();
    router.path("/tasks", Fixed::new(200, "tasks"));
    let r = request(b"GET /api/tasks/dump HTTP/1.1\r\n\r\n");
    assert_eq!(router.find_route(&r), Some(0));
}

#[test]
fn method_filter_is_respected() {
    let mut router: Router<Fixed, Guard> = Router::new();
    router.post("/tasks", Fixed::new(201, "posted"));
    router.get("/tasks", Fixed::new(200, "listed"));
    router.route("/tasks", Some(Method::DELETE), Fixed::new(200, "deleted"));
    assert_eq!(router.handle(request(b"GET /tasks HTTP/1.1\r\n\r\n")).body, Some("listed".to_string()));
    assert_eq!(router.handle(request(b"POST /tasks HTTP/1.1\r\n\r\n")).status, 201);
    assert_eq!(router.handle(request(b"DELETE /tasks HTTP/1.1\r\n\r\n")).body, Some("deleted".to_string()));
    assert_eq!(router.find_route(&request(b"PUT /tasks HTTP/1.1\r\n\r\n")), None);
}

#[test]
fn unmatched_request_gets_404() {
    let mut router: Router<Fixed, Guard> = Router::new();
    router.get("/tasks", Fixed::new(200, "tasks"));
    let resp = router.handle(request(b"GET /other HTTP/1.1\r\n\r\n"));
    assert_eq!(resp.status, 404);
    assert_eq!(resp.body, Some("{\"error\":\"not found\"}".to_string()));
    assert_eq!(resp, not_found());
}

#[test]
fn middleware_short_circuit_skips_handler() {
    let handler = Fixed::new(200, "ok");
    let calls = Rc::clone(&handler.calls);
    let mut router: Router<Fixed, Guard> = Router::new();
    router.path("/tasks", handler);
    router.mw(Guard::Header(RequireHeader { name: "Content-Type".to_string() }));

    let resp = router.handle(request(b"POST /tasks HTTP/1.1\r\nContent-Length: 2\r\n\r\n{}"));
    assert_eq!(resp.status, 400);
    assert_eq!(resp.body, Some("{\"error\":\"missing required header\"}".to_string()));
    assert_eq!(calls.get(), 0);

    let resp = router.handle(request(b"POST /tasks HTTP/1.1\r\nContent-Type: application/json\r\n\r\n"));
    assert_eq!(resp.status, 200);
    assert_eq!(calls.get(), 1);
}

#[test]
fn middlewares_run_last_registered_first() {
    let mut router: Router<Fixed, Guard> = Router::new();
    router.path("/", Fixed::new(200, "ok"));
    router.mw(Guard::Always(401));
    router.mw(Guard::Always(403));
    assert_eq!(router.handle(request(b"GET / HTTP/1.1\r\n\r\n")).status, 403);
}

#[test]
fn middlewares_do_not_run_without_a_route() {
    let mut router: Router<Fixed, Guard> = Router::new();
    router.path("/tasks", Fixed::new(200, "ok"));
    router.mw(Guard::Always(401));
    assert_eq!(router.handle(request(b"GET /nothing HTTP/1.1\r\n\r\n")).status, 404);
}

#[test]
fn end_to_end_get_tasks() {
    let mut router: Router<Fixed, Guard> = Router::new();
    router.get("/tasks", Fixed::new(200, "{\"dump\":[\"a\"]}"));
    let out = router.respond(b"GET /tasks HTTP/1.1\r\n\r\n");
    let text = String::from_utf8(out).unwrap();
    assert!(text.starts_with("HTTP/1.1 200 OK\n"));
    assert_eq!(text, "HTTP/1.1 200 OK\nContent-Length: 14\n\n{\"dump\":[\"a\"]}");
}

#[test]
fn bad_request_line_gets_400() {
    let router: Router<Fixed, Guard> = Router::new();
    let out = router.respond(b"BREW /pot HTTP/1.1\r\n\r\n");
    assert_eq!(
        String::from_utf8(out).unwrap(),
        "HTTP/1.1 400 Bad Request\nContent-Length: 40\n\ninvalid request: unsupported HTTP method"
    );
}

#[test]
fn response_without_body_is_written_empty() {
    let resp = Response { status: 501, body: None };
    assert_eq!(friday::router::encode(&resp), b"HTTP/1.1 501 Not Implemented\nContent-Length: 0\n\n".to_vec());
}

#[test]
fn serialization_failure_becomes_500() {
    let r = Response::from_serialized(200, None);
    assert_eq!(r.status, 500);
    assert_eq!(r.body, Some("serialization error".to_string()));
    assert_eq!(Response::from_serialized(201, Some("{}".to_string())), Response::new(201, "{}".to_string()));
}

#[test]
fn path_tail_reads_the_last_segment() {
    assert_eq!(friday::router::path_tail("/tasks/work"), Some("work".to_string()));
    assert_eq!(friday::router::path_tail("/tasks/"), None);
    assert_eq!(friday::router::path_tail("plain"), Some("plain".to_string()));
    assert_eq!(friday::router::path_tail(""), None);
}

#[test]
fn finish_keeps_a_middleware_answer() {
    let handler = Fixed::new(200, "ok");
    let calls = Rc::clone(&handler.calls);
    let mut router: Router<Fixed, Guard> = Router::new();
    router.path("/", handler);
    let r = request(b"GET / HTTP/1.1\r\n\r\n");
    let stop = Response::new(400, "stop".to_string());
    assert_eq!(router.finish(0, Some(stop.clone()), r.clone()), stop);
    assert_eq!(calls.get(), 0);
    assert_eq!(router.finish(0, None, r).body, Some("ok".to_string()));
    assert_eq!(calls.get(), 1);
}

#[test]
fn json_body_middleware_refuses_undeclared_bodies() {
    let m = friday::RequireJsonBody;
    let plain = request(b"POST /t HTTP/1.1\r\nContent-Length: 2\r\n\r\n{}");
    let resp = m.check(&plain).unwrap();
    assert_eq!(resp.status, 400);
    assert_eq!(resp.body, Some("{\"error\":\"unsupported content-type\"}".to_string()));
    let json = request(b"POST /t HTTP/1.1\r\nContent-Type: application/json\r\nContent-Length: 2\r\n\r\n{}");
    assert!(m.check(&json).is_none());
    assert!(m.check(&request(b"GET /t HTTP/1.1\r\n\r\n")).is_none());
}

#[test]
fn malformed_request_then_valid_one() {
    let mut router: Router<Fixed, Guard> = Router::new();
    router.get("/tasks", Fixed::new(200, "é"));
    let bad = String::from_utf8(router.respond(b"HELLO\n\n")).unwrap();
    assert!(bad.starts_with("HTTP/1.1 400 Bad Request\n"));
    let good = router.respond(b"GET /tasks HTTP/1.1\r\n\r\n");
    assert_eq!(good, "HTTP/1.1 200 OK\nContent-Length: 2\n\né".as_bytes().to_vec());
}

#[test]
fn form_feed_separates_request_line_tokens() {
    let r = request(b"GET\x0c/ H");
    assert_eq!(r.method, Method::GET);
    assert_eq!(r.path, "/");
}
