//! Dispatch: an ordered route table guarded by a middleware chain, and the
//! per-connection pipeline from request bytes to response bytes.
use vstd::prelude::*;

use crate::codec::{append_bytes, parse_request, parse_spec, render, request_view, response_bytes, utf8_string};
use crate::error::{error_text, Error};
use crate::http_types::{bytes_equal, Method, Request, Response};
use vstd::slice::slice_subrange;
use vstd::string::StringSliceAdditionalSpecFns;
use vstd::utf8::*;

verus! {

broadcast use vstd::utf8::group_utf8_lib;

/// Produces the response to a request that reached its route.
pub trait Handler {
    /// Whether this handler may answer `r` with `resp`. An implementation that
    /// does not say admits every answer.
    open spec fn answers(&self, r: Request, resp: Response) -> bool {
        true
    }

    fn handle(&self, r: Request) -> (resp: Response)
        ensures
            self.answers(r, resp),
    ;
}

/// A guard run before the route handler: `None` lets the request through,
/// `Some(response)` answers it and stops the chain.
pub trait Middleware {
    /// Whether this middleware may give `res` for `r`. An implementation that
    /// does not say admits every outcome.
    open spec fn admits(&self, r: Request, res: Option<Response>) -> bool {
        true
    }

    fn execute(&self, r: &Request) -> (res: Option<Response>)
        ensures
            self.admits(*r, res),
    ;
}

/// What the middleware chain `ms` (in registration order) may answer `r` with,
/// running last-registered first and stopping at the first answer: `Some(x)`
/// when some middleware answered `x` and every one registered after it let the
/// request through; `None` when every middleware let it through.
pub open spec fn chain_gives<M: Middleware>(ms: Seq<M>, r: Request, res: Option<Response>) -> bool {
    match res {
        Some(x) => exists|k: int|
            0 <= k < ms.len() && #[trigger] ms[k].admits(r, Some(x)) && forall|j: int|
                k < j < ms.len() ==> #[trigger] ms[j].admits(r, None),
        None => forall|k: int| 0 <= k < ms.len() ==> #[trigger] ms[k].admits(r, None),
    }
}

/// Whether `needle` occurs in `hay` as a contiguous run of bytes.
pub open spec fn contains_bytes(hay: Seq<u8>, needle: Seq<u8>) -> bool {
    exists|i: int|
        0 <= i && i + needle.len() <= hay.len() && #[trigger] hay.subrange(i, i + needle.len())
            == needle
}

/// Whether a route registered as `key` (path fragment, method filter) matches
/// a request for `path` with `method`: the path contains the fragment anywhere
/// (not only at its start) and the filter is unset or names the method.
pub open spec fn route_matches(key: (Seq<u8>, Option<Method>), path: Seq<u8>, method: Method) -> bool {
    contains_bytes(path, key.0) && (key.1 is None || key.1 == Some(method))
}

/// The index of the first route among `keys` that matches, in registration order.
pub open spec fn first_match(keys: Seq<(Seq<u8>, Option<Method>)>, path: Seq<u8>, method: Method) -> Option<int>
    decreases keys.len(),
{
    if keys.len() == 0 {
        None
    } else {
        match first_match(keys.drop_last(), path, method) {
            Some(i) => Some(i),
            None => if route_matches(keys.last(), path, method) {
                Some(keys.len() - 1)
            } else {
                None
            },
        }
    }
}

/// A first match among a prefix of the routes is the first match among all of them.
proof fn lemma_first_match_prefix(
    keys: Seq<(Seq<u8>, Option<Method>)>,
    k: int,
    path: Seq<u8>,
    method: Method,
)
    requires
        0 <= k <= keys.len(),
        first_match(keys.take(k), path, method) is Some,
    ensures
        first_match(keys, path, method) == first_match(keys.take(k), path, method),
    decreases keys.len() - k,
{
    if k < keys.len() {
        assert(keys.take(k + 1).drop_last() =~= keys.take(k));
        lemma_first_match_prefix(keys, k + 1, path, method);
    } else {
        assert(keys.take(k) =~= keys);
    }
}

/// What `first_match` returns: an index whose route matches, with no earlier
/// route matching; `None` when no route matches.
proof fn lemma_first_match_is_first(keys: Seq<(Seq<u8>, Option<Method>)>, path: Seq<u8>, method: Method)
    ensures
        match first_match(keys, path, method) {
            Some(i) => 0 <= i < keys.len() && route_matches(keys[i], path, method) && forall|j: int|
                0 <= j < i ==> !route_matches(#[trigger] keys[j], path, method),
            None => forall|j: int| 0 <= j < keys.len() ==> !route_matches(#[trigger] keys[j], path, method),
        },
    decreases keys.len(),
{
    if keys.len() > 0 {
        let p = keys.drop_last();
        lemma_first_match_is_first(p, path, method);
        assert forall|j: int| 0 <= j < p.len() implies p[j] == keys[j] by {}
    }
}

/// The body sent when no route matches.
pub open spec fn not_found_body() -> Seq<char> {
    "{\"error\":\"not found\"}"@
}

/// The response sent when no route matches: 404 with a fixed JSON error body.
pub fn not_found() -> (r: Response)
    ensures
        r.status == 404,
        r.body is Some,
        r.body->Some_0@ == not_found_body(),
{
    Response::new(404, "{\"error\":\"not found\"}".to_owned())
}

/// One registration: a path fragment, an optional method filter and a handler.
pub struct Route<H> {
    pub path: String,
    pub method: Option<Method>,
    pub handler: H,
}

/// Routes in registration order and middlewares in registration order
/// (they run last-registered first).
pub struct Router<H, M> {
    routes: Vec<Route<H>>,
    middlewares: Vec<M>,
}

/// The key a route is matched by: the bytes of its path fragment and its filter.
pub open spec fn route_key<H>(r: Route<H>) -> (Seq<u8>, Option<Method>) {
    (encode_utf8(r.path@), r.method)
}

/// Whether `s` holds `needle` somewhere.
pub fn contains_slice(s: &[u8], needle: &[u8]) -> (r: bool)
    ensures
        r == contains_bytes(s@, needle@),
{
    if needle.len() > s.len() {
        return false;
    }
    let n = needle.len();
    let total = s.len();
    let last = total - n;
    let mut i: usize = 0;
    loop
        invariant
            n == needle@.len(),
            total == s@.len(),
            last + n == total,
            0 <= i <= last,
            forall|j: int|
                0 <= j < i ==> #[trigger] s@.subrange(j, j + needle@.len()) != needle@,
        decreases last - i,
    {
        if bytes_equal(slice_subrange(s, i, i + n), needle) {
            return true;
        }
        if i == last {
            return false;
        }
        i = i + 1;
    }
}

impl<H: Handler, M: Middleware> Router<H, M> {
    /// The match keys of the routes, in registration order.
    pub closed spec fn keys(&self) -> Seq<(Seq<u8>, Option<Method>)> {
        self.routes@.map_values(|r: Route<H>| route_key(r))
    }

    /// How many middlewares are registered.
    pub closed spec fn middleware_count(&self) -> nat {
        self.middlewares@.len()
    }

    /// The route handlers, in registration order.
    pub closed spec fn handlers(&self) -> Seq<H> {
        self.routes@.map_values(|r: Route<H>| r.handler)
    }

    /// The middlewares, in registration order.
    pub closed spec fn guards(&self) -> Seq<M> {
        self.middlewares@
    }

    /// What this router may answer `r` with: the 404 when no route matches;
    /// else the middleware chain's answer, or, when the chain lets the request
    /// through, what the first matching route's handler answers.
    pub open spec fn dispatches(&self, r: Request, resp: Response) -> bool {
        match first_match(self.keys(), encode_utf8(r.path@), r.method) {
            None => resp.status == 404 && resp.body is Some && resp.body->Some_0@ == not_found_body(),
            Some(i) => chain_gives(self.guards(), r, Some(resp)) || (chain_gives(self.guards(), r, None)
                && self.handlers()[i].answers(r, resp)),
        }
    }

    /// An empty router: no routes, no middlewares.
    pub fn new() -> (r: Router<H, M>)
        ensures
            r.keys() == Seq::<(Seq<u8>, Option<Method>)>::empty(),
            r.handlers() == Seq::<H>::empty(),
            r.guards() == Seq::<M>::empty(),
            r.middleware_count() == 0,
    {
        let r = Router { routes: Vec::new(), middlewares: Vec::new() };
        assert(r.keys() =~= Seq::<(Seq<u8>, Option<Method>)>::empty());
        assert(r.handlers() =~= Seq::<H>::empty());
        r
    }

    /// Adds a middleware; it runs before every middleware registered earlier.
    pub fn mw(&mut self, m: M)
        ensures
            final(self).keys() == old(self).keys(),
            final(self).handlers() == old(self).handlers(),
            final(self).guards() == old(self).guards().push(m),
            final(self).middleware_count() == old(self).middleware_count() + 1,
    {
        self.middlewares.push(m);
    }

    /// Registers a route after all earlier ones: `path` is matched anywhere
    /// in a request's path, `method` (when set) must equal the request's.
    pub fn route(&mut self, path: &str, method: Option<Method>, handler: H)
        ensures
            final(self).keys() == old(self).keys().push((path.spec_bytes(), method)),
            final(self).handlers() == old(self).handlers().push(handler),
            final(self).guards() == old(self).guards(),
            final(self).middleware_count() == old(self).middleware_count(),
    {
        self.routes.push(Route { path: path.to_owned(), method, handler });
        assert(self.keys() =~= old(self).keys().push((path.spec_bytes(), method)));
        assert(self.handlers() =~= old(self).handlers().push(handler));
    }

    /// Registers a route for any method.
    pub fn path(&mut self, path: &str, handler: H)
        ensures
            final(self).keys() == old(self).keys().push((path.spec_bytes(), None::<Method>)),
            final(self).handlers() == old(self).handlers().push(handler),
            final(self).guards() == old(self).guards(),
            final(self).middleware_count() == old(self).middleware_count(),
    {
        self.route(path, None, handler)
    }

    /// Registers a `GET` route.
    pub fn get(&mut self, path: &str, handler: H)
        ensures
            final(self).keys() == old(self).keys().push((path.spec_bytes(), Some(Method::GET))),
            final(self).handlers() == old(self).handlers().push(handler),
            final(self).guards() == old(self).guards(),
            final(self).middleware_count() == old(self).middleware_count(),
    {
        self.route(path, Some(Method::GET), handler)
    }

    /// Registers a `POST` route.
    pub fn post(&mut self, path: &str, handler: H)
        ensures
            final(self).keys() == old(self).keys().push((path.spec_bytes(), Some(Method::POST))),
            final(self).handlers() == old(self).handlers().push(handler),
            final(self).guards() == old(self).guards(),
            final(self).middleware_count() == old(self).middleware_count(),
    {
        self.route(path, Some(Method::POST), handler)
    }

    /// Registers a `PUT` route.
    pub fn put(&mut self, path: &str, handler: H)
        ensures
            final(self).keys() == old(self).keys().push((path.spec_bytes(), Some(Method::PUT))),
            final(self).handlers() == old(self).handlers().push(handler),
            final(self).guards() == old(self).guards(),
            final(self).middleware_count() == old(self).middleware_count(),
    {
        self.route(path, Some(Method::PUT), handler)
    }

    /// Registers a `PATCH` route.
    pub fn patch(&mut self, path: &str, handler: H)
        ensures
            final(self).keys() == old(self).keys().push((path.spec_bytes(), Some(Method::PATCH))),
            final(self).handlers() == old(self).handlers().push(handler),
            final(self).guards() == old(self).guards(),
            final(self).middleware_count() == old(self).middleware_count(),
    {
        self.route(path, Some(Method::PATCH), handler)
    }

    /// Registers a `DELETE` route.
    pub fn delete(&mut self, path: &str, handler: H)
        ensures
            final(self).keys() == old(self).keys().push((path.spec_bytes(), Some(Method::DELETE))),
            final(self).handlers() == old(self).handlers().push(handler),
            final(self).guards() == old(self).guards(),
            final(self).middleware_count() == old(self).middleware_count(),
    {
        self.route(path, Some(Method::DELETE), handler)
    }

    /// The index of the route a request goes to: the first registered one
    /// that matches it.
    pub fn find_route(&self, r: &Request) -> (res: Option<usize>)
        ensures
            match first_match(self.keys(), encode_utf8(r.path@), r.method) {
                Some(i) => res == Some(i as usize),
                None => res is None,
            },
            res is Some ==> res->Some_0 < self.keys().len(),
            res is Some ==> first_match(self.keys(), encode_utf8(r.path@), r.method) == Some(
                res->Some_0 as int,
            ),
    {
        let path = r.path.as_str().as_bytes();
        let mut i: usize = 0;
        assert(self.keys().take(0) =~= Seq::<(Seq<u8>, Option<Method>)>::empty());
        while i < self.routes.len()
            invariant
                0 <= i <= self.routes@.len(),
                self.keys().len() == self.routes@.len(),
                path@ == encode_utf8(r.path@),
                first_match(self.keys().take(i as int), path@, r.method) is None,
            decreases self.routes@.len() - i,
        {
            let route = &self.routes[i];
            let hit = contains_slice(path, route.path.as_str().as_bytes()) && match route.method {
                None => true,
                Some(m) => m == r.method,
            };
            proof {
                assert(self.keys()[i as int] == route_key(*route));
                assert(self.keys().take(i + 1).drop_last() =~= self.keys().take(i as int));
            }
            if hit {
                proof {
                    lemma_first_match_prefix(self.keys(), i + 1, path@, r.method);
                    lemma_first_match_is_first(self.keys(), path@, r.method);
                }
                return Some(i);
            }
            i = i + 1;
        }
        assert(self.keys().take(i as int) =~= self.keys());
        None
    }

    /// Runs the middlewares, last-registered first, and stops at the first
    /// that answers.
    pub fn run_middlewares(&self, r: &Request) -> (res: Option<Response>)
        ensures
            chain_gives(self.guards(), *r, res),
            self.middleware_count() == 0 ==> res is None,
    {
        let mut k = self.middlewares.len();
        while k > 0
            invariant
                0 <= k <= self.middlewares@.len(),
                forall|j: int| k <= j < self.middlewares@.len() ==> #[trigger] self.guards()[j].admits(*r, None),
            decreases k,
        {
            k = k - 1;
            match self.middlewares[k].execute(r) {
                Some(resp) => {
                    assert(self.guards()[k as int].admits(*r, Some(resp)));
                    return Some(resp);
                },
                None => {},
            }
        }
        None
    }

    /// Dispatches a request: with no matching route, the 404 response; else
    /// the middlewares run, last-registered first, and the first that answers
    /// stops the request before it reaches the handler; otherwise the first
    /// matching route's handler answers it.
    pub fn handle(&self, r: Request) -> (resp: Response)
        ensures
            self.dispatches(r, resp),
    {
        let ghost req = r;
        match self.find_route(&r) {
            None => not_found(),
            Some(i) => {
                let verdict = self.run_middlewares(&r);
                let ghost v = verdict;
                let resp = self.finish(i, verdict, r);
                proof {
                    assert(first_match(self.keys(), encode_utf8(req.path@), req.method) == Some(i as int));
                    if v is Some {
                        assert(chain_gives(self.guards(), req, Some(resp)));
                    } else {
                        assert(chain_gives(self.guards(), req, None));
                    }
                }
                resp
            },
        }
    }

    /// Answers a request that matched route `i` once the middlewares have
    /// spoken: a middleware's response stands and the route's handler is not
    /// called; without one, route `i`'s handler answers the request.
    pub fn finish(&self, i: usize, verdict: Option<Response>, r: Request) -> (resp: Response)
        requires
            i < self.keys().len(),
        ensures
            verdict is Some ==> resp == verdict->Some_0,
            verdict is None ==> self.handlers()[i as int].answers(r, resp),
    {
        assert(self.keys().len() == self.routes@.len());
        match verdict {
            Some(resp) => resp,
            None => self.routes[i].handler.handle(r),
        }
    }

    /// Serves one connection's bytes: parses the request, dispatches it and
    /// writes the response. A request that does not parse gets a 400 whose
    /// body names the error; one that no route matches gets the 404.
    pub fn respond(&self, input: &[u8]) -> (out: Vec<u8>)
        ensures
            parse_spec(input@) is Err ==> out@ == response_bytes(
                400,
                invalid_request_text(parse_spec(input@)->Err_0),
            ),
            parse_spec(input@) is Ok && first_match(
                self.keys(),
                encode_utf8(parse_spec(input@)->Ok_0.path),
                parse_spec(input@)->Ok_0.method,
            ) is None ==> out@ == response_bytes(404, encode_utf8(not_found_body())),
            parse_spec(input@) is Ok ==> exists|req: Request, resp: Response|
                request_view(req) == parse_spec(input@)->Ok_0 && #[trigger] self.dispatches(req, resp)
                    && out@ == response_wire(resp),
    {
        match parse_request(input) {
            Err(e) => {
                let mut body: Vec<u8> = Vec::new();
                append_bytes(&mut body, "invalid request: ".as_bytes());
                let m = e.message_bytes();
                append_bytes(&mut body, m.as_slice());
                render(400, body.as_slice())
            },
            Ok(req) => {
                let ghost parsed = req;
                let resp = self.handle(req);
                let out = encode(&resp);
                assert(self.dispatches(parsed, resp));
                out
            },
        }
    }
}

/// The body of the 400 sent for a request that does not parse.
pub open spec fn invalid_request_text(e: Error) -> Seq<u8> {
    "invalid request: ".spec_bytes() + error_text(e)
}

/// The bytes a response goes out as; a response without a body gets an empty one.
pub open spec fn response_wire(resp: Response) -> Seq<u8> {
    response_bytes(
        resp.status,
        match resp.body {
            Some(b) => encode_utf8(b@),
            None => Seq::empty(),
        },
    )
}

/// The bytes of a response on the wire.
pub fn encode(resp: &Response) -> (r: Vec<u8>)
    ensures
        r@ == response_wire(*resp),
{
    match &resp.body {
        Some(b) => render(resp.status, b.as_str().as_bytes()),
        None => {
            let empty: Vec<u8> = Vec::new();
            assert(empty@ =~= Seq::<u8>::empty());
            render(resp.status, empty.as_slice())
        },
    }
}

/// Route order decides between overlapping routes: when two registered routes
/// both match a request, the request goes to the one registered first, or to
/// one registered before it, never to the later one.
pub proof fn lemma_first_registered_wins(
    keys: Seq<(Seq<u8>, Option<Method>)>,
    path: Seq<u8>,
    method: Method,
    i: int,
    j: int,
)
    requires
        0 <= i < j < keys.len(),
        route_matches(keys[i], path, method),
        route_matches(keys[j], path, method),
    ensures
        first_match(keys, path, method) is Some,
        first_match(keys, path, method)->Some_0 <= i,
{
    lemma_first_match_is_first(keys, path, method);
}

/// The index just past the last `/` among the first `n` bytes, or 0.
pub open spec fn tail_start(b: Seq<u8>, n: int) -> int
    decreases n,
{
    if n <= 0 || n > b.len() {
        0
    } else if b[n - 1] == 47 {
        n
    } else {
        tail_start(b, n - 1)
    }
}

/// The last `/`-separated segment of a path (the bytes after its last `/`),
/// when there is one that is not empty; a route parameter such as the section
/// in `/tasks/work` is read this way.
pub fn path_tail(path: &str) -> (r: Option<String>)
    ensures
        ({
            let b = path.spec_bytes();
            let seg = b.subrange(tail_start(b, b.len() as int), b.len() as int);
            &&& (seg.len() == 0 || !valid_utf8(seg)) ==> r is None
            &&& (seg.len() > 0 && valid_utf8(seg)) ==> r is Some && r->Some_0@ == decode_utf8(seg)
        }),
{
    let b = path.as_bytes();
    let mut k = b.len();
    while k > 0 && b[k - 1] != 47
        invariant
            0 <= k <= b@.len(),
            tail_start(b@, b@.len() as int) == tail_start(b@, k as int),
        decreases k,
    {
        k = k - 1;
    }
    if k == b.len() {
        return None;
    }
    let mut seg: Vec<u8> = Vec::new();
    append_bytes(&mut seg, slice_subrange(b, k, b.len()));
    assert(seg@ =~= b@.subrange(k as int, b@.len() as int));
    utf8_string(seg)
}

/// Short-circuiting: when the last-registered middleware requires a header
/// field that a request lacks, a request that reaches a route is answered by
/// that middleware's 400, whatever the route's handler would have answered.
pub proof fn lemma_missing_header_stops<H: Handler>(
    router: Router<H, RequireHeader>,
    r: Request,
    resp: Response,
)
    requires
        router.guards().len() > 0,
        !r.headers@.contains_key(router.guards().last().name@),
        first_match(router.keys(), encode_utf8(r.path@), r.method) is Some,
        router.dispatches(r, resp),
    ensures
        resp.status == 400,
        resp.body is Some && resp.body->Some_0@ == missing_header_body(),
{
    let ms = router.guards();
    let n = ms.len() as int;
    assert(!ms[n - 1].admits(r, None));
    if chain_gives(ms, r, Some(resp)) {
        let k = choose|k: int|
            0 <= k < ms.len() && #[trigger] ms[k].admits(r, Some(resp)) && forall|j: int|
                k < j < ms.len() ==> #[trigger] ms[j].admits(r, None);
        if k < n - 1 {
            assert(ms[n - 1].admits(r, None));
        }
        assert(ms[n - 1].admits(r, Some(resp)));
    } else {
        assert(chain_gives(ms, r, None));
        assert(ms[n - 1].admits(r, None));
    }
}

/// A middleware that answers 400 to every request that lacks a header field.
pub struct RequireHeader {
    pub name: String,
}

/// The body of the 400 sent for a request that lacks a required header field.
pub open spec fn missing_header_body() -> Seq<char> {
    "{\"error\":\"missing required header\"}"@
}

impl RequireHeader {
    /// Lets requests that carry the header through; answers the others with a 400.
    pub fn check(&self, r: &Request) -> (res: Option<Response>)
        ensures
            r.headers@.contains_key(self.name@) ==> res is None,
            !r.headers@.contains_key(self.name@) ==> res is Some && res->Some_0.status == 400
                && res->Some_0.body is Some && res->Some_0.body->Some_0@ == missing_header_body(),
    {
        if r.headers.contains_key(self.name.as_str()) {
            None
        } else {
            Some(Response::new(400, "{\"error\":\"missing required header\"}".to_owned()))
        }
    }
}

impl Middleware for RequireHeader {
    open spec fn admits(&self, r: Request, res: Option<Response>) -> bool {
        if r.headers@.contains_key(self.name@) {
            res is None
        } else {
            res is Some && res->Some_0.status == 400 && res->Some_0.body is Some
                && res->Some_0.body->Some_0@ == missing_header_body()
        }
    }

    fn execute(&self, r: &Request) -> (res: Option<Response>) {
        self.check(r)
    }
}

/// A middleware that answers 400 to a request that carries a body without
/// saying, in `Content-Type`, that the body is `application/json`.
pub struct RequireJsonBody;

/// The body of the 400 sent for a body that is not declared as JSON.
pub open spec fn unsupported_content_type_body() -> Seq<char> {
    "{\"error\":\"unsupported content-type\"}"@
}

/// Whether a request carries a body not declared as JSON.
pub open spec fn undeclared_json(r: Request) -> bool {
    r.raw_body is Some && !(r.headers@.contains_key("Content-Type"@) && r.headers@["Content-Type"@]
        == "application/json"@)
}

impl RequireJsonBody {
    /// Lets requests without a body, or with one declared as JSON, through;
    /// answers the others with a 400.
    pub fn check(&self, r: &Request) -> (res: Option<Response>)
        ensures
            !undeclared_json(*r) ==> res is None,
            undeclared_json(*r) ==> res is Some && res->Some_0.status == 400 && res->Some_0.body is Some
                && res->Some_0.body->Some_0@ == unsupported_content_type_body(),
    {
        if r.raw_body.is_none() {
            return None;
        }
        let json = match r.headers.get("Content-Type") {
            Some(v) => *v == "application/json".to_owned(),
            None => false,
        };
        if json {
            None
        } else {
            Some(Response::new(400, "{\"error\":\"unsupported content-type\"}".to_owned()))
        }
    }
}

impl Middleware for RequireJsonBody {
    open spec fn admits(&self, r: Request, res: Option<Response>) -> bool {
        if undeclared_json(r) {
            res is Some && res->Some_0.status == 400 && res->Some_0.body is Some
                && res->Some_0.body->Some_0@ == unsupported_content_type_body()
        } else {
            res is None
        }
    }

    fn execute(&self, r: &Request) -> (res: Option<Response>) {
        self.check(r)
    }
}

} // verus!
