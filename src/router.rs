use crate::error::{error_text, Error};
use crate::header::HTTPHeader;
use crate::method::HTTPMethod;
use crate::payload::{gzip_of, HTTPPayload};
use crate::request::{first_named, HTTPRequest};
use crate::response::{declares_gzip, framed, head_text, header_views, wire_body, HTTPResponse};
use crate::status::{HTTPStatus, HTTPStatusCode};
use crate::text::{split_chars, split_on, str_eq, views};
use vstd::prelude::*;
use vstd::string::*;
use vstd::utf8::encode_utf8;

verus! {

/// Request handling logic attached to a route. It receives the extracted path
/// parameters, the request, and the router's directory root.
pub trait HTTPHandler {
    /// Whether `out` is what this handler gives for these parameters, request and
    /// directory root. A handler that states nothing here promises nothing.
    open spec fn handled(
        &self,
        params: Seq<(Seq<char>, Seq<char>)>,
        request: HTTPRequest,
        directory: Option<String>,
        out: Result<HTTPResponse, Error>,
    ) -> bool {
        true
    }

    fn handle(
        &self,
        params: &Vec<(String, String)>,
        request: &HTTPRequest,
        directory: &Option<String>,
    ) -> (r: Result<HTTPResponse, Error>)
        ensures
            self.handled(pair_views(params@), *request, *directory, r),
    ;
}

/// A registered route: method, path pattern, parameter bindings and handler.
pub struct Route<H> {
    pub path: String,
    pub handler: H,
    pub params: Vec<(String, usize)>,
    pub method: HTTPMethod,
}

/// The router: an ordered route table and the directory root handed to handlers.
pub struct HTTPRouter<H> {
    pub routes: Vec<Route<H>>,
    pub directory: Option<String>,
}

/// The name that the first match of `\{(\w+)\}` in a pattern segment captures, if any.
pub uninterp spec fn braced_name_of(segment: Seq<char>) -> Option<Seq<char>>;

/// Relies on regex's `Regex::captures` with the pattern `\{(\w+)\}`: the first match
/// in the segment and the text of its first capture group, which the segment alone
/// determines. The pattern is a valid literal, so compiling it does not fail.
#[verifier::external_body]
fn braced_name(segment: &str) -> (r: Option<String>)
    ensures
        r is None <==> braced_name_of(segment@) is None,
        r matches Some(n) ==> braced_name_of(segment@) == Some(n@),
{
    let re = regex::Regex::new(r"\{(\w+)\}").unwrap();
    re.captures(segment).and_then(|c| c.get(1)).map(|m| m.as_str().to_string())
}

/// The parameter bindings of a pattern's segments: each segment that holds a braced
/// name binds that name to the segment's zero-based index, in segment order.
pub open spec fn bindings(segs: Seq<Seq<char>>) -> Seq<(Seq<char>, int)>
    decreases segs.len(),
{
    if segs.len() == 0 {
        Seq::empty()
    } else {
        let rest = bindings(segs.drop_last());
        match braced_name_of(segs.last()) {
            Some(n) => rest.push((n, segs.len() - 1)),
            None => rest,
        }
    }
}

/// The views of a route's parameter bindings.
pub open spec fn binding_views(ps: Seq<(String, usize)>) -> Seq<(Seq<char>, int)> {
    ps.map_values(|p: (String, usize)| (p.0@, p.1 as int))
}

/// The views of name/value pairs.
pub open spec fn pair_views(ps: Seq<(String, String)>) -> Seq<(Seq<char>, Seq<char>)> {
    ps.map_values(|p: (String, String)| (p.0@, p.1@))
}

/// The parameter values that bindings pick out of a request path's segments.
pub open spec fn extracted(bs: Seq<(Seq<char>, int)>, segs: Seq<Seq<char>>) -> Seq<
    (Seq<char>, Seq<char>),
> {
    bs.map_values(|b: (Seq<char>, int)| (b.0, segs[b.1]))
}

/// Whether some binding is for segment `i`; such a parameter segment matches any
/// single request segment.
pub open spec fn is_bound(bs: Seq<(Seq<char>, int)>, i: int) -> bool {
    exists|j: int| 0 <= j < bs.len() && bs[j].1 == i
}

/// Whether a route with this method, pattern and bindings matches a request: the
/// methods are equal, and the pattern equals the path verbatim or has as many segments,
/// each a parameter segment or equal to the request's segment at the same position.
pub open spec fn route_matches(
    route_method: HTTPMethod,
    pattern: Seq<char>,
    bs: Seq<(Seq<char>, int)>,
    method: HTTPMethod,
    path: Seq<char>,
) -> bool {
    route_method == method && (pattern == path || {
        let ps = split_on(pattern, '/');
        let rs = split_on(path, '/');
        ps.len() == rs.len() && forall|i: int|
            0 <= i < ps.len() ==> is_bound(bs, i) || #[trigger] ps[i] == rs[i]
    })
}

/// A route table entry as matching sees it: method, pattern and bindings.
pub type RouteEntry = (HTTPMethod, Seq<char>, Seq<(Seq<char>, int)>);

/// The method and pattern of each route, in table order.
pub open spec fn table<H>(routes: Seq<Route<H>>) -> Seq<RouteEntry> {
    routes.map_values(|r: Route<H>| (r.method, r.path@, binding_views(r.params@)))
}

/// Route `k` is the one selected for the request: it matches, and none before it does.
pub open spec fn selects(
    t: Seq<RouteEntry>,
    method: HTTPMethod,
    path: Seq<char>,
    k: int,
) -> bool {
    &&& 0 <= k < t.len()
    &&& route_matches(t[k].0, t[k].1, t[k].2, method, path)
    &&& forall|j: int| 0 <= j < k ==> !route_matches(t[j].0, t[j].1, t[j].2, method, path)
}

/// No route of the table matches the request.
pub open spec fn matches_none(
    t: Seq<RouteEntry>,
    method: HTTPMethod,
    path: Seq<char>,
) -> bool {
    forall|j: int| 0 <= j < t.len() ==> !route_matches(t[j].0, t[j].1, t[j].2, method, path)
}

/// Routing is deterministic: for a fixed table and a fixed method and path, at most
/// one route is selected.
pub proof fn lemma_routing_deterministic(
    t: Seq<RouteEntry>,
    method: HTTPMethod,
    path: Seq<char>,
    a: int,
    b: int,
)
    requires
        selects(t, method, path, a),
        selects(t, method, path, b),
    ensures
        a == b,
{
}

/// Whether the request's first `Accept-Encoding` header has the value `gzip`.
pub open spec fn accepts_gzip(req: HTTPRequest) -> bool {
    let hs = header_views(req.headers@);
    let k = first_named(hs, "Accept-Encoding"@, 0);
    k != -1 && hs[k].1 == "gzip"@
}

/// The plain 404 response for a request that no route matches.
pub open spec fn is_not_found(r: HTTPResponse) -> bool {
    &&& r.status.status_code == HTTPStatusCode::NotFound
    &&& r.status.version@ == "1.1"@
    &&& r.headers@.len() == 0
    &&& r.payload is None
}

/// `r` is what the router sends for `req` after its handler gave `outcome`: a handler
/// error becomes a 500 response carrying the error's description; a response is kept,
/// gaining `Content-Encoding: gzip` when the request accepts gzip and it lacks one.
pub open spec fn finished(req: HTTPRequest, outcome: Result<HTTPResponse, Error>, r: HTTPResponse) -> bool {
    match outcome {
        Err(e) => {
            &&& r.status.status_code == HTTPStatusCode::InternalServerError
            &&& r.status.version@ == "1.1"@
            &&& r.headers@.len() == 0
            &&& r.payload is Some && r.payload->Some_0@ == error_text(e)
        },
        Ok(resp) => {
            &&& r.status == resp.status
            &&& r.payload == resp.payload
            &&& header_views(r.headers@) == if accepts_gzip(req) && !declares_gzip(
                header_views(resp.headers@),
            ) {
                header_views(resp.headers@).push(("Content-Encoding"@, "gzip"@))
            } else {
                header_views(resp.headers@)
            }
        },
    }
}

/// When the request accepts gzip and the handler answers with a body, the response
/// declares `Content-Encoding: gzip`, its wire body is the gzip stream of the payload's
/// bytes, and its `Content-Length` is the length of that compressed stream.
pub proof fn lemma_gzip_negotiated(req: HTTPRequest, resp: HTTPResponse, r: HTTPResponse)
    requires
        accepts_gzip(req),
        finished(req, Ok(resp), r),
        resp.payload is Some,
    ensures
        declares_gzip(header_views(r.headers@)),
        wire_body(r) == gzip_of(encode_utf8(resp.payload->Some_0@)),
        framed(r, wire_body(r)) == encode_utf8(
            head_text(r, gzip_of(encode_utf8(resp.payload->Some_0@)).len()),
        ) + gzip_of(encode_utf8(resp.payload->Some_0@)),
{
    let hv = header_views(r.headers@);
    if !declares_gzip(header_views(resp.headers@)) {
        assert(hv[hv.len() - 1] == ("Content-Encoding"@, "gzip"@));
    }
}

impl<H> Route<H> {
    /// Every binding points at a segment of the pattern.
    pub open spec fn wf(&self) -> bool {
        forall|i: int|
            0 <= i < self.params@.len() ==> (#[trigger] self.params@[i]).1 < split_on(
                self.path@,
                '/',
            ).len()
    }

    /// The values of the route's parameters in a request path with as many segments as
    /// the pattern, in binding order.
    pub fn parse_params(&self, request_path: &str) -> (r: Vec<(String, String)>)
        requires
            forall|i: int|
                0 <= i < self.params@.len() ==> (#[trigger] self.params@[i]).1 < split_on(
                    request_path@,
                    '/',
                ).len(),
        ensures
            pair_views(r@) == extracted(binding_views(self.params@), split_on(request_path@, '/')),
    {
        let parts = split_chars(request_path, '/');
        let ghost segs = split_on(request_path@, '/');
        let mut out: Vec<(String, String)> = Vec::new();
        let mut i: usize = 0;
        while i < self.params.len()
            invariant
                forall|j: int|
                    0 <= j < self.params@.len() ==> (#[trigger] self.params@[j]).1 < segs.len(),
                views(parts@) == segs,
                segs == split_on(request_path@, '/'),
                i <= self.params@.len(),
                pair_views(out@) == extracted(
                    binding_views(self.params@.subrange(0, i as int)),
                    segs,
                ),
            decreases self.params@.len() - i,
        {
            let name = self.params[i].0.clone();
            let idx = self.params[i].1;
            assert(idx < segs.len()) by {
                assert(self.params@[i as int].1 < segs.len());
            }
            let value = parts[idx].clone();
            let ghost prev = out@;
            out.push((name, value));
            proof {
                assert(views(parts@)[idx as int] == parts@[idx as int]@);
                assert(pair_views(out@) =~= pair_views(prev).push((name@, value@)));
                assert(binding_views(self.params@.subrange(0, i as int + 1)) =~= binding_views(
                    self.params@.subrange(0, i as int),
                ).push((self.params@[i as int].0@, idx as int)));
                assert(extracted(binding_views(self.params@.subrange(0, i as int + 1)), segs)
                    =~= extracted(binding_views(self.params@.subrange(0, i as int)), segs).push(
                    (name@, value@),
                ));
            }
            i = i + 1;
        }
        assert(self.params@.subrange(0, i as int) =~= self.params@);
        out
    }
}

/// The value bound to `name` by the last binding of that name at or before `i`.
pub open spec fn last_bound(ps: Seq<(Seq<char>, Seq<char>)>, name: Seq<char>, i: int) -> Option<
    Seq<char>,
>
    decreases i + 1,
{
    if i < 0 || i >= ps.len() {
        None
    } else if ps[i].0 == name {
        Some(ps[i].1)
    } else {
        last_bound(ps, name, i - 1)
    }
}

/// The value of the parameter `name`; where a name is bound twice the later segment wins.
pub fn param(params: &Vec<(String, String)>, name: &str) -> (r: Option<String>)
    ensures
        match last_bound(pair_views(params@), name@, params@.len() - 1) {
            None => r is None,
            Some(v) => r is Some && r->Some_0@ == v,
        },
{
    let mut i: usize = params.len();
    while i > 0
        invariant
            i <= params@.len(),
            last_bound(pair_views(params@), name@, params@.len() - 1) == last_bound(
                pair_views(params@),
                name@,
                i - 1,
            ),
        decreases i,
    {
        if str_eq(params[i - 1].0.as_str(), name) {
            return Some(params[i - 1].1.clone());
        }
        i = i - 1;
    }
    None
}

/// Whether some binding is for segment `i`.
fn is_bound_index(params: &Vec<(String, usize)>, i: usize) -> (r: bool)
    ensures
        r == is_bound(binding_views(params@), i as int),
{
    let ghost bs = binding_views(params@);
    let mut j: usize = 0;
    while j < params.len()
        invariant
            bs == binding_views(params@),
            j <= params@.len(),
            forall|l: int| 0 <= l < j ==> bs[l].1 != i,
        decreases params@.len() - j,
    {
        if params[j].1 == i {
            assert(bs[j as int].1 == i);
            return true;
        }
        j = j + 1;
    }
    false
}

/// Whether the route matches the request.
fn matches_request<H>(route: &Route<H>, request: &HTTPRequest) -> (r: bool)
    ensures
        r == route_matches(
            route.method,
            route.path@,
            binding_views(route.params@),
            request.method,
            request.path@,
        ),
{
    if route.method != request.method {
        return false;
    }
    let pattern = route.path.as_str();
    if str_eq(pattern, request.path.as_str()) {
        return true;
    }
    let ps = split_chars(pattern, '/');
    let rs = request.get_path_parts();
    if ps.len() != rs.len() {
        return false;
    }
    let ghost pv = split_on(pattern@, '/');
    let ghost rv = split_on(request.path@, '/');
    let ghost bs = binding_views(route.params@);
    let mut i: usize = 0;
    while i < ps.len()
        invariant
            views(ps@) == pv,
            views(rs@) == rv,
            pv == split_on(route.path@, '/'),
            rv == split_on(request.path@, '/'),
            bs == binding_views(route.params@),
            route.method == request.method,
            route.path@ != request.path@,
            ps@.len() == rs@.len(),
            i <= ps@.len(),
            forall|j: int| 0 <= j < i ==> is_bound(bs, j) || #[trigger] pv[j] == rv[j],
        decreases ps@.len() - i,
    {
        assert(pv[i as int] == ps@[i as int]@);
        assert(rv[i as int] == rs@[i as int]@);
        if !is_bound_index(&route.params, i) && !str_eq(ps[i].as_str(), rs[i].as_str()) {
            assert(!(is_bound(bs, i as int) || pv[i as int] == rv[i as int]));
            return false;
        }
        i = i + 1;
    }
    true
}

/// The plain 404 response.
pub fn not_found() -> (r: HTTPResponse)
    ensures
        is_not_found(r),
{
    HTTPResponse::new(
        HTTPStatus::new(HTTPStatusCode::NotFound, String::from_str("1.1")),
        Vec::new(),
        None,
    )
}

/// Turns what a handler gave into the response sent for `request`: an error becomes a
/// 500 response carrying its description; a response gains `Content-Encoding: gzip`
/// when the request accepts gzip and the response does not already declare it.
pub fn finish_response(request: &HTTPRequest, outcome: Result<HTTPResponse, Error>) -> (r:
    HTTPResponse)
    ensures
        finished(*request, outcome, r),
{
    match outcome {
        Ok(response) => {
            let mut response = response;
            let ghost hs = header_views(request.headers@);
            let ghost k = first_named(hs, "Accept-Encoding"@, 0);
            let gzip = match request.get_header("Accept-Encoding") {
                Some(h) => {
                    proof {
                        crate::request::lemma_first_named(hs, "Accept-Encoding"@, 0);
                    }
                    assert(hs[k] == request.headers@[k]@);
                    str_eq(h.value.as_str(), "gzip")
                },
                None => false,
            };
            assert(gzip == accepts_gzip(*request));
            if gzip && !response.wants_gzip() {
                let ghost prev = response.headers@;
                response.headers.push(
                    HTTPHeader::new(String::from_str("Content-Encoding"), String::from_str("gzip")),
                );
                assert(header_views(response.headers@) =~= header_views(prev).push(
                    ("Content-Encoding"@, "gzip"@),
                ));
            }
            response
        },
        Err(e) => HTTPResponse::new(
            HTTPStatus::new(HTTPStatusCode::InternalServerError, String::from_str("1.1")),
            Vec::new(),
            Some(HTTPPayload::new(e.message())),
        ),
    }
}

impl<H: HTTPHandler> HTTPRouter<H> {
    /// Every route's bindings point into its pattern.
    pub open spec fn wf(&self) -> bool {
        forall|k: int| 0 <= k < self.routes@.len() ==> (#[trigger] self.routes@[k]).wf()
    }

    /// An empty route table with the given directory root.
    pub fn new(directory: Option<String>) -> (r: Self)
        ensures
            r.wf(),
            r.routes@.len() == 0,
            r.directory == directory,
    {
        Self { routes: Vec::new(), directory }
    }

    /// Appends a route. Each pattern segment holding a braced name binds that name to
    /// the segment's index.
    pub fn add_route(&mut self, method: HTTPMethod, path: &str, handler: H)
        requires
            old(self).wf(),
        ensures
            final(self).wf(),
            final(self).directory == old(self).directory,
            final(self).routes@.len() == old(self).routes@.len() + 1,
            forall|k: int|
                0 <= k < old(self).routes@.len() ==> final(self).routes@[k] == old(self).routes@[k],
            ({
                let r = final(self).routes@.last();
                &&& r.method == method
                &&& r.path@ == path@
                &&& r.handler == handler
                &&& binding_views(r.params@) == bindings(split_on(path@, '/'))
            }),
    {
        let parts = split_chars(path, '/');
        let ghost segs = split_on(path@, '/');
        let mut params: Vec<(String, usize)> = Vec::new();
        let mut i: usize = 0;
        assert(segs.subrange(0, 0) =~= Seq::<Seq<char>>::empty());
        assert(binding_views(params@) =~= Seq::<(Seq<char>, int)>::empty());
        while i < parts.len()
            invariant
                views(parts@) == segs,
                i <= parts@.len(),
                binding_views(params@) == bindings(segs.subrange(0, i as int)),
                forall|j: int| 0 <= j < params@.len() ==> (#[trigger] params@[j]).1 < i,
            decreases parts@.len() - i,
        {
            assert(segs[i as int] == parts@[i as int]@);
            assert(segs.subrange(0, i as int + 1).drop_last() =~= segs.subrange(0, i as int));
            match braced_name(parts[i].as_str()) {
                Some(n) => {
                    let ghost prev = params@;
                    params.push((n, i));
                    assert(binding_views(params@) =~= binding_views(prev).push((n@, i as int)));
                },
                None => {},
            }
            i = i + 1;
        }
        assert(segs.subrange(0, i as int) =~= segs);
        let route = Route { path: path.to_owned(), handler, params, method };
        self.routes.push(route);
        assert forall|k: int| 0 <= k < self.routes@.len() implies (#[trigger] self.routes@[k]).wf() by {
            if k < self.routes@.len() - 1 {
                assert(self.routes@[k] == old(self).routes@[k]);
            }
        }
    }

    /// The index of the first route that matches the request, if any.
    pub fn find_route(&self, request: &HTTPRequest) -> (r: Option<usize>)
        ensures
            match r {
                Some(k) => selects(table(self.routes@), request.method, request.path@, k as int),
                None => matches_none(table(self.routes@), request.method, request.path@),
            },
    {
        let ghost t = table(self.routes@);
        let mut k: usize = 0;
        while k < self.routes.len()
            invariant
                t == table(self.routes@),
                k <= self.routes@.len(),
                forall|j: int| 0 <= j < k ==> !route_matches(t[j].0, t[j].1, t[j].2, request.method, request.path@),
            decreases self.routes@.len() - k,
        {
            let route = &self.routes[k];
            if matches_request(route, request) {
                return Some(k);
            }
            k = k + 1;
        }
        None
    }

    /// Answers a request: the first matching route's handler runs with the extracted
    /// parameters, the request and the directory root, and its outcome is finished into
    /// a response; with no matching route the answer is a plain 404. This never fails.
    pub fn handle_request(&self, request: &HTTPRequest) -> (r: HTTPResponse)
        requires
            self.wf(),
        ensures
            matches_none(table(self.routes@), request.method, request.path@) ==> is_not_found(r),
            !matches_none(table(self.routes@), request.method, request.path@) ==> exists|
                k: int,
                o: Result<HTTPResponse, Error>,
            | #[trigger] dispatched(*self, *request, k, o, r),
    {
        match self.find_route(request) {
            None => not_found(),
            Some(k) => {
                let route = &self.routes[k];
                assert(route.wf());
                assert(table(self.routes@)[k as int] == (
                    route.method,
                    route.path@,
                    binding_views(route.params@),
                ));
                let params = route.parse_params(request.path.as_str());
                let outcome = route.handler.handle(&params, request, &self.directory);
                let r = finish_response(request, outcome);
                assert(dispatched(*self, *request, k as int, outcome, r));
                r
            },
        }
    }
}

/// Route `k` is the one selected for `request`, its handler gave `o` for the parameters
/// extracted from the path, the request and the directory root, and `r` is `o` finished.
pub open spec fn dispatched<H: HTTPHandler>(
    router: HTTPRouter<H>,
    request: HTTPRequest,
    k: int,
    o: Result<HTTPResponse, Error>,
    r: HTTPResponse,
) -> bool {
    let route = router.routes@[k];
    &&& selects(table(router.routes@), request.method, request.path@, k)
    &&& route.handler.handled(
        extracted(binding_views(route.params@), split_on(request.path@, '/')),
        request,
        router.directory,
        o,
    )
    &&& finished(request, o, r)
}

} // verus!
