use vstd::prelude::*;
use crate::config::{is_first_match, no_match, unique_names, Config, Route};

verus! {

/// One header line, name and raw value bytes; a header set is a `Vec` of
/// these, so repeated names keep their multiplicity and order.
pub struct Header {
    pub name: String,
    pub value: Vec<u8>,
}

impl View for Header {
    type V = (Seq<char>, Seq<u8>);

    open spec fn view(&self) -> (Seq<char>, Seq<u8>) {
        (self.name@, self.value@)
    }
}

/// The header set as plain values.
pub open spec fn headers_view(h: Seq<Header>) -> Seq<(Seq<char>, Seq<u8>)> {
    h.map_values(|x: Header| x@)
}

/// A copy of one header.
pub fn copy_header(h: &Header) -> (r: Header)
    ensures
        r@ == h@,
{
    let mut value: Vec<u8> = Vec::new();
    let mut i: usize = 0;
    while i < h.value.len()
        invariant
            i <= h.value@.len(),
            value@ == h.value@.subrange(0, i as int),
        decreases h.value@.len() - i,
    {
        value.push(h.value[i]);
        i = i + 1;
    }
    assert(value@ == h.value@);
    Header { name: h.name.clone(), value }
}

/// A copy of a whole header set: same headers, same order, duplicates kept.
pub fn copy_headers(headers: &Vec<Header>) -> (r: Vec<Header>)
    ensures
        headers_view(r@) == headers_view(headers@),
{
    let mut out: Vec<Header> = Vec::new();
    let mut i: usize = 0;
    while i < headers.len()
        invariant
            i <= headers@.len(),
            out@.len() == i,
            forall|j: int| 0 <= j < i ==> #[trigger] out@[j]@ == headers@[j]@,
        decreases headers@.len() - i,
    {
        let h = copy_header(&headers[i]);
        out.push(h);
        i = i + 1;
    }
    assert(headers_view(out@) =~= headers_view(headers@));
    out
}

/// The three outcomes for which the proxy answers by itself.
#[derive(PartialEq, Eq, Structural, Clone, Copy, Debug)]
pub enum Fallback {
    HostMissing,
    DomainNotConfigured,
    FailedToProxy,
}

/// The status code of a synthetic response.
pub open spec fn fallback_status(f: Fallback) -> u16 {
    match f {
        Fallback::HostMissing => 404,
        Fallback::DomainNotConfigured => 404,
        Fallback::FailedToProxy => 500,
    }
}

/// The body text of a synthetic response.
pub open spec fn fallback_body(f: Fallback) -> Seq<char> {
    match f {
        Fallback::HostMissing => "Host header missing"@,
        Fallback::DomainNotConfigured => "Domain not configured"@,
        Fallback::FailedToProxy => "Failed to proxy request"@,
    }
}

impl Fallback {
    pub fn status(&self) -> (r: u16)
        ensures
            r == fallback_status(*self),
    {
        match self {
            Fallback::HostMissing => 404,
            Fallback::DomainNotConfigured => 404,
            Fallback::FailedToProxy => 500,
        }
    }

    pub fn body(&self) -> (r: String)
        ensures
            r@ == fallback_body(*self),
    {
        match self {
            Fallback::HostMissing => String::from_str("Host header missing"),
            Fallback::DomainNotConfigured => String::from_str("Domain not configured"),
            Fallback::FailedToProxy => String::from_str("Failed to proxy request"),
        }
    }
}

/// Where a response's body comes from: the upstream's own body, streamed
/// through untouched, or a text of the proxy's own.
pub enum Body {
    Upstream,
    Text(String),
}

/// The head of the response sent back to the client, and its body source.
pub struct Response {
    pub status: u16,
    pub headers: Vec<Header>,
    pub body: Body,
}

/// `resp` is the synthetic response for `f`: its status and text, no headers.
pub open spec fn is_fallback_response(resp: Response, f: Fallback) -> bool {
    &&& resp.status == fallback_status(f)
    &&& resp.headers@.len() == 0
    &&& resp.body matches Body::Text(t) && t@ == fallback_body(f)
}

/// The synthetic response for `f`.
pub fn fallback_response(f: Fallback) -> (r: Response)
    ensures
        is_fallback_response(r, f),
{
    Response { status: f.status(), headers: Vec::new(), body: Body::Text(f.body()) }
}

/// What the resolver found for a request.
pub enum Resolution<'a> {
    NoHostHeader,
    NoMatch(String),
    Matched(&'a Route),
}

/// A resolution as plain values: the unmatched host, or the matched route's
/// match name and upstream address.
pub enum Resolved {
    NoHostHeader,
    NoMatch(Seq<char>),
    Matched(Seq<char>, Seq<char>),
}

impl<'a> View for Resolution<'a> {
    type V = Resolved;

    open spec fn view(&self) -> Resolved {
        match self {
            Resolution::NoHostHeader => Resolved::NoHostHeader,
            Resolution::NoMatch(h) => Resolved::NoMatch(h@),
            Resolution::Matched(r) => Resolved::Matched(r.route@, r.forward@),
        }
    }
}

/// An optional text as plain characters.
pub open spec fn str_view(s: Option<&str>) -> Option<Seq<char>> {
    match s {
        Some(t) => Some(t@),
        None => None,
    }
}

/// `r` is what resolving `host` against `routes` gives: no host, the first
/// entry whose match name equals it, or the unmatched host itself.
pub open spec fn resolves(routes: Seq<Route>, host: Option<Seq<char>>, r: Resolution) -> bool {
    match host {
        None => r is NoHostHeader,
        Some(h) => match r {
            Resolution::NoHostHeader => false,
            Resolution::NoMatch(s) => s@ == h && no_match(routes, h),
            Resolution::Matched(route) => exists|i: int|
                is_first_match(routes, h, i) && *route == routes[i],
        },
    }
}

impl Config {
    /// Resolves a request's Host header value (`None` when the header is
    /// absent or not text) against the route table.
    pub fn resolve(&self, host: Option<&str>) -> (r: Resolution<'_>)
        ensures
            resolves(self.routes@, str_view(host), r),
    {
        match host {
            None => Resolution::NoHostHeader,
            Some(h) => match self.find_route(h) {
                Some(route) => Resolution::Matched(route),
                None => Resolution::NoMatch(String::from_str(h)),
            },
        }
    }
}

/// With unique match names, a Host value resolves to a match exactly when
/// some entry carries that name, and then to that entry; otherwise to no match.
pub proof fn lemma_resolve_unique_names(routes: Seq<Route>, h: Seq<char>, r: Resolution)
    requires
        unique_names(routes),
        resolves(routes, Some(h), r),
    ensures
        r is Matched <==> exists|i: int| 0 <= i < routes.len() && routes[i].route@ == h,
        forall|i: int|
            0 <= i < routes.len() && routes[i].route@ == h ==> (r matches Resolution::Matched(
                route,
            ) && *route == routes[i]),
        !(r is Matched) ==> r is NoMatch,
{
    if let Resolution::Matched(route) = r {
        let k = choose|k: int| is_first_match(routes, h, k) && *route == routes[k];
        assert forall|i: int| 0 <= i < routes.len() && routes[i].route@ == h implies i == k by {
            if i != k {
                assert(routes[i].route@ != routes[k].route@);
            }
        }
    }
}

/// Resolution is repeatable: for one table and one Host value, any two
/// results that meet the resolver's contract are the same outcome.
pub proof fn lemma_resolve_repeatable(
    routes: Seq<Route>,
    host: Option<Seq<char>>,
    r1: Resolution,
    r2: Resolution,
)
    requires
        resolves(routes, host, r1),
        resolves(routes, host, r2),
    ensures
        r1@ == r2@,
{
    if let (Resolution::Matched(a), Resolution::Matched(b)) = (r1, r2) {
        let h = host->Some_0;
        let i = choose|i: int| is_first_match(routes, h, i) && *a == routes[i];
        let j = choose|j: int| is_first_match(routes, h, j) && *b == routes[j];
        if i < j {
            assert(routes[i].route@ != h);
        } else if j < i {
            assert(routes[j].route@ != h);
        }
    }
}

/// The path and query of a request, `/` when it has none.
pub open spec fn path_or_root(path_and_query: Option<Seq<char>>) -> Seq<char> {
    match path_and_query {
        Some(p) => p,
        None => "/"@,
    }
}

/// The outbound URI: the upstream base address followed by the request's
/// path and query.
pub fn target_uri(forward: &str, path_and_query: Option<&str>) -> (r: String)
    ensures
        r@ == forward@ + path_or_root(str_view(path_and_query)),
{
    let mut uri = String::from_str(forward);
    match path_and_query {
        Some(p) => uri.append(p),
        None => uri.append("/"),
    }
    uri
}

/// The request to send upstream: the matched route, the target URI and the
/// header set to send; method and body are those of the inbound request.
pub struct Outbound<'a> {
    pub route: &'a Route,
    pub uri: String,
    pub headers: Vec<Header>,
}

/// The dispatcher's first decision for a request: answer at once, with the
/// reason, or forward.
pub enum Step<'a> {
    Reply(Fallback, Response),
    Forward(Outbound<'a>),
}

/// What came back from the upstream: a response head, or a transport failure.
pub enum Upstream {
    Responded { status: u16, headers: Vec<Header> },
    Unreachable,
}

impl Config {
    /// Decides what to do with a request, given its Host value (`None` when
    /// absent or not text), its path and query, and its headers: answer 404
    /// when there is no Host or no route for it, else forward to the first
    /// matching route's upstream with the headers copied verbatim.
    pub fn handle_request(
        &self,
        host: Option<&str>,
        path_and_query: Option<&str>,
        headers: &Vec<Header>,
    ) -> (r: Step<'_>)
        ensures
            match str_view(host) {
                None => r matches Step::Reply(f, resp) && f == Fallback::HostMissing
                    && is_fallback_response(resp, f),
                Some(h) => {
                    &&& no_match(self.routes@, h) ==> (r matches Step::Reply(f, resp) && f
                        == Fallback::DomainNotConfigured && is_fallback_response(resp, f))
                    &&& forall|i: int|
                        is_first_match(self.routes@, h, i) ==> (r matches Step::Forward(o) && {
                            &&& *o.route == self.routes@[i]
                            &&& o.uri@ == self.routes@[i].forward@ + path_or_root(
                                str_view(path_and_query),
                            )
                            &&& headers_view(o.headers@) == headers_view(headers@)
                        })
                },
            },
    {
        let res = self.resolve(host);
        match res {
            Resolution::NoHostHeader => Step::Reply(
                Fallback::HostMissing,
                fallback_response(Fallback::HostMissing),
            ),
            Resolution::NoMatch(_) => Step::Reply(
                Fallback::DomainNotConfigured,
                fallback_response(Fallback::DomainNotConfigured),
            ),
            Resolution::Matched(route) => {
                proof {
                    let h = str_view(host)->Some_0;
                    let k = choose|k: int| is_first_match(self.routes@, h, k) && *route == self.routes@[k];
                    assert forall|i: int| is_first_match(self.routes@, h, i) implies i == k by {
                        if i < k {
                            assert(self.routes@[i].route@ != h);
                        } else if k < i {
                            assert(self.routes@[k].route@ != h);
                        }
                    }
                }
                let uri = target_uri(route.forward.as_str(), path_and_query);
                Step::Forward(Outbound { route, uri, headers: copy_headers(headers) })
            },
        }
    }

    /// Whether an outcome is to be logged as a warning: an unknown domain and
    /// an unreachable upstream each unless switched off, a missing Host never.
    pub fn warns_on(&self, f: Fallback) -> (r: bool)
        ensures
            r == match f {
                Fallback::HostMissing => false,
                Fallback::DomainNotConfigured => !self.disable_domain_not_configured_warns,
                Fallback::FailedToProxy => !self.disable_failed_to_reach_warns,
            },
    {
        match f {
            Fallback::HostMissing => false,
            Fallback::DomainNotConfigured => !self.disable_domain_not_configured_warns,
            Fallback::FailedToProxy => !self.disable_failed_to_reach_warns,
        }
    }
}

/// The response to send back once the upstream has answered or failed: its
/// status and headers with its body streamed through, or 500.
pub fn relay_response(upstream: &Upstream) -> (r: Response)
    ensures
        match upstream {
            Upstream::Responded { status, headers } => {
                &&& r.status == *status
                &&& headers_view(r.headers@) == headers_view(headers@)
                &&& r.body is Upstream
            },
            Upstream::Unreachable => is_fallback_response(r, Fallback::FailedToProxy),
        },
{
    match upstream {
        Upstream::Responded { status, headers } => Response {
            status: *status,
            headers: copy_headers(headers),
            body: Body::Upstream,
        },
        Upstream::Unreachable => fallback_response(Fallback::FailedToProxy),
    }
}

} // verus!
