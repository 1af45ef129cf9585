//! Redirect resolution: the states of a fetch, and the step that a response
//! takes it through. A fetch makes five attempts at most, the first one
//! included.

use crate::error::FetchError;
use crate::headers::{field_value, Fields};
use crate::request::{
    redirected, response_of, HTTPRequest, HTTPResponse, Request, RequestView, ResponseView,
};
use crate::uri::{Scheme, URI};
use vstd::prelude::*;
use vstd::string::*;

verus! {

/// The number of attempts that a fetch may make.
pub const MAX_ATTEMPTS: u32 = 5;

/// The state of a fetch.
#[derive(Debug)]
pub enum Resolution {
    /// `request` is to be sent; it is attempt number `attempt`.
    Fetching { request: HTTPRequest, attempt: u32 },
    /// The fetch ended with this response.
    Terminal(HTTPResponse),
    /// The fetch failed.
    Failed(FetchError),
}

/// The state of a fetch, as mathematical values.
pub enum ResolutionView {
    Fetching { request: RequestView, attempt: nat },
    Terminal(ResponseView),
    Failed(FetchError),
}

impl View for Resolution {
    type V = ResolutionView;

    open spec fn view(&self) -> ResolutionView {
        match self {
            Resolution::Fetching { request, attempt } => ResolutionView::Fetching {
                request: request@,
                attempt: *attempt as nat,
            },
            Resolution::Terminal(response) => ResolutionView::Terminal(response@),
            Resolution::Failed(e) => ResolutionView::Failed(*e),
        }
    }
}

/// The state in which the fetch of `request` begins.
pub open spec fn begin(request: RequestView) -> ResolutionView {
    ResolutionView::Fetching { request, attempt: 1 }
}

/// The state after `response` came in. A response that is no redirect ends
/// the fetch. A redirect without a usable location fails it; so does a
/// redirect that answers the last attempt. Any other redirect leads to the
/// next attempt, with the request that the redirect gives. A fetch that has
/// ended or failed stays as it is.
pub open spec fn step(state: ResolutionView, response: ResponseView) -> ResolutionView {
    match state {
        ResolutionView::Fetching { request, attempt } => if !response.is_redirect() {
            ResolutionView::Terminal(response)
        } else {
            match redirected(request, response.headers) {
                Err(e) => ResolutionView::Failed(e),
                Ok(next) => if attempt >= MAX_ATTEMPTS {
                    ResolutionView::Failed(FetchError::TooManyRedirects)
                } else {
                    ResolutionView::Fetching { request: next, attempt: attempt + 1 }
                },
            }
        },
        other => other,
    }
}

/// The state after the bytes `data` came in as the answer to the request:
/// the state after the response that the bytes hold, or a failure where they
/// hold none.
pub open spec fn receive(state: ResolutionView, data: Seq<u8>) -> ResolutionView {
    match state {
        ResolutionView::Fetching { .. } => match response_of(data) {
            Ok(response) => step(state, response),
            Err(e) => ResolutionView::Failed(e),
        },
        other => other,
    }
}

/// The state after the responses came in, one after the other.
pub open spec fn run(state: ResolutionView, responses: Seq<ResponseView>) -> ResolutionView
    decreases responses.len(),
{
    if responses.len() == 0 {
        state
    } else {
        run(step(state, responses.first()), responses.drop_first())
    }
}

/// A fetch that has failed stays failed, whatever comes in.
pub proof fn lemma_failed_stays(e: FetchError, responses: Seq<ResponseView>)
    ensures
        run(ResolutionView::Failed(e), responses) == ResolutionView::Failed(e),
    decreases responses.len(),
{
    if responses.len() > 0 {
        lemma_failed_stays(e, responses.drop_first());
    }
}

/// Redirects alone never end a fetch well: a fetch at attempt `attempt`
/// that is answered with redirects only has failed once the redirects
/// outnumber the attempts that are left.
pub proof fn lemma_redirects_fail(request: RequestView, attempt: nat, responses: Seq<ResponseView>)
    requires
        1 <= attempt <= MAX_ATTEMPTS,
        responses.len() > MAX_ATTEMPTS - attempt,
        forall|i: int| 0 <= i < responses.len() ==> (#[trigger] responses[i]).is_redirect(),
    ensures
        run(ResolutionView::Fetching { request, attempt }, responses) is Failed,
    decreases responses.len(),
{
    let state = ResolutionView::Fetching { request, attempt };
    let first = responses.first();
    assert(first.is_redirect());
    let rest = responses.drop_first();
    match step(state, first) {
        ResolutionView::Failed(e) => {
            lemma_failed_stays(e, rest);
        },
        ResolutionView::Fetching { request: next, attempt: number } => {
            assert forall|i: int| 0 <= i < rest.len() implies (#[trigger] rest[i]).is_redirect() by {
                assert(rest[i] == responses[i + 1]);
            }
            lemma_redirects_fail(next, number, rest);
        },
        ResolutionView::Terminal(_) => {},
    }
}

/// Whether the redirect `response` names a relative location.
pub open spec fn redirects_relatively(response: ResponseView) -> bool {
    &&& response.is_redirect()
    &&& field_value(response.headers, "Location"@) matches Some(location) && !"http"@.is_prefix_of(
        location,
    )
}

/// A fetch that is answered with relative redirects only fails with
/// `TooManyRedirects` once the redirects outnumber the attempts that are
/// left: a fetch from its beginning after five of them.
pub proof fn lemma_too_many_redirects(
    request: RequestView,
    attempt: nat,
    responses: Seq<ResponseView>,
)
    requires
        1 <= attempt <= MAX_ATTEMPTS,
        responses.len() > MAX_ATTEMPTS - attempt,
        forall|i: int| 0 <= i < responses.len() ==> redirects_relatively(#[trigger] responses[i]),
    ensures
        run(ResolutionView::Fetching { request, attempt }, responses) == ResolutionView::Failed(
            FetchError::TooManyRedirects,
        ),
    decreases responses.len(),
{
    let state = ResolutionView::Fetching { request, attempt };
    let first = responses.first();
    assert(redirects_relatively(first));
    let rest = responses.drop_first();
    match step(state, first) {
        ResolutionView::Failed(e) => {
            lemma_failed_stays(e, rest);
        },
        ResolutionView::Fetching { request: next, attempt: number } => {
            assert forall|i: int| 0 <= i < rest.len() implies redirects_relatively(
                #[trigger] rest[i],
            ) by {
                assert(rest[i] == responses[i + 1]);
            }
            lemma_too_many_redirects(next, number, rest);
        },
        ResolutionView::Terminal(_) => {},
    }
}

/// The views of the responses in `responses`.
pub open spec fn views_of(responses: Seq<HTTPResponse>) -> Seq<ResponseView> {
    responses.map_values(|r: HTTPResponse| r@)
}

impl Resolution {
    /// Begins the fetch of `url` with a `GET` request.
    pub fn start(url: &URI) -> (state: Resolution)
        ensures
            state@ == begin(
                RequestView {
                    url: url@,
                    http_version: "1.1"@,
                    method: crate::request::HTTPMethod::GET,
                    headers: Fields::empty(),
                    data: Seq::<char>::empty(),
                },
            ),
    {
        Resolution::Fetching { request: HTTPRequest::get(url), attempt: 1 }
    }

    /// Takes the fetch through the response to its request.
    pub fn feed(self, response: HTTPResponse) -> (next: Resolution)
        ensures
            next@ == step(self@, response@),
    {
        match self {
            Resolution::Fetching { request, attempt } => {
                if !response.is_redirect() {
                    return Resolution::Terminal(response);
                }
                match Request::build_request_from_redirect_response(request, &response) {
                    Err(e) => Resolution::Failed(e),
                    Ok(next) => if attempt >= MAX_ATTEMPTS {
                        Resolution::Failed(FetchError::TooManyRedirects)
                    } else {
                        Resolution::Fetching { request: next, attempt: attempt + 1 }
                    },
                }
            },
            Resolution::Terminal(r) => Resolution::Terminal(r),
            Resolution::Failed(e) => Resolution::Failed(e),
        }
    }

    /// Takes the fetch through the bytes that answered its request.
    pub fn receive(self, data: &Vec<u8>) -> (next: Resolution)
        ensures
            next@ == receive(self@, data@),
    {
        match self {
            Resolution::Fetching { request, attempt } => {
                match Request::parse_http_response(data) {
                    Ok(response) => Resolution::Fetching { request, attempt }.feed(response),
                    Err(e) => Resolution::Failed(e),
                }
            },
            Resolution::Terminal(r) => Resolution::Terminal(r),
            Resolution::Failed(e) => Resolution::Failed(e),
        }
    }

    /// Takes the fetch through a run of responses, one after the other.
    pub fn feed_all(self, responses: Vec<HTTPResponse>) -> (last: Resolution)
        ensures
            last@ == run(self@, views_of(responses@)),
    {
        let mut state = self;
        let mut left = responses;
        while left.len() > 0
            invariant
                run(self@, views_of(responses@)) == run(state@, views_of(left@)),
            decreases left.len(),
        {
            let ghost before = left@;
            let response = left.remove(0);
            proof {
                assert(views_of(before).first() == response@);
                assert(views_of(before).drop_first() =~= views_of(left@));
            }
            state = state.feed(response);
        }
        state
    }
}

/// How the bytes of a request travel.
#[derive(Debug, PartialEq, Eq, Clone, Copy, Structural)]
pub enum Transport {
    Plain,
    Encrypted,
}

/// Where a request goes, and how.
#[derive(Debug)]
pub struct Endpoint {
    pub host: String,
    pub port: u16,
    pub transport: Transport,
}

/// The address of a host and a port: the host, a colon, and the port in
/// decimal digits.
pub open spec fn address_of(host: Seq<char>, port: u16) -> Seq<char> {
    host + seq![':'] + crate::text::decimal_digits(port as nat)
}

/// Host, port and transport of a request: those of its authority and its
/// scheme, plain for `http` and encrypted for `https`. `None` where the
/// request names no host, or another scheme.
pub open spec fn endpoint_of(request: RequestView) -> Option<(Seq<char>, u16, Transport)> {
    match request.url.authority {
        Some(a) => if request.url.scheme == Scheme::HTTP {
            Some((a.host, a.port, Transport::Plain))
        } else if request.url.scheme == Scheme::HTTPS {
            Some((a.host, a.port, Transport::Encrypted))
        } else {
            None
        },
        None => None,
    }
}

impl Endpoint {
    /// The endpoint that `request` is sent to.
    pub fn of(request: &HTTPRequest) -> (endpoint: Option<Endpoint>)
        ensures
            match endpoint {
                Some(e) => endpoint_of(request@) == Some((e.host@, e.port, e.transport)),
                None => endpoint_of(request@).is_none(),
            },
    {
        let transport = match request.url.scheme {
            Scheme::HTTP => Transport::Plain,
            Scheme::HTTPS => Transport::Encrypted,
            _ => {
                return None;
            },
        };
        match &request.url.authority {
            Some(a) => Some(Endpoint { host: a.host.clone(), port: a.port, transport }),
            None => None,
        }
    }

    /// The address to connect to.
    pub fn address(&self) -> (out: String)
        ensures
            out@ == address_of(self.host@, self.port),
    {
        let mut out = self.host.clone();
        out.push(':');
        crate::text::push_decimal(&mut out, self.port as u64);
        out
    }
}

} // verus!
