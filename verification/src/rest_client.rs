//! Request descriptors and the contract that every API operation meets.

use crate::url::{Route, RouteView};
use vstd::prelude::*;
use vstd::std_specs::cmp::PartialEqSpec;

verus! {

/// The verb of an HTTP request.
#[derive(Clone, Copy, Debug, PartialEq, Eq, Structural)]
pub enum HttpMethod {
    Options,
    Get,
    Post,
    Put,
    Delete,
    Head,
    Trace,
    Connect,
    Patch,
}

/// A request descriptor as mathematics sees it.
pub struct EndPointRequestView {
    pub http_method: HttpMethod,
    pub route: RouteView,
    pub body: Seq<char>,
}

/// What a transport needs to make one call: the verb, the route and the
/// body, which is empty for a read.
#[derive(Debug)]
pub struct EndPointRequest {
    pub http_method: HttpMethod,
    pub route: Route,
    pub body: String,
}

impl View for EndPointRequest {
    type V = EndPointRequestView;

    open spec fn view(&self) -> EndPointRequestView {
        EndPointRequestView {
            http_method: self.http_method,
            route: self.route@,
            body: self.body@,
        }
    }
}

impl PartialEq for EndPointRequest {
    fn eq(&self, other: &EndPointRequest) -> (r: bool) {
        self.http_method == other.http_method && self.route == other.route && self.body
            == other.body
    }
}

/// Two descriptors are equal when verb, route and body all are.
impl vstd::std_specs::cmp::PartialEqSpecImpl for EndPointRequest {
    open spec fn obeys_eq_spec() -> bool {
        true
    }

    open spec fn eq_spec(&self, other: &EndPointRequest) -> bool {
        self@ == other@
    }
}

/// One API operation: a stateless value that knows which request stands
/// for it.
pub trait EndPointRequestHandler {
    /// The request that this operation stands for.
    spec fn request(&self) -> EndPointRequestView;

    /// Builds the operation's request descriptor. The result depends on the
    /// handler alone, so every call gives an equal descriptor.
    fn create_request(&self) -> (request: EndPointRequest)
        ensures
            request@ == self.request(),
    ;
}

/// Any two descriptors that one handler builds are equal: building a
/// request is a function of the handler and of nothing else.
pub proof fn lemma_create_request_is_repeatable<H: EndPointRequestHandler>(
    handler: &H,
    first: EndPointRequest,
    second: EndPointRequest,
)
    requires
        first@ == handler.request(),
        second@ == handler.request(),
    ensures
        first.eq_spec(&second),
        second.eq_spec(&first),
{
}

} // verus!
