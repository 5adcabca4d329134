//! Listing the currencies that the exchange knows.

use crate::rest_client::{EndPointRequest, EndPointRequestHandler, EndPointRequestView, HttpMethod};
use crate::url::{Route, RouteView};
use vstd::prelude::*;

verus! {

/// The operation that lists the known currencies: `GET /currencies` with an
/// empty body.
#[derive(Clone, Copy, Debug)]
pub struct GetCurrencies;

impl GetCurrencies {
    /// The handler; it has no state, so any two are the same.
    pub fn new() -> (handler: GetCurrencies)
        ensures
            handler == GetCurrencies,
    {
        GetCurrencies
    }
}

impl Default for GetCurrencies {
    fn default() -> (handler: GetCurrencies)
        ensures
            handler == GetCurrencies,
    {
        GetCurrencies
    }
}

impl EndPointRequestHandler for GetCurrencies {
    open spec fn request(&self) -> EndPointRequestView {
        EndPointRequestView {
            http_method: HttpMethod::Get,
            route: RouteView::empty().add_segment("currencies"@),
            body: Seq::empty(),
        }
    }

    fn create_request(&self) -> (request: EndPointRequest) {
        EndPointRequest {
            http_method: HttpMethod::Get,
            route: Route::new().add_segment("currencies"),
            body: String::new(),
        }
    }
}

} // verus!
