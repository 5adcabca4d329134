//! Request building for a cryptocurrency exchange's REST API.
//!
//! A [`url::Route`] is the path and query string of a call, rendered on
//! demand with each query value percent-encoded. An endpoint handler
//! ([`rest_client::EndPointRequestHandler`]) turns one API operation into a
//! transport-agnostic [`rest_client::EndPointRequest`].

pub mod join;
pub mod percent;
pub mod products;
pub mod rest_client;
pub mod url;
