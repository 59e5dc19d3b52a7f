//! The HTTP edge: a reqwest blocking client behind trusted wrappers.
//!
//! Nothing is promised of what the network answers; every caller states what
//! holds of each possible [`crate::types::HttpOutcome`] and the verified code
//! decides from there.

use vstd::prelude::*;

use crate::types::HttpOutcome;

verus! {

#[verifier::external_type_specification]
#[verifier::external_body]
pub struct ExClient(reqwest::blocking::Client);

/// Relies on `reqwest::blocking::ClientBuilder::{new, timeout, build}`:
/// builds a blocking HTTP client whose every request carries the given
/// bounded timeout; `None` when the client cannot be set up.
#[verifier::external_body]
pub(crate) fn new_client(timeout_ms: u64) -> Option<reqwest::blocking::Client> {
    match reqwest::blocking::Client::builder().timeout(
        std::time::Duration::from_millis(timeout_ms),
    ).build() {
        Ok(c) => Some(c),
        Err(_) => None,
    }
}

/// Relies on `reqwest::blocking::Client::get`, `RequestBuilder::send` and
/// `Response::{status, text}`: one HTTP GET of the given URL, handing back
/// the status code and body as plain values, or `NetworkFailure` when no
/// response could be read.
#[verifier::external_body]
pub(crate) fn http_get(client: &reqwest::blocking::Client, url: &str) -> HttpOutcome {
    match client.get(url).send() {
        Ok(resp) => {
            let status: u16 = resp.status().as_u16();
            match resp.text() {
                Ok(body) => HttpOutcome::Response { status, body },
                Err(_) => HttpOutcome::NetworkFailure,
            }
        }
        Err(_) => HttpOutcome::NetworkFailure,
    }
}

} // verus!
