use vstd::prelude::*;
use crate::error::WorkerError;
use crate::layout::{socket_address, socket_address_of};
use url::{ParseError, Url};

verus! {

#[verifier::external_type_specification]
#[verifier::external_body]
pub struct ExUrl(url::Url);

#[verifier::external_type_specification]
#[verifier::external_body]
pub struct ExParseError(url::ParseError);

/// What `url::Url::parse` makes of the text `input`: the parsed URL, or the
/// reason for which `input` is no absolute URL.
pub uninterp spec fn parsed_url(input: Seq<char>) -> Result<Url, ParseError>;

/// Calls `url::Url::parse`. The parser reads nothing but its argument, so
/// its result is the one that `parsed_url` names for the text of `input`.
#[verifier::external_body]
fn parse_url(input: &str) -> (parsed: Result<Url, ParseError>)
    ensures
        parsed == parsed_url(input@),
{
    Url::parse(input)
}

/// The endpoint that a parse result stands for: the URL itself, or
/// `InvalidAddress` whatever the parser's reason was.
pub open spec fn endpoint_of(parsed: Result<Url, ParseError>) -> Result<Url, WorkerError> {
    match parsed {
        Ok(url) => Ok(url),
        Err(_) => Err(WorkerError::InvalidAddress),
    }
}

/// Turns a parse result into an endpoint.
pub fn endpoint_from(parsed: Result<Url, ParseError>) -> (endpoint: Result<Url, WorkerError>)
    ensures
        endpoint == endpoint_of(parsed),
{
    match parsed {
        Ok(url) => Ok(url),
        Err(_) => Err(WorkerError::InvalidAddress),
    }
}

/// The endpoint of the sandbox whose bundle directory is `bundle`: its
/// socket address `unix://<bundle>/rootfs/run/app.sock`, parsed as a URL.
pub fn endpoint_for(bundle: &str) -> (endpoint: Result<Url, WorkerError>)
    ensures
        endpoint == endpoint_of(parsed_url(socket_address(bundle@))),
{
    let address = socket_address_of(bundle);
    endpoint_from(parse_url(address.as_str()))
}

} // verus!
