use vstd::prelude::*;

verus! {

/// The two failure kinds this client can surface.
///
/// `APIError` wraps the text of a transport failure (issuing the request or
/// reading its body); `ParsingError` wraps the text of a failure to interpret
/// the response body as the provider's JSON envelope. Each carries the
/// underlying cause as a message for diagnostics.
#[derive(Debug, PartialEq, Eq)]
pub enum CloudFlareErrors {
    APIError(String),
    ParsingError(String),
}

impl CloudFlareErrors {
    /// The text of the underlying cause.
    pub fn message(&self) -> (r: &String)
        ensures
            *self matches CloudFlareErrors::APIError(m) ==> r == m,
            *self matches CloudFlareErrors::ParsingError(m) ==> r == m,
    {
        match self {
            CloudFlareErrors::APIError(m) => m,
            CloudFlareErrors::ParsingError(m) => m,
        }
    }
}

} // verus!
