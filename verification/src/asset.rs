//! Resolving the URL of a package's asset: the host answers, and its answer
//! is handed to the guest.
use vstd::prelude::*;

verus! {

/// Why an asset's URL could not be resolved, as the host says it.
#[derive(Debug)]
pub enum HostUrlError {
    InvalidUrl(String),
}

/// Why an asset's URL could not be resolved.
#[derive(Clone, Debug, PartialEq, Eq)]
pub enum UrlError {
    /// The URL is not valid; the host's message.
    InvalidUrl(String),
}

/// The message of an error.
pub open spec fn host_error_message(e: HostUrlError) -> Seq<char> {
    match e {
        HostUrlError::InvalidUrl(m) => m@,
    }
}

/// The host's answer for the URL of an asset of a package: the URL, or the
/// error with the host's message.
pub fn url_for_package_asset(answer: Result<String, HostUrlError>) -> (r: Result<String, UrlError>)
    ensures
        match answer {
            Ok(url) => r matches Ok(u) && u@ == url@,
            Err(e) => r matches Err(UrlError::InvalidUrl(m)) && m@ == host_error_message(e),
        },
{
    match answer {
        Ok(url) => Ok(url),
        Err(HostUrlError::InvalidUrl(m)) => Err(UrlError::InvalidUrl(m)),
    }
}

} // verus!
