//! Errors of fetching a file over the network, and the check made before fetching.

use vstd::prelude::*;

verus! {

/// Errors that can occur when fetching a file.
#[derive(Debug)]
pub enum FetchFileError {
    EmptyUrl,
    NoWindow { url: String },
    FetchFailed { url: String, error: String },
    ResponseCastFailed { url: String, error: String },
    ArrayBufferFailed { url: String, error: String },
    ArrayBufferPromiseFailed { url: String, error: String },
    BufferCastFailed { url: String, error: String },
}

/// `prefix`, then the URL in single quotes, a colon, a space and the error.
pub open spec fn quoted_failure(prefix: Seq<char>, url: Seq<char>, error: Seq<char>) -> Seq<char> {
    prefix + url + "': "@ + error
}

/// The message that describes a fetch error.
pub open spec fn fetch_file_error_message(e: FetchFileError) -> Seq<char> {
    match e {
        FetchFileError::EmptyUrl => "URL is empty"@,
        FetchFileError::NoWindow { url } => "No window available for URL: "@ + url@,
        FetchFileError::FetchFailed { url, error } => quoted_failure("Failed to fetch '"@, url@, error@),
        FetchFileError::ResponseCastFailed { url, error } => quoted_failure(
            "Failed to cast response for '"@,
            url@,
            error@,
        ),
        FetchFileError::ArrayBufferFailed { url, error } => quoted_failure(
            "Failed to get ArrayBuffer for '"@,
            url@,
            error@,
        ),
        FetchFileError::ArrayBufferPromiseFailed { url, error } => quoted_failure(
            "Failed to resolve ArrayBuffer promise for '"@,
            url@,
            error@,
        ),
        FetchFileError::BufferCastFailed { url, error } => quoted_failure(
            "Failed to cast buffer for '"@,
            url@,
            error@,
        ),
    }
}

/// `prefix`, then the URL in single quotes, a colon, a space and the error.
fn quoted(prefix: &str, url: &String, error: &String) -> (msg: String)
    ensures
        msg@ == quoted_failure(prefix@, url@, error@),
{
    String::from_str(prefix).concat(url.as_str()).concat("': ").concat(error.as_str())
}

impl FetchFileError {
    /// The human-readable description of the error.
    pub fn message(&self) -> (msg: String)
        ensures
            msg@ == fetch_file_error_message(*self),
    {
        match self {
            FetchFileError::EmptyUrl => String::from_str("URL is empty"),
            FetchFileError::NoWindow { url } => String::from_str("No window available for URL: ").concat(
                url.as_str(),
            ),
            FetchFileError::FetchFailed { url, error } => quoted("Failed to fetch '", url, error),
            FetchFileError::ResponseCastFailed { url, error } => quoted(
                "Failed to cast response for '",
                url,
                error,
            ),
            FetchFileError::ArrayBufferFailed { url, error } => quoted(
                "Failed to get ArrayBuffer for '",
                url,
                error,
            ),
            FetchFileError::ArrayBufferPromiseFailed { url, error } => quoted(
                "Failed to resolve ArrayBuffer promise for '",
                url,
                error,
            ),
            FetchFileError::BufferCastFailed { url, error } => quoted(
                "Failed to cast buffer for '",
                url,
                error,
            ),
        }
    }
}

/// The check made before a file is fetched: the URL must not be empty.
pub fn check_url(url: &str) -> (r: Result<(), FetchFileError>)
    ensures
        r is Err <==> url@.len() == 0,
        r is Err ==> r matches Err(FetchFileError::EmptyUrl),
{
    if url.is_empty() {
        Err(FetchFileError::EmptyUrl)
    } else {
        Ok(())
    }
}

} // verus!
