//! The error kinds that the extraction-and-crawl core surfaces: a search
//! URL of an unknown shape, malformed or missing markup structure, a failed
//! page fetch, and a URL that no registered crawler claims.

use vstd::prelude::*;

verus! {

/// Marker for a lookup that found nothing where an element was expected;
/// intermediate results carry it until the outermost extraction step turns
/// it into a named parse error.
#[derive(Clone, Copy, Debug)]
pub struct NoneError {}

impl NoneError {
    /// A short description of the failure.
    pub fn message(&self) -> (r: String)
        ensures
            r@ == "expected element was absent"@,
    {
        String::from_str("expected element was absent")
    }
}

/// An error of the crawl core.
#[derive(Clone, Debug)]
pub enum CrawlError {
    /// The search URL matches neither known pagination shape.
    UrlFormat,
    /// Expected markup structure or numeric text was absent or malformed;
    /// names the field and carries the raw text that failed to parse.
    Parse { field: String, text: String },
    /// A page fetch failed (transport error or non-success response).
    Fetch { detail: String },
    /// No registered crawler claims the URL; a configuration error.
    NoCrawlerMatched,
}

/// The human-readable description of `e`.
pub open spec fn spec_error_message(e: CrawlError) -> Seq<char> {
    match e {
        CrawlError::UrlFormat => "search URL does not match a known pagination shape"@,
        CrawlError::Parse { field, text } => "could not parse field "@ + field@ + " from "@
            + text@,
        CrawlError::Fetch { detail } => "page fetch failed: "@ + detail@,
        CrawlError::NoCrawlerMatched => "no crawler matches the URL"@,
    }
}

impl CrawlError {
    /// Renders the error for logging and notification.
    pub fn message(&self) -> (r: String)
        ensures
            r@ == spec_error_message(*self),
    {
        match self {
            CrawlError::UrlFormat => String::from_str(
                "search URL does not match a known pagination shape",
            ),
            CrawlError::Parse { field, text } => String::from_str("could not parse field ")
                .concat(field.as_str()).concat(" from ").concat(text.as_str()),
            CrawlError::Fetch { detail } => String::from_str("page fetch failed: ").concat(
                detail.as_str(),
            ),
            CrawlError::NoCrawlerMatched => String::from_str("no crawler matches the URL"),
        }
    }
}

} // verus!
