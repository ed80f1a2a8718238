//! The error surfaced to a test: configuration, protocol, playback, upstream
//! and store failures.

use vstd::prelude::*;

use crate::text::{push_str_chars, string_of};

verus! {

/// Why a request or the end-of-test work failed.
#[derive(Debug)]
pub enum Error {
    /// A filesystem operation failed; the payload describes it.
    Io(String),
    /// A lock guarding the session state was poisoned.
    PoisonedLock,
    /// The upstream domain could not be parsed or carries no host.
    InvalidDomainName,
    /// A status code was out of range.
    InvalidStatusCode,
    /// A request arrived with no configuration installed, or Record mode has
    /// no upstream domain.
    NotConfigured,
    /// A header name could not be put on the wire.
    InvalidHeaderName,
    /// A header value could not be put on the wire.
    InvalidHeaderValue,
    /// A request or response body could not be read.
    InvalidBody,
    /// Playback was asked to serve before any conversation was loaded.
    NotLoaded,
    /// Playback ran past the end of the loaded conversation.
    PlaybackOverflow,
    /// More interactions completed than an ordinal can count.
    OrdinalOverflow,
    /// The outbound client failed; the payload describes it.
    Upstream(String),
    /// The conversation store failed to parse or to match.
    InteractionManager(crate::markdown::error::Error),
}

/// The text of a store error report.
pub open spec fn markdown_error_message(e: crate::markdown::error::Error) -> Seq<char> {
    match e {
        crate::markdown::error::Error::InvalidMarkdownFormat => "Markdown format is invalid"@,
        crate::markdown::error::Error::InvalidInteractionNumber =>
            "Couldn't parse interaction number from the markdown file"@,
        crate::markdown::error::Error::InvalidStatusCode => "The status code is invalid"@,
        crate::markdown::error::Error::MarkdownsDiffer(t, loc) => location_message(loc) + " - "@
            + difference_message(t),
    }
}

/// The text naming a difference's location.
pub open spec fn location_message(loc: crate::markdown::error::MarkdownsDifferenceLocation) -> Seq<
    char,
> {
    match loc {
        crate::markdown::error::MarkdownsDifferenceLocation::Request => "Request"@,
        crate::markdown::error::MarkdownsDifferenceLocation::Response => "Response"@,
    }
}

/// The text of a difference report.
pub open spec fn difference_message(t: crate::markdown::error::MarkdownsDifferenceType) -> Seq<
    char,
> {
    match t {
        crate::markdown::error::MarkdownsDifferenceType::Body(b) =>
            crate::markdown::error::body_difference_message(b),
        crate::markdown::error::MarkdownsDifferenceType::Header(h) =>
            crate::markdown::error::header_difference_message(h),
    }
}

/// The text of an error report.
pub open spec fn error_message(e: Error) -> Seq<char> {
    match e {
        Error::Io(s) => "IoError: "@ + s@,
        Error::PoisonedLock => "The lock was poisoned"@,
        Error::InvalidDomainName => "Couldn't parse the domain name"@,
        Error::InvalidStatusCode => "The status code is invalid"@,
        Error::NotConfigured => "The server hasn't been configured"@,
        Error::InvalidHeaderName => "Invalid header name"@,
        Error::InvalidHeaderValue => "Invalid header value"@,
        Error::InvalidBody => "Invalid body"@,
        Error::NotLoaded => "No conversation has been loaded for playback"@,
        Error::PlaybackOverflow => "Playback ran past the end of the loaded conversation"@,
        Error::OrdinalOverflow => "Too many interactions for one test"@,
        Error::Upstream(s) => "Upstream error: "@ + s@,
        Error::InteractionManager(inner) => "Markdown manager error: "@ + markdown_error_message(
            inner,
        ),
    }
}

impl crate::markdown::error::MarkdownsDifferenceLocation {
    /// Renders this location for display.
    pub fn message(&self) -> (r: String)
        ensures
            r@ == location_message(*self),
    {
        match self {
            crate::markdown::error::MarkdownsDifferenceLocation::Request => {
                let mut out: Vec<char> = Vec::new();
                push_str_chars(&mut out, "Request");
                string_of(out.as_slice())
            },
            crate::markdown::error::MarkdownsDifferenceLocation::Response => {
                let mut out: Vec<char> = Vec::new();
                push_str_chars(&mut out, "Response");
                string_of(out.as_slice())
            },
        }
    }
}

impl crate::markdown::error::MarkdownsDifferenceType {
    /// Renders this difference for display.
    pub fn message(&self) -> (r: String)
        ensures
            r@ == difference_message(*self),
    {
        match self {
            crate::markdown::error::MarkdownsDifferenceType::Body(b) => b.message(),
            crate::markdown::error::MarkdownsDifferenceType::Header(h) => h.message(),
        }
    }
}

impl crate::markdown::error::Error {
    /// Renders this store error for display.
    pub fn message(&self) -> (r: String)
        ensures
            r@ == markdown_error_message(*self),
    {
        let mut out: Vec<char> = Vec::new();
        match self {
            crate::markdown::error::Error::InvalidMarkdownFormat => {
                push_str_chars(&mut out, "Markdown format is invalid");
            },
            crate::markdown::error::Error::InvalidInteractionNumber => {
                push_str_chars(
                    &mut out,
                    "Couldn't parse interaction number from the markdown file",
                );
            },
            crate::markdown::error::Error::InvalidStatusCode => {
                push_str_chars(&mut out, "The status code is invalid");
            },
            crate::markdown::error::Error::MarkdownsDiffer(t, loc) => {
                let loc_text = loc.message();
                push_str_chars(&mut out, loc_text.as_str());
                push_str_chars(&mut out, " - ");
                let diff_text = t.message();
                push_str_chars(&mut out, diff_text.as_str());
            },
        }
        string_of(out.as_slice())
    }
}

impl Error {
    /// Renders this error for display.
    pub fn message(&self) -> (r: String)
        ensures
            r@ == error_message(*self),
    {
        let mut out: Vec<char> = Vec::new();
        match self {
            Error::Io(s) => {
                push_str_chars(&mut out, "IoError: ");
                push_str_chars(&mut out, s.as_str());
            },
            Error::PoisonedLock => {
                push_str_chars(&mut out, "The lock was poisoned");
            },
            Error::InvalidDomainName => {
                push_str_chars(&mut out, "Couldn't parse the domain name");
            },
            Error::InvalidStatusCode => {
                push_str_chars(&mut out, "The status code is invalid");
            },
            Error::NotConfigured => {
                push_str_chars(&mut out, "The server hasn't been configured");
            },
            Error::InvalidHeaderName => {
                push_str_chars(&mut out, "Invalid header name");
            },
            Error::InvalidHeaderValue => {
                push_str_chars(&mut out, "Invalid header value");
            },
            Error::InvalidBody => {
                push_str_chars(&mut out, "Invalid body");
            },
            Error::NotLoaded => {
                push_str_chars(&mut out, "No conversation has been loaded for playback");
            },
            Error::PlaybackOverflow => {
                push_str_chars(&mut out, "Playback ran past the end of the loaded conversation");
            },
            Error::OrdinalOverflow => {
                push_str_chars(&mut out, "Too many interactions for one test");
            },
            Error::Upstream(s) => {
                push_str_chars(&mut out, "Upstream error: ");
                push_str_chars(&mut out, s.as_str());
            },
            Error::InteractionManager(inner) => {
                push_str_chars(&mut out, "Markdown manager error: ");
                let inner_text = inner.message();
                push_str_chars(&mut out, inner_text.as_str());
            },
        }
        string_of(out.as_slice())
    }
}

} // verus!
