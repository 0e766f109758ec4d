//! What can go wrong in a resolution.

use vstd::prelude::*;
use crate::buffer::BufferError;

verus! {

/// `std::io::Error` of the standard library, the cause of a failure of the
/// network. Trusted: the type is taken as it is, and nothing is said of what
/// a value of it holds.
#[verifier::external_type_specification]
#[verifier::external_body]
pub struct ExIoError(std::io::Error);

/// Why a resolution failed.
#[derive(Debug)]
pub enum DnsResolverError {
    /// Sending to or receiving from a nameserver failed, with the cause.
    NetworkError(std::io::Error),
    /// A message could not be read or written, with the reason.
    ParseError(String),
    /// The query holds no question.
    NoQuestionFound,
    /// A response names no nameserver to go on with.
    NoNameserverFound,
    /// The resolution did not come to an end.
    ResolutionFailed,
}

/// What a [`DnsResolverError`] holds.
pub enum ResolverErrorView {
    NetworkError(std::io::Error),
    ParseError(Seq<char>),
    NoQuestionFound,
    NoNameserverFound,
    ResolutionFailed,
}

impl View for DnsResolverError {
    type V = ResolverErrorView;

    open spec fn view(&self) -> ResolverErrorView {
        match self {
            DnsResolverError::NetworkError(cause) => ResolverErrorView::NetworkError(*cause),
            DnsResolverError::ParseError(reason) => ResolverErrorView::ParseError(reason@),
            DnsResolverError::NoQuestionFound => ResolverErrorView::NoQuestionFound,
            DnsResolverError::NoNameserverFound => ResolverErrorView::NoNameserverFound,
            DnsResolverError::ResolutionFailed => ResolverErrorView::ResolutionFailed,
        }
    }
}

impl From<std::io::Error> for DnsResolverError {
    fn from(err: std::io::Error) -> (e: DnsResolverError) {
        DnsResolverError::NetworkError(err)
    }
}

impl vstd::std_specs::convert::FromSpecImpl<std::io::Error> for DnsResolverError {
    open spec fn obeys_from_spec() -> bool {
        true
    }

    open spec fn from_spec(err: std::io::Error) -> DnsResolverError {
        DnsResolverError::NetworkError(err)
    }
}

impl BufferError {
    /// The error in words.
    pub open spec fn spec_message(self) -> Seq<char> {
        match self {
            BufferError::EndOfBuffer => "End of buffer"@,
            BufferError::JumpLimitExceeded => "Limit of jumps exceeded"@,
            BufferError::LabelTooLong => "Single label exceeds 63 characters of length"@,
        }
    }

    /// The error in words.
    pub fn message(&self) -> (text: String)
        ensures
            text@ == self.spec_message(),
    {
        match self {
            BufferError::EndOfBuffer => String::from_str("End of buffer"),
            BufferError::JumpLimitExceeded => String::from_str("Limit of jumps exceeded"),
            BufferError::LabelTooLong => String::from_str(
                "Single label exceeds 63 characters of length",
            ),
        }
    }
}

impl DnsResolverError {
    /// The error of a message that could not be read or written.
    pub fn malformed(cause: BufferError) -> (e: DnsResolverError)
        ensures
            e@ == ResolverErrorView::ParseError(cause.spec_message()),
    {
        DnsResolverError::ParseError(cause.message())
    }

    /// The error in words. For a failure of the network that is a fixed
    /// beginning and then the cause, as the cause shows itself.
    pub fn message(&self) -> (text: String)
        ensures
            self matches DnsResolverError::NetworkError(cause) ==> exists|shown: String|
                #[trigger] vstd::string::to_string_from_display_ensures::<std::io::Error>(
                    cause,
                    shown,
                ) && text@ == "Network error: "@ + shown@,
            self@ matches ResolverErrorView::ParseError(reason) ==> text@ == "Parsing error: "@
                + reason,
            self@ is NoQuestionFound ==> text@ == "No DNS question found in the packet"@,
            self@ is NoNameserverFound ==> text@ == "Unable to find a valid nameserver"@,
            self@ is ResolutionFailed ==> text@ == "DNS resolution failed"@,
    {
        match self {
            DnsResolverError::NetworkError(err) => {
                let shown = err.to_string();
                let text = String::from_str("Network error: ").concat(shown.as_str());
                assert(exists|s: String|
                    #[trigger] vstd::string::to_string_from_display_ensures::<std::io::Error>(
                        err,
                        s,
                    ) && text@ == "Network error: "@ + s@);
                text
            },
            DnsResolverError::ParseError(details) => {
                String::from_str("Parsing error: ").concat(details.as_str())
            },
            DnsResolverError::NoQuestionFound => String::from_str(
                "No DNS question found in the packet",
            ),
            DnsResolverError::NoNameserverFound => String::from_str(
                "Unable to find a valid nameserver",
            ),
            DnsResolverError::ResolutionFailed => String::from_str("DNS resolution failed"),
        }
    }
}

} // verus!
