use vstd::prelude::*;

use crate::decimal::dec_str_signed;

verus! {

/// Every failure the bisect-skip core can report.
///
/// Each operation returns a `Result` instead of attempting partial recovery;
/// the orchestration aborts on the first error from any component.
#[derive(Debug)]
pub enum BisectError {
    /// A revision specifier could not be resolved to a commit.
    /// Carries the offending specifier.
    Resolution(String),
    /// Fetching merged pull requests failed: a transport failure, or a
    /// merged record missing a required field. Carries a message.
    Fetch(String),
    /// The repository host is known to no supported provider.
    /// Carries the host name.
    UnsupportedHost(String),
    /// No host could be detected in the repository URL.
    /// Carries the URL text.
    UnknownHost(String),
    /// The repository URL could not be parsed at all.
    /// Carries the URL text.
    InvalidUrl(String),
    /// A skip subprocess failed: `Some(code)` for a nonzero exit status,
    /// `None` when the process could not be spawned or was killed before
    /// reporting a status.
    Execution(Option<i32>),
}

impl BisectError {
    /// The user-facing line for each failure.
    pub open spec fn message_spec(&self) -> Seq<char> {
        match self {
            BisectError::Resolution(spec) => "Unable to resolve revision: "@ + spec@,
            BisectError::Fetch(message) => message@,
            BisectError::UnsupportedHost(host) => "Unsupported host: "@ + host@,
            BisectError::UnknownHost(url) => "Unable to detect host: "@ + url@,
            BisectError::InvalidUrl(url) => "Unable to parse url: "@ + url@,
            BisectError::Execution(Option::Some(code)) => "Skip command failed with exit status "@
                + dec_str_signed(*code as int),
            BisectError::Execution(Option::None) => "Skip command could not be run"@,
        }
    }

    /// Renders the failure for the user, exactly as `message_spec`
    /// describes.
    pub fn message(&self) -> (s: String)
        ensures
            s@ == self.message_spec(),
    {
        match self {
            BisectError::Resolution(spec) => {
                let mut s: String = "Unable to resolve revision: ".to_owned();
                s.append(spec.as_str());
                s
            },
            BisectError::Fetch(message) => message.clone(),
            BisectError::UnsupportedHost(host) => {
                let mut s: String = "Unsupported host: ".to_owned();
                s.append(host.as_str());
                s
            },
            BisectError::UnknownHost(url) => {
                let mut s: String = "Unable to detect host: ".to_owned();
                s.append(url.as_str());
                s
            },
            BisectError::InvalidUrl(url) => {
                let mut s: String = "Unable to parse url: ".to_owned();
                s.append(url.as_str());
                s
            },
            BisectError::Execution(Option::Some(code)) => {
                let mut s: String = "Skip command failed with exit status ".to_owned();
                let rendered = crate::decimal::i32_to_string(*code);
                s.append(rendered.as_str());
                s
            },
            BisectError::Execution(Option::None) => "Skip command could not be run".to_owned(),
        }
    }
}

} // verus!
