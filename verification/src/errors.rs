//! Error types of the monitor's components.

use vstd::prelude::*;
use vstd::string::StringExecFns;

verus! {

/// Top-level errors of the monitor process.
#[derive(Debug)]
pub enum ConstellationError {
    /// An HTTP(S) response could not be used; holds the response text.
    ResponseError(String),
    /// An endpoint URL could not be parsed; holds the offending URL.
    URLParseError(String),
}

/// Errors of the ASN enrichment component.
#[derive(Debug)]
pub enum ConstellationBGPError {
    /// An IP string did not have four dot-separated parts.
    BadIp(String),
}

/// Errors of the chat notification component.
#[derive(Debug)]
pub enum ConstellationDiscordError {
    /// No channel list could be fetched for the named guild.
    ChannelList(String),
}

impl ConstellationError {
    /// A readable description of the error.
    pub fn text(&self) -> (r: String)
        ensures
            match self {
                ConstellationError::ResponseError(s) => r@ == "ResponseError HTTP(s) Error:"@
                    + s@,
                ConstellationError::URLParseError(s) => r@ == "URLParseError:"@ + s@,
            },
    {
        match self {
            ConstellationError::ResponseError(s) => String::from_str(
                "ResponseError HTTP(s) Error:",
            ).concat(s.as_str()),
            ConstellationError::URLParseError(s) => String::from_str("URLParseError:").concat(
                s.as_str(),
            ),
        }
    }
}

impl ConstellationBGPError {
    /// A readable description of the error.
    pub fn text(&self) -> (r: String)
        ensures
            match self {
                ConstellationBGPError::BadIp(s) => r@ == "Bad IP ? "@ + s@,
            },
    {
        match self {
            ConstellationBGPError::BadIp(s) => String::from_str("Bad IP ? ").concat(s.as_str()),
        }
    }
}

impl ConstellationDiscordError {
    /// A readable description of the error.
    pub fn text(&self) -> (r: String)
        ensures
            match self {
                ConstellationDiscordError::ChannelList(s) => r@ == "No Channels? "@ + s@,
            },
    {
        match self {
            ConstellationDiscordError::ChannelList(s) => String::from_str("No Channels? ").concat(
                s.as_str(),
            ),
        }
    }
}

} // verus!
