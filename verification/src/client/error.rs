//! What can go wrong on the wallet side.

use crate::p2p::{Message, P2PError};
use crate::text::{around_number, decimal, join};
use vstd::prelude::*;
#[allow(unused_imports)]
use crate::text::decimal_text;

verus! {

/// Why a request to a provider failed.
#[derive(Debug)]
pub enum P2pClientError {
    Disconnected,
    Timeout,
    InvalidRequest(Message),
    Protocol(String),
    Remote(P2PError),
    Start(String),
}

impl P2pClientError {
    /// The text shown to a person.
    pub open spec fn text(&self) -> Seq<char> {
        match self {
            P2pClientError::Disconnected => "no PIR provider is connected"@,
            P2pClientError::Timeout => "PIR request timed out"@,
            P2pClientError::InvalidRequest(message) => "invalid PIR request message: "@
                + message.name_text(),
            P2pClientError::Protocol(reason) => "PIR protocol error: "@ + reason@,
            P2pClientError::Remote(error) => "PIR provider error: "@ + error.text(),
            P2pClientError::Start(reason) => "failed to start Zakura: "@ + reason@,
        }
    }

    /// The text shown to a person.
    pub fn message(&self) -> (s: String)
        ensures
            s@ == self.text(),
    {
        match self {
            P2pClientError::Disconnected => "no PIR provider is connected".to_owned(),
            P2pClientError::Timeout => "PIR request timed out".to_owned(),
            P2pClientError::InvalidRequest(message) => join(
                "invalid PIR request message: ",
                message.name(),
            ),
            P2pClientError::Protocol(reason) => join("PIR protocol error: ", reason.as_str()),
            P2pClientError::Remote(error) => join("PIR provider error: ", error.message().as_str()),
            P2pClientError::Start(reason) => join("failed to start Zakura: ", reason.as_str()),
        }
    }
}

/// Why an exchange over either transport failed. An HTTP failure is kept in words.
#[derive(Debug)]
pub enum TransportError {
    Http(String),
    P2p(P2pClientError),
    Unavailable,
}

impl TransportError {
    /// Whether the server said that it is not ready, by whichever transport.
    pub open spec fn not_ready(&self) -> bool {
        match self {
            TransportError::Unavailable => true,
            TransportError::P2p(P2pClientError::Remote(P2PError::ServiceUnavailable)) => true,
            _ => false,
        }
    }
}

/// Why a nullifier could not be checked.
#[derive(Debug)]
pub enum SpendClientError {
    Http(String),
    P2p(P2pClientError),
    ServerUnavailable,
    InvalidParams(String),
    QueryFailed(String),
}

impl SpendClientError {
    /// The text shown to a person.
    pub open spec fn text(&self) -> Seq<char> {
        match self {
            SpendClientError::Http(reason) => "HTTP error: "@ + reason@,
            SpendClientError::P2p(error) => "P2P error: "@ + error.text(),
            SpendClientError::ServerUnavailable => "server unavailable"@,
            SpendClientError::InvalidParams(reason) => "invalid params: "@ + reason@,
            SpendClientError::QueryFailed(reason) => "query failed: "@ + reason@,
        }
    }

    /// The text shown to a person.
    pub fn message(&self) -> (s: String)
        ensures
            s@ == self.text(),
    {
        match self {
            SpendClientError::Http(reason) => join("HTTP error: ", reason.as_str()),
            SpendClientError::P2p(error) => join("P2P error: ", error.message().as_str()),
            SpendClientError::ServerUnavailable => "server unavailable".to_owned(),
            SpendClientError::InvalidParams(reason) => join("invalid params: ", reason.as_str()),
            SpendClientError::QueryFailed(reason) => join("query failed: ", reason.as_str()),
        }
    }

    /// What a transport failure means to a nullifier check.
    pub fn from_transport(error: TransportError) -> (r: Self)
        ensures
            error.not_ready() ==> r == SpendClientError::ServerUnavailable,
            !error.not_ready() ==> match error {
                TransportError::Http(reason) => r == SpendClientError::Http(reason),
                TransportError::P2p(inner) => r == SpendClientError::P2p(inner),
                TransportError::Unavailable => false,
            },
    {
        match error {
            TransportError::Http(reason) => SpendClientError::Http(reason),
            TransportError::Unavailable => SpendClientError::ServerUnavailable,
            TransportError::P2p(P2pClientError::Remote(P2PError::ServiceUnavailable)) => {
                SpendClientError::ServerUnavailable
            },
            TransportError::P2p(inner) => SpendClientError::P2p(inner),
        }
    }
}

/// Why a witness could not be had.
#[derive(Debug)]
pub enum WitnessClientError {
    Http(String),
    P2p(P2pClientError),
    ServerUnavailable,
    InvalidParams(String),
    QueryFailed(String),
    PositionOutsideWindow(u64, u32, u32),
    VerificationFailed(u64),
    /// A frontier does not belong to the witness.
    InvalidFrontierUpdate(String),
    /// The path does not reach the root advertised at this height.
    FrontierUpdateIncomplete(u64),
}

impl WitnessClientError {
    /// The text shown to a person.
    pub open spec fn text(&self) -> Seq<char> {
        match self {
            WitnessClientError::Http(reason) => "HTTP error: "@ + reason@,
            WitnessClientError::P2p(error) => "P2P error: "@ + error.text(),
            WitnessClientError::ServerUnavailable => "server unavailable (503)"@,
            WitnessClientError::InvalidParams(reason) => "invalid params from server: "@ + reason@,
            WitnessClientError::QueryFailed(reason) => "query failed: "@ + reason@,
            WitnessClientError::PositionOutsideWindow(position, from, to) => "position "@
                + decimal_text(*position as nat)
                + " is outside the server's PIR window (shards "@ + decimal_text(*from as nat)
                + ".."@ + decimal_text(*to as nat) + ")"@,
            WitnessClientError::VerificationFailed(position) => {
                "witness verification failed for position "@ + decimal_text(*position as nat)
                    + ": computed root does not match anchor"@
            },
            WitnessClientError::InvalidFrontierUpdate(reason) => "invalid frontier update: "@
                + reason@,
            WitnessClientError::FrontierUpdateIncomplete(height) => {
                "frontier update at height "@ + decimal_text(*height as nat)
                    + " does not complete the witness"@
            },
        }
    }

    /// The text shown to a person.
    pub fn message(&self) -> (s: String)
        ensures
            s@ == self.text(),
    {
        match self {
            WitnessClientError::Http(reason) => join("HTTP error: ", reason.as_str()),
            WitnessClientError::P2p(error) => join("P2P error: ", error.message().as_str()),
            WitnessClientError::ServerUnavailable => "server unavailable (503)".to_owned(),
            WitnessClientError::InvalidParams(reason) => join(
                "invalid params from server: ",
                reason.as_str(),
            ),
            WitnessClientError::QueryFailed(reason) => join("query failed: ", reason.as_str()),
            WitnessClientError::PositionOutsideWindow(position, from, to) => {
                let mut s = around_number(
                    "position ",
                    *position,
                    " is outside the server's PIR window (shards ",
                );
                s.append(decimal(*from as u64).as_str());
                s.append("..");
                s.append(decimal(*to as u64).as_str());
                s.append(")");
                s
            },
            WitnessClientError::VerificationFailed(position) => around_number(
                "witness verification failed for position ",
                *position,
                ": computed root does not match anchor",
            ),
            WitnessClientError::InvalidFrontierUpdate(reason) => join(
                "invalid frontier update: ",
                reason.as_str(),
            ),
            WitnessClientError::FrontierUpdateIncomplete(height) => around_number(
                "frontier update at height ",
                *height,
                " does not complete the witness",
            ),
        }
    }

    /// What a transport failure means to a witness query.
    pub fn from_transport(error: TransportError) -> (r: Self)
        ensures
            error.not_ready() ==> r == WitnessClientError::ServerUnavailable,
            !error.not_ready() ==> match error {
                TransportError::Http(reason) => r == WitnessClientError::Http(reason),
                TransportError::P2p(inner) => r == WitnessClientError::P2p(inner),
                TransportError::Unavailable => false,
            },
    {
        match error {
            TransportError::Http(reason) => WitnessClientError::Http(reason),
            TransportError::Unavailable => WitnessClientError::ServerUnavailable,
            TransportError::P2p(P2pClientError::Remote(P2PError::ServiceUnavailable)) => {
                WitnessClientError::ServerUnavailable
            },
            TransportError::P2p(inner) => WitnessClientError::P2p(inner),
        }
    }
}

/// A failure means that the server is not ready exactly when the transport says
/// so or the server itself does.
pub proof fn law_only_unavailable_is_not_ready(error: TransportError)
    ensures
        error.not_ready() <==> error is Unavailable || (error is P2p && error->P2p_0 is Remote
            && error->P2p_0->Remote_0 is ServiceUnavailable),
{
}

} // verus!
