//! The error taxonomy of the store client.

use vstd::prelude::*;

verus! {

/// Everything that can go wrong in one store operation.
///
/// Every failure is returned to the immediate caller; nothing is retried or
/// swallowed. `TransportFailure` carries a description of the underlying
/// network or TLS cause, which only the transport layer can supply.
#[derive(Debug, Clone, PartialEq, Eq)]
pub enum AppstoreError {
    /// The network call itself failed (DNS, TLS, connection reset, ...).
    TransportFailure(String),
    /// The supplied API token holds a byte outside visible ASCII (32-127);
    /// detected before any network call.
    InvalidToken,
    /// The server answered 400: a caller-fixable problem with the input.
    ClientRejected(u16),
    /// The server answered with any other non-success status.
    UnexpectedStatus(u16),
    /// A listing response body was not the expected JSON shape.
    MalformedResponse,
}

impl AppstoreError {
    /// A short human-readable description of the error.
    pub fn describe(&self) -> (r: String)
        ensures
            r@.len() > 0,
    {
        match self {
            AppstoreError::TransportFailure(_) => {
                let r = String::from_str("failed to send request to the app store");
                proof { reveal_strlit("failed to send request to the app store"); }
                r
            },
            AppstoreError::InvalidToken => {
                let r = String::from_str(
                    "invalid token: only visible ASCII characters (32-127) are permitted",
                );
                proof {
                    reveal_strlit(
                        "invalid token: only visible ASCII characters (32-127) are permitted",
                    );
                }
                r
            },
            AppstoreError::ClientRejected(_) => {
                let r = String::from_str("the app store rejected the request (HTTP 400)");
                proof { reveal_strlit("the app store rejected the request (HTTP 400)"); }
                r
            },
            AppstoreError::UnexpectedStatus(_) => {
                let r = String::from_str("the app store answered with an unexpected HTTP status");
                proof { reveal_strlit("the app store answered with an unexpected HTTP status"); }
                r
            },
            AppstoreError::MalformedResponse => {
                let r = String::from_str("the app store answered with a malformed body");
                proof { reveal_strlit("the app store answered with a malformed body"); }
                r
            },
        }
    }
}

} // verus!
