//! Errors of the Electrum client.
use vstd::prelude::*;
use vstd::string::*;

verus! {

/// Batch request error.
#[derive(Debug, PartialEq, Eq)]
pub enum BatchRequestError {
    /// The request was canceled before its response came.
    Canceled,
    /// The server answered with an error, which says this.
    Response(String),
}

/// Electrum client error.
#[derive(Debug, PartialEq, Eq)]
pub enum Error {
    /// I/O error
    Io(String),
    /// Invalid DNS name
    InvalidDnsName(String),
    /// Electrum async send request error
    AsyncRequestSend(String),
    /// Batch request error
    BatchRequest(BatchRequestError),
    /// Electrum async request error
    AsyncRequest(String),
    /// Response error
    Response(String),
    /// Socks error
    Socks(String),
    /// MPSC try send error
    MpscTrySend(String),
    /// Network mismatch
    NetworkMismatch,
    /// Local command queue is saturated
    CommandQueueSaturated,
    /// Timeout
    Timeout,
    /// Disconnected
    Disconnected,
    /// Termination request
    TerminationRequest,
}

impl BatchRequestError {
    /// What the error says.
    pub fn message(&self) -> (r: String)
        ensures
            r@ == match *self {
                BatchRequestError::Canceled => {
                    "Request was canceled before being satisfied."@
                },
                BatchRequestError::Response(text) => "Request satisfied with error: "@ + text@,
            },
    {
        match self {
            BatchRequestError::Canceled => {
                "Request was canceled before being satisfied.".to_owned()
            },
            BatchRequestError::Response(text) => {
                let mut message = "Request satisfied with error: ".to_owned();
                message.append(text.as_str());
                message
            },
        }
    }
}

impl Error {
    /// Returns true when the error indicates the client is no longer connected.
    pub fn is_disconnected_like(&self) -> (r: bool)
        ensures
            r == (*self == Error::Disconnected || *self == Error::BatchRequest(
                BatchRequestError::Canceled,
            )),
    {
        match self {
            Error::Disconnected => true,
            Error::BatchRequest(BatchRequestError::Canceled) => true,
            _ => false,
        }
    }

    /// What the error says.
    pub fn message(&self) -> (r: String)
        ensures
            r@ == match *self {
                Error::Io(text) => text@,
                Error::InvalidDnsName(text) => text@,
                Error::AsyncRequestSend(text) => text@,
                Error::BatchRequest(BatchRequestError::Canceled) => {
                    "Request was canceled before being satisfied."@
                },
                Error::BatchRequest(BatchRequestError::Response(text)) => {
                    "Request satisfied with error: "@ + text@
                },
                Error::AsyncRequest(text) => text@,
                Error::Response(text) => text@,
                Error::Socks(text) => text@,
                Error::MpscTrySend(text) => text@,
                Error::NetworkMismatch => {
                    "the server network does not match the expected network"@
                },
                Error::CommandQueueSaturated => "the local electrum command queue is saturated"@,
                Error::Timeout => "timeout"@,
                Error::Disconnected => "disconnected"@,
                Error::TerminationRequest => "termination request"@,
            },
    {
        match self {
            Error::Io(text) => text.clone(),
            Error::InvalidDnsName(text) => text.clone(),
            Error::AsyncRequestSend(text) => text.clone(),
            Error::BatchRequest(e) => e.message(),
            Error::AsyncRequest(text) => text.clone(),
            Error::Response(text) => text.clone(),
            Error::Socks(text) => text.clone(),
            Error::MpscTrySend(text) => text.clone(),
            Error::NetworkMismatch => {
                "the server network does not match the expected network".to_owned()
            },
            Error::CommandQueueSaturated => {
                "the local electrum command queue is saturated".to_owned()
            },
            Error::Timeout => "timeout".to_owned(),
            Error::Disconnected => "disconnected".to_owned(),
            Error::TerminationRequest => "termination request".to_owned(),
        }
    }
}

} // verus!
