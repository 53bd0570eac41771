//! Error kinds of the proxy and the HTTP status each one is answered with.
use vstd::prelude::*;

verus! {

/// Per-request errors, answered with a status by the proxy itself.
#[derive(Debug, Clone, Copy, PartialEq, Eq, Structural)]
pub enum RequestError {
    /// No usable host identity in the request.
    BadRequest,
    /// No virtual host or no path rule for the request.
    NotFound,
    /// The `Host` header names another host than the TLS server name.
    MisdirectedRequest,
    /// The upstream could not be reached or its TLS failed.
    BadGateway,
    /// The upstream did not answer in time.
    GatewayTimeout,
    /// A fault of the proxy itself.
    Internal,
}

/// Reasons a TLS handshake is abandoned; the connection is dropped.
#[derive(Debug, Clone, Copy, PartialEq, Eq, Structural)]
pub enum TlsError {
    HandshakeTimeout,
    NoSni,
    ClientCertRejected,
    NoCertificate,
}

/// Status code of a response originating in the proxy.
pub open spec fn status_of(e: RequestError) -> u16 {
    match e {
        RequestError::BadRequest => 400,
        RequestError::NotFound => 404,
        RequestError::MisdirectedRequest => 421,
        RequestError::BadGateway => 502,
        RequestError::GatewayTimeout => 504,
        RequestError::Internal => 500,
    }
}

impl RequestError {
    /// The HTTP status code this error is answered with.
    pub fn status_code(&self) -> (r: u16)
        ensures
            r == status_of(*self),
    {
        match self {
            RequestError::BadRequest => 400,
            RequestError::NotFound => 404,
            RequestError::MisdirectedRequest => 421,
            RequestError::BadGateway => 502,
            RequestError::GatewayTimeout => 504,
            RequestError::Internal => 500,
        }
    }
}

} // verus!
