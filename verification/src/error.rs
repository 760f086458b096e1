//! Gateway errors and the protocol identifiers that they carry.

use vstd::prelude::*;

verus! {

/// The four wire protocols the gateway speaks.
#[derive(Debug, Clone, Copy, PartialEq, Eq, Structural)]
pub enum Protocol {
    /// OpenAI Chat Completions.
    Chat,
    /// OpenAI Responses.
    Responses,
    /// Anthropic Messages.
    Messages,
    /// Google Gemini.
    Gemini,
}

/// The category of a gateway error.
#[derive(Debug, Clone, Copy, PartialEq, Eq, Structural)]
pub enum ErrorKind {
    /// The client request is malformed.
    InvalidRequest,
    /// Credentials are missing or wrong.
    Unauthenticated,
    /// The caller may not do this.
    PermissionDenied,
    /// The resource (model, route) does not exist.
    NotFound,
    /// Too many requests.
    RateLimited,
    /// The request is too large (context window exceeded).
    PayloadTooLarge,
    /// The upstream took too long.
    Timeout,
    /// No channel can serve the request.
    NoAvailableChannel,
    /// The upstream failed.
    UpstreamError,
}

/// An error that the gateway can report to a client.
#[derive(Debug)]
pub struct GatewayError {
    /// The error category.
    pub kind: ErrorKind,
    /// A message that can be shown to the client.
    pub message: String,
    /// The protocol whose upstream produced the error, if any.
    pub protocol: Option<Protocol>,
    /// The upstream's HTTP status, when it reported one.
    pub upstream_status: Option<u16>,
    /// The upstream's raw error body, when it reported one.
    pub upstream_body: Option<String>,
}

/// Model of a [`GatewayError`].
pub struct GatewayErrorV {
    pub kind: ErrorKind,
    pub message: Seq<char>,
    pub protocol: Option<Protocol>,
    pub upstream_status: Option<u16>,
    pub upstream_body: Option<Seq<char>>,
}

/// An error with no upstream status or body.
pub open spec fn plain_error(kind: ErrorKind, message: Seq<char>, protocol: Option<Protocol>) -> GatewayErrorV {
    GatewayErrorV { kind, message, protocol, upstream_status: None, upstream_body: None }
}

impl View for GatewayError {
    type V = GatewayErrorV;

    open spec fn view(&self) -> GatewayErrorV {
        GatewayErrorV {
            kind: self.kind,
            message: self.message@,
            protocol: self.protocol,
            upstream_status: self.upstream_status,
            upstream_body: match self.upstream_body {
                Some(b) => Some(b@),
                None => None,
            },
        }
    }
}

/// The OpenAI-style error `type` string for a kind.
pub open spec fn openai_type_of(kind: ErrorKind) -> Seq<char> {
    match kind {
        ErrorKind::InvalidRequest => "invalid_request_error"@,
        ErrorKind::Unauthenticated => "authentication_error"@,
        ErrorKind::PermissionDenied => "permission_error"@,
        ErrorKind::NotFound => "not_found_error"@,
        ErrorKind::RateLimited => "rate_limit_error"@,
        ErrorKind::PayloadTooLarge => "request_too_large"@,
        ErrorKind::Timeout => "timeout_error"@,
        ErrorKind::NoAvailableChannel => "overloaded_error"@,
        ErrorKind::UpstreamError => "api_error"@,
    }
}

impl ErrorKind {
    /// The OpenAI-style error `type` string for this kind.
    pub fn openai_type(&self) -> (res: &'static str)
        ensures
            res@ == openai_type_of(*self),
    {
        match self {
            ErrorKind::InvalidRequest => "invalid_request_error",
            ErrorKind::Unauthenticated => "authentication_error",
            ErrorKind::PermissionDenied => "permission_error",
            ErrorKind::NotFound => "not_found_error",
            ErrorKind::RateLimited => "rate_limit_error",
            ErrorKind::PayloadTooLarge => "request_too_large",
            ErrorKind::Timeout => "timeout_error",
            ErrorKind::NoAvailableChannel => "overloaded_error",
            ErrorKind::UpstreamError => "api_error",
        }
    }
}

/// Whether a failure of this kind may succeed when sent again, on this or another channel.
pub open spec fn kind_is_retryable(kind: ErrorKind) -> bool {
    match kind {
        ErrorKind::RateLimited | ErrorKind::Timeout | ErrorKind::NoAvailableChannel | ErrorKind::UpstreamError => true,
        _ => false,
    }
}

impl GatewayError {
    /// Whether sending the request again may succeed: rate limits, timeouts and upstream failures.
    pub fn is_retryable(&self) -> (res: bool)
        ensures
            res == kind_is_retryable(self.kind),
    {
        match self.kind {
            ErrorKind::RateLimited | ErrorKind::Timeout | ErrorKind::NoAvailableChannel | ErrorKind::UpstreamError => true,
            _ => false,
        }
    }

    /// An error of the given kind and message, tied to no protocol.
    pub fn new(kind: ErrorKind, message: String) -> (res: GatewayError)
        ensures
            res.kind == kind,
            res.message@ == message@,
            res.protocol.is_none(),
            res.upstream_status.is_none() && res.upstream_body.is_none(),
    {
        GatewayError { kind, message, protocol: None, upstream_status: None, upstream_body: None }
    }

    /// An [`ErrorKind::InvalidRequest`] error.
    pub fn invalid_request(message: String) -> (res: GatewayError)
        ensures
            res.kind == ErrorKind::InvalidRequest,
            res.message@ == message@,
            res.protocol.is_none(),
            res.upstream_status.is_none() && res.upstream_body.is_none(),
    {
        GatewayError::new(ErrorKind::InvalidRequest, message)
    }

    /// Records the protocol whose upstream produced this error.
    pub fn with_protocol(self, protocol: Protocol) -> (res: GatewayError)
        ensures
            res.kind == self.kind,
            res.message@ == self.message@,
            res.protocol == Some(protocol),
            res.upstream_status == self.upstream_status,
            res.upstream_body == self.upstream_body,
    {
        GatewayError {
            kind: self.kind,
            message: self.message,
            protocol: Some(protocol),
            upstream_status: self.upstream_status,
            upstream_body: self.upstream_body,
        }
    }

    /// Records the upstream HTTP status and raw body.
    pub fn with_upstream(self, status: u16, body: String) -> (res: GatewayError)
        ensures
            res.kind == self.kind,
            res.message@ == self.message@,
            res.protocol == self.protocol,
            res.upstream_status == Some(status),
            res.upstream_body matches Some(b) && b@ == body@,
    {
        GatewayError {
            kind: self.kind,
            message: self.message,
            protocol: self.protocol,
            upstream_status: Some(status),
            upstream_body: Some(body),
        }
    }

    /// An [`ErrorKind::Unauthenticated`] error.
    pub fn unauthenticated(message: String) -> (res: GatewayError)
        ensures
            res.kind == ErrorKind::Unauthenticated,
            res.message@ == message@,
            res.protocol.is_none(),
            res.upstream_status.is_none() && res.upstream_body.is_none(),
    {
        GatewayError::new(ErrorKind::Unauthenticated, message)
    }

    /// An [`ErrorKind::NotFound`] error.
    pub fn not_found(message: String) -> (res: GatewayError)
        ensures
            res.kind == ErrorKind::NotFound,
            res.message@ == message@,
            res.protocol.is_none(),
            res.upstream_status.is_none() && res.upstream_body.is_none(),
    {
        GatewayError::new(ErrorKind::NotFound, message)
    }
}

} // verus!
