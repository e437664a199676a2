//! The runtime's error type and how each error is answered over HTTP:
//! status code, OpenAI error `type`, machine-readable `code` and message.
use vstd::prelude::*;
use crate::text::{concat_str, string_from_str};

verus! {

/// Errors surfaced by the switchboard.
#[derive(Debug)]
pub enum RuntimeError {
    ModelNotFound(String),
    BackendError(String),
    _BackendNotHealthy(String),
    ModelLoadingFailed(String),
    ModelLoadingTimeout(String),
    ConfigError(String),
    ProxyError(String),
    SerializationError(String),
    InternalError(String),
    InvalidRequest(String),
    _Unauthorized,
    _RateLimitExceeded,
    _ServiceUnavailable(String),
}

/// `(HTTP status, error type, error code)` of each variant.
pub open spec fn http_parts(e: RuntimeError) -> (u16, Seq<char>, Seq<char>) {
    match e {
        RuntimeError::ModelNotFound(_) => (404, "invalid_request_error"@, "model_not_found"@),
        RuntimeError::BackendError(_) => (502, "server_error"@, "backend_error"@),
        RuntimeError::_BackendNotHealthy(_) => (503, "server_error"@, "backend_not_healthy"@),
        RuntimeError::ModelLoadingFailed(_) => (503, "server_error"@, "model_loading_failed"@),
        RuntimeError::ModelLoadingTimeout(_) => (504, "server_error"@, "model_loading_timeout"@),
        RuntimeError::ConfigError(_) => (500, "server_error"@, "config_error"@),
        RuntimeError::ProxyError(_) => (502, "server_error"@, "proxy_error"@),
        RuntimeError::SerializationError(_) => (500, "server_error"@, "serialization_error"@),
        RuntimeError::InternalError(_) => (500, "server_error"@, "internal_error"@),
        RuntimeError::InvalidRequest(_) => (400, "invalid_request_error"@, "invalid_request"@),
        RuntimeError::_Unauthorized => (401, "authentication_error"@, "unauthorized"@),
        RuntimeError::_RateLimitExceeded => (429, "rate_limit_error"@, "rate_limit_exceeded"@),
        RuntimeError::_ServiceUnavailable(_) => (503, "server_error"@, "service_unavailable"@),
    }
}

/// The human-readable message of each variant.
pub open spec fn message_of(e: RuntimeError) -> Seq<char> {
    match e {
        RuntimeError::ModelNotFound(s) => "Model not found: "@ + s@,
        RuntimeError::BackendError(s) => "Backend error: "@ + s@,
        RuntimeError::_BackendNotHealthy(s) => "Backend not healthy: "@ + s@,
        RuntimeError::ModelLoadingFailed(s) => "Model loading failed: "@ + s@,
        RuntimeError::ModelLoadingTimeout(s) => "Model loading timeout: "@ + s@,
        RuntimeError::ConfigError(s) => "Configuration error: "@ + s@,
        RuntimeError::ProxyError(s) => "Proxy error: "@ + s@,
        RuntimeError::SerializationError(s) => "Serialization error: "@ + s@,
        RuntimeError::InternalError(s) => "Internal error: "@ + s@,
        RuntimeError::InvalidRequest(s) => "Invalid request: "@ + s@,
        RuntimeError::_Unauthorized => "Authentication required"@,
        RuntimeError::_RateLimitExceeded => "Rate limit exceeded"@,
        RuntimeError::_ServiceUnavailable(s) => "Service unavailable: "@ + s@,
    }
}

impl RuntimeError {
    /// The text the error displays as.
    pub fn message(&self) -> (r: String)
        ensures
            r@ == message_of(*self),
    {
        match self {
            RuntimeError::ModelNotFound(s) => concat_str("Model not found: ", s.as_str()),
            RuntimeError::BackendError(s) => concat_str("Backend error: ", s.as_str()),
            RuntimeError::_BackendNotHealthy(s) => concat_str("Backend not healthy: ", s.as_str()),
            RuntimeError::ModelLoadingFailed(s) => concat_str("Model loading failed: ", s.as_str()),
            RuntimeError::ModelLoadingTimeout(s) => concat_str("Model loading timeout: ", s.as_str()),
            RuntimeError::ConfigError(s) => concat_str("Configuration error: ", s.as_str()),
            RuntimeError::ProxyError(s) => concat_str("Proxy error: ", s.as_str()),
            RuntimeError::SerializationError(s) => concat_str("Serialization error: ", s.as_str()),
            RuntimeError::InternalError(s) => concat_str("Internal error: ", s.as_str()),
            RuntimeError::InvalidRequest(s) => concat_str("Invalid request: ", s.as_str()),
            RuntimeError::_Unauthorized => string_from_str("Authentication required"),
            RuntimeError::_RateLimitExceeded => string_from_str("Rate limit exceeded"),
            RuntimeError::_ServiceUnavailable(s) => concat_str("Service unavailable: ", s.as_str()),
        }
    }

    /// The HTTP status the error is answered with.
    pub fn status_code(&self) -> (r: u16)
        ensures
            r == http_parts(*self).0,
    {
        match self {
            RuntimeError::ModelNotFound(_) => 404,
            RuntimeError::BackendError(_) => 502,
            RuntimeError::_BackendNotHealthy(_) => 503,
            RuntimeError::ModelLoadingFailed(_) => 503,
            RuntimeError::ModelLoadingTimeout(_) => 504,
            RuntimeError::ConfigError(_) => 500,
            RuntimeError::ProxyError(_) => 502,
            RuntimeError::SerializationError(_) => 500,
            RuntimeError::InternalError(_) => 500,
            RuntimeError::InvalidRequest(_) => 400,
            RuntimeError::_Unauthorized => 401,
            RuntimeError::_RateLimitExceeded => 429,
            RuntimeError::_ServiceUnavailable(_) => 503,
        }
    }

    /// The OpenAI error `type`.
    pub fn error_type(&self) -> (r: &'static str)
        ensures
            r@ == http_parts(*self).1,
    {
        match self {
            RuntimeError::ModelNotFound(_) => "invalid_request_error",
            RuntimeError::InvalidRequest(_) => "invalid_request_error",
            RuntimeError::_Unauthorized => "authentication_error",
            RuntimeError::_RateLimitExceeded => "rate_limit_error",
            _ => "server_error",
        }
    }

    /// The machine-readable error `code`.
    pub fn code(&self) -> (r: &'static str)
        ensures
            r@ == http_parts(*self).2,
    {
        match self {
            RuntimeError::ModelNotFound(_) => "model_not_found",
            RuntimeError::BackendError(_) => "backend_error",
            RuntimeError::_BackendNotHealthy(_) => "backend_not_healthy",
            RuntimeError::ModelLoadingFailed(_) => "model_loading_failed",
            RuntimeError::ModelLoadingTimeout(_) => "model_loading_timeout",
            RuntimeError::ConfigError(_) => "config_error",
            RuntimeError::ProxyError(_) => "proxy_error",
            RuntimeError::SerializationError(_) => "serialization_error",
            RuntimeError::InternalError(_) => "internal_error",
            RuntimeError::InvalidRequest(_) => "invalid_request",
            RuntimeError::_Unauthorized => "unauthorized",
            RuntimeError::_RateLimitExceeded => "rate_limit_exceeded",
            RuntimeError::_ServiceUnavailable(_) => "service_unavailable",
        }
    }
}

} // verus!
