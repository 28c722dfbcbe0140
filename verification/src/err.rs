//! The relay's error taxonomy and its mapping onto HTTP status codes.

use vstd::prelude::*;

verus! {

/// Everything that can go wrong inside the relay core.
#[derive(Debug, Clone)]
pub enum OrchidError {
    /// A unicast named a client id with no live connection.
    ConnectionNotFound(String),
    /// A multicast named a display name with no live connections.
    UserNotFound(String),
    /// A chat-transport operation (join, part, delivery) failed.
    TransportError(String),
    /// An invalid channel operation was requested.
    ChannelError(String),
    /// Authentication with the chat service failed.
    AuthError(String),
    /// The relay was misconfigured.
    ConfigError(String),
    /// Anything else.
    Unknown(String),
}

impl OrchidError {
    /// The HTTP status code the control plane answers with for this error.
    pub fn http_status(&self) -> (code: u16)
        ensures
            code == match self {
                OrchidError::TransportError(_) => 502u16,
                OrchidError::ConnectionNotFound(_) => 503u16,
                OrchidError::ChannelError(_) => 400u16,
                OrchidError::AuthError(_) => 401u16,
                OrchidError::UserNotFound(_) => 500u16,
                OrchidError::ConfigError(_) => 500u16,
                OrchidError::Unknown(_) => 500u16,
            },
    {
        match self {
            OrchidError::TransportError(_) => 502,
            OrchidError::ConnectionNotFound(_) => 503,
            OrchidError::ChannelError(_) => 400,
            OrchidError::AuthError(_) => 401,
            OrchidError::UserNotFound(_) => 500,
            OrchidError::ConfigError(_) => 500,
            OrchidError::Unknown(_) => 500,
        }
    }

    /// The generic, payload-free message the control plane shows clients.
    pub fn summary(&self) -> (s: String)
        ensures
            s@ == match self {
                OrchidError::TransportError(_) => "Failed to validate with Twitch"@,
                OrchidError::ConnectionNotFound(_) => "Failed to connect to service"@,
                OrchidError::ChannelError(_) => "Invalid channel operation"@,
                OrchidError::AuthError(_) => "Authentication failed"@,
                OrchidError::UserNotFound(_) => "Internal server error"@,
                OrchidError::ConfigError(_) => "Internal server error"@,
                OrchidError::Unknown(_) => "Internal server error"@,
            },
    {
        match self {
            OrchidError::TransportError(_) => String::from_str("Failed to validate with Twitch"),
            OrchidError::ConnectionNotFound(_) => String::from_str("Failed to connect to service"),
            OrchidError::ChannelError(_) => String::from_str("Invalid channel operation"),
            OrchidError::AuthError(_) => String::from_str("Authentication failed"),
            OrchidError::UserNotFound(_) => String::from_str("Internal server error"),
            OrchidError::ConfigError(_) => String::from_str("Internal server error"),
            OrchidError::Unknown(_) => String::from_str("Internal server error"),
        }
    }

    /// A detailed message naming the error and carrying its payload.
    pub fn detail(&self) -> (s: String)
        ensures
            s@ == match self {
                OrchidError::ConnectionNotFound(p) => "Connection not found: "@ + p@,
                OrchidError::UserNotFound(p) => "User not found: "@ + p@,
                OrchidError::TransportError(p) => "Chat transport error: "@ + p@,
                OrchidError::ChannelError(p) => "Channel operation failed: "@ + p@,
                OrchidError::AuthError(p) => "Authentication failed: "@ + p@,
                OrchidError::ConfigError(p) => "Configuration error: "@ + p@,
                OrchidError::Unknown(p) => "Unknown error: "@ + p@,
            },
    {
        match self {
            OrchidError::ConnectionNotFound(p) => {
                String::from_str("Connection not found: ").concat(p.as_str())
            },
            OrchidError::UserNotFound(p) => {
                String::from_str("User not found: ").concat(p.as_str())
            },
            OrchidError::TransportError(p) => {
                String::from_str("Chat transport error: ").concat(p.as_str())
            },
            OrchidError::ChannelError(p) => {
                String::from_str("Channel operation failed: ").concat(p.as_str())
            },
            OrchidError::AuthError(p) => {
                String::from_str("Authentication failed: ").concat(p.as_str())
            },
            OrchidError::ConfigError(p) => {
                String::from_str("Configuration error: ").concat(p.as_str())
            },
            OrchidError::Unknown(p) => {
                String::from_str("Unknown error: ").concat(p.as_str())
            },
        }
    }
}

/// Shorthand used throughout the relay core.
pub type OrchidResult<T> = Result<T, OrchidError>;

} // verus!
