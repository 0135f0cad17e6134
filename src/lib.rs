//! Drives an axum service from hosts that either pull a response body chunk by chunk
//! or take the whole response back as one encoded value.

pub mod error;
pub mod headers;
pub mod text;
pub mod body;
pub mod request;
pub mod response;
pub mod session;
pub mod environ;
