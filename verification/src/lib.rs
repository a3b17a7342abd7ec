//! A small client library for a transactional-email provider's HTTP API.
//!
//! The crate builds a correctly encoded send-email request from a structured
//! message description and interprets the provider's response into a typed
//! success value or a typed error. The HTTP transport itself is left to the
//! caller; everything that computes — address rendering, parameter encoding,
//! endpoint resolution, response interpretation — is verified here.

pub mod address;
pub mod client;
pub mod json;
pub mod laws;
pub mod message;
