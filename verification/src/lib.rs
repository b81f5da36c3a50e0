//! A minimal webhook challenge-echo library.
//!
//! A messaging platform verifies a webhook URL by sending a JSON payload
//! with a `challenge` field and expecting the value echoed back inside a
//! JSON object under the same key. This crate holds the verified core of
//! such an endpoint: the handler that branches on the optional challenge,
//! and the JSON encoding of the response body.

pub mod json;
pub mod handler;
