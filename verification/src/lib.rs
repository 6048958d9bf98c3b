//! A verified core for a small image-generation proxy.
//!
//! The library validates an inbound chat request, builds the outbound
//! generation request for the provider, and reshapes the provider's reply
//! into the response returned to the caller, surfacing every failure as a
//! structured error response.

pub mod chat;
pub mod laws;
pub mod scan;
pub mod wire;
