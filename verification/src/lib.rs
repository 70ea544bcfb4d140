//! HTTP-to-embedded-runtime adapter core.
//!
//! The library turns an HTTP request into an ordered environment mapping for
//! an externally supplied handler, classifies the handler's three-element
//! result, validates handler-produced strings against a store root before any
//! file may be served, and decides how each outcome renders as an HTTP
//! response.

pub mod response;
pub mod trusted;
pub mod paths;
pub mod env;
pub mod classify;
pub mod dispatch;
