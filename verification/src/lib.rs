//! A minimal HTTP/1.1 request parsing, routing and response formatting
//! library for a small static-file server with a JSON guessing endpoint.

pub mod error;
pub mod guess;
pub mod http;
pub mod utils;
