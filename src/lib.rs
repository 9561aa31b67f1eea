//! A small HTTP/1.1 request router: request parsing, route patterns with
//! parameters and a trailing wildcard, first-match routing and response
//! serialisation.
pub mod config;
pub mod handlers;
pub mod http;
pub mod matcher;
pub mod parser;
pub mod router;
pub mod strmap;
pub mod text;
