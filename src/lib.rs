//! A small HTTP/1.1 engine: request parsing, route matching, cookie
//! encoding and decoding, response serialisation and the per-connection
//! dispatch decisions.
pub mod text;
pub mod method;
pub mod table;
pub mod headers;
pub mod query;
pub mod cookies;
pub mod status;
pub mod request;
pub mod response;
pub mod route;
pub mod application;
pub mod static_files;
pub mod handlers;
