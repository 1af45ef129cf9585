//! A small fetcher of resources over HTTP, HTTPS and from `file:` and `data:`
//! identifiers: identifier parsing, the request and response codec, bounded
//! redirect resolution and a content-addressed response cache.

pub mod cache;
pub mod digest;
pub mod error;
pub mod gzip;
pub mod headers;
pub mod redirect;
pub mod render;
pub mod request;
pub mod text;
pub mod uri;
pub mod url;
pub mod wire;
