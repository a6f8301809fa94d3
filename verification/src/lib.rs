//! A small static-site server core.
//!
//! The library holds the verified logic of the server: request-line
//! parsing, routing a requested path to a file of the index, computing
//! the stylesheet and script tags that belong to an HTML page, splicing
//! those tags into the page, and serializing the wire response.  The
//! surrounding process (sockets, the directory walk, the worker pool)
//! hands the library plain strings and writes back what it returns.

pub mod text;
pub mod paths;
pub mod index;
pub mod router;
pub mod links;
pub mod response;
