//! Templated configuration documents: merging, population through
//! resolvers, caching of resolved secrets and storage by environment.

pub mod cli;
pub mod client;
pub mod failure;
pub mod json;
pub mod keyed;
pub mod server;
