//! Verified core of a small page-publishing system.
//!
//! The crate persists structured documents ("pages": SEO metadata plus an HTML
//! body), keeps a rebuildable secondary index over them, and carries a minimal
//! streaming HTML tokenizer that backs both validation of incoming HTML and
//! surgical rewriting of the `<head>` section with SEO metadata.
//!
//! The store itself works on an explicit in-memory model of the storage root;
//! the unverified shell around the crate mirrors that model to disk.

pub mod dto;
pub mod escape;
pub mod inject;
pub mod paths;
pub mod scan;
pub mod store;
pub mod strutil;
pub mod tools;
pub mod validate;
pub mod web;
