//! A command-line client's core for a document-search service: endpoint
//! resolution, error classification, schema-less documents rendered as tables,
//! and bulk loading of delimited files.
pub mod bulk;
pub mod config;
pub mod document;
pub mod error;
pub mod index;
pub mod json;
pub mod request;
pub mod response;
pub mod table;
pub mod text;
