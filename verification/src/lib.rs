//! Deleting every object of a cluster through its public S3 endpoint.

pub mod args;
pub mod config;
pub mod date;
pub mod encoding;
pub mod error;
pub mod exchange;
pub mod journey;
pub mod listing;
pub mod outside;
pub mod query;
pub mod report;
pub mod session;
pub mod sign;
pub mod summary;
pub mod text;
pub mod url;
