//! Incremental archiver for the posts of forum boards behind a cookie-derived session.
//!
//! The crate holds the decisions of the archiver: reading a browser cookie jar,
//! encoding and refreshing credentials, extracting the session token, choosing
//! the range of post IDs to scan and when to stop, classifying API responses, and
//! naming archived files. Network and filesystem work is left to the caller.
pub mod auth;
pub mod config;
pub mod cookies;
pub mod crawl;
pub mod error;
pub mod post;
pub mod text;
