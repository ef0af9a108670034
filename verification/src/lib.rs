//! Mattermost API client library: the URLs and query strings of its
//! requests, the assembly of its responses, its cache and the state of its
//! channel and post lists, each with a contract proved by Verus.

pub mod client;
pub mod outside;
pub mod store;
pub mod text;
pub mod ui;

pub use client::MattermostClient;

