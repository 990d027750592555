//! A line-oriented chat protocol: tokenizer, frame codec, user directory,
//! mailbox registry, and the per-request decisions of a connection.
pub mod backend;
pub mod connection;
pub mod data;
pub mod error;
pub mod request;
pub mod response;
pub mod service;
pub mod text;
pub mod token;
