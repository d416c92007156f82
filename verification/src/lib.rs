//! A file-backed store of JSON documents, organised into named collections.

pub mod auth;
pub mod codec;
pub mod collections;
pub mod database;
pub mod errors;
pub mod guarantees;
pub mod json;
pub mod parser;
pub mod session;
pub mod text;
pub mod wal;
