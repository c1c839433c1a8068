//! Verified core of an HTTP caching reverse proxy for object stores.
pub mod capacity;
pub mod config;
pub mod rules;
pub mod routes;
pub mod storage;
pub mod cache;
pub mod upstream;
pub mod host;
