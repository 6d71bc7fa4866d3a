//! A URL-shortening core: short-code generation, a durable store of URL
//! records, an ephemeral read-through cache, and the resolution engine
//! that keeps the two consistent while recording clicks.

pub mod auth;
pub mod cache;
pub mod codegen;
pub mod configuration;
pub mod models;
pub mod service;
pub mod store;
