//! A small document store: schema-less documents in named collections,
//! addressed by 128-bit identities, with equality filters, field-merging
//! updates, and a residency table that decides when idle collections are
//! written back and dropped from memory.

pub mod collection;
pub mod config;
pub mod document;
pub mod identity;
pub mod lifecycle;
pub mod service;
pub mod store;
pub mod persist;
