/// Content-addressed result cache: an in-memory key-to-record store.
pub mod cache;
/// Dependency edge recorder and root detection for the discovered graph.
pub mod edges;
/// The resolution engine: queue, processed set, in-flight accounting,
/// results collector, and the per-step decision logic.
pub mod engine;
/// Canonical identity hashing for deduplication and cache addressing.
pub mod hashing;
/// License pattern matching, normalization and detection.
pub mod license;
/// The package data model and its mathematical value.
pub mod pkg;
/// Verified string predicates and utilities used throughout.
pub mod strutil;
/// Identity classification and registry URL construction.
pub mod urls;
/// Reading package identities out of a yarn lockfile.
pub mod yarn;
