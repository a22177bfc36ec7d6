//! Coordination kernel of a metadata service: a transactional in-memory
//! key-value store, a sequence generator on top of it, node selection for
//! region placement, lease-based locks, leader election, the decisions of
//! the service's start and shutdown, and the ordering of optimizer rules.
pub mod codec;
pub mod election;
pub mod error;
pub mod keys;
pub mod kv;
pub mod lease;
pub mod lifecycle;
pub mod rules;
pub mod sequence;
pub mod selector;
