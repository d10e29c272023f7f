//! Bookkeeping for an authoritative rigid-body simulation whose bodies are
//! mirrored into persisted entity records.
//!
//! The physics engine (rapier) owns the live bodies; this crate owns the
//! association between those bodies and entity identifiers, the persistable
//! encoding of engine handles, the allocation of entity identifiers, and the
//! lifecycle operations that keep the live world and the persisted records in
//! step with one another.
pub mod handle;
pub mod engine;
pub mod ids;
pub mod lifecycle;
pub mod records;
pub mod world;
