//! HyParView partial-view membership and a content-addressed, multi-signed
//! entity model with quorum-gated revision updates.
//!
//! The membership half keeps a small active set of live peers and a larger
//! passive reserve, and turns inbound protocol messages into view transitions
//! plus deferred I/O intents. The entity half builds hash-addressed, signed
//! identity documents and verifies chains of revisions under a quorum rule.

pub mod bytes;
pub mod codec;
pub mod entity;
pub mod entity_data;
pub mod hpv;
pub mod keys;
pub mod namespace;
pub mod partial_view;
pub mod peer;
pub mod rng;
pub mod tick;
pub mod uri;
