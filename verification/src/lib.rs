//! A verified core for a small grocery-inventory service.
//!
//! The crate models one document collection of named, quantified entries and
//! proves the semantics the service relies on: listings come back sorted by
//! name with one entry per name, an upsert adds to an existing quantity
//! instead of overwriting it, and a delete removes at most one entry and
//! succeeds even when nothing matches. Around that model sit a verified
//! codec for the two JSON body shapes on the wire and the route-dispatch
//! rules that tie HTTP methods to the store operations.

pub mod codec;
pub mod errors;
pub mod items;
pub mod laws;
pub mod model;
pub mod render;
pub mod router;
pub mod store;
pub mod text;
