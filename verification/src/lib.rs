//! Verified core of an entity-component columnar storage access layer.
//!
//! The crate models the storage engine (entities, per-entity component
//! columns, a deferred command queue) as explicit, bounds-checked data, and
//! verifies the three layers that sit on top of it:
//!
//! * an identifier codec for plain component ids and encoded
//!   (relationship, target) pair ids with flag bits,
//! * a multi-component fetch engine resolving required/optional slot
//!   descriptors against an entity's current storage location, under a
//!   strict or a lenient absence policy,
//! * a deferred-mutation engine that writes component values correctly in
//!   both the immediate and the command-buffering regime, without ever
//!   destroying a value that was never constructed.
//!
//! Around them sit the relationship and pair helpers of the entity view,
//! cached component references that revalidate their location before
//! every read, and hierarchical names and paths.

pub mod component;
pub mod entity;
pub mod entity_view;
pub mod fetch;
pub mod ids;
pub mod mutate;
pub mod naming;
pub mod refs;
pub mod world;
