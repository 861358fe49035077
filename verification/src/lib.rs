//! An entity-component-system scheduling runtime.
//!
//! The crate offers a typed store of resources, components and event
//! channels, named schedules of systems with explicit ordering
//! constraints, an ordered registry of schedules that makes up one tick,
//! a double-buffered event channel with a per-tick flip, a reflection
//! registry keyed by 128-bit stable identifiers, and a driver that runs
//! one tick at a time.

pub mod events;
pub mod keyed;
pub mod module;
pub mod schedule;
pub mod schedules;
pub mod store;
pub mod value;
pub mod world;
