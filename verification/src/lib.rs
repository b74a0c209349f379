//! A verified object-lifecycle arena: a slot-based object pool handing out
//! generation-tagged 64-bit identifiers, a parent/child containment tree with
//! positional slots, and per-object attribute change tracking for persistence
//! and replication.
//!
//! Objects are owned by a central [`factory::Factory`]; parents, children and
//! back-references are stored as validated identifiers rather than pointers,
//! so liveness is decided solely by slot occupancy.

pub mod attrs;
pub mod factory;
pub mod ids;
pub mod maths;
pub mod object;
pub mod options;
pub mod registry;
pub mod scene;
pub mod wire;
