//! A data-parallel entity-component simulation runtime, verified.
//!
//! Entities (fixed tuples of components) and components live in dense
//! buffers. During the *process* phase of a tick, user logic runs over all
//! of them and may only stage mutations: field modifiers, additions and
//! removals are queued, merged by a small algebra, and applied later. The
//! *flush* phase then commits every staged change exclusively, compacting
//! the dense storage with swap-removals in descending index order so that
//! earlier removals never invalidate later ones.
//!
//! The modules mirror that split: [`field`] holds the mutation-staging
//! value cells and their merge algebra, [`buffer`] and [`store`] hold the
//! dense storage with its queued add/remove lifecycle, [`universe`]
//! drives the two-phase tick loop, and [`gate`] and [`locking`] hold the
//! phase-exclusion and all-or-nothing locking disciplines. [`removal`]
//! pins down, once, what one compaction flush commits; [`worker`] and
//! [`future`] carry the decision logic of the off-thread collaborators.

pub mod bimap;
pub mod buffer;
pub mod entity;
pub mod ext;
pub mod field;
pub mod future;
pub mod gate;
pub mod locking;
pub mod registry;
pub mod removal;
pub mod store;
pub mod universe;
pub mod worker;
