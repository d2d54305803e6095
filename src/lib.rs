//! A level-triggered reconciliation loop for watched cluster objects: a
//! deduplicating, per-object exclusive work queue, a pure reconciler, and the
//! decisions the controller loop takes after each fetch.
pub mod object_ref;
pub mod reconciler;
pub mod work_queue;
pub mod controller;
