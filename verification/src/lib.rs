//! Verified building blocks for a Rust practice workspace: text handling,
//! integer parsing, containers, builders, error types and state machines.
pub mod text;
pub mod numparse;
pub mod testing_lab;
pub mod collections;
pub mod box_heap;
pub mod channels;
pub mod cell_refcell;
pub mod builder;
pub mod closures;
pub mod concurrency_models;
pub mod features_cfg;
pub mod r2_libbin;
pub mod error_arch;
pub mod custom_errors;
pub mod dispatch;
pub mod drop_ordering;
pub mod future_poll;
pub mod generic_bounds;
pub mod hrtb;
pub mod impl_trait;
pub mod iterators;
pub mod lifetimes;
pub mod marker_auto_traits;
pub mod assoc_vs_generic;
pub mod blanket_coherence;
pub mod borrow_toowned;
pub mod conversions;
pub mod cow;
