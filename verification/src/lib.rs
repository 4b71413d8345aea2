//! Core of a time-based vector animation store.
//!
//! The crate models an animation as an append-only edit log, a table of
//! elements, and a set of layers that each hold a time-ordered sequence of
//! keyframes.  All mutation and querying goes through a closed protocol of
//! storage commands ([`protocol::StorageCommand`]) answered one batch at a
//! time by the in-memory core ([`store::InMemoryStorageCore`]).  A layer
//! rendering cache and the compact serializers for edits, time curves and
//! drawing instructions sit beside the core.

pub mod protocol;
pub mod store_model;
pub mod store;
pub mod laws;
pub mod data_codec;
pub mod edit_codec;
pub mod time_curve;
pub mod drawing_codec;
pub mod layer_cache;
pub mod edit_log;
pub mod vector_layer;
pub mod control_attributes;
pub mod renderer;
pub mod cocoa_actions;
pub mod file_manager;
