//! Metadata propagation for data provenance tracking.
pub mod label_vec;
pub mod label_set;
pub mod metadata;
pub mod object;
pub mod store_maps;
pub mod store;
pub mod name_sets;
pub mod laws;
pub mod value;
pub mod heap;
pub mod exceptions;
pub mod vm;
pub mod collections;
pub mod iter;
pub mod args;
pub mod builtins;
pub mod modules;
pub mod display;
pub mod io;
pub mod field_args;
