//! Typed, structurally described records ("components") attached to entities,
//! shared across a boundary that exchanges only plain values and addresses.
//!
//! The crate is layered leaf to root:
//!
//! - `error`, `types`, `value`, `bytes`, `text`: error kinds, field types,
//!   typed scalar values, little-endian numbers and names.
//! - `schema`, `registry`: record layouts, and the store that keeps them by
//!   name and by id.
//! - `record`: typed reads and writes of raw record memory.
//! - `query`, `cursor`: filter terms, and the walk over batches of matches.
//! - `wire`, `codec`, `frame`: the self-describing payload of a component, the
//!   record codec on top of it, and the bytes of a whole entity.
//! - `world`: the owned context that ties the layers to a small entity store.
//! - `api`, `members`, `iteration`: the flat call surface over a world.
//! - `laws`: what holds of a world across operations.
//!
//! Floats never appear as such: an `F32` or `F64` field is read, written and
//! carried as its IEEE-754 bit pattern, and callers convert at the edge.
#![allow(non_camel_case_types)]

pub mod error;
pub mod types;
pub mod value;
pub mod bytes;
pub mod text;
pub mod schema;
pub mod registry;
pub mod record;
pub mod query;
pub mod cursor;
pub mod wire;
pub mod codec;
pub mod frame;
pub mod world;
pub mod laws;
pub mod api;
pub mod members;
pub mod iteration;
