//! Trash-can management library: locating the active trash root, parsing and
//! serializing per-item metadata records, reconciling the `files/` and `info/`
//! halves of a trash directory into a consistent entry index, and planning the
//! state-changing operations (put, restore, purge, empty).

pub mod clock;
pub mod datetime;
pub mod index;
pub mod info;
pub mod locator;
pub mod ops;
pub mod strutil;
pub mod trash;
