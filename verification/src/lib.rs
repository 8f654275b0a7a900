//! A small loader for `KEY=VALUE` profile files.
//!
//! A profile is a text file with one entry per line. [`Envy`] is the store of
//! the entries of one profile; it is loaded from the [`Files`] that the caller
//! could open, and answers lookups by key. How one line is read is said in
//! [`line`], how a whole file is read in [`source`], and what white space is
//! in [`text`]. The module [`laws`] holds what follows from them.

pub mod envy;
pub mod files;
pub mod laws;
pub mod line;
pub mod source;
pub mod text;

pub use crate::envy::{Envy, Mode};
pub use crate::files::{Files, OpenError};
