//! Reads the two tables of the Unicode Character Database that list the blocks and the
//! characters, and renders for each block the source text of a module: the constants of
//! its characters, an enumeration of them, and the conversions between the enumeration,
//! characters and code points.
//!
//! - [`text`], [`hex`] and [`scalar`] hold what the tables are read with.
//! - [`unicode_blocks`] and [`unicode_data`] read the two tables.
//! - [`names`] makes identifiers from names.
//! - [`generate`] renders the text.
//! - [`enumeration`] states what a rendered enumeration computes.
//! - [`collision`] finds identifiers that are defined twice.
//! - [`error`] holds what can go wrong.

pub mod collision;
pub mod enumeration;
pub mod error;
pub mod generate;
pub mod hex;
pub mod names;
pub mod scalar;
pub mod text;
pub mod unicode_blocks;
pub mod unicode_data;
