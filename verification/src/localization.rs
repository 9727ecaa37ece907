//! Taking the texts of a script out into catalogs, and putting translated
//! texts back.
//!
//! `extract` walks a script for its texts; `replace` walks it the same way
//! and puts a translation in the place of each; `catalog` is the store that
//! both speak to. `laws`, `identity` and `structure` state what holds of
//! the two walks.

pub mod catalog;
pub mod extract;
pub mod identity;
pub mod laws;
pub mod replace;
pub mod structure;
