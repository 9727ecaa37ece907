//! Scripts of branching dialogue: their grammar, their printed form and
//! their translation.
//!
//! `parser` reads a script from its source text. `unparser` prints a script
//! as a document and lays the document out as text. `localization` takes the
//! texts of a script out into catalogs and puts translated texts back.
//! `roundtrip` proves that a script which the parser gave reads back from
//! what the unparser makes of it. `decimal` writes numbers in digits.

pub mod decimal;
pub mod localization;
pub mod parser;
pub mod roundtrip;
pub mod unparser;
