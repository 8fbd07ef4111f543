//! Recognisers for the field list of a SOQL `SELECT` clause: reserved words,
//! identifiers, dotted field paths, aggregate function calls and the
//! `FIELDS(...)` selectors.
//!
//! Every recogniser takes the unconsumed input, and returns either the rest of
//! the input together with what it read, or an error that leaves the caller at
//! the position it started from.

pub mod errors;
pub mod fields;
pub mod function_lemmas;
pub mod identifiers;
pub mod keyword_lemmas;
pub mod keywords;
pub mod matching;
pub mod path_lemmas;
pub mod text;
