//! Reading answers to terminal prompts: choice lists with exact and fuzzy
//! matching, and the rules by which the simple input shapes accept a line.
//!
//! The library holds the decisions; the caller owns the terminal. It shows
//! the lines the library renders, reads a line, and asks the library what
//! that line means.

pub mod basics;
pub mod choice;
pub mod extract;
pub mod fuzzy;
pub mod selector;
pub mod validate;
