//! The persistent index, as far as the library goes: the statements to run
//! and what to make of the rows that come back.

pub mod sqlite;
