//! An in-memory, single-user table store: typed values and records, tables
//! kept in key order under a schema, databases of named tables, WHERE-clause
//! filters, and the commands that drive them, with a journal of commands
//! that can be written out and replayed.
//!
//! Alongside it: symbolic expressions with derivatives, small list and graph
//! routines, and the diplomatic relations of a strategy game.

pub mod value;
pub mod record;
pub mod key;
pub mod table;
pub mod database;
pub mod filter;
pub mod command;
pub mod journal;
pub mod expr;
pub mod sequences;
pub mod diplomacy;
pub mod machine;
