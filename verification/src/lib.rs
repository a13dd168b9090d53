//! A validator for ownership and borrowing rules.
//!
//! Given an ordered sequence of events describing variable bindings, moves,
//! shared and exclusive borrows, reads, writes, and lexical scope entry and
//! exit, the validator decides whether the sequence is legal under ownership
//! rules, and reports the first violation when it is not.

/// Events, ownership states, and violation reports.
pub mod event;
/// The mathematical model of the validator: its state and step relation.
pub mod model;
/// The executable validator, proved to implement the model.
pub mod validator;
/// General laws of the validator, stated and proved over the model.
pub mod laws;
/// Small string helpers.
pub mod text;
