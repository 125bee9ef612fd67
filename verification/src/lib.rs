//! Bookcases, shelves and books of a personal library, with the rules that
//! the shelf service applies to them: ownership, ordering by position,
//! reordering, moving books between shelves, and signing users in.

pub mod error;
pub mod ids;
pub mod rows;
pub mod seqs;
pub mod text;
pub mod arrange;
pub mod auth;
pub mod catalog;
pub mod order;
