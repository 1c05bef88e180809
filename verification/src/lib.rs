//! Correlates the branches of a repository with the code-review tickets that
//! their commits cite, and with the review status of each ticket.
//!
//! The library works on text that two outside programs produce, the
//! version-control system and the review tool, and never runs them itself:
//!
//! - [`ticket`] reads the line of a commit message that cites a ticket;
//! - [`resolver`] turns the log of a branch into the tickets that the
//!   branch introduces, oldest first;
//! - [`row`] and [`review`] read the review tool's listing into a table from
//!   ticket to review status;
//! - [`branches`] reads the listing of the local branches;
//! - [`render`] joins tickets and table into the lines of the report;
//! - [`plan`] says which query to run next and what to print, so that a
//!   caller only has to run programs and write lines.
//!
//! [`chars`], [`bytes`], [`lines`] and [`seqs`] hold the text handling that
//! the others share.

pub mod branches;
pub mod bytes;
pub mod chars;
pub mod error;
pub mod lines;
pub mod plan;
pub mod render;
pub mod resolver;
pub mod review;
pub mod row;
pub mod seqs;
pub mod ticket;
