//! Typed models of the text that the `git` command prints, and the parsers and
//! command builders that produce them.

pub mod cli;
pub mod command;
pub mod diff;
pub mod error;
pub mod rebase;
pub mod status;
pub mod text;
