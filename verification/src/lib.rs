//! A one-line shell prompt: who and where you are, plus the git branch and
//! exact tag when you are inside a repository.
//!
//! The library computes every piece of the line from plain values: the shell
//! dialects, the path display, the reading of a repository's HEAD, and the
//! rendering of the line itself. Reading the environment, the file system and
//! git's own answers is left to the caller.

pub mod text;
pub mod shell;
pub mod path;
pub mod git;
pub mod prompt;
pub mod cli;
