//! Staging of a book's source files for a documentation tool: a manifest of
//! relative paths is parsed, each file is moved into the staging directory, and
//! every moved file is moved back once the tool has run.
use vstd::prelude::*;

pub mod error;
pub mod text;
pub mod manifest;
pub mod path;
pub mod guard;
pub mod model;
pub mod session;
