//! Resolves command-line path tokens, the standard-input sentinel and
//! delimiter-separated path streams into the ordered list of regular files
//! they name.
//!
//! The library decides; it reads no file. `expand_osstr`, `expand_arguments`
//! and `Argument::expand` begin an `Expansion`, which asks its driver to
//! probe and walk paths and is fed what the driver found.

pub mod argument;
pub mod delimiter;
pub mod expansion;
pub mod stream;
pub mod walk;

pub use argument::{expand_arguments, expand_osstr, Argument};
pub use delimiter::{InvalidDelimiter, Split};
pub use expansion::{Action, Event, ExpandError, Expansion};
pub use walk::{Parallelism, Walk, WalkDirOptions, WalkEntry};
