//! Running a program out of a package repository without installing it.
//!
//! A program name is resolved to an attribute path (`resolve`), the path is
//! built by an external tool (`tool`), the directories of the build's output
//! and of its propagated inputs are collected (`collect`), the program is
//! located in them (`locate`), and the search path under which it is started
//! is assembled (`launch`).
//!
//! The library starts no process and reads no file. It says which question
//! to ask next and what follows from the answers; `search` holds the rule
//! that resolving and locating share: candidates are tried in order, and the
//! first success wins. Only `probe` looks at the file system.

pub mod collect;
pub mod launch;
pub mod locate;
pub mod path;
pub mod probe;
pub mod resolve;
pub mod search;
pub mod text;
pub mod tool;
