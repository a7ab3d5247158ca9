//! A narrow command bridge between a desktop front-end and the local `git`
//! binary.
//!
//! The bridge turns a structured request (working directory, argument
//! vector, optional standard-input payload) into a spawned `git` child
//! process and returns the child's captured standard output, standard
//! error, and exit code as one record.  The process spawning itself is
//! plain I/O and lives with the host shell; this crate holds and proves
//! the logic around it: assembling the response record, classifying how
//! the child ended, the default-branch summary (argument vectors, output
//! parsing, ahead/behind arithmetic), and the timestamp the summary
//! carries.

pub mod error;
pub mod response;
pub mod summary;
pub mod text;
pub mod timestamp;
