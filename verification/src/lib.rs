//! Dependency resolution and content-verified download decisions for a
//! Modrinth mod folder.
//!
//! The library holds the rules; it performs no I/O. A caller talks to the
//! registry and to the disk, and hands what it got to the functions here.
//!
//! - [`modrinth`]: the registry's data, the choice of a version's file, the
//!   query and the addresses that the registry is asked with.
//! - [`resolve`]: the passes that close a set of mods under their required
//!   dependencies.
//! - [`closure`] and [`passes`]: what those passes reach, proved against a
//!   registry taken as its answers.
//! - [`download`]: when a file on disk is good enough, and when fetched
//!   bytes may be written.
//! - [`digest`]: SHA-512 digests and their hexadecimal form.
//! - [`arguments`] and [`mmg_parse`]: the command line and the id files.
//! - [`text`]: the few operations on texts that the rest builds on.

pub mod arguments;
pub mod closure;
pub mod digest;
pub mod download;
pub mod mmg_parse;
pub mod modrinth;
pub mod passes;
pub mod resolve;
pub mod text;
