//! Incremental synchronisation of a source tree into a translated mirror.
//!
//! The crate decides which files of a checkout are translated, where every
//! file lands in the mirror, and which translations are still current. It
//! performs no input or output of its own: a driver reads, writes and calls
//! the translation backend, and hands plain values to the functions here.

pub mod filter;
pub mod hash;
pub mod meta;
pub mod paths;
pub mod repo;
pub mod runs;
pub mod sync;
pub mod text;
pub mod walk;
