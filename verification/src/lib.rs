//! A personal video-library index.
//!
//! The library decides which of the files that a walk enumerates are
//! movies, brings them into the order of their names, signs the list with a
//! hash that tells one scan from another, and merges a later scan into the
//! archive without losing what the user marked as watched. Nothing here
//! reads a directory, probes a file or draws a screen: a walk, a prober and
//! an interface hand plain values in and take plain values back.
//!
//! - [`names`]: the order of names.
//! - [`catalogue`]: name-sorted lists, lookup by binary search, the stable
//!   sort and the merge.
//! - [`signature`]: the hash of a list.
//! - [`clock`]: points in time.
//! - [`collector`]: what counts as a movie, and what a scan yields.
//! - [`archive`]: the archive with its invariant: names strictly increase.
//! - [`movies_archive`], [`movies_collector`], [`movies`]: the same for
//!   movies that carry a plain watched-flag; the last merges on a thread
//!   pool, through [`parallel`].
//! - [`tui`]: what the interface computes before it draws.
//!
//! A movie is known by its file's base name. Two files of one name, in
//! whatever directories, count as one movie, and the archive keeps the one
//! it knew first.

pub mod archive;
pub mod catalogue;
pub mod clock;
pub mod collector;
pub mod movies;
pub mod movies_archive;
pub mod movies_collector;
pub mod names;
pub mod parallel;
pub mod signature;
pub mod tui;
