//! Tamper evidence for a folder: one digest that stands for every file of a
//! directory tree, bound to a salt that the caller chooses.
//!
//! A later computation over the same tree with the same salt gives the same
//! digest exactly when no file was added, removed, renamed or changed, as far
//! as SHA-256 tells messages apart.
//!
//! # The digest
//!
//! The digest of a tree is the SHA-256 digest of one message: the salt,
//! followed for each regular file, in canonical order, by
//!
//! 1. the path of the file relative to the root, as bytes,
//! 2. the salt again, and
//! 3. the SHA-256 digest of the content of the file.
//!
//! The canonical order is the lexicographic order of the relative paths,
//! component by component: the order in which a walk meets the files when it
//! reads every directory in the order of its names. It does not depend on
//! the order in which a file system lists a directory, so the digest is the
//! same on every file system. A tree without files has the digest of its
//! salt.
//!
//! A file enters the message under its whole relative path, not under its
//! name alone, so that two files of one name in two directories are told
//! apart.
//!
//! # What is left out, and what is an error
//!
//! Only regular files are covered. A directory entry that cannot be read is
//! passed over; a regular file that cannot be read to its end ends the
//! computation with an error. See [`scan`].
//!
//! # The parts
//!
//! - [`content`] hashes the content of one file, piece by piece.
//! - [`order`], [`entry`] and [`sorting`] define the canonical order of the
//!   files of a tree and put them in it.
//! - [`scan`] decides what a walk of the tree contributes.
//! - [`aggregate`] folds the salt and the files into the digest.
//! - [`validate`] compares the digest of a tree with an expected one.
//! - [`laws`] proves what holds of the digest for every tree and salt.
//! - [`cli`] reads the command line and prepares text for the terminal.
//! - [`sha256`] and [`encoding`] state what is taken on trust of the `sha2`
//!   and `hex` crates.
//!
//! Reading directories and files is left to the caller.

pub mod aggregate;
pub mod cli;
pub mod content;
pub mod encoding;
pub mod entry;
pub mod error;
pub mod laws;
pub mod order;
pub mod scan;
pub mod sha256;
pub mod sorting;
pub mod validate;
