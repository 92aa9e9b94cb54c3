//! Core of a version manager for PHP builds: the remote tag catalog and its
//! synchronisation, the streaming download of a source archive, and the
//! safe placement of archive entries under a destination directory.

pub mod catalog;
pub mod cli;
pub mod download;
pub mod entry_path;
pub mod source;
pub mod sync;
pub mod text;
