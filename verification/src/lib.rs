//! The decisions of Smol, a local media compressor for Windows: what is known of a
//! path and which files are offered for compression, how an original is replaced
//! by its compressed version, and how files come from an Android device and go
//! back to it.
//!
//! File operations, `adb` and the shell are left to the caller. Functions that
//! need them say what is to be done, and are told what came of it.

pub mod adb;
pub mod deliver;
pub mod error;
pub mod fs_bridge;
pub mod import;
pub mod pull;
pub mod replace;
pub mod spike;
pub mod text;
pub mod winpath;
pub mod winpath_laws;
pub mod workspace;
