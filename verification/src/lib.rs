//! A package manager core for prebuilt binaries published as release assets.
//!
//! The library selects the right release asset for the host platform,
//! detects the archive format, plans the extraction and installation of the
//! contained binary, keeps a lock file of what is installed, and decides,
//! package by package, whether a sync has to download anything at all.

pub mod archive;
pub mod cli;
pub mod codec;
pub mod context;
pub mod error;
pub mod installer;
pub mod lockfile;
pub mod pkg;
pub mod provider;
pub mod selector;
pub mod sync;
pub mod text;
pub mod util;
