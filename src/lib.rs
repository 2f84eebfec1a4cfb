//! Manifest reconciliation and packaging rules for mod folders.
//!
//! Every mod folder carries a `boot.json` manifest listing its asset files.
//! The library relativizes paths, merges newly found files into the
//! manifest's lists, decides which files on disk belong to the package, and
//! derives the archive's file name.
pub mod boot_json;
pub mod cofg;
pub mod package;
pub mod path;
pub mod staging;
