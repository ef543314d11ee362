//! Verified core of the SILO game launcher: library parsing, save-folder
//! detection, backup bookkeeping and the scoring rules behind imports.

pub mod text;
pub mod vdf;
pub mod metadata;
pub mod saveguard;
pub mod commands;
pub mod percent;
pub mod backups;
pub mod sort;
pub mod games;
pub mod session;
pub mod scan;
pub mod library;
pub mod steam;
pub mod places;
pub mod archive;
pub mod fonts;
pub mod settings;
pub mod restore;
pub mod envvars;
