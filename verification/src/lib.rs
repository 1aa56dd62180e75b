//! Verified core of a Nintendo Switch game installer: which files count as
//! game backups, the list of files staged for installation, the progress
//! events of an installation, and the byte-level Tinfoil USB protocol.

pub mod bytes;
pub mod paths;
pub mod progress;
pub mod staged;
pub mod tabs;
pub mod tinfoil;
