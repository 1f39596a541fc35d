//! The options of the subcommands, as far as the library's decisions read
//! them.

use vstd::prelude::*;

verus! {

/// Create copies of configuration files in declared locations.
#[derive(Clone, Copy, Debug)]
pub struct CopyArgs {
    /// Overwrite files if they already exist.
    pub force: bool,
}

/// Create links to configuration files in declared locations.
#[derive(Clone, Copy, Debug)]
pub struct LinkArgs {
    /// Overwrite link targets if they already exist.
    pub force: bool,
}

/// Enable declared systemd services.
#[derive(Clone, Copy, Debug)]
pub struct ServiceArgs {
    /// Reset the enabled/disabled status of all services to their defaults.
    pub reset: bool,
    /// Start the services when enabling them.
    pub start: bool,
}

/// Display information about declared and currently installed packages.
#[derive(Clone, Copy, Debug)]
pub struct ShowArgs {
    /// Equivalent to specifying all four of the others.
    pub all: bool,
    /// Display all packages that are declared and installed as dependencies.
    pub to_explicit: bool,
    /// Display all packages that are declared and not installed.
    pub to_install: bool,
    /// Display all explicitly installed packages that are not declared.
    pub to_remove: bool,
    /// Display all packages installed as dependencies that are not
    /// required by any package.
    pub unneeded: bool,
}

/// Synchronize installed packages with the package list.
#[derive(Debug)]
pub struct SyncArgs {
    /// Remove all unneeded packages.
    pub cleanup: bool,
    /// Do not upgrade packages.
    pub no_upgrade: bool,
    /// Path to the xkb types file.
    pub xkb_types: Option<String>,
}

} // verus!
