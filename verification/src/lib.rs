//! Declarative configuration of an Arch Linux machine.
//!
//! A configuration file declares the packages that should be installed,
//! optionally grouped and optionally per host. This library flattens such
//! a declaration into a set of names, merges what is common to all hosts
//! with what one host declares, and works out from the declared packages
//! and the installed ones what the package manager has to do: which
//! packages to install, which to mark as explicitly installed, and which
//! to remove. It also says which commands carry that out, in which order,
//! and what their outcome means.
//!
//! The library runs no command and touches no file: it is handed what was
//! read and says what to run.

pub mod text;
pub mod command;
pub mod args;
pub mod config;
pub mod passwd;
pub mod pacman;
pub mod packages;
pub mod pkg;
pub mod sync;
pub mod xkb;
pub mod show;
pub mod service;
pub mod link;
