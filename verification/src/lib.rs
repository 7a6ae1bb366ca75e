//! The assets of a Debian package that is made from a Cargo project: what a manifest says of
//! them, where they are found and installed, and the files that describe the package.
//!
//! Nothing here touches a disk or runs a command. What was found there is handed in, and what
//! is to be looked for is handed out, as plain values. Paths are texts in the Unix form; where
//! a machine has another one, the caller turns them into it and back.
//!
//! A package is made in these steps: [`config::Config::from_manifest`] reads a manifest,
//! [`config::Config::add_generated_assets`] adds what is generated,
//! [`config::Config::extend_cargo_build_flags`] tells Cargo what to build,
//! [`config::Config::resolve_assets`] finds what was built, and the methods of
//! [`package::Package`] write the files that describe the package.
//!
//! The modules whose names end in `_laws` state what holds of all this: what calls give, told
//! from what they are given, and how one call stands to another.

pub mod asset;
pub mod asset_laws;
pub mod call_laws;
pub mod config;
pub mod config_laws;
pub mod dependency;
pub mod dependency_laws;
pub mod error;
pub mod flag_laws;
pub mod flags;
pub mod generated;
pub mod generated_laws;
pub mod layout;
pub mod manifest;
pub mod octal;
pub mod order;
pub mod order_laws;
pub mod package;
pub mod package_laws;
pub mod path;
pub mod path_laws;
pub mod places;
pub mod ready;
pub mod ready_laws;
pub mod resolve;
pub mod resolve_laws;
pub mod text;
pub mod text_laws;
