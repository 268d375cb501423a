//! A dotfiles installer engine.
//!
//! The library decides; its caller acts. Every operation that touches the
//! file system, the terminal or another process is handed out as an
//! [`action::Action`], and its outcome comes back as an [`action::Event`].
//! What the engine asks for in each state is stated in the contracts, and
//! the effect of those requests on a model of the file system is proved in
//! [`laws`], [`rollback`] and [`run`].

pub mod action;
pub mod engine;
pub mod kcli;
pub mod kerror;
pub mod kfs;
pub mod kgit;
pub mod kio;
pub mod kpath;
pub mod laws;
pub mod outside;
pub mod plan;
pub mod rollback;
pub mod run;
pub mod world;

pub use crate::engine::{handle_args, install_configs, uninstall_configs};
pub use crate::kerror::{Error, ErrorKind};
pub use crate::plan::check_collisions;
