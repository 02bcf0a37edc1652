//! Scripts that look after a host: refreshing it, keeping its package repositories, restarting its
//! services, reporting about it, and keeping passwords.
//!
//! A script does nothing itself. It asks for one `action::Action` after another, and takes one
//! `action::Event` as the answer to each; `script` says what follows from an answer.

pub mod action;
pub mod cleanup;
pub mod config;
pub mod first_line;
pub mod git;
pub mod host;
pub mod host_laws;
pub mod laws;
pub mod number;
pub mod order;
pub mod outside;
pub mod package_laws;
pub mod packages;
pub mod passwords;
pub mod path;
pub mod program;
pub mod refresh;
pub mod refresh_laws;
pub mod runs;
pub mod script;
pub mod scripts;
pub mod search;
pub mod service_laws;
pub mod services;
pub mod stats;
pub mod step;
pub mod text;
pub mod text_laws;
pub mod trace;
pub mod vault;
pub mod vault_laws;

pub use git::{update_outcome, update_repos};
pub use scripts::{
    authenticate, authenticate_basic, check_repo, clear_secrets_restart_systemd,
    list_running_services, process_git_directory, system_stats,
};
pub use vault::ShowPasswordOpts;
