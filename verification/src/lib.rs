use vstd::prelude::*;

pub mod text;
pub mod paths;
pub mod config;
pub mod tmux;
pub mod layout;
pub mod projects;
pub mod fzf;
pub mod logging;
pub mod cli;
