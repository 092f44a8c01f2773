//! Planning and configuration logic of a dotfiles installer for Arch Linux.
pub mod assoc;
pub mod cli;
pub mod config;
pub mod dotfiles;
pub mod hardware;
pub mod installation;
pub mod net;
pub mod packages;
pub mod system;
pub mod text;
