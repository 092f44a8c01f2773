//! The command line: its arguments, their validation, the prompt policy and
//! the texts shown to the user.
pub mod args;
pub mod commands;
pub mod interactive;
pub mod prompt_manager;
pub mod validator;
