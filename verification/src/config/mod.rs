//! Reading the configuration file and turning it into settings.
pub mod lexer;
pub mod parser;
pub mod settings;
pub mod convert;
pub mod structs;
