//! The command-line arguments, as plain values.
use vstd::prelude::*;

verus! {

/// `list`: show the package groups.
pub struct ListArgs {
    /// Count only AUR packages.
    pub aur: bool,
    /// Count only official packages.
    pub pacman: bool,
}

/// `install`: install named packages.
pub struct InstallArgs {
    pub packages: Vec<String>,
    pub aur: bool,
}

/// `remove`: remove named packages.
pub struct RemoveArgs {
    pub packages: Vec<String>,
}

/// `init`: write an example configuration.
pub struct InitArgs {
    pub path: String,
}

/// The subcommands.
pub enum Commands {
    List(ListArgs),
    Install(InstallArgs),
    Remove(RemoveArgs),
    Init(InitArgs),
}

/// The options of a run.
pub struct Args {
    /// Configuration file path.
    pub config: Option<String>,
    pub verbose: bool,
    /// Package groups to install.
    pub groups: Vec<String>,
    pub skip_packages: bool,
    pub skip_dotfiles: bool,
    pub skip_hardware: bool,
    pub force: bool,
    pub dry_run: bool,
    /// Answer yes to every prompt.
    pub assume_yes: bool,
    /// Ask before each step.
    pub interactive: bool,
    /// Log to a file with timestamps.
    pub log: bool,
    pub command: Option<Commands>,
}

} // verus!
