//! The command-line description that the program reads at start-up.
use vstd::prelude::*;

verus! {

/// The program's name, version, author, description and subcommands.
#[derive(Debug)]
pub struct AppConfig {
    pub name: String,
    pub version: String,
    pub author: String,
    pub about: String,
    pub subcommands: Vec<Subcommand>,
}

/// One entry of the subcommand list: which of `new`, `build`, `clean` it
/// declares.
#[derive(Debug)]
pub struct Subcommand {
    pub new: Option<NewArgs>,
    pub build: Option<BuildArgs>,
    pub clean: Option<CleanArgs>,
}

/// The `new` subcommand: its description and arguments.
#[derive(Debug)]
pub struct NewArgs {
    pub about: String,
    pub args: Vec<NewArg>,
}

/// One argument of the `new` subcommand.
#[derive(Debug)]
pub struct NewArg {
    pub project: ProjectArg,
}

/// The project-name argument of the `new` subcommand.
#[derive(Debug)]
pub struct ProjectArg {
    pub help: String,
    pub required: bool,
    pub index: u32,
}

/// The `build` subcommand.
#[derive(Debug)]
pub struct BuildArgs {
    pub about: String,
}

/// The `clean` subcommand.
#[derive(Debug)]
pub struct CleanArgs {
    pub about: String,
}

} // verus!
