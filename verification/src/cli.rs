use vstd::prelude::*;

use crate::configs::Config;
use crate::error::TmsError;
use crate::tmux::Tmux;

verus! {

/// A subcommand of the tool. No subcommand exists yet — the plain invocation
/// is the whole interface — so no value of this type is ever made; dispatch
/// treats any the same as none.
#[derive(Debug)]
pub struct CliCommand;

/// The parsed command line.
#[derive(Debug)]
pub struct Cli {
    pub command: Option<CliCommand>,
}

/// Whether a subcommand already handled the whole run, or the main flow goes
/// on with the configuration.
pub enum SubCommandGiven {
    Yes,
    No(Box<Config>),
}

impl Cli {
    /// Dispatch on the subcommand, if one was given. None is, so the loaded
    /// configuration is always handed back for the main flow to use.
    pub fn handle_sub_commands(&self, _tmux: &Tmux, config: Config) -> (r: Result<
        SubCommandGiven,
        TmsError,
    >)
        ensures
            match r {
                Ok(g) => match g {
                    SubCommandGiven::No(c) => *c == config,
                    SubCommandGiven::Yes => false,
                },
                Err(_) => false,
            },
    {
        match &self.command {
            Option::None => Ok(SubCommandGiven::No(Box::new(config))),
            _ => Ok(SubCommandGiven::No(Box::new(config))),
        }
    }
}

} // verus!
