pub mod cli;
pub mod configs;
pub mod discovery;
pub mod error;
pub mod paths;
pub mod resolve;
pub mod selection;
pub mod tmux;
