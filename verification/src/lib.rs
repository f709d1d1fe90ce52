//! Verified core of `inf`: the rules that turn command-line options into a
//! watch configuration, the checks that configuration must pass, the texts the
//! tool prints, and the decisions of the compile/run cycle and of the watch
//! loop.
pub mod cli;
pub mod command;
pub mod config;
pub mod host;
pub mod output;
pub mod path;
pub mod text;
pub mod unique;
pub mod watch;
