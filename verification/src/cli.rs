//! The command-line options, as the argument parser hands them over.
use vstd::prelude::*;

use crate::text::{opt_view, strs};

verus! {

/// The parsed command line.
pub struct Cli {
    /// `-r`, `--run`: the command that runs the target.
    pub run_cmd: Option<String>,
    /// `-i`, `--input`: a file fed to the run command's standard input.
    pub input_file: Option<String>,
    /// `-m`, `--monitor`: comma-separated lists of files to watch.
    pub monitor: Vec<String>,
    /// `-n`, `--noparse`: do not take `name.ext` words of the compile command
    /// as files to watch.
    pub noparse: bool,
    /// `-x`, `--refresh`: restart at once when a file changes.
    pub refresh: bool,
    /// `-p`, `--postpone`: start only after the first change.
    pub postpone: bool,
    /// `-q`, `--quiet`: suppress compiler output.
    pub quiet: bool,
    /// `-w`, `--waitkey`: wait for a key before compiling.
    pub waitkey: bool,
    /// `-z`, `--zen`: print only the commands' output.
    pub zen: bool,
    /// `-v`, `--verbose`: always print compiler output.
    pub verbose: bool,
    /// `-d`, `--debug`: print the parsed arguments and exit.
    pub debug: bool,
    /// The trailing words: the compile command.
    pub compile_cmd: Vec<String>,
}

/// The mathematical content of a `Cli`.
pub ghost struct CliView {
    pub run_cmd: Option<Seq<char>>,
    pub input_file: Option<Seq<char>>,
    pub monitor: Seq<Seq<char>>,
    pub noparse: bool,
    pub refresh: bool,
    pub postpone: bool,
    pub quiet: bool,
    pub waitkey: bool,
    pub zen: bool,
    pub verbose: bool,
    pub debug: bool,
    pub compile_cmd: Seq<Seq<char>>,
}

impl View for Cli {
    type V = CliView;

    open spec fn view(&self) -> CliView {
        CliView {
            run_cmd: opt_view(self.run_cmd),
            input_file: opt_view(self.input_file),
            monitor: strs(self.monitor@),
            noparse: self.noparse,
            refresh: self.refresh,
            postpone: self.postpone,
            quiet: self.quiet,
            waitkey: self.waitkey,
            zen: self.zen,
            verbose: self.verbose,
            debug: self.debug,
            compile_cmd: strs(self.compile_cmd@),
        }
    }
}

} // verus!
