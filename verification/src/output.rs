//! The terminal colours and the report that `--debug` prints.
use vstd::prelude::*;

use crate::config::{Config, ConfigView};
use crate::text::{join_strings, join_with, strs};

verus! {

/// The escape sequences that colour the tool's own lines; all empty where
/// colours are off.
pub struct Colors {
    pub blue: String,
    pub green: String,
    pub red: String,
    pub cyan: String,
    pub reset: String,
}

/// The views of the five colour sequences: blue, green, red, cyan, reset.
pub open spec fn colors_view(c: &Colors) -> (Seq<char>, Seq<char>, Seq<char>, Seq<char>, Seq<char>) {
    (c.blue@, c.green@, c.red@, c.cyan@, c.reset@)
}

/// Whether colours are used: standard output is a terminal and `NO_COLOR`
/// is not set.
pub open spec fn colored(stdout_is_terminal: bool, no_color_set: bool) -> bool {
    stdout_is_terminal && !no_color_set
}

impl Colors {
    /// The colours for standard output: ANSI bold blue, green, red, plain
    /// blue for names, and reset where colours are used; empty texts
    /// otherwise.
    pub fn detect(stdout_is_terminal: bool, no_color_set: bool) -> (c: Colors)
        ensures
            colored(stdout_is_terminal, no_color_set) ==> colors_view(&c) == (
                "\x1b[1;34m"@,
                "\x1b[1;32m"@,
                "\x1b[1;31m"@,
                "\x1b[0;34m"@,
                "\x1b[0m"@,
            ),
            !colored(stdout_is_terminal, no_color_set) ==> colors_view(&c) == (
                Seq::<char>::empty(),
                Seq::<char>::empty(),
                Seq::<char>::empty(),
                Seq::<char>::empty(),
                Seq::<char>::empty(),
            ),
    {
        if stdout_is_terminal && !no_color_set {
            Colors {
                blue: "\x1b[1;34m".to_string(),
                green: "\x1b[1;32m".to_string(),
                red: "\x1b[1;31m".to_string(),
                cyan: "\x1b[0;34m".to_string(),
                reset: "\x1b[0m".to_string(),
            }
        } else {
            Colors {
                blue: String::new(),
                green: String::new(),
                red: String::new(),
                cyan: String::new(),
                reset: String::new(),
            }
        }
    }
}

/// A `name=value` line with the name in cyan.
pub open spec fn named_line(c: &Colors, name: Seq<char>, value: Seq<char>) -> Seq<char> {
    c.cyan@ + name + c.reset@ + "="@ + value
}

/// A flag as `1` or `0`.
pub open spec fn flag_text(b: bool) -> Seq<char> {
    if b {
        "1"@
    } else {
        "0"@
    }
}

/// The flag lines of the report, in their fixed order.
pub open spec fn flag_lines(cfg: ConfigView, c: &Colors) -> Seq<Seq<char>> {
    seq![
        named_line(c, "noparse"@, flag_text(cfg.noparse)),
        named_line(c, "refresh"@, flag_text(cfg.refresh)),
        named_line(c, "compile"@, flag_text(cfg.compile_cmd is Some)),
        named_line(c, "run"@, flag_text(cfg.run_cmd is Some)),
        named_line(c, "input"@, flag_text(cfg.input_file is Some)),
        named_line(c, "verbose"@, flag_text(cfg.verbose)),
        named_line(c, "postpone"@, flag_text(cfg.postpone)),
        named_line(c, "quiet"@, flag_text(cfg.quiet)),
        named_line(c, "waitkey"@, flag_text(cfg.waitkey)),
        named_line(c, "zen"@, flag_text(cfg.zen)),
        named_line(c, "debug"@, flag_text(cfg.debug)),
    ]
}

/// The run command as the report shows it: with ` <` and the input file
/// where there is one.
pub open spec fn run_text(run: Seq<char>, input: Option<Seq<char>>) -> Seq<char> {
    match input {
        Some(i) => run + " <"@ + i,
        None => run,
    }
}

/// The heading and command lines of the report.
pub open spec fn command_lines_of(v: ConfigView, c: &Colors) -> Seq<Seq<char>> {
    seq![c.green@ + "Parsed arguments:"@ + c.reset@] + (match v.compile_cmd {
        Some(x) => seq![named_line(c, "compileCmd"@, x)],
        None => Seq::<Seq<char>>::empty(),
    }) + (match v.run_cmd {
        Some(x) => seq![named_line(c, "runCmd"@, run_text(x, v.input_file))],
        None => Seq::<Seq<char>>::empty(),
    }) + (match v.input_file {
        Some(x) => seq![named_line(c, "inputfile"@, x)],
        None => Seq::<Seq<char>>::empty(),
    })
}

/// The lines that `--debug` prints, none without it: a heading, the
/// commands and input file that are set, every flag, and the files to
/// watch separated by spaces.
pub open spec fn debug_lines_of(cfg: ConfigView, c: &Colors) -> Seq<Seq<char>> {
    if !cfg.debug {
        Seq::<Seq<char>>::empty()
    } else {
        command_lines_of(cfg, c) + flag_lines(cfg, c) + seq![
            named_line(c, "monitorFiles[*]"@, join_with(cfg.monitor_files, " "@)),
        ]
    }
}

/// A `name=value` line with the name in cyan.
fn named(c: &Colors, name: &str, value: &str) -> (line: String)
    ensures
        line@ == named_line(c, name@, value@),
{
    let mut line = c.cyan.clone();
    line.append(name);
    line.append(c.reset.as_str());
    line.append("=");
    line.append(value);
    line
}

/// A flag line.
fn flag(c: &Colors, name: &str, b: bool) -> (line: String)
    ensures
        line@ == named_line(c, name@, flag_text(b)),
{
    if b {
        named(c, name, "1")
    } else {
        named(c, name, "0")
    }
}

/// The heading and command lines of the report.
fn command_lines(cfg: &Config, c: &Colors) -> (lines: Vec<String>)
    ensures
        strs(lines@) == command_lines_of(cfg@, c),
{
    let ghost v = cfg@;
    let mut lines: Vec<String> = Vec::new();
    let mut head = c.green.clone();
    head.append("Parsed arguments:");
    head.append(c.reset.as_str());
    lines.push(head);
    let ghost s1 = seq![c.green@ + "Parsed arguments:"@ + c.reset@];
    assert(strs(lines@) =~= s1);
    if let Some(x) = &cfg.compile_cmd {
        lines.push(named(c, "compileCmd", x.as_str()));
    }
    let ghost s2 = s1 + (match v.compile_cmd {
        Some(x) => seq![named_line(c, "compileCmd"@, x)],
        None => Seq::<Seq<char>>::empty(),
    });
    assert(strs(lines@) =~= s2);
    if let Some(r) = &cfg.run_cmd {
        let text = match &cfg.input_file {
            Some(i) => {
                let mut t = r.clone();
                t.append(" <");
                t.append(i.as_str());
                t
            },
            None => r.clone(),
        };
        assert(text@ == run_text(r@, v.input_file));
        lines.push(named(c, "runCmd", text.as_str()));
    }
    let ghost s3 = s2 + (match v.run_cmd {
        Some(x) => seq![named_line(c, "runCmd"@, run_text(x, v.input_file))],
        None => Seq::<Seq<char>>::empty(),
    });
    assert(strs(lines@) =~= s3);
    if let Some(i) = &cfg.input_file {
        lines.push(named(c, "inputfile", i.as_str()));
    }
    assert(strs(lines@) =~= command_lines_of(v, c));
    lines
}

/// The flag lines of the report.
fn flag_report(cfg: &Config, c: &Colors) -> (lines: Vec<String>)
    ensures
        strs(lines@) == flag_lines(cfg@, c),
{
    let mut lines: Vec<String> = Vec::new();
    lines.push(flag(c, "noparse", cfg.noparse));
    lines.push(flag(c, "refresh", cfg.refresh));
    lines.push(flag(c, "compile", cfg.compile_cmd.is_some()));
    lines.push(flag(c, "run", cfg.run_cmd.is_some()));
    lines.push(flag(c, "input", cfg.input_file.is_some()));
    lines.push(flag(c, "verbose", cfg.verbose));
    lines.push(flag(c, "postpone", cfg.postpone));
    lines.push(flag(c, "quiet", cfg.quiet));
    lines.push(flag(c, "waitkey", cfg.waitkey));
    lines.push(flag(c, "zen", cfg.zen));
    lines.push(flag(c, "debug", cfg.debug));
    assert(strs(lines@) =~= flag_lines(cfg@, c));
    lines
}

/// The lines that `--debug` prints for a configuration, none without
/// `--debug`.
pub fn debug_lines(cfg: &Config, c: &Colors) -> (lines: Vec<String>)
    ensures
        strs(lines@) == debug_lines_of(cfg@, c),
{
    if !cfg.debug {
        let lines: Vec<String> = Vec::new();
        assert(strs(lines@) =~= Seq::<Seq<char>>::empty());
        return lines;
    }
    let mut lines = command_lines(cfg, c);
    let ghost a = strs(lines@);
    let mut flags = flag_report(cfg, c);
    let ghost b = strs(flags@);
    lines.append(&mut flags);
    assert(strs(lines@) =~= a + b);
    let files = join_strings(&cfg.monitor_files, " ");
    lines.push(named(c, "monitorFiles[*]", files.as_str()));
    assert(strs(lines@) =~= debug_lines_of(cfg@, c));
    lines
}

/// The report names each flag once, in a fixed order after the command
/// lines, and shows `1` exactly where the flag is set: `run` where there is a
/// run command, `input` where there is an input file, `compile` where there
/// is a compile command. The watched files close it.
pub proof fn lemma_flag_lines_show_flags(cfg: ConfigView, c: &Colors)
    requires
        cfg.debug,
    ensures
        ({
            let r = debug_lines_of(cfg, c);
            let k = 1 + (if cfg.compile_cmd is Some {
                1int
            } else {
                0int
            }) + (if cfg.run_cmd is Some {
                1int
            } else {
                0int
            }) + (if cfg.input_file is Some {
                1int
            } else {
                0int
            });
            let line = |name: Seq<char>, b: bool|
                c.cyan@ + name + c.reset@ + "="@ + (if b {
                    "1"@
                } else {
                    "0"@
                });
            &&& r.len() == k + 12
            &&& r[k] == line("noparse"@, cfg.noparse)
            &&& r[k + 1] == line("refresh"@, cfg.refresh)
            &&& r[k + 2] == line("compile"@, cfg.compile_cmd is Some)
            &&& r[k + 3] == line("run"@, cfg.run_cmd is Some)
            &&& r[k + 4] == line("input"@, cfg.input_file is Some)
            &&& r[k + 5] == line("verbose"@, cfg.verbose)
            &&& r[k + 6] == line("postpone"@, cfg.postpone)
            &&& r[k + 7] == line("quiet"@, cfg.quiet)
            &&& r[k + 8] == line("waitkey"@, cfg.waitkey)
            &&& r[k + 9] == line("zen"@, cfg.zen)
            &&& r[k + 10] == line("debug"@, cfg.debug)
            &&& r[k + 11] == c.cyan@ + "monitorFiles[*]"@ + c.reset@ + "="@ + join_with(
                cfg.monitor_files,
                " "@,
            )
        }),
{
    let k = command_lines_of(cfg, c).len();
    assert(k == 1 + (if cfg.compile_cmd is Some {
        1int
    } else {
        0int
    }) + (if cfg.run_cmd is Some {
        1int
    } else {
        0int
    }) + (if cfg.input_file is Some {
        1int
    } else {
        0int
    }));
}

} // verus!
