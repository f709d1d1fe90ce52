//! The watch configuration: how the command line becomes the set of files to
//! watch, and the checks the configuration must pass before watching starts.
use vstd::prelude::*;

use crate::cli::{Cli, CliView};
use crate::host::{Host, PathTable};
use crate::output::Colors;
use crate::path::{absolute, absolute_of, has_root, join, join_path, normal_form, path_key};
use crate::unique::{
    first_occurrences, keep_first, lemma_first_occurrences_from_items, lemma_first_occurrences_keys,
};
use crate::text::{
    chars_of, is_char, is_white_space, is_white_space_char, join_strings, join_with,
    lemma_split_by_pieces_free, lemma_split_join, opt_view, split_by, split_pieces, split_words,
    strs, words, Delimiter,
};

verus! {

broadcast use vstd::seq_lib::group_seq_properties;

/// The configuration the watch loop runs with.
pub struct Config {
    /// The compile command: the trailing words of the command line joined
    /// by spaces, as one shell command.
    pub compile_cmd: Option<String>,
    pub run_cmd: Option<String>,
    pub input_file: Option<String>,
    /// The files whose changes trigger a new cycle.
    pub monitor_files: Vec<String>,
    pub noparse: bool,
    pub refresh: bool,
    pub postpone: bool,
    pub quiet: bool,
    pub waitkey: bool,
    pub zen: bool,
    pub verbose: bool,
    pub debug: bool,
    /// Whether each cycle starts by clearing the screen.
    pub clear_screen: bool,
}

/// The mathematical content of a `Config`.
pub ghost struct ConfigView {
    pub compile_cmd: Option<Seq<char>>,
    pub run_cmd: Option<Seq<char>>,
    pub input_file: Option<Seq<char>>,
    pub monitor_files: Seq<Seq<char>>,
    pub noparse: bool,
    pub refresh: bool,
    pub postpone: bool,
    pub quiet: bool,
    pub waitkey: bool,
    pub zen: bool,
    pub verbose: bool,
    pub debug: bool,
    pub clear_screen: bool,
}

impl View for Config {
    type V = ConfigView;

    open spec fn view(&self) -> ConfigView {
        ConfigView {
            compile_cmd: opt_view(self.compile_cmd),
            run_cmd: opt_view(self.run_cmd),
            input_file: opt_view(self.input_file),
            monitor_files: strs(self.monitor_files@),
            noparse: self.noparse,
            refresh: self.refresh,
            postpone: self.postpone,
            quiet: self.quiet,
            waitkey: self.waitkey,
            zen: self.zen,
            verbose: self.verbose,
            debug: self.debug,
            clear_screen: self.clear_screen,
        }
    }
}

/// Whether a word of the compile command reads as a file name: no
/// whitespace, a `.` somewhere, and not a leading `.`.
pub open spec fn looks_like_file(arg: Seq<char>) -> bool {
    &&& forall|i: int| 0 <= i < arg.len() ==> !is_white_space(#[trigger] arg[i])
    &&& arg.contains('.')
    &&& !(arg.len() > 0 && arg[0] == '.')
}

/// `path` with a leading `~/` replaced by the home directory, where it is
/// known.
pub open spec fn expand_tilde_of(path: Seq<char>, home: Option<Seq<char>>) -> Seq<char> {
    if path.len() >= 2 && path[0] == '~' && path[1] == '/' && home is Some {
        join_path(home->0, path.skip(2))
    } else {
        path
    }
}

/// Where a (tilde-expanded) monitor path is watched: its canonical form
/// where it exists (the path itself if that cannot be computed), the path
/// itself where it is absolute, otherwise the path under the working
/// directory.
pub open spec fn resolved_path(expanded: Seq<char>, host: &Host) -> Seq<char> {
    if host.paths.exists_at(expanded) {
        match host.paths.canonical_of(expanded) {
            Some(c) => c,
            None => expanded,
        }
    } else {
        absolute_of(expanded, opt_view(host.cwd))
    }
}

/// The paths one `--monitor` value names, tilde-expanded: its
/// comma-separated pieces.
pub open spec fn monitor_candidates_of(value: Seq<char>, home: Option<Seq<char>>) -> Seq<
    Seq<char>,
> {
    split_by(value, is_char(',')).map_values(|x: Seq<char>| expand_tilde_of(x, home))
}

/// The files one `--monitor` value adds, in order.
pub open spec fn monitor_entries(value: Seq<char>, host: &Host) -> Seq<Seq<char>> {
    monitor_candidates_of(value, opt_view(host.home)).map_values(
        |x: Seq<char>| resolved_path(x, host),
    )
}

/// The words of a compile command that read as file names.
pub open spec fn compile_candidates_of(cmd: Seq<char>) -> Seq<Seq<char>> {
    words(cmd).filter(|w: Seq<char>| looks_like_file(w))
}

/// The words of a compile command that read as file names and are files.
pub open spec fn compile_files_of(cmd: Seq<char>, paths: &PathTable) -> Seq<Seq<char>> {
    compile_candidates_of(cmd).filter(|w: Seq<char>| paths.file_at(w))
}

/// The compile command of a command line: its trailing words joined by
/// spaces, none where there are none.
pub open spec fn compile_cmd_of(cli: CliView) -> Option<Seq<char>> {
    if cli.compile_cmd.len() == 0 {
        None
    } else {
        Some(join_with(cli.compile_cmd, seq![' ']))
    }
}

/// The files watched by the configuration of a command line: the files of
/// each `--monitor` value, then the input file where a run command reads
/// it, then the compile command's file-name words that are files (unless
/// `--noparse`).
pub open spec fn monitor_files_of(cli: CliView, host: &Host) -> Seq<Seq<char>> {
    cli.monitor.flat_map(|m: Seq<char>| monitor_entries(m, host)) + (if cli.input_file is Some
        && cli.run_cmd is Some {
        seq![cli.input_file->0]
    } else {
        Seq::<Seq<char>>::empty()
    }) + (if !cli.noparse && compile_cmd_of(cli) is Some {
        compile_files_of(compile_cmd_of(cli)->0, &host.paths)
    } else {
        Seq::<Seq<char>>::empty()
    })
}

/// The configuration of a command line.
pub open spec fn config_of(cli: CliView, host: &Host, clear_screen: bool) -> ConfigView {
    ConfigView {
        compile_cmd: compile_cmd_of(cli),
        run_cmd: cli.run_cmd,
        input_file: cli.input_file,
        monitor_files: monitor_files_of(cli, host),
        noparse: cli.noparse,
        refresh: cli.refresh,
        postpone: cli.postpone,
        quiet: cli.quiet,
        waitkey: cli.waitkey,
        zen: cli.zen,
        verbose: cli.verbose,
        debug: cli.debug,
        clear_screen,
    }
}

/// Whether a word reads as a file name: no whitespace, a `.` somewhere, and
/// no leading `.`.
pub fn looks_like_file_arg(arg: &str) -> (b: bool)
    ensures
        b == looks_like_file(arg@),
{
    let cs = chars_of(arg);
    let mut white = false;
    let mut dot = false;
    for i in 0..cs.len()
        invariant
            cs@ == arg@,
            white == exists|j: int| 0 <= j < i && is_white_space(#[trigger] cs@[j]),
            dot == exists|j: int| 0 <= j < i && #[trigger] cs@[j] == '.',
    {
        if is_white_space_char(cs[i]) {
            white = true;
        }
        if cs[i] == '.' {
            dot = true;
        }
    }
    proof {
        if dot {
            let j = choose|j: int| 0 <= j < cs.len() && #[trigger] cs@[j] == '.';
            assert(arg@[j] == '.');
        }
        if arg@.contains('.') {
            let j = choose|j: int| 0 <= j < arg@.len() && arg@[j] == '.';
            assert(cs@[j] == '.');
        }
    }
    !white && dot && !(cs.len() > 0 && cs[0] == '.')
}

/// `path` with a leading `~/` replaced by the home directory, where known.
pub fn expand_tilde(path: &str, home: &Option<String>) -> (res: String)
    ensures
        res@ == expand_tilde_of(path@, opt_view(*home)),
{
    let cs = chars_of(path);
    if cs.len() >= 2 && cs[0] == '~' && cs[1] == '/' {
        if let Some(h) = home {
            let rest = path.substring_char(2, cs.len());
            return join(h.as_str(), rest);
        }
    }
    path.to_string()
}

/// The tilde-expanded paths that one `--monitor` value names, one per
/// comma-separated piece: the paths whose facts the configuration reads.
pub fn monitor_candidates(value: &str, home: &Option<String>) -> (res: Vec<String>)
    ensures
        strs(res@) == monitor_candidates_of(value@, opt_view(*home)),
{
    let pieces = split_pieces(value, &Delimiter::Char(','));
    let ghost f = |x: Seq<char>| expand_tilde_of(x, opt_view(*home));
    let mut res: Vec<String> = Vec::new();
    assert(strs(pieces@).take(0).map_values(f) =~= Seq::<Seq<char>>::empty());
    for i in 0..pieces.len()
        invariant
            strs(pieces@) == split_by(value@, is_char(',')),
            f == (|x: Seq<char>| expand_tilde_of(x, opt_view(*home))),
            strs(res@) == strs(pieces@).take(i as int).map_values(f),
    {
        let ghost before = strs(res@);
        let e = expand_tilde(pieces[i].as_str(), home);
        res.push(e);
        assert(strs(res@) =~= before.push(e@));
        assert(strs(pieces@).take(i + 1) =~= strs(pieces@).take(i as int).push(pieces@[i as int]@));
        assert(strs(pieces@).take(i + 1).map_values(f) =~= strs(pieces@).take(i as int).map_values(
            f,
        ).push(f(pieces@[i as int]@)));
    }
    assert(strs(pieces@).take(pieces.len() as int) =~= strs(pieces@));
    res
}

/// Where a tilde-expanded monitor path is watched.
pub fn resolve_monitor_path(expanded: &str, host: &Host) -> (res: String)
    ensures
        res@ == resolved_path(expanded@, host),
{
    if host.paths.path_exists(expanded) {
        match host.paths.canonical(expanded) {
            Some(c) => c,
            None => expanded.to_string(),
        }
    } else {
        absolute(expanded, &host.cwd)
    }
}

/// The words of a compile command that read as file names: the paths whose
/// facts the configuration reads.
pub fn compile_file_candidates(cmd: &str) -> (res: Vec<String>)
    ensures
        strs(res@) == compile_candidates_of(cmd@),
{
    let ws = split_words(cmd);
    let ghost all = strs(ws@);
    let ghost pred = |w: Seq<char>| looks_like_file(w);
    let mut res: Vec<String> = Vec::new();
    assert(all.take(0).filter(pred) =~= Seq::<Seq<char>>::empty()) by {
        reveal(Seq::filter);
    }
    for i in 0..ws.len()
        invariant
            all == strs(ws@),
            all == words(cmd@),
            pred == (|w: Seq<char>| looks_like_file(w)),
            strs(res@) == all.take(i as int).filter(pred),
    {
        assert(all.take(i + 1) =~= all.take(i as int).push(ws@[i as int]@));
        proof {
            all.take(i as int).lemma_filter_push(ws@[i as int]@, pred);
        }
        if looks_like_file_arg(ws[i].as_str()) {
            res.push(ws[i].clone());
        }
    }
    assert(all.take(ws.len() as int) =~= all);
    res
}

impl Config {
    /// Adds the files of one `--monitor` value.
    fn add_monitor_files(&mut self, value: &str, host: &Host)
        ensures
            final(self)@ == (ConfigView {
                monitor_files: old(self)@.monitor_files + monitor_entries(value@, host),
                ..old(self)@
            }),
    {
        let cands = monitor_candidates(value, &host.home);
        let ghost start = strs(self.monitor_files@);
        let ghost f = |x: Seq<char>| resolved_path(x, host);
        assert(strs(cands@).take(0).map_values(f) =~= Seq::<Seq<char>>::empty());
        for i in 0..cands.len()
            invariant
                strs(cands@) == monitor_candidates_of(value@, opt_view(host.home)),
                f == (|x: Seq<char>| resolved_path(x, host)),
                strs(self.monitor_files@) == start + strs(cands@).take(i as int).map_values(f),
                self@ == (ConfigView { monitor_files: strs(self.monitor_files@), ..old(self)@ }),
        {
            let ghost before = strs(self.monitor_files@);
            let p = resolve_monitor_path(cands[i].as_str(), host);
            self.monitor_files.push(p);
            assert(strs(self.monitor_files@) =~= before.push(p@));
            assert(strs(cands@).take(i + 1) =~= strs(cands@).take(i as int).push(cands@[i as int]@));
            assert(strs(cands@).take(i + 1).map_values(f) =~= strs(cands@).take(i as int).map_values(
                f,
            ).push(f(cands@[i as int]@)));
            assert(strs(self.monitor_files@) =~= start + strs(cands@).take(i + 1).map_values(f));
        }
        assert(strs(cands@).take(cands.len() as int) =~= strs(cands@));
    }

    /// Adds the compile command's file-name words that are files.
    pub fn add_compile_files(&mut self, paths: &PathTable)
        ensures
            final(self)@ == (ConfigView {
                monitor_files: old(self)@.monitor_files + match old(self)@.compile_cmd {
                    Some(cmd) => compile_files_of(cmd, paths),
                    None => Seq::<Seq<char>>::empty(),
                },
                ..old(self)@
            }),
    {
        let cands = match &self.compile_cmd {
            Some(cmd) => compile_file_candidates(cmd.as_str()),
            None => {
                return ;
            },
        };
        let ghost cmd = opt_view(self.compile_cmd)->0;
        let ghost start = strs(self.monitor_files@);
        let ghost pred = |w: Seq<char>| paths.file_at(w);
        assert(strs(cands@).take(0).filter(pred) =~= Seq::<Seq<char>>::empty()) by {
            reveal(Seq::filter);
        }
        for i in 0..cands.len()
            invariant
                strs(cands@) == compile_candidates_of(cmd),
                old(self)@.compile_cmd == Some(cmd),
                pred == (|w: Seq<char>| paths.file_at(w)),
                strs(self.monitor_files@) == start + strs(cands@).take(i as int).filter(pred),
                self@ == (ConfigView { monitor_files: strs(self.monitor_files@), ..old(self)@ }),
        {
            let ghost before = strs(self.monitor_files@);
            assert(strs(cands@).take(i + 1) =~= strs(cands@).take(i as int).push(cands@[i as int]@));
            proof {
                strs(cands@).take(i as int).lemma_filter_push(cands@[i as int]@, pred);
            }
            if paths.is_file(cands[i].as_str()) {
                self.monitor_files.push(cands[i].clone());
                assert(strs(self.monitor_files@) =~= before.push(cands@[i as int]@));
            }
            assert(strs(self.monitor_files@) =~= start + strs(cands@).take(i + 1).filter(pred));
        }
        assert(strs(cands@).take(cands.len() as int) =~= strs(cands@));
    }

    /// The configuration of a command line, given what the host reports
    /// about the paths it names and whether the screen is cleared before
    /// each cycle.
    #[verifier::spinoff_prover]
    #[verifier::rlimit(40)]
    pub fn from_cli(cli: Cli, host: &Host, clear_screen: bool) -> (config: Config)
        ensures
            config@ == config_of(cli@, host, clear_screen),
    {
        let ghost c = cli@;
        let compile_cmd = if cli.compile_cmd.len() == 0 {
            None
        } else {
            proof {
                reveal_strlit(" ");
            }
            let joined = join_strings(&cli.compile_cmd, " ");
            assert(" "@ =~= seq![' ']);
            Some(joined)
        };
        let mut config = Config {
            compile_cmd,
            run_cmd: cli.run_cmd,
            input_file: cli.input_file,
            monitor_files: Vec::new(),
            noparse: cli.noparse,
            refresh: cli.refresh,
            postpone: cli.postpone,
            quiet: cli.quiet,
            waitkey: cli.waitkey,
            zen: cli.zen,
            verbose: cli.verbose,
            debug: cli.debug,
            clear_screen,
        };
        let ghost f = |m: Seq<char>| monitor_entries(m, host);
        let ghost base = config@;
        assert(c.monitor.take(0).flat_map(f) =~= Seq::<Seq<char>>::empty()) by {
            assert(c.monitor.take(0).map_values(f) =~= Seq::<Seq<Seq<char>>>::empty());
        }
        let monitor = cli.monitor;
        assert(strs(config.monitor_files@) =~= c.monitor.take(0).flat_map(f));
        for i in 0..monitor.len()
            invariant
                strs(monitor@) == c.monitor,
                f == (|m: Seq<char>| monitor_entries(m, host)),
                config@ == (ConfigView {
                    monitor_files: c.monitor.take(i as int).flat_map(f),
                    ..base
                }),
        {
            config.add_monitor_files(monitor[i].as_str(), host);
            assert(c.monitor.take(i + 1) =~= c.monitor.take(i as int).push(monitor@[i as int]@));
            proof {
                c.monitor.take(i as int).lemma_flat_map_push(f, monitor@[i as int]@);
            }
            assert(config@.monitor_files =~= c.monitor.take(i + 1).flat_map(f));
        }
        assert(c.monitor.take(monitor.len() as int) =~= c.monitor);
        let ghost part1 = c.monitor.flat_map(f);
        assert(config@.monitor_files == part1);
        let ghost part2 = if c.input_file is Some && c.run_cmd is Some {
            seq![c.input_file->0]
        } else {
            Seq::<Seq<char>>::empty()
        };
        if config.input_file.is_some() && config.run_cmd.is_some() {
            let input = config.input_file.clone().unwrap();
            config.monitor_files.push(input);
        }
        assert(config@.monitor_files =~= part1 + part2);
        if !config.noparse && config.compile_cmd.is_some() {
            config.add_compile_files(&host.paths);
        }
        assert(config@.monitor_files =~= monitor_files_of(c, host));
        config
    }

    /// Adds the files named by the whitespace-separated words of text piped
    /// to standard input, each word read as a `--monitor` value.
    pub fn add_stdin_monitor_files(&mut self, input: &str, host: &Host)
        ensures
            final(self)@ == (ConfigView {
                monitor_files: old(self)@.monitor_files + words(input@).flat_map(
                    |m: Seq<char>| monitor_entries(m, host),
                ),
                ..old(self)@
            }),
    {
        let tokens = split_words(input);
        let ghost f = |m: Seq<char>| monitor_entries(m, host);
        let ghost all = strs(tokens@);
        let ghost start = old(self)@;
        assert(all.take(0).flat_map(f) =~= Seq::<Seq<char>>::empty()) by {
            assert(all.take(0).map_values(f) =~= Seq::<Seq<Seq<char>>>::empty());
        }
        for i in 0..tokens.len()
            invariant
                all == strs(tokens@),
                all == words(input@),
                f == (|m: Seq<char>| monitor_entries(m, host)),
                self@ == (ConfigView {
                    monitor_files: start.monitor_files + all.take(i as int).flat_map(f),
                    ..start
                }),
        {
            self.add_monitor_files(tokens[i].as_str(), host);
            assert(all.take(i + 1) =~= all.take(i as int).push(tokens@[i as int]@));
            proof {
                all.take(i as int).lemma_flat_map_push(f, tokens@[i as int]@);
            }
            assert(self@.monitor_files =~= start.monitor_files + all.take(i + 1).flat_map(f));
        }
        assert(all.take(tokens.len() as int) =~= all);
    }
}

/// Why a configuration cannot be watched.
pub enum ConfigError {
    /// `--quiet` and `--verbose` were both given.
    QuietVerboseConflict,
    /// `--input` was given without `--run`.
    InputWithoutRun,
    /// No file is to be watched.
    NoFilesToMonitor,
    /// These files to watch are not regular files, in order.
    MissingFiles(Vec<String>),
}

/// The mathematical content of a `ConfigError`.
pub ghost enum Problem {
    QuietVerboseConflict,
    InputWithoutRun,
    NoFilesToMonitor,
    MissingFiles(Seq<Seq<char>>),
}

impl View for ConfigError {
    type V = Problem;

    open spec fn view(&self) -> Problem {
        match self {
            ConfigError::QuietVerboseConflict => Problem::QuietVerboseConflict,
            ConfigError::InputWithoutRun => Problem::InputWithoutRun,
            ConfigError::NoFilesToMonitor => Problem::NoFilesToMonitor,
            ConfigError::MissingFiles(fs) => Problem::MissingFiles(strs(fs@)),
        }
    }
}

/// The files to watch that are not regular files, in order.
pub open spec fn missing_files_of(c: ConfigView, paths: &PathTable) -> Seq<Seq<char>> {
    c.monitor_files.filter(|f: Seq<char>| !paths.file_at(f))
}

/// The first problem of a configuration, in the order the checks run:
/// `--quiet` with `--verbose`, `--input` without `--run`, nothing to watch,
/// files that are not there; none where it passes them all.
pub open spec fn problem_of(c: ConfigView, paths: &PathTable) -> Option<Problem> {
    if c.quiet && c.verbose {
        Some(Problem::QuietVerboseConflict)
    } else if c.input_file is Some && c.run_cmd is None {
        Some(Problem::InputWithoutRun)
    } else if c.monitor_files.len() == 0 {
        Some(Problem::NoFilesToMonitor)
    } else if missing_files_of(c, paths).len() > 0 {
        Some(Problem::MissingFiles(missing_files_of(c, paths)))
    } else {
        None
    }
}

/// Each file of `files` in double quotes, each followed by a space.
pub open spec fn quoted_list(files: Seq<Seq<char>>) -> Seq<char>
    decreases files.len(),
{
    if files.len() == 0 {
        Seq::<char>::empty()
    } else {
        quoted_list(files.drop_last()) + "\""@ + files.last() + "\" "@
    }
}

/// The text that reports a problem.
pub open spec fn message_of(p: Problem) -> Seq<char> {
    match p {
        Problem::QuietVerboseConflict => "--quiet and --verbose conflict"@,
        Problem::InputWithoutRun => "--input requires --run"@,
        Problem::NoFilesToMonitor => "no files to monitor"@,
        Problem::MissingFiles(fs) => "missing "@ + (if fs.len() > 1 {
            "files"@
        } else {
            "file"@
        }) + " "@ + quoted_list(fs),
    }
}

/// The line that reports an error: `ERROR: ` and the message, in red.
pub open spec fn error_line_of(red: Seq<char>, reset: Seq<char>, message: Seq<char>) -> Seq<char> {
    red + "ERROR: "@ + message + reset
}

impl ConfigError {
    /// The text that reports this problem.
    pub fn message(&self) -> (m: String)
        ensures
            m@ == message_of(self@),
    {
        match self {
            ConfigError::QuietVerboseConflict => "--quiet and --verbose conflict".to_string(),
            ConfigError::InputWithoutRun => "--input requires --run".to_string(),
            ConfigError::NoFilesToMonitor => "no files to monitor".to_string(),
            ConfigError::MissingFiles(fs) => {
                let mut m = "missing ".to_string();
                if fs.len() > 1 {
                    m.append("files");
                } else {
                    m.append("file");
                }
                m.append(" ");
                let ghost head = m@;
                for i in 0..fs.len()
                    invariant
                        m@ == head + quoted_list(strs(fs@).take(i as int)),
                {
                    assert(strs(fs@).take(i + 1).drop_last() =~= strs(fs@).take(i as int));
                    m.append("\"");
                    m.append(fs[i].as_str());
                    m.append("\" ");
                    assert(m@ =~= head + quoted_list(strs(fs@).take(i + 1)));
                }
                assert(strs(fs@).take(fs.len() as int) =~= strs(fs@));
                m
            },
        }
    }
}

/// The line that reports an error: `ERROR: ` and the message, in red.
pub fn error_line(colors: &Colors, message: &str) -> (line: String)
    ensures
        line@ == error_line_of(colors.red@, colors.reset@, message@),
{
    let mut line = colors.red.clone();
    line.append("ERROR: ");
    line.append(message);
    line.append(colors.reset.as_str());
    line
}

impl Config {
    /// Checks that the configuration can be watched, given what the host
    /// reports about the files to watch; the error is the first problem
    /// found.
    pub fn validate(&self, paths: &PathTable) -> (res: Result<(), ConfigError>)
        ensures
            match res {
                Ok(()) => problem_of(self@, paths) is None,
                Err(e) => problem_of(self@, paths) == Some(e@),
            },
    {
        if self.quiet && self.verbose {
            return Err(ConfigError::QuietVerboseConflict);
        }
        if self.input_file.is_some() && self.run_cmd.is_none() {
            return Err(ConfigError::InputWithoutRun);
        }
        if self.monitor_files.len() == 0 {
            return Err(ConfigError::NoFilesToMonitor);
        }
        let ghost all = strs(self.monitor_files@);
        let ghost pred = |f: Seq<char>| !paths.file_at(f);
        let mut missing: Vec<String> = Vec::new();
        assert(all.take(0).filter(pred) =~= Seq::<Seq<char>>::empty()) by {
            reveal(Seq::filter);
        }
        for i in 0..self.monitor_files.len()
            invariant
                all == strs(self.monitor_files@),
                pred == (|f: Seq<char>| !paths.file_at(f)),
                strs(missing@) == all.take(i as int).filter(pred),
        {
            assert(all.take(i + 1) =~= all.take(i as int).push(all[i as int]));
            proof {
                all.take(i as int).lemma_filter_push(all[i as int], pred);
            }
            if !paths.is_file(self.monitor_files[i].as_str()) {
                missing.push(self.monitor_files[i].clone());
            }
        }
        assert(all.take(self.monitor_files.len() as int) =~= all);
        if missing.len() > 0 {
            return Err(ConfigError::MissingFiles(missing));
        }
        Ok(())
    }
}

/// The monitor files made absolute against the working directory.
pub open spec fn absolute_files_of(c: ConfigView, cwd: Option<Seq<char>>) -> Seq<Seq<char>> {
    c.monitor_files.map_values(|f: Seq<char>| absolute_of(f, cwd))
}

/// The normal forms of paths.
pub open spec fn keys_of(paths: Seq<Seq<char>>) -> Seq<Seq<char>> {
    paths.map_values(|p: Seq<char>| path_key(p))
}

/// The paths to watch: the monitor files made absolute, keeping the first
/// of those that are the same path.
pub open spec fn watch_paths_of(c: ConfigView, cwd: Option<Seq<char>>) -> Seq<Seq<char>> {
    first_occurrences(absolute_files_of(c, cwd), keys_of(absolute_files_of(c, cwd)))
}

impl Config {
    /// The paths to watch, given the working directory (none where it could
    /// not be read): each monitor file made absolute, repeats of the same
    /// path dropped, first ones kept.
    pub fn watch_paths(&self, cwd: &Option<String>) -> (res: Vec<String>)
        ensures
            strs(res@) == watch_paths_of(self@, opt_view(*cwd)),
    {
        let ghost abs_spec = absolute_files_of(self@, opt_view(*cwd));
        let mut abs: Vec<String> = Vec::new();
        let mut keys: Vec<String> = Vec::new();
        for i in 0..self.monitor_files.len()
            invariant
                abs_spec == absolute_files_of(self@, opt_view(*cwd)),
                strs(abs@) == abs_spec.take(i as int),
                strs(keys@) == keys_of(abs_spec.take(i as int)),
        {
            let a = absolute(self.monitor_files[i].as_str(), cwd);
            let k = normal_form(a.as_str());
            let ghost ab = strs(abs@);
            let ghost kb = strs(keys@);
            assert(abs_spec[i as int] == a@);
            assert(k@ == path_key(a@));
            abs.push(a);
            keys.push(k);
            assert(abs_spec.take(i + 1) =~= abs_spec.take(i as int).push(abs_spec[i as int]));
            assert(strs(abs@) =~= abs_spec.take(i + 1));
            assert(strs(keys@) =~= kb.push(path_key(abs_spec[i as int])));
            assert(keys_of(abs_spec.take(i + 1)) =~= keys_of(abs_spec.take(i as int)).push(
                path_key(abs_spec[i as int]),
            ));
        }
        assert(abs_spec.take(self.monitor_files.len() as int) =~= abs_spec);
        keep_first(&abs, &keys)
    }
}

/// The paths to watch are free of repeats: no two of them are the same
/// path; every monitor file, made absolute, is the same path as one of them;
/// and each of them is a monitor file made absolute.
pub proof fn lemma_watch_paths(c: ConfigView, cwd: Option<Seq<char>>)
    ensures
        keys_of(watch_paths_of(c, cwd)).no_duplicates(),
        forall|i: int|
            0 <= i < c.monitor_files.len() ==> keys_of(watch_paths_of(c, cwd)).contains(
                path_key(absolute_of(#[trigger] c.monitor_files[i], cwd)),
            ),
        forall|p: Seq<char>|
            watch_paths_of(c, cwd).contains(p) ==> absolute_files_of(c, cwd).contains(p),
{
    let abs = absolute_files_of(c, cwd);
    let key = |p: Seq<char>| path_key(p);
    lemma_first_occurrences_keys(abs, keys_of(abs), key);
    lemma_first_occurrences_from_items(abs, keys_of(abs));
    assert(keys_of(abs).take(abs.len() as int) =~= keys_of(abs));
    assert(keys_of(watch_paths_of(c, cwd)) == watch_paths_of(c, cwd).map_values(key));
    assert forall|i: int| 0 <= i < c.monitor_files.len() implies keys_of(
        watch_paths_of(c, cwd),
    ).contains(path_key(absolute_of(#[trigger] c.monitor_files[i], cwd))) by {
        assert(keys_of(abs)[i] == path_key(absolute_of(c.monitor_files[i], cwd)));
    }
}

/// The input file of a run command is watched: a change of the input
/// reruns the command.
pub proof fn lemma_input_file_watched(cli: CliView, host: &Host)
    requires
        cli.input_file is Some,
        cli.run_cmd is Some,
    ensures
        monitor_files_of(cli, host).contains(cli.input_file->0),
{
    let a = cli.monitor.flat_map(|m: Seq<char>| monitor_entries(m, host));
    let b = if !cli.noparse && compile_cmd_of(cli) is Some {
        compile_files_of(compile_cmd_of(cli)->0, &host.paths)
    } else {
        Seq::<Seq<char>>::empty()
    };
    assert(monitor_files_of(cli, host)[a.len() as int] == cli.input_file->0);
}

/// With `--noparse` no word of the compile command is watched: the files
/// are those of the `--monitor` values and the input file alone.
pub proof fn lemma_noparse_skips_compile_words(cli: CliView, host: &Host)
    requires
        cli.noparse,
    ensures
        monitor_files_of(cli, host) == cli.monitor.flat_map(|m: Seq<char>| monitor_entries(m, host))
            + (if cli.input_file is Some && cli.run_cmd is Some {
            seq![cli.input_file->0]
        } else {
            Seq::<Seq<char>>::empty()
        }),
{
    let a = cli.monitor.flat_map(|m: Seq<char>| monitor_entries(m, host));
    let b = if cli.input_file is Some && cli.run_cmd is Some {
        seq![cli.input_file->0]
    } else {
        Seq::<Seq<char>>::empty()
    };
    assert(a + b + Seq::<Seq<char>>::empty() =~= a + b);
}

/// A configuration passes its checks exactly when `--quiet` and
/// `--verbose` are not both set, `--input` comes with `--run`, and there
/// are files to watch, each of them a regular file.
pub proof fn lemma_valid_configuration(c: ConfigView, paths: &PathTable)
    ensures
        problem_of(c, paths) is None <==> {
            &&& !(c.quiet && c.verbose)
            &&& (c.input_file is Some ==> c.run_cmd is Some)
            &&& c.monitor_files.len() > 0
            &&& forall|i: int| 0 <= i < c.monitor_files.len() ==> paths.file_at(
                #[trigger] c.monitor_files[i],
            )
        },
{
    let pred = |f: Seq<char>| !paths.file_at(f);
    let missing = c.monitor_files.filter(pred);
    if missing.len() > 0 {
        c.monitor_files.lemma_filter_pred(pred, 0);
        c.monitor_files.lemma_filter_contains_rev(pred, missing[0]);
        assert(missing.contains(missing[0]));
        let i = choose|i: int| 0 <= i < c.monitor_files.len() && c.monitor_files[i] == missing[0];
        assert(!paths.file_at(c.monitor_files[i]));
    } else {
        assert forall|i: int| 0 <= i < c.monitor_files.len() implies paths.file_at(
            #[trigger] c.monitor_files[i],
        ) by {
            if !paths.file_at(c.monitor_files[i]) {
                c.monitor_files.lemma_filter_contains(pred, i);
            }
        }
    }
}

/// Against an absolute working directory, every path to watch is absolute.
pub proof fn lemma_watch_paths_absolute(c: ConfigView, cwd: Seq<char>)
    requires
        has_root(cwd),
    ensures
        forall|i: int|
            0 <= i < watch_paths_of(c, Some(cwd)).len() ==> has_root(
                #[trigger] watch_paths_of(c, Some(cwd))[i],
            ),
{
    let abs = absolute_files_of(c, Some(cwd));
    lemma_first_occurrences_from_items(abs, keys_of(abs));
    assert forall|j: int| 0 <= j < abs.len() implies has_root(#[trigger] abs[j]) by {
        let f = c.monitor_files[j];
        if !has_root(f) {
            assert(abs[j] == join_path(cwd, f));
            if cwd.len() > 0 && cwd.last() == '/' {
                assert((cwd + f)[0] == cwd[0]);
            } else {
                assert((cwd + seq!['/'] + f)[0] == cwd[0]);
            }
        }
    }
    let w = watch_paths_of(c, Some(cwd));
    assert forall|i: int| 0 <= i < w.len() implies has_root(#[trigger] w[i]) by {
        assert(w.contains(w[i]));
        assert(w == first_occurrences(abs, keys_of(abs)));
        assert(abs.contains(w[i]));
        let j = choose|j: int| 0 <= j < abs.len() && abs[j] == w[i];
    }
}

/// The compile command adds exactly its words that read as file names and
/// are regular files: a word that is no file, such as an output that is not
/// built yet, is never watched.
pub proof fn lemma_compile_files_are_files(cmd: Seq<char>, paths: &PathTable)
    ensures
        forall|w: Seq<char>|
            #[trigger] compile_files_of(cmd, paths).contains(w) <==> (words(cmd).contains(w)
                && looks_like_file(w) && paths.file_at(w)),
{
    let looks = |w: Seq<char>| looks_like_file(w);
    let isf = |w: Seq<char>| paths.file_at(w);
    let ws = words(cmd);
    let cands = ws.filter(looks);
    assert(compile_files_of(cmd, paths) == cands.filter(isf));
    assert forall|w: Seq<char>|
        #[trigger] compile_files_of(cmd, paths).contains(w) <==> (ws.contains(w) && looks_like_file(
            w,
        ) && paths.file_at(w)) by {
        let files = cands.filter(isf);
        if files.contains(w) {
            cands.lemma_filter_contains_rev(isf, w);
            ws.lemma_filter_contains_rev(looks, w);
            let i = choose|i: int| 0 <= i < files.len() && files[i] == w;
            cands.lemma_filter_pred(isf, i);
            let j = choose|j: int| 0 <= j < cands.len() && cands[j] == w;
            ws.lemma_filter_pred(looks, j);
        }
        if ws.contains(w) && looks_like_file(w) && paths.file_at(w) {
            let i = choose|i: int| 0 <= i < ws.len() && ws[i] == w;
            ws.lemma_filter_contains(looks, i);
            let j = choose|j: int| 0 <= j < cands.len() && cands[j] == w;
            cands.lemma_filter_contains(isf, j);
        }
    }
}

/// A `--monitor` value names its comma-separated pieces: none of them holds
/// a comma, and where no home directory is known (so no `~/` is expanded)
/// they give the value back when joined with commas.
pub proof fn lemma_monitor_value_pieces(value: Seq<char>, home: Option<Seq<char>>)
    ensures
        forall|i: int, j: int|
            0 <= i < monitor_candidates_of(value, None).len() && 0 <= j < monitor_candidates_of(
                value,
                None,
            )[i].len() ==> #[trigger] monitor_candidates_of(value, None)[i][j] != ',',
        join_with(monitor_candidates_of(value, None), seq![',']) == value,
        monitor_candidates_of(value, home).len() == monitor_candidates_of(value, None).len(),
{
    let pieces = split_by(value, is_char(','));
    lemma_split_join(value, ',');
    lemma_split_by_pieces_free(value, is_char(','));
    assert(monitor_candidates_of(value, None) =~= pieces);
}


/// In the configuration of a command line, every file watched after those
/// of the `--monitor` values and the input file comes from the compile
/// command, without `--noparse`: a word of it that reads as a file name and
/// is a regular file.
pub proof fn lemma_compile_words_watched_are_files(cli: CliView, host: &Host)
    ensures
        ({
            let n = cli.monitor.flat_map(|m: Seq<char>| monitor_entries(m, host)).len() + (
            if cli.input_file is Some && cli.run_cmd is Some {
                1int
            } else {
                0int
            });
            forall|i: int|
                n <= i < monitor_files_of(cli, host).len() ==> {
                    &&& !cli.noparse
                    &&& compile_cmd_of(cli) is Some
                    &&& words(compile_cmd_of(cli)->0).contains(#[trigger] monitor_files_of(cli, host)[i])
                    &&& looks_like_file(monitor_files_of(cli, host)[i])
                    &&& host.paths.file_at(monitor_files_of(cli, host)[i])
                }
        }),
{
    let a = cli.monitor.flat_map(|m: Seq<char>| monitor_entries(m, host));
    let b = if cli.input_file is Some && cli.run_cmd is Some {
        seq![cli.input_file->0]
    } else {
        Seq::<Seq<char>>::empty()
    };
    let c = if !cli.noparse && compile_cmd_of(cli) is Some {
        compile_files_of(compile_cmd_of(cli)->0, &host.paths)
    } else {
        Seq::<Seq<char>>::empty()
    };
    let all = monitor_files_of(cli, host);
    assert(all == a + b + c);
    let n = a.len() + b.len();
    assert forall|i: int| n <= i < all.len() implies {
        &&& !cli.noparse
        &&& compile_cmd_of(cli) is Some
        &&& words(compile_cmd_of(cli)->0).contains(#[trigger] all[i])
        &&& looks_like_file(all[i])
        &&& host.paths.file_at(all[i])
    } by {
        assert(all[i] == c[i - n]);
        assert(c.contains(c[i - n]));
        lemma_compile_files_are_files(compile_cmd_of(cli)->0, &host.paths);
    }
}


} // verus!
