use inf::cli::Cli;
use inf::command::{
    compile_output_mode, shown_output, CommandOutcome, OutputMode, RunAction, RunResult,
    RunSession, Stage,
};
use inf::config::Config;
use inf::host::{Host, PathInfo, PathTable};
use inf::output::Colors;
use inf::watch::{matching_watched_path, Event, FileStat, Snapshots, Supervisor, WatchAction};

const DIR: &str = "/tmp/inf-test";

fn cli(args: &[&str], run: Option<&str>, input: Option<&str>, monitor: &[&str], compile: &[&str]) -> Cli {
    Cli {
        run_cmd: run.map(|s| s.to_string()),
        input_file: input.map(|s| s.to_string()),
        monitor: monitor.iter().map(|s| s.to_string()).collect(),
        noparse: args.contains(&"-n"),
        refresh: args.contains(&"-x"),
        postpone: args.contains(&"-p"),
        quiet: args.contains(&"-q"),
        waitkey: args.contains(&"-w"),
        zen: args.contains(&"-z"),
        verbose: args.contains(&"-v"),
        debug: args.contains(&"-d"),
        compile_cmd: compile.iter().map(|s| s.to_string()).collect(),
    }
}

fn host() -> Host {
    let mut paths = PathTable::new();
    for name in ["main.c", "input.txt", "extra.txt"] {
        let abs = format!("{DIR}/{name}");
        for p in [name.to_string(), abs.clone()] {
            paths.add(PathInfo { path: p, exists: true, is_file: true, canonical: Some(abs.clone()) });
        }
    }
    Host { home: None, cwd: Some(DIR.to_string()), paths }
}

/// What the shell prints and how it exits, for the few commands these tests
/// use: (standard output, standard error, exit code).
fn shell(command: &str, stdin: &str) -> (String, String, i32) {
    match command {
        "false" => (String::new(), String::new(), 1),
        "cat" => (stdin.to_string(), String::new(), 0),
        r#"FOO=ok; echo "$FOO" | cat"# => ("ok\n".to_string(), String::new(), 0),
        _ => {
            if let Some(code) = command.strip_prefix("exit ") {
                (String::new(), String::new(), code.parse().unwrap())
            } else if let Some(text) = command.strip_prefix("echo ") {
                match text.strip_suffix(" >&2") {
                    Some(t) => (String::new(), format!("{t}\n"), 0),
                    None => (format!("{text}\n"), String::new(), 0),
                }
            } else {
                panic!("unknown command {command}")
            }
        }
    }
}

/// Runs one cycle, performing its actions against `shell`, and returns what
/// the terminal shows.
fn run_cycle(config: &Config, files: &[(&str, &str)]) -> (String, RunResult) {
    let colors = Colors::detect(false, false);
    let mut session = RunSession::new();
    let mut actions = session.start(config, &colors);
    let mut out = String::new();
    loop {
        let mut outcome = None;
        for action in actions {
            match action {
                RunAction::WaitForKey | RunAction::ClearScreen => {}
                RunAction::Print(line) => {
                    out.push_str(&line);
                    out.push('\n');
                }
                RunAction::RunShell { command, input_file, mode } => {
                    let stdin = input_file
                        .and_then(|f| files.iter().find(|(n, _)| *n == f).map(|(_, c)| c.to_string()))
                        .unwrap_or_default();
                    let (o, e, code) = shell(&command, &stdin);
                    let success = code == 0;
                    match mode {
                        OutputMode::Inherit => {
                            out.push_str(&o);
                            out.push_str(&e);
                        }
                        OutputMode::CaptureStdout => out.push_str(&e),
                        OutputMode::CaptureBoth => {}
                    }
                    let shown = shown_output(mode, success, &o.into_bytes());
                    out.push_str(&String::from_utf8(shown).unwrap());
                    outcome = Some(CommandOutcome::Finished { success, code: Some(code) });
                }
                RunAction::Finish(r) => return (out, r),
            }
        }
        actions = session.resume(config, &colors, outcome.expect("a command ran"));
    }
}

fn cycle_output(args: &[&str], run: Option<&str>, input: Option<&str>, monitor: &[&str], compile: &[&str]) -> String {
    let config = Config::from_cli(cli(args, run, input, monitor, compile), &host(), false);
    run_cycle(&config, &[("input.txt", "")]).0
}

#[test]
fn run_command_output_is_printed() {
    let output = cycle_output(&[], Some("echo run"), None, &["input.txt"], &["echo compile"]);
    assert_eq!(output, "[compilation: echo compile]\necho run\nrun\n[execution succeeded]\n");
}

#[test]
fn run_command_output_is_printed_in_zen_mode() {
    let output = cycle_output(&["-z"], Some("echo run"), None, &["input.txt"], &["echo compile"]);
    assert_eq!(output, "run\n");
}

#[test]
fn compile_and_run_command_output_is_printed_in_verbose_mode() {
    let output = cycle_output(&["-v"], Some("echo run"), None, &["input.txt"], &["echo compile"]);
    assert_eq!(
        output,
        "[compilation: echo compile]\ncompile\necho run\nrun\n[execution succeeded]\n"
    );
}

#[test]
fn compile_command_error_output_is_printed() {
    let output = cycle_output(&[], Some("echo run"), None, &["input.txt"], &["echo compile >&2"]);
    assert_eq!(
        output,
        "[compilation: echo compile >&2]\ncompile\necho run\nrun\n[execution succeeded]\n"
    );
}

#[test]
fn compile_command_error_output_is_not_printed_in_quiet_mode() {
    let output = cycle_output(&["-q"], Some("echo run"), None, &["input.txt"], &["echo compile >&2"]);
    assert_eq!(
        output,
        "[compilation: echo compile >&2]\necho run\nrun\n[execution succeeded]\n"
    );
}

#[test]
fn run_command_preserves_shell_syntax() {
    let output = cycle_output(&[], Some(r#"FOO=ok; echo "$FOO" | cat"#), None, &["input.txt"], &["echo compile"]);
    assert_eq!(
        output,
        "[compilation: echo compile]\nFOO=ok; echo \"$FOO\" | cat\nok\n[execution succeeded]\n"
    );
}

#[test]
fn input_file_feeds_run_command_stdin() {
    let config = Config::from_cli(cli(&[], Some("cat"), Some("input.txt"), &[], &["echo compile"]), &host(), false);
    let (output, _) = run_cycle(&config, &[("input.txt", "from input\n")]);
    assert_eq!(output, "[compilation: echo compile]\ncat\nfrom input\n[execution succeeded]\n");
}

#[test]
fn compile_failure_prevents_run() {
    let output = cycle_output(&[], Some("echo run"), None, &["input.txt"], &["false"]);
    assert!(output.contains("[compilation: false]"));
    assert!(!output.contains("run"));
}

#[test]
fn run_failure_prints_exit_code() {
    let output = cycle_output(&[], Some("exit 42"), None, &["input.txt"], &["echo compile"]);
    assert!(output.contains("[exit code = 42]"));
}

#[test]
fn compile_only_prints_success() {
    let output = cycle_output(&[], None, None, &["input.txt"], &["echo compile"]);
    assert!(output.contains("Compilation succeeded!"));
    assert!(!output.contains("[execution"));
}

#[test]
fn cancelled_compile_ends_cycle_as_cancelled() {
    let config = Config::from_cli(cli(&[], Some("echo run"), None, &["input.txt"], &["echo compile"]), &host(), false);
    let colors = Colors::detect(false, false);
    let mut session = RunSession::new();
    let first = session.start(&config, &colors);
    assert!(matches!(first.last(), Some(RunAction::RunShell { mode: OutputMode::CaptureStdout, .. })));
    let next = session.resume(&config, &colors, CommandOutcome::Cancelled);
    assert_eq!(next.len(), 1);
    assert!(matches!(next[0], RunAction::Finish(RunResult::Cancelled)));
    assert_eq!(session.stage, Stage::Finished(RunResult::Cancelled));
}

#[test]
fn negative_and_signal_exit_codes_are_reported() {
    let config = Config::from_cli(cli(&[], Some("./app"), None, &["input.txt"], &[]), &host(), false);
    let colors = Colors::detect(true, false);
    for (code, text) in [(Some(-2147483648), "[exit code = -2147483648]"), (None, "[exit code = 1]"), (Some(7), "[exit code = 7]")] {
        let mut session = RunSession::new();
        session.start(&config, &colors);
        let actions = session.resume(&config, &colors, CommandOutcome::Finished { success: false, code });
        match &actions[0] {
            RunAction::Print(line) => assert_eq!(line, &format!("\x1b[1;31m{text}\x1b[0m")),
            _ => panic!("expected the exit code line"),
        }
    }
}

#[test]
fn output_modes_follow_flags() {
    let mut c = Config::from_cli(cli(&["-v"], None, None, &["input.txt"], &["make"]), &host(), false);
    assert_eq!(compile_output_mode(&c), OutputMode::Inherit);
    c.verbose = false;
    assert_eq!(compile_output_mode(&c), OutputMode::CaptureStdout);
    c.quiet = true;
    assert_eq!(compile_output_mode(&c), OutputMode::CaptureBoth);
    assert!(OutputMode::CaptureStdout.stdout_piped());
    assert!(!OutputMode::CaptureStdout.stderr_piped());
    assert!(OutputMode::CaptureBoth.stderr_piped());
    assert!(!OutputMode::Inherit.stdout_piped());
    assert!(shown_output(OutputMode::CaptureBoth, false, &b"o".to_vec()).is_empty());
    assert!(shown_output(OutputMode::CaptureBoth, true, &b"o".to_vec()).is_empty());
    assert_eq!(shown_output(OutputMode::CaptureStdout, false, &b"o".to_vec()), b"o".to_vec());
    assert!(shown_output(OutputMode::CaptureStdout, true, &b"o".to_vec()).is_empty());
    assert!(shown_output(OutputMode::Inherit, false, &b"o".to_vec()).is_empty());
}

#[test]
fn postpone_runs_after_file_change() {
    let config = Config::from_cli(cli(&["-p"], Some("echo run"), None, &["input.txt"], &["echo compile"]), &host(), false);
    let mut sup = Supervisor::new(config.postpone, config.refresh);
    assert!(!sup.take_spawn());
    assert_eq!(sup.on_event(Event::Trigger), WatchAction::Nothing);
    assert!(sup.take_spawn());
    let (output, result) = run_cycle(&config, &[]);
    assert!(output.contains("[compilation: echo compile]"));
    assert_eq!(output.lines().filter(|l| *l == "run").count(), 1);
    sup.on_event(Event::RunEnded(Some(result)));
    assert!(!sup.take_spawn());
}

#[test]
fn multiple_monitor_flags_gather_all_files() {
    let h = host();
    let config = Config::from_cli(cli(&[], Some("echo run"), None, &["input.txt", "extra.txt"], &["cat main.c >&2"]), &h, false);
    let paths = config.watch_paths(&h.cwd);
    assert_eq!(
        paths,
        vec![format!("{DIR}/input.txt"), format!("{DIR}/extra.txt"), format!("{DIR}/main.c")]
    );
    let mut snaps = Snapshots::new();
    let stat = |size: u64| Some(FileStat { mtime: 1, size, ino: 9, mode: 0o644, uid: 0, gid: 0 });
    for p in &paths {
        inf::watch::watched_path_changed(&mut snaps, p, stat(0));
    }
    for name in ["input.txt", "extra.txt", "main.c"] {
        let abs = format!("{DIR}/{name}");
        let i = matching_watched_path(&abs, &None, &paths).expect("watched");
        assert!(inf::watch::watched_path_changed(&mut snaps, &paths[i], stat(2)));
        assert!(!inf::watch::watched_path_changed(&mut snaps, &paths[i], stat(2)));
    }
    assert_eq!(matching_watched_path(&format!("{DIR}/dummy.txt"), &None, &paths), None);
}

#[test]
fn refresh_restarts_shell_interactive_command() {
    let mut sup = Supervisor::new(false, true);
    assert!(sup.take_spawn());
    assert_eq!(sup.on_event(Event::Trigger), WatchAction::CancelRun);
    assert!(!sup.take_spawn());
    assert_eq!(sup.on_event(Event::RunEnded(Some(RunResult::Cancelled))), WatchAction::Nothing);
    assert!(sup.take_spawn());
}

#[test]
fn interactive_command_without_refresh_is_not_killed_on_change() {
    let mut sup = Supervisor::new(false, false);
    assert!(sup.take_spawn());
    assert_eq!(sup.on_event(Event::Trigger), WatchAction::Nothing);
    assert_eq!(sup.on_event(Event::Trigger), WatchAction::Nothing);
    assert!(!sup.take_spawn());
    sup.on_event(Event::RunEnded(Some(RunResult::Completed)));
    assert!(sup.take_spawn());
    sup.on_event(Event::RunEnded(Some(RunResult::Completed)));
    assert!(!sup.take_spawn());
}

#[test]
fn quit_cancels_running_cycle_and_stops() {
    let mut sup = Supervisor::new(false, false);
    assert!(sup.take_spawn());
    assert_eq!(sup.on_event(Event::Quit), WatchAction::Stop { cancel_run: true });
    assert_eq!(sup.on_event(Event::Trigger), WatchAction::Nothing);
    assert!(!sup.take_spawn());
    let mut idle = Supervisor::new(true, false);
    assert_eq!(idle.on_event(Event::WatcherEnded { ok: true }), WatchAction::Stop { cancel_run: false });
    let mut failing = Supervisor::new(false, false);
    failing.take_spawn();
    assert_eq!(failing.on_event(Event::RunEnded(None)), WatchAction::Fail);
    let mut broken = Supervisor::new(false, false);
    assert_eq!(broken.on_event(Event::WatcherEnded { ok: false }), WatchAction::Fail);
}

#[test]
fn waitkey_and_clear_screen_come_first() {
    let mut config = Config::from_cli(cli(&["-w"], Some("./app"), None, &["input.txt"], &["cc main.c"]), &host(), true);
    let colors = Colors::detect(false, false);
    let actions = RunSession::new().start(&config, &colors);
    assert!(matches!(actions[0], RunAction::WaitForKey));
    assert!(matches!(actions[1], RunAction::ClearScreen));
    match &actions[2] {
        RunAction::Print(line) => assert_eq!(line, "[compilation: cc main.c]"),
        _ => panic!("expected the compile header"),
    }
    assert_eq!(actions.len(), 4);
    config.compile_cmd = None;
    config.run_cmd = None;
    let mut session = RunSession::new();
    let done = session.start(&config, &colors);
    assert!(matches!(done.last(), Some(RunAction::Finish(RunResult::Completed))));
}

#[test]
fn quiet_hides_failed_compile_output() {
    let output = cycle_output(&["-q"], Some("echo run"), None, &["input.txt"], &["false"]);
    assert_eq!(output, "[compilation: false]\n");
}

#[test]
fn zen_hides_exit_code_of_failed_run() {
    let output = cycle_output(&["-z"], Some("exit 42"), None, &["input.txt"], &["echo compile"]);
    assert_eq!(output, "");
}

#[test]
fn no_new_cycle_without_a_change() {
    let mut sup = Supervisor::new(false, true);
    assert!(sup.take_spawn());
    assert_eq!(sup.on_event(Event::RunEnded(Some(RunResult::Completed))), WatchAction::Nothing);
    assert!(!sup.take_spawn());
    assert_eq!(sup.on_event(Event::RunEnded(Some(RunResult::Cancelled))), WatchAction::Nothing);
    assert!(!sup.take_spawn());
    assert_eq!(sup.on_event(Event::Trigger), WatchAction::Nothing);
    assert!(sup.take_spawn());
    assert!(!sup.take_spawn());
}
