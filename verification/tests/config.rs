use inf::cli::Cli;
use inf::config::{error_line, looks_like_file_arg, Config, ConfigError};
use inf::host::{Host, PathInfo, PathTable};
use inf::output::{debug_lines, Colors};

const DIR: &str = "/tmp/inf-test";

fn cli(run: Option<&str>, input: Option<&str>, monitor: &[&str], compile: &[&str]) -> Cli {
    Cli {
        run_cmd: run.map(|s| s.to_string()),
        input_file: input.map(|s| s.to_string()),
        monitor: monitor.iter().map(|s| s.to_string()).collect(),
        noparse: false,
        refresh: false,
        postpone: false,
        quiet: false,
        waitkey: false,
        zen: false,
        verbose: false,
        debug: false,
        compile_cmd: compile.iter().map(|s| s.to_string()).collect(),
    }
}

fn file_info(path: &str, canonical: &str) -> PathInfo {
    PathInfo {
        path: path.to_string(),
        exists: true,
        is_file: true,
        canonical: Some(canonical.to_string()),
    }
}

/// A working directory holding `main.c`, `input.txt` and `extra.txt`, with
/// the facts about each of them under its relative and its absolute name.
fn default_host(home: Option<&str>) -> Host {
    let mut paths = PathTable::new();
    for name in ["main.c", "input.txt", "extra.txt"] {
        let abs = format!("{DIR}/{name}");
        paths.add(file_info(name, &abs));
        paths.add(file_info(&abs, &abs));
    }
    Host {
        home: home.map(|h| h.to_string()),
        cwd: Some(DIR.to_string()),
        paths,
    }
}

fn empty_host() -> Host {
    Host {
        home: None,
        cwd: Some(DIR.to_string()),
        paths: PathTable::new(),
    }
}

fn plain() -> Colors {
    Colors::detect(false, false)
}

fn debug_output(c: Cli, host: &Host) -> String {
    let config = Config::from_cli(c, host, false);
    debug_lines(&config, &plain()).join("\n") + "\n"
}

fn monitor_line(output: &str) -> String {
    output
        .lines()
        .find(|line| line.contains("monitorFiles[*]"))
        .expect("monitor files line")
        .to_string()
}

fn validation_error(config: &Config, host: &Host) -> String {
    match config.validate(&host.paths) {
        Ok(()) => String::new(),
        Err(e) => error_line(&plain(), &e.message()),
    }
}

#[test]
fn splits_comma_monitor_values() {
    let c = cli(None, None, &["a.txt,b.txt"], &[]);
    let config = Config::from_cli(c, &empty_host(), false);
    assert_eq!(config.monitor_files.len(), 2);
    assert!(config.monitor_files[0].ends_with("a.txt"));
    assert!(config.monitor_files[1].ends_with("b.txt"));
}

#[test]
fn detects_compile_file_args() {
    let source = "/tmp/inf-compile/main.c";
    let mut paths = PathTable::new();
    paths.add(file_info(source, source));
    let host = Host { home: None, cwd: Some(DIR.to_string()), paths };
    let c = cli(None, None, &[], &["gcc", "-Wall", source]);
    let config = Config::from_cli(c, &host, false);
    assert!(config.monitor_files.iter().any(|path| path == source));
}

#[test]
fn debug_flag_exits_after_printing_parsed_arguments() {
    let mut c = cli(None, None, &[], &["gcc", "main.c"]);
    c.debug = true;
    let output = debug_output(c, &default_host(None));
    assert!(output.contains("debug=1"));
}

#[test]
fn input_flag_adds_file_to_run_command() {
    let mut c = cli(Some("echo hi"), Some("input.txt"), &[], &["gcc main.c"]);
    c.debug = true;
    let output = debug_output(c, &default_host(None));
    assert!(output.contains("runCmd=echo hi <input.txt"));
}

#[test]
fn monitor_flag_adds_extra_files() {
    let mut c = cli(Some("echo hi"), None, &["extra.txt"], &["gcc main.c"]);
    c.debug = true;
    let output = debug_output(c, &default_host(None));
    assert!(output.contains("extra.txt"));
}

#[test]
fn noparse_flag_disables_compile_file_detection() {
    let mut c = cli(Some("echo hi"), None, &["extra.txt"], &["gcc main.c"]);
    c.debug = true;
    c.noparse = true;
    let output = debug_output(c, &default_host(None));
    assert!(!monitor_line(&output).contains("main.c"));
}

#[test]
fn boolean_flags_are_parsed() {
    let cases: [(&str, &str); 6] = [
        ("-x", "refresh=1"),
        ("-p", "postpone=1"),
        ("-q", "quiet=1"),
        ("-w", "waitkey=1"),
        ("-z", "zen=1"),
        ("-v", "verbose=1"),
    ];
    for (flag, rendered) in cases {
        let mut c = cli(None, None, &[], &["gcc main.c"]);
        c.debug = true;
        match flag {
            "-x" => c.refresh = true,
            "-p" => c.postpone = true,
            "-q" => c.quiet = true,
            "-w" => c.waitkey = true,
            "-z" => c.zen = true,
            _ => c.verbose = true,
        }
        let output = debug_output(c, &default_host(None));
        assert!(output.contains(rendered), "{flag}: {output}");
    }
}

#[test]
fn monitor_flag_gets_comma_separated_args() {
    let mut c = cli(None, None, &["input.txt,extra.txt"], &[]);
    c.debug = true;
    let output = debug_output(c, &default_host(None));
    let line = monitor_line(&output);
    assert!(line.contains("input.txt"));
    assert!(line.contains("extra.txt"));
}

#[test]
fn error_if_no_files_to_monitor() {
    let c = cli(None, None, &[], &["echo hi"]);
    let host = empty_host();
    let config = Config::from_cli(c, &host, false);
    assert!(validation_error(&config, &host).contains("ERROR: no files to monitor"));
}

#[test]
fn error_if_some_explicitly_listed_files_are_missing() {
    let c = cli(None, None, &["noexist.txt"], &["echo hi"]);
    let host = empty_host();
    let config = Config::from_cli(c, &host, false);
    assert!(validation_error(&config, &host).contains("ERROR: missing file"));
}

#[test]
fn error_if_input_without_run() {
    let c = cli(None, Some("input.txt"), &[], &["gcc main.c"]);
    let host = default_host(None);
    let config = Config::from_cli(c, &host, false);
    assert!(validation_error(&config, &host).contains("ERROR: --input requires --run"));
}

#[test]
fn error_if_quiet_and_verbose() {
    let mut c = cli(None, None, &[], &["gcc main.c"]);
    c.quiet = true;
    c.verbose = true;
    let host = default_host(None);
    let config = Config::from_cli(c, &host, false);
    assert!(validation_error(&config, &host).contains("ERROR: --quiet and --verbose conflict"));
}

#[test]
fn tilde_expansion_in_monitor_path() {
    let home = "/home/tester";
    let file = format!("{home}/.inf_test_tilde_expansion");
    let mut host = default_host(Some(home));
    host.paths.add(file_info(&file, &file));
    let mut c = cli(None, None, &["~/.inf_test_tilde_expansion"], &["echo hi"]);
    c.debug = true;
    let output = debug_output(c, &host);
    assert!(output.contains(".inf_test_tilde_expansion"));
    assert!(monitor_line(&output).contains("/home/tester/.inf_test_tilde_expansion"));
}

#[test]
fn stdin_piped_monitor_files() {
    let host = default_host(None);
    let mut c = cli(None, None, &[], &["echo hi"]);
    c.debug = true;
    let mut config = Config::from_cli(c, &host, false);
    config.add_stdin_monitor_files("main.c\nextra.txt\n", &host);
    let output = debug_lines(&config, &plain()).join("\n");
    let line = monitor_line(&output);
    assert!(line.contains("main.c"));
    assert!(line.contains("extra.txt"));
}

#[test]
fn monitor_files_keep_order_and_resolve() {
    let host = default_host(None);
    let c = cli(Some("./main"), Some("input.txt"), &["extra.txt,gone.txt", "/abs/x"], &["gcc", "-o", "main", "main.c", ".hidden"]);
    let config = Config::from_cli(c, &host, false);
    assert_eq!(
        config.monitor_files,
        vec![
            format!("{DIR}/extra.txt"),
            format!("{DIR}/gone.txt"),
            "/abs/x".to_string(),
            "input.txt".to_string(),
            "main.c".to_string(),
        ]
    );
    assert_eq!(config.compile_cmd.as_deref(), Some("gcc -o main main.c .hidden"));
}

#[test]
fn missing_files_are_listed_in_order() {
    let host = default_host(None);
    let c = cli(None, None, &["a.txt,main.c,b.txt"], &[]);
    let config = Config::from_cli(c, &host, false);
    match config.validate(&host.paths) {
        Err(ConfigError::MissingFiles(files)) => {
            assert_eq!(files, vec![format!("{DIR}/a.txt"), format!("{DIR}/b.txt")]);
        }
        _ => panic!("expected missing files"),
    }
    let e = config.validate(&host.paths).unwrap_err();
    assert_eq!(
        e.message(),
        format!("missing files \"{DIR}/a.txt\" \"{DIR}/b.txt\" ")
    );
}

#[test]
fn valid_configuration_passes() {
    let host = default_host(None);
    let c = cli(Some("./main"), Some("input.txt"), &["extra.txt"], &["gcc main.c"]);
    let config = Config::from_cli(c, &host, false);
    assert!(config.validate(&host.paths).is_ok());
}

#[test]
fn file_name_words() {
    assert!(looks_like_file_arg("main.c"));
    assert!(looks_like_file_arg("src/lib.rs"));
    assert!(!looks_like_file_arg(".hidden"));
    assert!(!looks_like_file_arg("gcc"));
    assert!(!looks_like_file_arg("a .c"));
    assert!(!looks_like_file_arg("a\u{3000}b.c"));
    assert!(!looks_like_file_arg(""));
}

#[test]
fn error_line_is_red_when_colored() {
    let colors = Colors::detect(true, false);
    assert_eq!(error_line(&colors, "x"), "\x1b[1;31mERROR: x\x1b[0m");
    let plain_colors = Colors::detect(true, true);
    assert_eq!(error_line(&plain_colors, "x"), "ERROR: x");
}

#[test]
fn watch_paths_drop_repeats_of_the_same_path() {
    let c = cli(None, None, &["a.txt,./a.txt,/w//b.txt,/w/b.txt,b.txt"], &[]);
    let host = Host { home: None, cwd: Some("/w".to_string()), paths: PathTable::new() };
    let config = Config::from_cli(c, &host, false);
    let paths = config.watch_paths(&Some("/w".to_string()));
    assert_eq!(paths, vec!["/w/a.txt".to_string(), "/w//b.txt".to_string()]);
}

#[test]
fn debug_report_shape() {
    let host = default_host(None);
    let mut c = cli(Some("./app"), None, &["extra.txt"], &["cc main.c"]);
    c.debug = true;
    c.zen = true;
    let config = Config::from_cli(c, &host, false);
    let lines = debug_lines(&config, &plain());
    assert_eq!(lines[0], "Parsed arguments:");
    assert_eq!(lines[1], "compileCmd=cc main.c");
    assert_eq!(lines[2], "runCmd=./app");
    assert_eq!(lines[3], "noparse=0");
    assert_eq!(lines[5], "compile=1");
    assert_eq!(lines[7], "input=0");
    assert_eq!(lines[12], "zen=1");
    assert_eq!(lines[14], format!("monitorFiles[*]={DIR}/extra.txt main.c"));
    assert_eq!(lines.len(), 15);
    let mut quiet = config;
    quiet.debug = false;
    assert!(debug_lines(&quiet, &plain()).is_empty());
}
