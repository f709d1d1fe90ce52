//! One compile/run cycle: which commands run, in which output mode, what the
//! tool prints around them, and how the cycle ends. The decisions are a state
//! machine; the caller performs each action and reports how each command
//! ended.
use vstd::prelude::*;

use crate::config::{Config, ConfigView};
use crate::output::Colors;
use crate::text::{decimal, decimal_string, opt_view};

verus! {

/// How one cycle ended.
#[derive(PartialEq, Eq, Structural, Clone, Copy, Debug)]
pub enum RunResult {
    /// Every command of the cycle ran to its end.
    Completed,
    /// The cycle was cancelled while a command ran.
    Cancelled,
}

/// Where a command's output goes.
#[derive(PartialEq, Eq, Structural, Clone, Copy, Debug)]
pub enum OutputMode {
    /// Straight to the terminal, the command running in the foreground.
    Inherit,
    /// Standard output kept back and shown only if the command fails;
    /// standard error straight to the terminal.
    CaptureStdout,
    /// Both kept back and never shown.
    CaptureBoth,
}

impl OutputMode {
    /// Whether standard output goes through a pipe.
    pub fn stdout_piped(&self) -> (b: bool)
        ensures
            b == (*self != OutputMode::Inherit),
    {
        !matches!(self, OutputMode::Inherit)
    }

    /// Whether standard error goes through a pipe.
    pub fn stderr_piped(&self) -> (b: bool)
        ensures
            b == (*self == OutputMode::CaptureBoth),
    {
        matches!(self, OutputMode::CaptureBoth)
    }
}

/// The output mode of the compile command: to the terminal with
/// `--verbose`, all kept back with `--quiet`, otherwise standard output kept
/// back.
pub open spec fn compile_mode_of(cfg: ConfigView) -> OutputMode {
    if cfg.verbose {
        OutputMode::Inherit
    } else if cfg.quiet {
        OutputMode::CaptureBoth
    } else {
        OutputMode::CaptureStdout
    }
}

/// The output mode of the compile command.
pub fn compile_output_mode(cfg: &Config) -> (m: OutputMode)
    ensures
        m == compile_mode_of(cfg@),
{
    if cfg.verbose {
        OutputMode::Inherit
    } else if cfg.quiet {
        OutputMode::CaptureBoth
    } else {
        OutputMode::CaptureStdout
    }
}

/// The kept-back output that is shown once a command ends: its standard
/// output where only that was kept back and the command failed; nothing
/// otherwise (after success, and whenever both streams were kept back, as
/// `--quiet` suppresses all compiler output).
pub open spec fn shown_output_of(mode: OutputMode, success: bool, stdout: Seq<u8>) -> Seq<u8> {
    if !success && mode == OutputMode::CaptureStdout {
        stdout
    } else {
        Seq::<u8>::empty()
    }
}

/// The kept-back output to show once a command ends.
pub fn shown_output(mode: OutputMode, success: bool, stdout: &Vec<u8>) -> (out: Vec<u8>)
    ensures
        out@ == shown_output_of(mode, success, stdout@),
{
    if !success && mode == OutputMode::CaptureStdout {
        stdout.clone()
    } else {
        Vec::new()
    }
}

/// How a command ended.
#[derive(PartialEq, Eq, Structural, Clone, Copy, Debug)]
pub enum CommandOutcome {
    /// It exited; `code` is its exit code, none where a signal ended it.
    Finished { success: bool, code: Option<i32> },
    /// The cycle was cancelled before it ended.
    Cancelled,
}

/// Where a cycle stands.
#[derive(PartialEq, Eq, Structural, Clone, Copy, Debug)]
pub enum Stage {
    /// Not started.
    Idle,
    /// The compile command runs; the run command follows if `then_run`.
    Compiling { then_run: bool },
    /// The run command runs.
    Running,
    /// The cycle is over.
    Finished(RunResult),
}

/// One thing the caller does for the cycle.
pub enum RunAction {
    /// Print `<press key to run>` and wait for one byte of input.
    WaitForKey,
    /// Clear the screen.
    ClearScreen,
    /// Print this line.
    Print(String),
    /// Run this shell command, reading standard input from `input_file`
    /// where given, and report how it ended.
    RunShell { command: String, input_file: Option<String>, mode: OutputMode },
    /// The cycle is over, with this result.
    Finish(RunResult),
}

/// The mathematical content of a `RunAction`.
pub ghost enum Action {
    WaitForKey,
    ClearScreen,
    Print(Seq<char>),
    RunShell { command: Seq<char>, input_file: Option<Seq<char>>, mode: OutputMode },
    Finish(RunResult),
}

impl View for RunAction {
    type V = Action;

    open spec fn view(&self) -> Action {
        match self {
            RunAction::WaitForKey => Action::WaitForKey,
            RunAction::ClearScreen => Action::ClearScreen,
            RunAction::Print(s) => Action::Print(s@),
            RunAction::RunShell { command, input_file, mode } => Action::RunShell {
                command: command@,
                input_file: opt_view(*input_file),
                mode: *mode,
            },
            RunAction::Finish(r) => Action::Finish(*r),
        }
    }
}

/// The views of a sequence of actions.
pub open spec fn actions_view(v: Seq<RunAction>) -> Seq<Action> {
    v.map_values(|a: RunAction| a@)
}

/// The line announcing the compile command, in blue.
pub open spec fn compile_header(c: &Colors, cmd: Seq<char>) -> Seq<char> {
    c.blue@ + "[compilation: "@ + cmd + "]"@ + c.reset@
}

/// The line reporting a failed run command, in red; exit code 1 stands for
/// a run ended by a signal.
pub open spec fn exit_code_line(c: &Colors, code: Option<i32>) -> Seq<char> {
    c.red@ + "[exit code = "@ + decimal(
        match code {
            Some(k) => k as int,
            None => 1,
        },
    ) + "]"@ + c.reset@
}

/// The actions that run the run command: the command in green unless
/// `--zen`, then the command itself, in the foreground, reading the input
/// file where there is one.
pub open spec fn target_actions(cfg: ConfigView, c: &Colors) -> Seq<Action> {
    (if cfg.zen {
        Seq::<Action>::empty()
    } else {
        seq![Action::Print(c.green@ + cfg.run_cmd->0 + c.reset@)]
    }) + seq![
        Action::RunShell {
            command: cfg.run_cmd->0,
            input_file: cfg.input_file,
            mode: OutputMode::Inherit,
        },
    ]
}

/// The action that runs the compile command.
pub open spec fn compile_action(cfg: ConfigView) -> Action {
    Action::RunShell { command: cfg.compile_cmd->0, input_file: None, mode: compile_mode_of(cfg) }
}

/// How a cycle starts: wait for a key with `--waitkey`; clear the screen
/// where configured; announce the compile command unless `--zen`; then run
/// the compile command, or the run command where there is no compile
/// command, or end at once where there is neither.
pub open spec fn start_of(cfg: ConfigView, c: &Colors) -> (Stage, Seq<Action>) {
    let prefix = (if cfg.waitkey {
        seq![Action::WaitForKey]
    } else {
        Seq::<Action>::empty()
    }) + (if cfg.clear_screen {
        seq![Action::ClearScreen]
    } else {
        Seq::<Action>::empty()
    }) + (if cfg.compile_cmd is Some && !cfg.zen {
        seq![Action::Print(compile_header(c, cfg.compile_cmd->0))]
    } else {
        Seq::<Action>::empty()
    });
    if cfg.run_cmd is Some {
        if cfg.compile_cmd is Some {
            (Stage::Compiling { then_run: true }, prefix + seq![compile_action(cfg)])
        } else {
            (Stage::Running, prefix + target_actions(cfg, c))
        }
    } else if cfg.compile_cmd is Some {
        (Stage::Compiling { then_run: false }, prefix + seq![compile_action(cfg)])
    } else {
        (Stage::Finished(RunResult::Completed), prefix + seq![Action::Finish(RunResult::Completed)])
    }
}

/// What follows once the running command ended. A cancelled command ends
/// the cycle as cancelled. A failed compile command ends the cycle; a
/// successful one is followed by the run command, or, where there is none,
/// by `Compilation succeeded!` in green unless `--zen`. After the run
/// command, unless `--zen`, a failure is reported with its exit code in red,
/// a success with `[execution succeeded]` in green. Where no command runs,
/// nothing follows.
pub open spec fn after_of(stage: Stage, cfg: ConfigView, c: &Colors, outcome: CommandOutcome) -> (
    Stage,
    Seq<Action>,
) {
    match stage {
        Stage::Compiling { then_run } => match outcome {
            CommandOutcome::Cancelled => (
                Stage::Finished(RunResult::Cancelled),
                seq![Action::Finish(RunResult::Cancelled)],
            ),
            CommandOutcome::Finished { success, code } => if then_run {
                if success {
                    (Stage::Running, target_actions(cfg, c))
                } else {
                    (
                        Stage::Finished(RunResult::Completed),
                        seq![Action::Finish(RunResult::Completed)],
                    )
                }
            } else {
                (
                    Stage::Finished(RunResult::Completed),
                    (if success && !cfg.zen {
                        seq![Action::Print(c.green@ + "Compilation succeeded!"@ + c.reset@)]
                    } else {
                        Seq::<Action>::empty()
                    }) + seq![Action::Finish(RunResult::Completed)],
                )
            },
        },
        Stage::Running => match outcome {
            CommandOutcome::Cancelled => (
                Stage::Finished(RunResult::Cancelled),
                seq![Action::Finish(RunResult::Cancelled)],
            ),
            CommandOutcome::Finished { success, code } => (
                Stage::Finished(RunResult::Completed),
                (if cfg.zen {
                    Seq::<Action>::empty()
                } else if !success {
                    seq![Action::Print(exit_code_line(c, code))]
                } else {
                    seq![Action::Print(c.green@ + "[execution succeeded]"@ + c.reset@)]
                }) + seq![Action::Finish(RunResult::Completed)],
            ),
        },
        _ => (stage, Seq::<Action>::empty()),
    }
}

/// Whether a stage can be reached with a configuration: the compile
/// command runs only where there is one, followed by the run command exactly
/// where there is one; the run command runs only where there is one.
pub open spec fn fits(stage: Stage, cfg: ConfigView) -> bool {
    match stage {
        Stage::Compiling { then_run } => cfg.compile_cmd is Some && then_run == (cfg.run_cmd is Some),
        Stage::Running => cfg.run_cmd is Some,
        _ => true,
    }
}

/// The state of one compile/run cycle.
pub struct RunSession {
    pub stage: Stage,
}

/// A line of text in the given colour.
fn colored_line(color: &String, text: &str, reset: &String) -> (line: String)
    ensures
        line@ == color@ + text@ + reset@,
{
    let mut line = color.clone();
    line.append(text);
    line.append(reset.as_str());
    line
}

/// The actions that run the run command.
fn target_run(cfg: &Config, c: &Colors, actions: &mut Vec<RunAction>)
    requires
        cfg.run_cmd is Some,
    ensures
        actions_view(final(actions)@) == actions_view(old(actions)@) + target_actions(cfg@, c),
{
    let ghost start = actions_view(actions@);
    let run = cfg.run_cmd.as_ref().unwrap();
    if !cfg.zen {
        actions.push(RunAction::Print(colored_line(&c.green, run.as_str(), &c.reset)));
    }
    actions.push(
        RunAction::RunShell {
            command: run.clone(),
            input_file: cfg.input_file.clone(),
            mode: OutputMode::Inherit,
        },
    );
    assert(actions_view(actions@) =~= start + target_actions(cfg@, c));
}

impl RunSession {
    /// A cycle not yet started.
    pub fn new() -> (s: RunSession)
        ensures
            s.stage == Stage::Idle,
    {
        RunSession { stage: Stage::Idle }
    }

    /// Starts the cycle: the actions up to and including the first command,
    /// or the end of the cycle.
    pub fn start(&mut self, cfg: &Config, c: &Colors) -> (actions: Vec<RunAction>)
        ensures
            (final(self).stage, actions_view(actions@)) == start_of(cfg@, c),
            fits(final(self).stage, cfg@),
    {
        let mut actions: Vec<RunAction> = Vec::new();
        if cfg.waitkey {
            actions.push(RunAction::WaitForKey);
        }
        if cfg.clear_screen {
            actions.push(RunAction::ClearScreen);
        }
        if cfg.compile_cmd.is_some() && !cfg.zen {
            let cmd = cfg.compile_cmd.as_ref().unwrap();
            let mut line = c.blue.clone();
            line.append("[compilation: ");
            line.append(cmd.as_str());
            line.append("]");
            line.append(c.reset.as_str());
            actions.push(RunAction::Print(line));
        }
        let ghost prefix = actions_view(actions@);
        let ghost v = cfg@;
        assert(prefix =~= (if v.waitkey {
            seq![Action::WaitForKey]
        } else {
            Seq::<Action>::empty()
        }) + (if v.clear_screen {
            seq![Action::ClearScreen]
        } else {
            Seq::<Action>::empty()
        }) + (if v.compile_cmd is Some && !v.zen {
            seq![Action::Print(compile_header(c, v.compile_cmd->0))]
        } else {
            Seq::<Action>::empty()
        }));
        if cfg.run_cmd.is_some() {
            if cfg.compile_cmd.is_some() {
                actions.push(
                    RunAction::RunShell {
                        command: cfg.compile_cmd.clone().unwrap(),
                        input_file: None,
                        mode: compile_output_mode(cfg),
                    },
                );
                self.stage = Stage::Compiling { then_run: true };
                assert(actions_view(actions@) =~= prefix + seq![compile_action(v)]);
            } else {
                target_run(cfg, c, &mut actions);
                self.stage = Stage::Running;
            }
        } else if cfg.compile_cmd.is_some() {
            actions.push(
                RunAction::RunShell {
                    command: cfg.compile_cmd.clone().unwrap(),
                    input_file: None,
                    mode: compile_output_mode(cfg),
                },
            );
            self.stage = Stage::Compiling { then_run: false };
            assert(actions_view(actions@) =~= prefix + seq![compile_action(v)]);
        } else {
            actions.push(RunAction::Finish(RunResult::Completed));
            self.stage = Stage::Finished(RunResult::Completed);
            assert(actions_view(actions@) =~= prefix + seq![Action::Finish(RunResult::Completed)]);
        }
        actions
    }

    /// Goes on once the running command ended: the actions up to and
    /// including the next command, or the end of the cycle.
    pub fn resume(&mut self, cfg: &Config, c: &Colors, outcome: CommandOutcome) -> (actions: Vec<
        RunAction,
    >)
        requires
            fits(old(self).stage, cfg@),
        ensures
            fits(final(self).stage, cfg@),
            (final(self).stage, actions_view(actions@)) == after_of(
                old(self).stage,
                cfg@,
                c,
                outcome,
            ),
    {
        let mut actions: Vec<RunAction> = Vec::new();
        match self.stage {
            Stage::Compiling { then_run } => match outcome {
                CommandOutcome::Cancelled => {
                    actions.push(RunAction::Finish(RunResult::Cancelled));
                    self.stage = Stage::Finished(RunResult::Cancelled);
                },
                CommandOutcome::Finished { success, code: _ } => {
                    if then_run {
                        if success {
                            target_run(cfg, c, &mut actions);
                            self.stage = Stage::Running;
                            assert(actions_view(actions@) =~= target_actions(cfg@, c));
                        } else {
                            actions.push(RunAction::Finish(RunResult::Completed));
                            self.stage = Stage::Finished(RunResult::Completed);
                        }
                    } else {
                        if success && !cfg.zen {
                            actions.push(
                                RunAction::Print(
                                    colored_line(&c.green, "Compilation succeeded!", &c.reset),
                                ),
                            );
                        }
                        actions.push(RunAction::Finish(RunResult::Completed));
                        self.stage = Stage::Finished(RunResult::Completed);
                    }
                },
            },
            Stage::Running => {
                match outcome {
                    CommandOutcome::Cancelled => {
                        actions.push(RunAction::Finish(RunResult::Cancelled));
                        self.stage = Stage::Finished(RunResult::Cancelled);
                    },
                    CommandOutcome::Finished { success, code } => {
                        if !cfg.zen {
                            if !success {
                                let k: i32 = match code {
                                    Some(k) => k,
                                    None => 1,
                                };
                                let mut line = c.red.clone();
                                line.append("[exit code = ");
                                let digits = decimal_string(k);
                                line.append(digits.as_str());
                                line.append("]");
                                line.append(c.reset.as_str());
                                actions.push(RunAction::Print(line));
                            } else {
                                actions.push(
                                    RunAction::Print(
                                        colored_line(&c.green, "[execution succeeded]", &c.reset),
                                    ),
                                );
                            }
                        }
                        actions.push(RunAction::Finish(RunResult::Completed));
                        self.stage = Stage::Finished(RunResult::Completed);
                    },
                }
            },
            _ => {},
        }
        assert(actions_view(actions@) =~= after_of(old(self).stage, cfg@, c, outcome).1);
        actions
    }
}

/// Whether an action runs a command or ends the cycle: the actions after
/// which the caller reports back or stops.
pub open spec fn is_step_end(a: Action) -> bool {
    a is RunShell || a is Finish
}

/// Whether a list of actions is one step of a cycle: it ends with a
/// command to run or the end of the cycle, and has no other such action;
/// it ends the cycle with result `r` exactly where `stage` is
/// `Finished(r)`.
pub open spec fn one_step(stage: Stage, actions: Seq<Action>) -> bool {
    &&& actions.len() > 0
    &&& is_step_end(actions.last())
    &&& forall|i: int| 0 <= i < actions.len() - 1 ==> !is_step_end(#[trigger] actions[i])
    &&& forall|r: RunResult| (actions.last() == Action::Finish(r)) <==> stage == Stage::Finished(r)
}

/// The number of commands a cycle may still run from a stage.
pub open spec fn commands_left(stage: Stage) -> nat {
    match stage {
        Stage::Idle => 2,
        Stage::Compiling { then_run } => if then_run {
            2
        } else {
            1
        },
        Stage::Running => 1,
        Stage::Finished(_) => 0,
    }
}

/// Every step of a cycle runs one command or ends the cycle, and each
/// command lowers the number of commands left: a cycle runs at most the
/// compile command and then the run command, and then ends.
pub proof fn lemma_cycle_steps(cfg: ConfigView, c: &Colors, stage: Stage, outcome: CommandOutcome)
    requires
        fits(stage, cfg),
        (stage is Compiling || stage is Running),
    ensures
        one_step(start_of(cfg, c).0, start_of(cfg, c).1),
        one_step(after_of(stage, cfg, c, outcome).0, after_of(stage, cfg, c, outcome).1),
        commands_left(start_of(cfg, c).0) < commands_left(Stage::Idle) || start_of(cfg, c).0
            == (Stage::Compiling { then_run: true }),
        commands_left(after_of(stage, cfg, c, outcome).0) < commands_left(stage),
{
    let s = start_of(cfg, c).1;
    assert forall|i: int| 0 <= i < s.len() - 1 implies !is_step_end(#[trigger] s[i]) by {}
    let a = after_of(stage, cfg, c, outcome).1;
    assert forall|i: int| 0 <= i < a.len() - 1 implies !is_step_end(#[trigger] a[i]) by {}
}

/// A cancelled command ends the cycle at once, as cancelled.
pub proof fn lemma_cancel_ends_cycle(cfg: ConfigView, c: &Colors, stage: Stage)
    requires
        (stage is Compiling || stage is Running),
    ensures
        after_of(stage, cfg, c, CommandOutcome::Cancelled) == (
            Stage::Finished(RunResult::Cancelled),
            seq![Action::Finish(RunResult::Cancelled)],
        ),
{
}

/// A failed compile command keeps the run command from running: the cycle
/// ends, completed, with nothing run or printed.
pub proof fn lemma_failed_compile_prevents_run(cfg: ConfigView, c: &Colors, code: Option<i32>)
    ensures
        after_of(
            (Stage::Compiling { then_run: true }),
            cfg,
            c,
            (CommandOutcome::Finished { success: false, code }),
        ) == (Stage::Finished(RunResult::Completed), seq![Action::Finish(RunResult::Completed)]),
{
}

/// With `--zen` the tool prints no line of its own: a cycle shows the
/// commands' output alone.
pub proof fn lemma_zen_prints_nothing(
    cfg: ConfigView,
    c: &Colors,
    stage: Stage,
    outcome: CommandOutcome,
)
    requires
        cfg.zen,
    ensures
        (forall|i: int|
            0 <= i < start_of(cfg, c).1.len() ==> !(#[trigger] start_of(cfg, c).1[i] is Print)),
        (forall|i: int|
            0 <= i < after_of(stage, cfg, c, outcome).1.len() ==> !(#[trigger] after_of(
                stage,
                cfg,
                c,
                outcome,
            ).1[i] is Print)),
{
    let s = start_of(cfg, c).1;
    assert forall|i: int| 0 <= i < s.len() implies !(#[trigger] s[i] is Print) by {}
    let a = after_of(stage, cfg, c, outcome).1;
    assert forall|i: int| 0 <= i < a.len() implies !(#[trigger] a[i] is Print) by {}
}

/// `--verbose` sends the compiler's output straight to the terminal;
/// `--quiet` keeps all of it back and never shows it; otherwise its
/// standard error goes to the terminal and its standard output is shown
/// only when compiling fails.
pub proof fn lemma_compiler_output(cfg: ConfigView, success: bool, out: Seq<u8>)
    ensures
        cfg.verbose ==> compile_mode_of(cfg) == OutputMode::Inherit,
        !cfg.verbose ==> shown_output_of(compile_mode_of(cfg), true, out) == Seq::<u8>::empty(),
        !cfg.verbose && !cfg.quiet ==> compile_mode_of(cfg) == OutputMode::CaptureStdout
            && shown_output_of(compile_mode_of(cfg), false, out) == out,
        !cfg.verbose && cfg.quiet ==> compile_mode_of(cfg) == OutputMode::CaptureBoth
            && shown_output_of(compile_mode_of(cfg), success, out) == Seq::<u8>::empty(),
{
}

/// With `--waitkey` every cycle starts by waiting for a key.
pub proof fn lemma_waitkey_comes_first(cfg: ConfigView, c: &Colors)
    requires
        cfg.waitkey,
    ensures
        start_of(cfg, c).1[0] == Action::WaitForKey,
{
}

/// A compile command that fails ends the cycle, completed, with nothing
/// printed and nothing run, whether or not a run command would follow.
pub proof fn lemma_failed_compile_reports_nothing(
    cfg: ConfigView,
    c: &Colors,
    then_run: bool,
    code: Option<i32>,
)
    ensures
        after_of(
            (Stage::Compiling { then_run }),
            cfg,
            c,
            (CommandOutcome::Finished { success: false, code }),
        ) == (Stage::Finished(RunResult::Completed), seq![Action::Finish(RunResult::Completed)]),
{
}

/// Without a run command, `Compilation succeeded!` is printed exactly when
/// the compile command succeeded and `--zen` is off; the cycle then ends,
/// completed.
pub proof fn lemma_compile_success_reported(
    cfg: ConfigView,
    c: &Colors,
    success: bool,
    code: Option<i32>,
)
    ensures
        after_of(
            (Stage::Compiling { then_run: false }),
            cfg,
            c,
            (CommandOutcome::Finished { success, code }),
        ).1.contains(Action::Print(c.green@ + "Compilation succeeded!"@ + c.reset@)) <==> (success
            && !cfg.zen),
        after_of(
            (Stage::Compiling { then_run: false }),
            cfg,
            c,
            (CommandOutcome::Finished { success, code }),
        ).1.last() == Action::Finish(RunResult::Completed),
{
    let line = Action::Print(c.green@ + "Compilation succeeded!"@ + c.reset@);
    let a = after_of(
        (Stage::Compiling { then_run: false }),
        cfg,
        c,
        (CommandOutcome::Finished { success, code }),
    ).1;
    if success && !cfg.zen {
        assert(a[0] == line);
    } else {
        assert(a =~= seq![Action::Finish(RunResult::Completed)]);
        assert(a[0] != line);
    }
}

/// After the run command, unless `--zen`, the tool prints one line of its
/// own: `[execution succeeded]` in green where the command succeeded,
/// otherwise `[exit code = N]` in red with its exit code (1 where a signal
/// ended it); then the cycle ends, completed.
pub proof fn lemma_run_result_reported(cfg: ConfigView, c: &Colors, success: bool, code: Option<i32>)
    requires
        !cfg.zen,
    ensures
        after_of(Stage::Running, cfg, c, (CommandOutcome::Finished { success, code })) == (
            Stage::Finished(RunResult::Completed),
            seq![
                Action::Print(
                    if success {
                        c.green@ + "[execution succeeded]"@ + c.reset@
                    } else {
                        c.red@ + "[exit code = "@ + decimal(
                            match code {
                                Some(k) => k as int,
                                None => 1,
                            },
                        ) + "]"@ + c.reset@
                    },
                ),
                Action::Finish(RunResult::Completed),
            ],
        ),
{
    let a = after_of(Stage::Running, cfg, c, (CommandOutcome::Finished { success, code })).1;
    if success {
        assert(a =~= seq![
            Action::Print(c.green@ + "[execution succeeded]"@ + c.reset@),
            Action::Finish(RunResult::Completed),
        ]);
    } else {
        assert(a =~= seq![Action::Print(exit_code_line(c, code)), Action::Finish(RunResult::Completed)]);
    }
}

/// How a cycle starts: it waits for a key first exactly with `--waitkey`,
/// clears the screen exactly where configured, announces the compile
/// command in blue unless `--zen`, and then runs its first command: the
/// compile command where there is one, reading no input, in the mode the
/// output flags choose; otherwise the run command, reading the input file,
/// in the foreground; where there is neither, the cycle ends at once,
/// completed. Only the run command reads the input file: a successful
/// compile command is followed by it.
pub proof fn lemma_start_runs_first_command(cfg: ConfigView, c: &Colors, code: Option<i32>)
    ensures
        (start_of(cfg, c).1[0] == Action::WaitForKey) <==> cfg.waitkey,
        forall|i: int|
            0 < i < start_of(cfg, c).1.len() ==> #[trigger] start_of(cfg, c).1[i]
                != Action::WaitForKey,
        start_of(cfg, c).1.contains(Action::ClearScreen) <==> cfg.clear_screen,
        cfg.compile_cmd is Some ==> (start_of(cfg, c).1.contains(
            Action::Print(c.blue@ + "[compilation: "@ + cfg.compile_cmd->0 + "]"@ + c.reset@),
        ) <==> !cfg.zen),
        cfg.compile_cmd is Some ==> start_of(cfg, c).1.last() == (Action::RunShell {
            command: cfg.compile_cmd->0,
            input_file: None,
            mode: compile_mode_of(cfg),
        }),
        cfg.compile_cmd is None && cfg.run_cmd is Some ==> start_of(cfg, c).1.last() == (
        Action::RunShell {
            command: cfg.run_cmd->0,
            input_file: cfg.input_file,
            mode: OutputMode::Inherit,
        }),
        cfg.compile_cmd is None && cfg.run_cmd is None ==> start_of(cfg, c).0 == Stage::Finished(
            RunResult::Completed,
        ) && start_of(cfg, c).1.last() == Action::Finish(RunResult::Completed),
        cfg.compile_cmd is Some && cfg.run_cmd is Some ==> after_of(
            start_of(cfg, c).0,
            cfg,
            c,
            (CommandOutcome::Finished { success: true, code }),
        ).1.last() == (Action::RunShell {
            command: cfg.run_cmd->0,
            input_file: cfg.input_file,
            mode: OutputMode::Inherit,
        }),
{
    let s = start_of(cfg, c).1;
    let w = if cfg.waitkey {
        seq![Action::WaitForKey]
    } else {
        Seq::<Action>::empty()
    };
    let k = if cfg.clear_screen {
        seq![Action::ClearScreen]
    } else {
        Seq::<Action>::empty()
    };
    let h = if cfg.compile_cmd is Some && !cfg.zen {
        seq![Action::Print(compile_header(c, cfg.compile_cmd->0))]
    } else {
        Seq::<Action>::empty()
    };
    let tail = s.skip((w + k + h).len() as int);
    assert(s =~= w + k + h + tail);
    assert(tail.len() <= 2);
    assert forall|i: int| 0 <= i < tail.len() implies {
        &&& !(#[trigger] tail[i] is WaitForKey)
        &&& !(tail[i] is ClearScreen)
        &&& (tail[i] is Print ==> cfg.run_cmd is Some && cfg.compile_cmd is None && !cfg.zen)
    } by {}
    if cfg.clear_screen {
        assert(s[w.len() as int] == Action::ClearScreen);
    } else {
        assert forall|i: int| 0 <= i < s.len() implies s[i] != Action::ClearScreen by {
            if i >= (w + k + h).len() {
                assert(s[i] == tail[i - (w + k + h).len()]);
            }
        }
    }
    if cfg.compile_cmd is Some {
        let line = Action::Print(c.blue@ + "[compilation: "@ + cfg.compile_cmd->0 + "]"@ + c.reset@);
        if !cfg.zen {
            assert(s[(w + k).len() as int] == line);
        } else {
            assert forall|i: int| 0 <= i < s.len() implies s[i] != line by {
                if i >= (w + k + h).len() {
                    assert(s[i] == tail[i - (w + k + h).len()]);
                }
            }
        }
    }
    assert forall|i: int| 0 < i < s.len() implies #[trigger] s[i] != Action::WaitForKey by {
        if i >= (w + k + h).len() {
            assert(s[i] == tail[i - (w + k + h).len()]);
        }
    }
    if cfg.compile_cmd is Some && cfg.run_cmd is Some {
        let a = after_of(start_of(cfg, c).0, cfg, c, (CommandOutcome::Finished { success: true, code })).1;
        assert(a == target_actions(cfg, c));
    }
}

} // verus!
