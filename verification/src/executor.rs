//! The executor, as a machine that the caller drives: it names the next
//! process-control action, the caller performs it and reports what came back.
//!
//! A process that is to realize a command tree starts with `run_cmd`, then
//! answers each action with `step` until the action is `Exit`, or until an
//! `Execv` replaces the process. A `Fork` is answered in both processes: in the
//! child with `0`, in the parent with the child's id.
//!
//! Children are reaped by waiting for any child, not for a given one: a
//! process that waits twice cannot tell which of its two children ended first.

use vstd::prelude::*;
use vstd::string::StringExecFns;
use crate::command::{Command, RedirectMode};
use crate::grammar::{spec_parse, SyntaxError};
use crate::parser::parse_cmd;

verus! {

/// The permissions of a file that a redirection creates.
pub const DEFAULT_PERMISSIONS: u32 = 0o644;

/// The descriptor of standard input.
pub const STDIN: i32 = 0;

/// The descriptor of standard output.
pub const STDOUT: i32 = 1;

/// The exit status of a process that did what it was to do.
pub const SUCCESS: i32 = 0;

/// The exit status of a process that could not.
pub const FAILURE: i32 = 1;

/// Why a process gives up.
#[derive(Debug, PartialEq, Eq)]
pub enum Diagnostic<'b> {
    /// The line is no command.
    Syntax { error: SyntaxError },
    /// No executable was found for the command's name.
    CommandNotFound { name: &'b str },
    /// The program could not be started.
    ExecFailed { program: String },
    /// The file of a redirection could not be opened.
    OpenFailed { path: &'b str },
    /// No pipe could be created.
    PipeFailed,
    /// No process could be created.
    ForkFailed,
    /// No child could be waited for.
    WaitFailed,
    /// A descriptor could not be duplicated.
    DupFailed,
}

/// What is left to do in a process, in order.
#[derive(Debug, PartialEq, Eq)]
pub enum Plan<'b> {
    /// Realize a command tree.
    Run { command: Command<'b> },
    /// End the process.
    Exit { status: i32 },
    /// Close a descriptor; whether that works does not matter.
    Close { fd: i32, next: Box<Plan<'b>> },
    /// Open a file on the lowest free descriptor, or give up.
    Open { path: &'b str, mode: RedirectMode, next: Box<Plan<'b>> },
    /// Duplicate a descriptor onto the lowest free one, or give up.
    Dup { fd: i32, next: Box<Plan<'b>> },
    /// Wait for any child to end, or give up.
    Wait { next: Box<Plan<'b>> },
    /// Create a child, or give up; go on in both processes.
    Fork { child: Box<Plan<'b>>, parent: Box<Plan<'b>> },
}

/// What the caller is asked to do next.
#[derive(Debug, PartialEq, Eq)]
pub enum Action<'b> {
    Close { fd: i32 },
    Open { path: &'b str, mode: RedirectMode, permissions: u32 },
    Dup { fd: i32 },
    Pipe,
    Fork,
    Wait,
    /// Find the executable for a command's name.
    Resolve { name: &'b str },
    /// Replace the process by a program. Only a failure is reported back.
    Execv { program: String, argv: Vec<&'b str> },
    /// Write a diagnostic to standard error.
    Report { diagnostic: Diagnostic<'b> },
    /// End the process; nothing is reported back.
    Exit { status: i32 },
}

/// What came back from the last action.
#[derive(Debug, PartialEq, Eq)]
pub enum Event {
    /// What a system call returned; negative where it failed.
    Returned { value: i32 },
    /// The two ends of a new pipe.
    PipeCreated { read: i32, write: i32 },
    /// No pipe was created.
    PipeFailed,
    /// The executable for a command's name, if there is one.
    Resolved { path: Option<String> },
}

/// What a process is waiting for, and what it will do then.
#[derive(Debug, PartialEq, Eq)]
pub enum State<'b> {
    Closing { next: Plan<'b> },
    Opening { path: &'b str, next: Plan<'b> },
    Duplicating { next: Plan<'b> },
    Waiting { next: Plan<'b> },
    Forking { child: Plan<'b>, parent: Plan<'b> },
    PipeCreating { left: Command<'b>, right: Command<'b> },
    Resolving { argv: Vec<&'b str> },
    Executing { program: String },
    /// A diagnostic is being written; the process then ends in failure.
    Failing,
    /// The process has been told to end.
    Done,
}

/// What one side of a pipe does before it runs its command: it puts `end` of
/// the pipe in the place of its standard descriptor `fd`, and closes both ends.
pub open spec fn spec_pipe_side<'b>(
    fd: i32,
    end: i32,
    read: i32,
    write: i32,
    command: Command<'b>,
) -> Plan<'b> {
    Plan::Close {
        fd,
        next: Box::new(
            Plan::Dup {
                fd: end,
                next: Box::new(
                    Plan::Close {
                        fd: read,
                        next: Box::new(
                            Plan::Close { fd: write, next: Box::new(Plan::Run { command }) },
                        ),
                    },
                ),
            },
        ),
    }
}

/// What the parent of a pipe does when both sides are started: it closes
/// both ends, waits for two children and ends.
pub open spec fn spec_pipe_parent<'b>(read: i32, write: i32) -> Plan<'b> {
    Plan::Close {
        fd: read,
        next: Box::new(
            Plan::Close {
                fd: write,
                next: Box::new(
                    Plan::Wait {
                        next: Box::new(
                            Plan::Wait { next: Box::new(Plan::Exit { status: SUCCESS }) },
                        ),
                    },
                ),
            },
        ),
    }
}

/// What follows the creation of a pipe: a child for `left` that writes to
/// the pipe, then a child for `right` that reads from it.
pub open spec fn spec_pipe_plan<'b>(
    left: Command<'b>,
    right: Command<'b>,
    read: i32,
    write: i32,
) -> Plan<'b> {
    Plan::Fork {
        child: Box::new(spec_pipe_side(STDOUT, write, read, write, left)),
        parent: Box::new(
            Plan::Fork {
                child: Box::new(spec_pipe_side(STDIN, read, read, write, right)),
                parent: Box::new(spec_pipe_parent(read, write)),
            },
        ),
    }
}

/// How an `Exec` starts: with no argument the process ends at once, in
/// success; else the executable for the first argument is looked for.
pub open spec fn spec_run_exec<'b>(argv: Vec<&'b str>) -> (State<'b>, Action<'b>) {
    if argv@.len() == 0 {
        (State::Done, Action::Exit { status: SUCCESS })
    } else {
        (State::Resolving { argv }, Action::Resolve { name: argv@[0] })
    }
}

/// How a `Redirect` starts: the descriptor is closed, then the file is
/// opened in its place, then `inner` runs.
pub open spec fn spec_run_redir<'b>(
    inner: Command<'b>,
    path: &'b str,
    mode: RedirectMode,
    fd: i32,
) -> (State<'b>, Action<'b>) {
    (
        State::Closing {
            next: Plan::Open { path, mode, next: Box::new(Plan::Run { command: inner }) },
        },
        Action::Close { fd },
    )
}

/// How a `Pipe` starts: with the creation of the pipe.
pub open spec fn spec_run_pipe<'b>(left: Command<'b>, right: Command<'b>) -> (
    State<'b>,
    Action<'b>,
) {
    (State::PipeCreating { left, right }, Action::Pipe)
}

/// How a `Sequence` starts: a child runs `left`; the parent waits for it,
/// whatever its exit status, and runs `right` itself.
pub open spec fn spec_run_list<'b>(left: Command<'b>, right: Command<'b>) -> (
    State<'b>,
    Action<'b>,
) {
    (
        State::Forking {
            child: Plan::Run { command: left },
            parent: Plan::Wait { next: Box::new(Plan::Run { command: right }) },
        },
        Action::Fork,
    )
}

/// How a `Background` starts: a child runs `inner`; the parent ends at
/// once, in success, and waits for nothing.
pub open spec fn spec_run_back<'b>(inner: Command<'b>) -> (State<'b>, Action<'b>) {
    (
        State::Forking {
            child: Plan::Run { command: inner },
            parent: Plan::Exit { status: SUCCESS },
        },
        Action::Fork,
    )
}

/// How a process starts to realize a command tree.
pub open spec fn spec_run_cmd<'b>(command: Command<'b>) -> (State<'b>, Action<'b>) {
    match command {
        Command::Exec { argv } => spec_run_exec(argv),
        Command::Redirect { inner, target_path, mode, target_fd } => spec_run_redir(
            *inner,
            target_path,
            mode,
            target_fd,
        ),
        Command::Pipe { left, right } => spec_run_pipe(*left, *right),
        Command::Sequence { left, right } => spec_run_list(*left, *right),
        Command::Background { inner } => spec_run_back(*inner),
    }
}

/// The first action of a plan, and the state in which its answer is awaited.
pub open spec fn spec_begin<'b>(plan: Plan<'b>) -> (State<'b>, Action<'b>) {
    match plan {
        Plan::Run { command } => spec_run_cmd(command),
        Plan::Exit { status } => (State::Done, Action::Exit { status }),
        Plan::Close { fd, next } => (State::Closing { next: *next }, Action::Close { fd }),
        Plan::Open { path, mode, next } => (
            State::Opening { path, next: *next },
            Action::Open { path, mode, permissions: DEFAULT_PERMISSIONS },
        ),
        Plan::Dup { fd, next } => (State::Duplicating { next: *next }, Action::Dup { fd }),
        Plan::Wait { next } => (State::Waiting { next: *next }, Action::Wait),
        Plan::Fork { child, parent } => (
            State::Forking { child: *child, parent: *parent },
            Action::Fork,
        ),
    }
}

/// A process that gives up says why, then ends in failure.
pub open spec fn spec_fail<'b>(diagnostic: Diagnostic<'b>) -> (State<'b>, Action<'b>) {
    (State::Failing, Action::Report { diagnostic })
}

/// The end of a process that was told what it did not ask for.
pub open spec fn spec_abort<'b>() -> (State<'b>, Action<'b>) {
    (State::Done, Action::Exit { status: FAILURE })
}

/// The transition of the machine: the state and the action that follow
/// when `event` answers the action awaited in `state`. An event of a kind that
/// does not answer that action ends the process in failure.
pub open spec fn spec_step<'b>(state: State<'b>, event: Event) -> (State<'b>, Action<'b>) {
    match state {
        State::Closing { next } => match event {
            Event::Returned { value } => spec_begin(next),
            _ => spec_abort(),
        },
        State::Opening { path, next } => match event {
            Event::Returned { value } => if value < 0 {
                spec_fail(Diagnostic::OpenFailed { path })
            } else {
                spec_begin(next)
            },
            _ => spec_abort(),
        },
        State::Duplicating { next } => match event {
            Event::Returned { value } => if value < 0 {
                spec_fail(Diagnostic::DupFailed)
            } else {
                spec_begin(next)
            },
            _ => spec_abort(),
        },
        State::Waiting { next } => match event {
            Event::Returned { value } => if value < 0 {
                spec_fail(Diagnostic::WaitFailed)
            } else {
                spec_begin(next)
            },
            _ => spec_abort(),
        },
        State::Forking { child, parent } => match event {
            Event::Returned { value } => if value < 0 {
                spec_fail(Diagnostic::ForkFailed)
            } else if value == 0 {
                spec_begin(child)
            } else {
                spec_begin(parent)
            },
            _ => spec_abort(),
        },
        State::PipeCreating { left, right } => match event {
            Event::PipeCreated { read, write } => spec_begin(
                spec_pipe_plan(left, right, read, write),
            ),
            Event::PipeFailed => spec_fail(Diagnostic::PipeFailed),
            _ => spec_abort(),
        },
        State::Resolving { argv } => match event {
            Event::Resolved { path: Some(program) } => (
                State::Executing { program },
                Action::Execv { program, argv },
            ),
            Event::Resolved { path: None } => if argv@.len() > 0 {
                spec_fail(Diagnostic::CommandNotFound { name: argv@[0] })
            } else {
                spec_abort()
            },
            _ => spec_abort(),
        },
        State::Executing { program } => spec_fail(Diagnostic::ExecFailed { program }),
        State::Failing => spec_abort(),
        State::Done => spec_abort(),
    }
}

impl<'b> Diagnostic<'b> {
    /// The line that is written to standard error.
    pub open spec fn spec_message(&self) -> Seq<char> {
        match self {
            Diagnostic::Syntax { error } => "rsh: syntax error: "@ + error.spec_describe() + "\n"@,
            Diagnostic::CommandNotFound { name } => "rsh: "@ + name@ + ": command not found\n"@,
            Diagnostic::ExecFailed { program } => "execv "@ + program@ + " failed\n"@,
            Diagnostic::OpenFailed { path } => "open "@ + path@ + " failed\n"@,
            Diagnostic::PipeFailed => "cannot create a pipe\n"@,
            Diagnostic::ForkFailed => "cannot fork\n"@,
            Diagnostic::WaitFailed => "cannot wait\n"@,
            Diagnostic::DupFailed => "cannot dup\n"@,
        }
    }

    /// The line that is written to standard error.
    pub fn message(&self) -> (r: String)
        ensures
            r@ == self.spec_message(),
    {
        match self {
            Diagnostic::Syntax { error } => {
                let mut line: String = String::from_str("rsh: syntax error: ");
                line.append(error.describe());
                line.append("\n");
                line
            },
            Diagnostic::CommandNotFound { name } => {
                let mut line: String = String::from_str("rsh: ");
                line.append(name);
                line.append(": command not found\n");
                line
            },
            Diagnostic::ExecFailed { program } => {
                let mut line: String = String::from_str("execv ");
                line.append(program.as_str());
                line.append(" failed\n");
                line
            },
            Diagnostic::OpenFailed { path } => {
                let mut line: String = String::from_str("open ");
                line.append(path);
                line.append(" failed\n");
                line
            },
            Diagnostic::PipeFailed => String::from_str("cannot create a pipe\n"),
            Diagnostic::ForkFailed => String::from_str("cannot fork\n"),
            Diagnostic::WaitFailed => String::from_str("cannot wait\n"),
            Diagnostic::DupFailed => String::from_str("cannot dup\n"),
        }
    }
}

/// What one side of a pipe does before it runs its command.
fn pipe_side<'b>(fd: i32, end: i32, read: i32, write: i32, command: Command<'b>) -> (r: Plan<'b>)
    ensures
        r == spec_pipe_side(fd, end, read, write, command),
{
    let run: Plan<'b> = Plan::Run { command };
    let close_write: Plan<'b> = Plan::Close { fd: write, next: Box::new(run) };
    let close_read: Plan<'b> = Plan::Close { fd: read, next: Box::new(close_write) };
    let dup: Plan<'b> = Plan::Dup { fd: end, next: Box::new(close_read) };
    Plan::Close { fd, next: Box::new(dup) }
}

/// What the parent of a pipe does when both sides are started.
fn pipe_parent<'b>(read: i32, write: i32) -> (r: Plan<'b>)
    ensures
        r == spec_pipe_parent(read, write),
{
    let exit: Plan<'b> = Plan::Exit { status: SUCCESS };
    let second: Plan<'b> = Plan::Wait { next: Box::new(exit) };
    let first: Plan<'b> = Plan::Wait { next: Box::new(second) };
    let close_write: Plan<'b> = Plan::Close { fd: write, next: Box::new(first) };
    Plan::Close { fd: read, next: Box::new(close_write) }
}

/// What follows the creation of a pipe with the ends `read` and `write`.
pub fn pipe_plan<'b>(left: Command<'b>, right: Command<'b>, read: i32, write: i32) -> (r: Plan<
    'b,
>)
    ensures
        r == spec_pipe_plan(left, right, read, write),
{
    let reader: Plan<'b> = Plan::Fork {
        child: Box::new(pipe_side(STDIN, read, read, write, right)),
        parent: Box::new(pipe_parent(read, write)),
    };
    Plan::Fork {
        child: Box::new(pipe_side(STDOUT, write, read, write, left)),
        parent: Box::new(reader),
    }
}

/// Starts an `Exec`: with no argument the process ends at once, in success;
/// else the executable for the first argument is looked for.
pub fn run_exec<'b>(argv: Vec<&'b str>) -> (r: (State<'b>, Action<'b>))
    ensures
        r == spec_run_exec(argv),
{
    if argv.len() == 0 {
        (State::Done, Action::Exit { status: SUCCESS })
    } else {
        let name: &'b str = argv[0];
        (State::Resolving { argv }, Action::Resolve { name })
    }
}

/// Starts a `Redirect`: descriptor `fd` is closed, so that the file, opened
/// next, takes its place; then `inner` runs.
pub fn run_redir<'b>(inner: Command<'b>, path: &'b str, mode: RedirectMode, fd: i32) -> (r: (
    State<'b>,
    Action<'b>,
))
    ensures
        r == spec_run_redir(inner, path, mode, fd),
{
    let run: Plan<'b> = Plan::Run { command: inner };
    (State::Closing { next: Plan::Open { path, mode, next: Box::new(run) } }, Action::Close { fd })
}

/// Starts a `Pipe`, with the creation of the pipe.
pub fn run_pipe<'b>(left: Command<'b>, right: Command<'b>) -> (r: (State<'b>, Action<'b>))
    ensures
        r == spec_run_pipe(left, right),
{
    (State::PipeCreating { left, right }, Action::Pipe)
}

/// Starts a `Sequence`: a child runs `left`; the parent waits for it,
/// whatever its exit status, and runs `right` itself.
pub fn run_list<'b>(left: Command<'b>, right: Command<'b>) -> (r: (State<'b>, Action<'b>))
    ensures
        r == spec_run_list(left, right),
{
    let run: Plan<'b> = Plan::Run { command: right };
    (
        State::Forking {
            child: Plan::Run { command: left },
            parent: Plan::Wait { next: Box::new(run) },
        },
        Action::Fork,
    )
}

/// Starts a `Background`: a child runs `inner`; the parent ends at once, in
/// success, and waits for nothing.
pub fn run_back<'b>(inner: Command<'b>) -> (r: (State<'b>, Action<'b>))
    ensures
        r == spec_run_back(inner),
{
    (
        State::Forking {
            child: Plan::Run { command: inner },
            parent: Plan::Exit { status: SUCCESS },
        },
        Action::Fork,
    )
}

/// Starts to realize a command tree in this process: returns the first
/// action and the state in which its answer is awaited.
pub fn run_cmd<'b>(command: Command<'b>) -> (r: (State<'b>, Action<'b>))
    ensures
        r == spec_run_cmd(command),
{
    match command {
        Command::Exec { argv } => run_exec(argv),
        Command::Redirect { inner, target_path, mode, target_fd } => run_redir(
            *inner,
            target_path,
            mode,
            target_fd,
        ),
        Command::Pipe { left, right } => run_pipe(*left, *right),
        Command::Sequence { left, right } => run_list(*left, *right),
        Command::Background { inner } => run_back(*inner),
    }
}

/// How a process starts on a line of input: with the command that the line
/// stands for, or by giving up where it stands for none.
pub open spec fn starts_line<'b>(line: Seq<char>, start: (State<'b>, Action<'b>)) -> bool {
    match spec_parse(line) {
        Ok(tree) => exists|command: Command<'b>|
            command@ == tree && start == #[trigger] spec_run_cmd(command),
        Err(error) => start == spec_fail(Diagnostic::Syntax { error }),
    }
}

/// Parses a line and starts to realize it in this process. A line that is
/// no command is reported, and the process ends in failure.
pub fn run_line<'b>(line: &'b str) -> (r: (State<'b>, Action<'b>))
    ensures
        starts_line(line@, r),
{
    match parse_cmd(line) {
        Ok(command) => run_cmd(command),
        Err(error) => fail(Diagnostic::Syntax { error }),
    }
}

/// Starts a plan: returns its first action and the state in which the
/// answer is awaited.
pub fn begin<'b>(plan: Plan<'b>) -> (r: (State<'b>, Action<'b>))
    ensures
        r == spec_begin(plan),
{
    match plan {
        Plan::Run { command } => run_cmd(command),
        Plan::Exit { status } => (State::Done, Action::Exit { status }),
        Plan::Close { fd, next } => (State::Closing { next: *next }, Action::Close { fd }),
        Plan::Open { path, mode, next } => (
            State::Opening { path, next: *next },
            Action::Open { path, mode, permissions: DEFAULT_PERMISSIONS },
        ),
        Plan::Dup { fd, next } => (State::Duplicating { next: *next }, Action::Dup { fd }),
        Plan::Wait { next } => (State::Waiting { next: *next }, Action::Wait),
        Plan::Fork { child, parent } => (
            State::Forking { child: *child, parent: *parent },
            Action::Fork,
        ),
    }
}

/// Gives up: the diagnostic is to be written, and the process then ends in failure.
fn fail<'b>(diagnostic: Diagnostic<'b>) -> (r: (State<'b>, Action<'b>))
    ensures
        r == spec_fail(diagnostic),
{
    (State::Failing, Action::Report { diagnostic })
}

/// Ends the process in failure.
fn abort<'b>() -> (r: (State<'b>, Action<'b>))
    ensures
        r == spec_abort::<'b>(),
{
    (State::Done, Action::Exit { status: FAILURE })
}

/// The transition of the machine: given the state and what came back from
/// the action awaited in it, returns the next state and the next action.
pub fn step<'b>(state: State<'b>, event: Event) -> (r: (State<'b>, Action<'b>))
    ensures
        r == spec_step(state, event),
{
    match state {
        State::Closing { next } => match event {
            Event::Returned { value } => begin(next),
            _ => abort(),
        },
        State::Opening { path, next } => match event {
            Event::Returned { value } => if value < 0 {
                fail(Diagnostic::OpenFailed { path })
            } else {
                begin(next)
            },
            _ => abort(),
        },
        State::Duplicating { next } => match event {
            Event::Returned { value } => if value < 0 {
                fail(Diagnostic::DupFailed)
            } else {
                begin(next)
            },
            _ => abort(),
        },
        State::Waiting { next } => match event {
            Event::Returned { value } => if value < 0 {
                fail(Diagnostic::WaitFailed)
            } else {
                begin(next)
            },
            _ => abort(),
        },
        State::Forking { child, parent } => match event {
            Event::Returned { value } => if value < 0 {
                fail(Diagnostic::ForkFailed)
            } else if value == 0 {
                begin(child)
            } else {
                begin(parent)
            },
            _ => abort(),
        },
        State::PipeCreating { left, right } => match event {
            Event::PipeCreated { read, write } => begin(pipe_plan(left, right, read, write)),
            Event::PipeFailed => fail(Diagnostic::PipeFailed),
            _ => abort(),
        },
        State::Resolving { argv } => match event {
            Event::Resolved { path: Some(program) } => {
                let kept: String = program.clone();
                (State::Executing { program: kept }, Action::Execv { program, argv })
            },
            Event::Resolved { path: None } => if argv.len() > 0 {
                let name: &'b str = argv[0];
                fail(Diagnostic::CommandNotFound { name })
            } else {
                abort()
            },
            _ => abort(),
        },
        State::Executing { program } => fail(Diagnostic::ExecFailed { program }),
        State::Failing => abort(),
        State::Done => abort(),
    }
}

/// The states and the actions that follow when `events` answer, one after
/// the other, the actions that begin with the one awaited in `state`.
pub open spec fn spec_run_on<'b>(state: State<'b>, events: Seq<Event>) -> (
    State<'b>,
    Seq<Action<'b>>,
)
    decreases events.len(),
{
    if events.len() == 0 {
        (state, Seq::empty())
    } else {
        let (next, action) = spec_step(state, events[0]);
        let (last, actions) = spec_run_on(next, events.skip(1));
        (last, seq![action] + actions)
    }
}

/// The empty command ends the process at once, in success: nothing is
/// looked for and no process is created.
pub proof fn empty_command_exits_at_once<'b>(argv: Vec<&'b str>)
    requires
        argv@.len() == 0,
    ensures
        spec_run_cmd(Command::Exec { argv }) == (State::Done, Action::Exit { status: SUCCESS }),
{
}

/// A sequence does not stop short: in the parent, once the child that runs
/// `left` has been waited for, `right` is started, whatever the child's id and
/// whatever the wait returned but an error. The exit status of `left` is
/// never asked for. In the child, `left` is started.
pub proof fn sequence_runs_right<'b>(left: Command<'b>, right: Command<'b>, child: i32, reaped: i32)
    requires
        child > 0,
        reaped >= 0,
    ensures
        ({
            let sequence = Command::Sequence { left: Box::new(left), right: Box::new(right) };
            let (forking, first) = spec_run_cmd(sequence);
            let (waiting, second) = spec_step(forking, Event::Returned { value: child });
            &&& first == Action::Fork
            &&& second == Action::Wait
            &&& spec_step(waiting, Event::Returned { value: reaped }) == spec_run_cmd(right)
            &&& spec_step(forking, Event::Returned { value: 0 }) == spec_run_cmd(left)
        }),
{
}

/// A background command is not waited for: in the parent the action that
/// follows the fork ends the process, in success. In the child, `inner` is
/// started.
pub proof fn background_does_not_wait<'b>(inner: Command<'b>, child: i32)
    requires
        child > 0,
    ensures
        ({
            let background = Command::Background { inner: Box::new(inner) };
            let (forking, first) = spec_run_cmd(background);
            &&& first == Action::Fork
            &&& spec_step(forking, Event::Returned { value: child }) == (
                State::Done,
                Action::Exit { status: SUCCESS },
            )
            &&& spec_step(forking, Event::Returned { value: 0 }) == spec_run_cmd(inner)
        }),
{
}

/// How a pipe is wired. The process creates the pipe, then two children.
/// The first puts the pipe's write end in the place of its standard output and
/// runs `left`; the second puts the read end in the place of its standard
/// input and runs `right`. Each closes both ends of the pipe first, and so does
/// the parent, so that the reader sees the end of its input when the writer is
/// done. The parent then waits for two children and ends in success.
pub proof fn pipe_is_wired<'b>(
    left: Command<'b>,
    right: Command<'b>,
    read: i32,
    write: i32,
    first: i32,
    second: i32,
    results: Seq<i32>,
)
    requires
        first > 0,
        second > 0,
        results.len() == 4,
        forall|i: int| 0 <= i < 4 ==> results[i] >= 0,
    ensures
        ({
            let pipe = Command::Pipe { left: Box::new(left), right: Box::new(right) };
            let (creating, create) = spec_run_cmd(pipe);
            let (forking, fork) = spec_step(creating, Event::PipeCreated { read, write });
            let answers = Seq::new(4, |i: int| Event::Returned { value: results[i] });
            let (writer, wiring) = spec_step(forking, Event::Returned { value: 0 });
            let (parent, again) = spec_step(forking, Event::Returned { value: first });
            let (reader, rewiring) = spec_step(parent, Event::Returned { value: 0 });
            let (closing, close) = spec_step(parent, Event::Returned { value: second });
            &&& create == Action::Pipe
            &&& fork == Action::Fork
            &&& again == Action::Fork
            &&& seq![wiring] + spec_run_on(writer, answers).1 == seq![
                Action::Close { fd: STDOUT },
                Action::Dup { fd: write },
                Action::Close { fd: read },
                Action::Close { fd: write },
                spec_run_cmd(left).1,
            ]
            &&& spec_run_on(writer, answers).0 == spec_run_cmd(left).0
            &&& seq![rewiring] + spec_run_on(reader, answers).1 == seq![
                Action::Close { fd: STDIN },
                Action::Dup { fd: read },
                Action::Close { fd: read },
                Action::Close { fd: write },
                spec_run_cmd(right).1,
            ]
            &&& spec_run_on(reader, answers).0 == spec_run_cmd(right).0
            &&& seq![close] + spec_run_on(closing, answers).1 == seq![
                Action::Close { fd: read },
                Action::Close { fd: write },
                Action::Wait,
                Action::Wait,
                Action::Exit { status: SUCCESS },
            ]
        }),
{
    reveal_with_fuel(spec_run_on, 5);
    let answers = Seq::new(4, |i: int| Event::Returned { value: results[i] });
    assert(answers.skip(1).skip(1).skip(1).skip(1).len() == 0);
    assert(answers[0] == Event::Returned { value: results[0] });
    assert(answers.skip(1)[0] == Event::Returned { value: results[1] });
    assert(answers.skip(1).skip(1)[0] == Event::Returned { value: results[2] });
    assert(answers.skip(1).skip(1).skip(1)[0] == Event::Returned { value: results[3] });
}

} // verus!
