use rsh::command::{Command, RedirectMode};
use rsh::executor::{
    begin, pipe_plan, run_back, run_cmd, run_exec, run_line, run_list, run_pipe, run_redir, step,
    Action, Diagnostic, Event, Plan, State, DEFAULT_PERMISSIONS, FAILURE, STDIN, STDOUT, SUCCESS,
};
use rsh::grammar::SyntaxError;
use rsh::parser::parse_cmd;

fn exec<'b>(argv: &[&'b str]) -> Command<'b> {
    Command::Exec { argv: argv.to_vec() }
}

fn returned(value: i32) -> Event {
    Event::Returned { value }
}

/// Feeds `events` to the machine and returns the actions it answers with.
fn drive<'b>(state: State<'b>, events: Vec<Event>) -> (State<'b>, Vec<Action<'b>>) {
    let mut state = state;
    let mut actions = Vec::new();
    for event in events {
        let (next, action) = step(state, event);
        state = next;
        actions.push(action);
    }
    (state, actions)
}

#[test]
fn the_empty_command_exits_at_once_in_success() {
    assert_eq!(run_cmd(exec(&[])), (State::Done, Action::Exit { status: 0 }));
    assert_eq!(run_exec(vec![]), (State::Done, Action::Exit { status: SUCCESS }));
    assert_eq!(run_line("   "), (State::Done, Action::Exit { status: 0 }));
}

#[test]
fn an_exec_resolves_its_first_argument_and_replaces_the_process() {
    let (state, action) = run_cmd(exec(&["wc", "-c"]));
    assert_eq!(action, Action::Resolve { name: "wc" });
    assert_eq!(state, State::Resolving { argv: vec!["wc", "-c"] });
    let (state, action) = step(state, Event::Resolved { path: Some("/usr/bin/wc".to_string()) });
    assert_eq!(
        action,
        Action::Execv { program: "/usr/bin/wc".to_string(), argv: vec!["wc", "-c"] }
    );
    assert_eq!(state, State::Executing { program: "/usr/bin/wc".to_string() });
}

#[test]
fn a_command_that_is_not_found_is_reported_and_fails() {
    let (state, _) = run_cmd(exec(&["nope", "x"]));
    let (state, action) = step(state, Event::Resolved { path: None });
    assert_eq!(action, Action::Report { diagnostic: Diagnostic::CommandNotFound { name: "nope" } });
    assert_eq!(state, State::Failing);
    let (state, action) = step(state, returned(0));
    assert_eq!(action, Action::Exit { status: FAILURE });
    assert_eq!(state, State::Done);
    assert_eq!(FAILURE, 1);
}

#[test]
fn an_exec_that_returns_is_reported_and_fails() {
    let (state, _) = run_cmd(exec(&["prog"]));
    let (state, _) = step(state, Event::Resolved { path: Some("./prog".to_string()) });
    let (state, actions) = drive(state, vec![returned(-1), returned(0)]);
    assert_eq!(
        actions,
        vec![
            Action::Report { diagnostic: Diagnostic::ExecFailed { program: "./prog".to_string() } },
            Action::Exit { status: 1 },
        ]
    );
    assert_eq!(state, State::Done);
}

#[test]
fn a_redirection_closes_the_descriptor_then_opens_the_file_then_runs() {
    let tree = parse_cmd("cat >> log").unwrap();
    let (state, action) = run_cmd(tree);
    assert_eq!(action, Action::Close { fd: 1 });
    let (state, action) = step(state, returned(0));
    assert_eq!(
        action,
        Action::Open { path: "log", mode: RedirectMode::WriteAppend, permissions: 0o644 }
    );
    assert_eq!(DEFAULT_PERMISSIONS, 0o644);
    let (state, action) = step(state, returned(1));
    assert_eq!(action, Action::Resolve { name: "cat" });
    assert_eq!(state, State::Resolving { argv: vec!["cat"] });
}

#[test]
fn a_redirection_of_input_closes_standard_input() {
    let (state, action) = run_redir(exec(&["sort"]), "names", RedirectMode::Read, 0);
    assert_eq!(action, Action::Close { fd: STDIN });
    let (_, action) = step(state, returned(-1));
    assert_eq!(
        action,
        Action::Open { path: "names", mode: RedirectMode::Read, permissions: 0o644 }
    );
}

#[test]
fn a_file_that_cannot_be_opened_is_reported_and_inner_does_not_run() {
    let (state, _) = run_cmd(parse_cmd("cat > /no/such").unwrap());
    let (state, actions) = drive(state, vec![returned(0), returned(-1), returned(0)]);
    assert_eq!(
        actions,
        vec![
            Action::Open {
                path: "/no/such",
                mode: RedirectMode::WriteTruncate,
                permissions: 0o644,
            },
            Action::Report { diagnostic: Diagnostic::OpenFailed { path: "/no/such" } },
            Action::Exit { status: 1 },
        ]
    );
    assert_eq!(state, State::Done);
}

#[test]
fn both_redirections_to_one_descriptor_open_their_files() {
    let (state, first) = run_cmd(parse_cmd("cmd > f1 > f2").unwrap());
    let (_, actions) = drive(state, vec![returned(0), returned(1), returned(0), returned(1)]);
    assert_eq!(first, Action::Close { fd: 1 });
    assert_eq!(
        actions,
        vec![
            Action::Open { path: "f2", mode: RedirectMode::WriteTruncate, permissions: 0o644 },
            Action::Close { fd: 1 },
            Action::Open { path: "f1", mode: RedirectMode::WriteTruncate, permissions: 0o644 },
            Action::Resolve { name: "cmd" },
        ]
    );
}

#[test]
fn a_pipe_wires_two_children_and_the_parent_waits_for_both() {
    let tree = Command::Pipe {
        left: Box::new(exec(&["printf", "hi"])),
        right: Box::new(exec(&["wc", "-c"])),
    };
    let (state, action) = run_cmd(tree.clone());
    assert_eq!(action, Action::Pipe);
    let (forking, action) = step(state, Event::PipeCreated { read: 3, write: 4 });
    assert_eq!(action, Action::Fork);

    // the first child: the writer
    let (state, actions) = drive(
        forking,
        vec![returned(0), returned(0), returned(1), returned(0), returned(0)],
    );
    assert_eq!(
        actions,
        vec![
            Action::Close { fd: 1 },
            Action::Dup { fd: 4 },
            Action::Close { fd: 3 },
            Action::Close { fd: 4 },
            Action::Resolve { name: "printf" },
        ]
    );
    assert_eq!(state, State::Resolving { argv: vec!["printf", "hi"] });

    // the parent, then the second child: the reader
    let (state, _) = run_cmd(tree.clone());
    let (state, _) = step(state, Event::PipeCreated { read: 3, write: 4 });
    let (state, actions) = drive(
        state,
        vec![returned(100), returned(0), returned(0), returned(0), returned(0), returned(0)],
    );
    assert_eq!(
        actions,
        vec![
            Action::Fork,
            Action::Close { fd: 0 },
            Action::Dup { fd: 3 },
            Action::Close { fd: 3 },
            Action::Close { fd: 4 },
            Action::Resolve { name: "wc" },
        ]
    );
    assert_eq!(state, State::Resolving { argv: vec!["wc", "-c"] });

    // the parent of both
    let (state, _) = run_cmd(tree);
    let (state, _) = step(state, Event::PipeCreated { read: 3, write: 4 });
    let (state, actions) = drive(
        state,
        vec![returned(100), returned(101), returned(0), returned(0), returned(101), returned(100)],
    );
    assert_eq!(
        actions,
        vec![
            Action::Fork,
            Action::Close { fd: 3 },
            Action::Close { fd: 4 },
            Action::Wait,
            Action::Wait,
            Action::Exit { status: 0 },
        ]
    );
    assert_eq!(state, State::Done);
}

#[test]
fn the_plan_of_a_pipe_names_each_step() {
    let left = exec(&["a"]);
    let right = exec(&["b"]);
    let close = |fd: i32, next: Plan<'static>| Plan::Close { fd, next: Box::new(next) };
    let wait = |next: Plan<'static>| Plan::Wait { next: Box::new(next) };
    let writer = close(
        STDOUT,
        Plan::Dup {
            fd: 8,
            next: Box::new(close(7, close(8, Plan::Run { command: exec(&["a"]) }))),
        },
    );
    let reader = close(
        STDIN,
        Plan::Dup {
            fd: 7,
            next: Box::new(close(7, close(8, Plan::Run { command: exec(&["b"]) }))),
        },
    );
    let parent = close(7, close(8, wait(wait(Plan::Exit { status: 0 }))));
    assert_eq!(
        pipe_plan(left, right, 7, 8),
        Plan::Fork {
            child: Box::new(writer),
            parent: Box::new(Plan::Fork { child: Box::new(reader), parent: Box::new(parent) }),
        }
    );
}

#[test]
fn a_pipe_that_cannot_be_created_is_fatal() {
    let (state, _) = run_pipe(exec(&["a"]), exec(&["b"]));
    let (state, actions) = drive(state, vec![Event::PipeFailed, returned(0)]);
    assert_eq!(
        actions,
        vec![Action::Report { diagnostic: Diagnostic::PipeFailed }, Action::Exit { status: 1 }]
    );
    assert_eq!(state, State::Done);
}

#[test]
fn a_fork_that_fails_is_fatal() {
    let (state, action) = run_list(exec(&["a"]), exec(&["b"]));
    assert_eq!(action, Action::Fork);
    let (_, actions) = drive(state, vec![returned(-1), returned(0)]);
    assert_eq!(
        actions,
        vec![Action::Report { diagnostic: Diagnostic::ForkFailed }, Action::Exit { status: 1 }]
    );
}

#[test]
fn a_dup_that_fails_is_fatal() {
    let (state, _) = run_pipe(exec(&["a"]), exec(&["b"]));
    let (state, _) = step(state, Event::PipeCreated { read: 3, write: 4 });
    let (_, actions) = drive(state, vec![returned(0), returned(0), returned(-1), returned(0)]);
    assert_eq!(
        actions,
        vec![
            Action::Close { fd: 1 },
            Action::Dup { fd: 4 },
            Action::Report { diagnostic: Diagnostic::DupFailed },
            Action::Exit { status: 1 },
        ]
    );
}

#[test]
fn a_wait_that_fails_is_fatal() {
    let (state, _) = run_list(exec(&["a"]), exec(&["b"]));
    let (_, actions) = drive(state, vec![returned(7), returned(-1), returned(0)]);
    assert_eq!(
        actions,
        vec![
            Action::Wait,
            Action::Report { diagnostic: Diagnostic::WaitFailed },
            Action::Exit { status: 1 },
        ]
    );
}

#[test]
fn a_close_that_fails_is_passed_over() {
    let (state, _) = run_redir(exec(&["a"]), "f", RedirectMode::WriteTruncate, 1);
    let (_, action) = step(state, returned(-1));
    assert_eq!(
        action,
        Action::Open { path: "f", mode: RedirectMode::WriteTruncate, permissions: 0o644 }
    );
}

#[test]
fn a_sequence_runs_right_whatever_left_did() {
    let tree = parse_cmd("false ; echo done").unwrap();
    let (forking, action) = run_cmd(tree);
    assert_eq!(action, Action::Fork);
    // the parent never learns the exit status of the child: it waits, then goes on
    for reaped in [0, 1, 4242] {
        let (forking, _) = run_cmd(parse_cmd("false ; echo done").unwrap());
        let (state, actions) = drive(forking, vec![returned(4242), returned(reaped)]);
        assert_eq!(actions, vec![Action::Wait, Action::Resolve { name: "echo" }]);
        assert_eq!(state, State::Resolving { argv: vec!["echo", "done"] });
    }
    // the child runs left
    let (state, action) = step(forking, returned(0));
    assert_eq!(action, Action::Resolve { name: "false" });
    assert_eq!(state, State::Resolving { argv: vec!["false"] });
}

#[test]
fn a_background_command_is_not_waited_for() {
    let (forking, action) = run_cmd(parse_cmd("sleep 10 &").unwrap());
    assert_eq!(action, Action::Fork);
    let (state, action) = step(forking, returned(55));
    assert_eq!(action, Action::Exit { status: 0 });
    assert_eq!(state, State::Done);
    let (forking, _) = run_back(exec(&["sleep", "10"]));
    let (state, action) = step(forking, returned(0));
    assert_eq!(action, Action::Resolve { name: "sleep" });
    assert_eq!(state, State::Resolving { argv: vec!["sleep", "10"] });
}

#[test]
fn an_event_of_the_wrong_kind_ends_the_process_in_failure() {
    let abort = (State::Done, Action::Exit { status: 1 });
    let (state, _) = run_cmd(exec(&["a"]));
    assert_eq!(step(state, returned(0)), abort);
    let (state, _) = run_pipe(exec(&["a"]), exec(&["b"]));
    assert_eq!(step(state, returned(0)), abort);
    let (state, _) = run_list(exec(&["a"]), exec(&["b"]));
    assert_eq!(step(state, Event::PipeFailed), abort);
    let (state, _) = run_redir(exec(&["a"]), "f", RedirectMode::Read, 0);
    assert_eq!(step(state, Event::Resolved { path: None }), abort);
    assert_eq!(step(State::Done, returned(0)), abort);
    assert_eq!(step(State::Failing, Event::PipeFailed), abort);
    assert_eq!(step(State::Resolving { argv: vec![] }, Event::Resolved { path: None }), abort);
    let next = Plan::Exit { status: 0 };
    assert_eq!(step(State::Opening { path: "f", next }, Event::PipeFailed), abort);
    let next = Plan::Exit { status: 0 };
    assert_eq!(step(State::Duplicating { next }, Event::PipeFailed), abort);
    let next = Plan::Exit { status: 0 };
    assert_eq!(step(State::Waiting { next }, Event::PipeFailed), abort);
}

#[test]
fn a_plan_begins_with_its_first_step() {
    let exit = || Box::new(Plan::Exit { status: 3 });
    assert_eq!(begin(Plan::Exit { status: 3 }), (State::Done, Action::Exit { status: 3 }));
    assert_eq!(
        begin(Plan::Close { fd: 5, next: exit() }),
        (State::Closing { next: Plan::Exit { status: 3 } }, Action::Close { fd: 5 })
    );
    assert_eq!(
        begin(Plan::Dup { fd: 5, next: exit() }),
        (State::Duplicating { next: Plan::Exit { status: 3 } }, Action::Dup { fd: 5 })
    );
    assert_eq!(
        begin(Plan::Wait { next: exit() }),
        (State::Waiting { next: Plan::Exit { status: 3 } }, Action::Wait)
    );
    assert_eq!(
        begin(Plan::Open { path: "f", mode: RedirectMode::Read, next: exit() }),
        (
            State::Opening { path: "f", next: Plan::Exit { status: 3 } },
            Action::Open { path: "f", mode: RedirectMode::Read, permissions: 0o644 }
        )
    );
    assert_eq!(
        begin(Plan::Fork { child: exit(), parent: exit() }),
        (
            State::Forking { child: Plan::Exit { status: 3 }, parent: Plan::Exit { status: 3 } },
            Action::Fork
        )
    );
    assert_eq!(
        begin(Plan::Run { command: exec(&["a"]) }),
        (State::Resolving { argv: vec!["a"] }, Action::Resolve { name: "a" })
    );
}

#[test]
fn a_line_is_parsed_and_started() {
    assert_eq!(
        run_line("wc -c"),
        (State::Resolving { argv: vec!["wc", "-c"] }, Action::Resolve { name: "wc" })
    );
    assert_eq!(run_line("a | b").1, Action::Pipe);
}

#[test]
fn a_line_that_is_no_command_is_reported_and_fails() {
    let (state, action) = run_line("a | ");
    assert_eq!(
        action,
        Action::Report { diagnostic: Diagnostic::Syntax { error: SyntaxError::StrayOperator } }
    );
    assert_eq!(step(state, returned(0)), (State::Done, Action::Exit { status: 1 }));
}

#[test]
fn each_diagnostic_has_its_line() {
    assert_eq!(
        Diagnostic::CommandNotFound { name: "frob" }.message(),
        "rsh: frob: command not found\n"
    );
    assert_eq!(
        Diagnostic::ExecFailed { program: "/bin/frob".to_string() }.message(),
        "execv /bin/frob failed\n"
    );
    assert_eq!(Diagnostic::OpenFailed { path: "out" }.message(), "open out failed\n");
    assert_eq!(Diagnostic::PipeFailed.message(), "cannot create a pipe\n");
    assert_eq!(Diagnostic::ForkFailed.message(), "cannot fork\n");
    assert_eq!(Diagnostic::WaitFailed.message(), "cannot wait\n");
    assert_eq!(Diagnostic::DupFailed.message(), "cannot dup\n");
    assert_eq!(
        Diagnostic::Syntax { error: SyntaxError::MissingCloseParen }.message(),
        "rsh: syntax error: missing )\n"
    );
}
