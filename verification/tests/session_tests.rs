use minishell::ast::{ASTNode, RedirectMode};
use minishell::executor::Executor;
use minishell::lexer::lex;
use minishell::parser::parse;
use minishell::session::{Action, Event, Session};
use minishell::types::ShellError;
use minishell::word::{Word, WordPart};

/// A tiny in-memory driver for the execution machine: externals named `true`
/// and `false` report their usual statuses, anything else is not found;
/// builtins echo into the driver's in-memory files when redirected, or into
/// `stdout` otherwise.  Every issued action is logged.
struct FakeOs {
    log: Vec<String>,
    stdout: String,
    files: Vec<(String, String)>,
}

impl FakeOs {
    fn new() -> FakeOs {
        FakeOs {
            log: Vec::new(),
            stdout: String::new(),
            files: Vec::new(),
        }
    }

    fn file_mut(&mut self, path: &str) -> &mut String {
        if !self.files.iter().any(|(p, _)| p == path) {
            self.files.push((path.to_string(), String::new()));
        }
        &mut self
            .files
            .iter_mut()
            .find(|(p, _)| p == path)
            .unwrap()
            .1
    }

    fn file(&self, path: &str) -> String {
        self.files
            .iter()
            .find(|(p, _)| p == path)
            .map(|(_, c)| c.clone())
            .unwrap_or_default()
    }

    fn run_builtin(&mut self, name: &str, args: &[String], sink: Option<&str>) -> bool {
        self.log.push(format!("builtin {}", name));
        if name == "echo" {
            let line = format!("{}\n", args.join(" "));
            match sink {
                Some(path) => self.file_mut(path).push_str(&line),
                None => self.stdout.push_str(&line),
            }
            true
        } else {
            false
        }
    }

    fn run_external(&mut self, name: &str) -> Event {
        self.log.push(format!("external {}", name));
        match name {
            "true" => Event::Status(0),
            "false" => Event::Status(1),
            _ => Event::NotFound,
        }
    }

    /// Runs one statement to completion and yields the final action.
    fn drive(&mut self, state: Executor, node: ASTNode) -> Action {
        self.drive_redirected(state, node, None)
    }

    fn drive_redirected(&mut self, state: Executor, node: ASTNode, sink: Option<&str>) -> Action {
        let mut session = Session::start(state, node);
        let mut event = Event::Nothing;
        loop {
            let action = session.step(event);
            event = match action {
                Action::Continue => Event::Nothing,
                Action::RunBuiltin { ref name, ref args } => {
                    let ok = self.run_builtin(name, args, sink);
                    Event::BuiltinDone {
                        ok,
                        environment: session.state.environment.clone(),
                        current_dir: session.state.current_dir.clone(),
                    }
                }
                Action::RunExternal { ref name, .. } => self.run_external(name),
                Action::RunSubstitutions { ref commands } => {
                    // a substitution's output is its command text, marked
                    Event::Substitutions(
                        commands.iter().map(|c| format!("<{}>\n", c)).collect(),
                    )
                }
                Action::ForkPipeLeft { .. } => {
                    self.log.push("fork-pipe-left".to_string());
                    Event::Spawned
                }
                Action::ForkBackground { .. } => {
                    self.log.push("fork-background".to_string());
                    Event::Spawned
                }
                Action::ForkSubshell { .. } => {
                    self.log.push("fork-subshell".to_string());
                    Event::ChildExited(0)
                }
                Action::RedirectFile {
                    node,
                    fd: _,
                    path,
                    mode,
                } => {
                    // honour truncation before the child writes
                    if mode == RedirectMode::Overwrite {
                        self.file_mut(&path).clear();
                    }
                    let child_state =
                        Executor::new(session.state.environment.clone(), session.state.current_dir.clone());
                    let result = self.drive_redirected(child_state, node, Some(&path));
                    match result {
                        Action::Done { status } => Event::ChildExited(status),
                        _ => Event::ChildExited(1),
                    }
                }
                Action::RedirectHere { node, .. } | Action::RedirectDupFd { node, .. } => {
                    let child_state =
                        Executor::new(session.state.environment.clone(), session.state.current_dir.clone());
                    let result = self.drive_redirected(child_state, node, sink);
                    match result {
                        Action::Done { status } => Event::ChildExited(status),
                        _ => Event::ChildExited(1),
                    }
                }
                Action::WaitLeft => {
                    self.log.push("wait-left".to_string());
                    Event::ChildExited(7)
                }
                done => return done,
            };
        }
    }
}

fn parse_statement(line: &str) -> ASTNode {
    parse(lex(line).as_slice()).unwrap()
}

fn fresh_state() -> Executor {
    Executor::new(Vec::new(), "/".to_string())
}

#[test]
fn pipeline_status_is_rightmost() {
    // `false | true` yields success
    let mut os = FakeOs::new();
    match os.drive(fresh_state(), parse_statement("false | true")) {
        Action::Done { status } => assert_eq!(status, 0),
        other => panic!("expected completion, found {:?}", other),
    }
    // `true | false` yields failure
    let mut os = FakeOs::new();
    match os.drive(fresh_state(), parse_statement("true | false")) {
        Action::Done { status } => assert_eq!(status, 1),
        other => panic!("expected completion, found {:?}", other),
    }
    // the left child was waited for in both runs
    assert!(os.log.contains(&"wait-left".to_string()));
}

#[test]
fn logical_operators_short_circuit() {
    // `false && echo X` never executes `echo X`
    let mut os = FakeOs::new();
    match os.drive(fresh_state(), parse_statement("false && echo X")) {
        Action::Done { status } => assert_eq!(status, 1),
        other => panic!("expected completion, found {:?}", other),
    }
    assert!(!os.log.iter().any(|l| l.starts_with("builtin")));
    assert_eq!(os.stdout, "");

    // `true || echo X` never executes `echo X`
    let mut os = FakeOs::new();
    match os.drive(fresh_state(), parse_statement("true || echo X")) {
        Action::Done { status } => assert_eq!(status, 0),
        other => panic!("expected completion, found {:?}", other),
    }
    assert!(!os.log.iter().any(|l| l.starts_with("builtin")));

    // the other sides do run
    let mut os = FakeOs::new();
    match os.drive(fresh_state(), parse_statement("true && echo X")) {
        Action::Done { status } => assert_eq!(status, 0),
        other => panic!("expected completion, found {:?}", other),
    }
    assert_eq!(os.stdout, "X\n");
}

#[test]
fn redirection_truncates_then_appends() {
    // two sequential statements: `echo first > f` then `echo second >> f`
    // leave f holding exactly "first\nsecond\n"
    let mut os = FakeOs::new();
    os.file_mut("f").push_str("stale content\n");
    match os.drive(fresh_state(), parse_statement("echo first > f")) {
        Action::Done { status } => assert_eq!(status, 0),
        other => panic!("expected completion, found {:?}", other),
    }
    match os.drive(fresh_state(), parse_statement("echo second >> f")) {
        Action::Done { status } => assert_eq!(status, 0),
        other => panic!("expected completion, found {:?}", other),
    }
    assert_eq!(os.file("f"), "first\nsecond\n");
}

#[test]
fn command_not_found_fails() {
    let mut os = FakeOs::new();
    match os.drive(fresh_state(), parse_statement("nonexistentcmd")) {
        Action::Failed { error } => match error {
            ShellError::CommandNotFound(name) => {
                assert_eq!(name, "nonexistentcmd")
            }
            other => panic!("expected command-not-found, found {:?}", other),
        },
        other => panic!("expected failure, found {:?}", other),
    }
}

#[test]
fn semicolon_runs_both_sides() {
    let mut os = FakeOs::new();
    match os.drive(fresh_state(), parse_statement("false ; echo after")) {
        Action::Done { status } => assert_eq!(status, 0),
        other => panic!("expected completion, found {:?}", other),
    }
    assert_eq!(os.stdout, "after\n");
}

#[test]
fn background_detaches_with_status_zero() {
    let mut os = FakeOs::new();
    match os.drive(fresh_state(), parse_statement("false &")) {
        Action::Done { status } => assert_eq!(status, 0),
        other => panic!("expected completion, found {:?}", other),
    }
    assert!(os.log.contains(&"fork-background".to_string()));
    // the parent never waits for a background child
    assert!(!os.log.contains(&"wait-left".to_string()));
}

#[test]
fn assignment_updates_environment() {
    let mut os = FakeOs::new();
    let node = ASTNode::Assignment {
        var: "GREETING".to_string(),
        val: Word {
            parts: vec![WordPart::SingleQuoted("hi there".to_string())],
        },
    };
    let state = fresh_state();
    let mut session = Session::start(state, node);
    let mut event = Event::Nothing;
    let final_action = loop {
        match session.step(event) {
            Action::Continue => event = Event::Nothing,
            done => break done,
        }
    };
    match final_action {
        Action::Done { status } => assert_eq!(status, 0),
        other => panic!("expected completion, found {:?}", other),
    }
    assert_eq!(session.state.env_get("GREETING"), Some("hi there".to_string()));
    let _ = &mut os;
}

#[test]
fn subshell_signal_becomes_status() {
    let node = parse_statement("true");
    let wrapped = ASTNode::Subshell {
        command: Box::new(node),
    };
    let mut session = Session::start(fresh_state(), wrapped);
    let mut event = Event::Nothing;
    loop {
        match session.step(event) {
            Action::Continue => event = Event::Nothing,
            Action::ForkSubshell { .. } => event = Event::ChildSignaled(9),
            Action::Done { status } => {
                // termination by signal N reports 128 + N
                assert_eq!(status, 137);
                return;
            }
            other => panic!("unexpected action {:?}", other),
        }
    }
}

#[test]
fn os_failures_become_shell_errors() {
    // an input/output failure while running a command surfaces as an IO error
    let mut session = Session::start(fresh_state(), parse_statement("true"));
    let mut event = Event::Nothing;
    loop {
        match session.step(event) {
            Action::Continue => event = Event::Nothing,
            Action::RunExternal { .. } => {
                event = Event::IoFailed {
                    message: "spawn failed".to_string(),
                }
            }
            Action::Failed { error } => {
                assert_eq!(error, ShellError::IoError("spawn failed".to_string()));
                assert_eq!(session.state.last_status, 1);
                break;
            }
            other => panic!("unexpected action {:?}", other),
        }
    }
    // a failed system call surfaces as a system-call error with its errno
    let mut session = Session::start(fresh_state(), parse_statement("a | b"));
    let mut event = Event::Nothing;
    loop {
        match session.step(event) {
            Action::Continue => event = Event::Nothing,
            Action::ForkPipeLeft { .. } => {
                event = Event::OsError {
                    errno: 11,
                    context: "fork failed for pipeline".to_string(),
                }
            }
            Action::Failed { error } => {
                assert_eq!(
                    error,
                    ShellError::NixError(11, "fork failed for pipeline".to_string())
                );
                break;
            }
            other => panic!("unexpected action {:?}", other),
        }
    }
}

#[test]
fn unreadable_substitution_output_is_an_internal_error() {
    // a capture that is not valid text fails the statement as an internal
    // error instead of being silently coerced
    let mut session = Session::start(fresh_state(), parse_statement("echo `echo hi`"));
    let mut event = Event::Nothing;
    loop {
        match session.step(event) {
            Action::Continue => event = Event::Nothing,
            Action::RunSubstitutions { .. } => event = Event::SubstitutionFailed,
            Action::Failed { error } => {
                match error {
                    ShellError::InternalError(_) => {}
                    other => panic!("expected an internal error, found {:?}", other),
                }
                assert_eq!(session.state.last_status, 1);
                return;
            }
            other => panic!("unexpected action {:?}", other),
        }
    }
}

#[test]
fn missing_substitution_output_is_an_internal_error() {
    let ex = fresh_state();
    let word = Word {
        parts: vec![WordPart::Simple("`echo hi`".to_string())],
    };
    let err = ex.expand_word_to_string(&word, &Vec::new()).unwrap_err();
    match err {
        ShellError::InternalError(_) => {}
        other => panic!("expected an internal error, found {:?}", other),
    }
}

#[test]
fn last_status_reaches_later_statements() {
    // `$?` in the second statement sees the first statement's status
    let mut os = FakeOs::new();
    match os.drive(fresh_state(), parse_statement("false ; echo $?")) {
        Action::Done { status } => assert_eq!(status, 0),
        other => panic!("expected completion, found {:?}", other),
    }
    assert_eq!(os.stdout, "1\n");
}

#[test]
fn environment_values_expand_in_commands() {
    let mut os = FakeOs::new();
    let state = Executor::new(
        vec![("U".to_string(), "you".to_string())],
        "/".to_string(),
    );
    match os.drive(state, parse_statement("echo $U")) {
        Action::Done { status } => assert_eq!(status, 0),
        other => panic!("expected completion, found {:?}", other),
    }
    assert_eq!(os.stdout, "you\n");
}

#[test]
fn here_string_carries_a_line() {
    // `<<<` feeds its word's text plus a line break
    let mut session = Session::start(fresh_state(), parse_statement("echo x <<< data"));
    let mut event = Event::Nothing;
    loop {
        match session.step(event) {
            Action::Continue => event = Event::Nothing,
            Action::RedirectHere { fd, content, .. } => {
                assert_eq!(fd, 0);
                assert_eq!(content, "data\n");
                return;
            }
            other => panic!("unexpected action {:?}", other),
        }
    }
}

#[test]
fn substitution_output_reaches_the_command() {
    // the captured output of `echo hello`, newline trimmed, becomes the
    // argument text
    let mut os = FakeOs::new();
    match os.drive(fresh_state(), parse_statement("echo `echo hello`")) {
        Action::Done { status } => assert_eq!(status, 0),
        other => panic!("expected completion, found {:?}", other),
    }
    assert_eq!(os.stdout, "<echo hello>\n");
}
