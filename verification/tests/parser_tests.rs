use minishell::ast::{ASTNode, RedirectMode, RedirectTarget};
use minishell::lexer::lex;
use minishell::parser::parse;

fn parse_line(line: &str) -> Result<ASTNode, String> {
    parse(lex(line).as_slice())
}

#[test]
fn test_pipeline_errors() -> Result<(), String> {
    // Missing command after pipe - should be a parsing error
    let result = parse_line("echo hello |");
    assert_eq!(
        result.is_err(),
        true,
        "Expected parsing error for 'echo hello |'"
    );

    // Missing command before pipe - should be a parsing error
    let result = parse_line("| echo hello");
    assert_eq!(
        result.is_err(),
        true,
        "Expected parsing error for '| echo hello'"
    );

    // Command not found in pipeline - parsing should succeed, execution should
    // fail; the execution half lives in the session tests, where resolution
    // failure surfaces as a command-not-found error.
    let parsed_commands = parse_line("echo hello | nonexistentcmd")?;
    match parsed_commands {
        ASTNode::Pipe { .. } => {}
        other => panic!("expected a pipeline, found {:?}", other),
    }

    Ok(())
}

fn word_text(w: &minishell::word::Word) -> String {
    w.to_string()
}

#[test]
fn parse_simple_command() {
    match parse_line("echo a b").unwrap() {
        ASTNode::Command { name, args } => {
            assert_eq!(word_text(&name), "echo");
            let texts: Vec<String> = args.iter().map(word_text).collect();
            assert_eq!(texts, vec!["a".to_string(), "b".to_string()]);
        }
        other => panic!("expected a command, found {:?}", other),
    }
}

#[test]
fn parse_precedence() {
    // `a && b || c` parses as `(a && b) || c`
    match parse_line("a && b || c").unwrap() {
        ASTNode::LogicalOr { left, right } => {
            match *left {
                ASTNode::LogicalAnd { .. } => {}
                other => panic!("expected `&&` on the left, found {:?}", other),
            }
            match *right {
                ASTNode::Command { .. } => {}
                other => panic!("expected a command on the right, found {:?}", other),
            }
        }
        other => panic!("expected `||` at the top, found {:?}", other),
    }

    // `;` binds loosest
    match parse_line("a | b ; c").unwrap() {
        ASTNode::Semicolon { left, right } => {
            match *left {
                ASTNode::Pipe { .. } => {}
                other => panic!("expected a pipe on the left, found {:?}", other),
            }
            match *right {
                ASTNode::Command { .. } => {}
                other => panic!("expected a command on the right, found {:?}", other),
            }
        }
        other => panic!("expected `;` at the top, found {:?}", other),
    }

    // pipelines nest to the right
    match parse_line("a | b | c").unwrap() {
        ASTNode::Pipe { left, right } => {
            match *left {
                ASTNode::Command { .. } => {}
                other => panic!("expected a command on the left, found {:?}", other),
            }
            match *right {
                ASTNode::Pipe { .. } => {}
                other => panic!("expected a nested pipe on the right, found {:?}", other),
            }
        }
        other => panic!("expected a pipe at the top, found {:?}", other),
    }
}

#[test]
fn parse_redirections() {
    // `>` truncates onto descriptor 1
    match parse_line("echo hi > out.txt").unwrap() {
        ASTNode::Redirect {
            command,
            fd,
            target,
            mode,
        } => {
            assert_eq!(fd, 1);
            assert_eq!(mode, RedirectMode::Overwrite);
            match target {
                RedirectTarget::File(w) => assert_eq!(w.to_string(), "out.txt"),
                other => panic!("expected a file target, found {:?}", other),
            }
            match *command {
                ASTNode::Command { .. } => {}
                other => panic!("expected a command inside, found {:?}", other),
            }
        }
        other => panic!("expected a redirect, found {:?}", other),
    }

    // `2>>` appends onto descriptor 2
    match parse_line("cmd 2>> log").unwrap() {
        ASTNode::Redirect { fd, mode, .. } => {
            assert_eq!(fd, 2);
            assert_eq!(mode, RedirectMode::Append);
        }
        other => panic!("expected a redirect, found {:?}", other),
    }

    // a digit prefix carries its descriptor through to the node
    match parse_line("cmd 3> f").unwrap() {
        ASTNode::Redirect { fd, mode, .. } => {
            assert_eq!(fd, 3);
            assert_eq!(mode, RedirectMode::Overwrite);
        }
        other => panic!("expected a redirect, found {:?}", other),
    }
    match parse_line("cmd 4>> g").unwrap() {
        ASTNode::Redirect { fd, mode, .. } => {
            assert_eq!(fd, 4);
            assert_eq!(mode, RedirectMode::Append);
        }
        other => panic!("expected a redirect, found {:?}", other),
    }

    // a numeric target names a descriptor, not a file
    match parse_line("cmd > 2").unwrap() {
        ASTNode::Redirect { target, .. } => match target {
            RedirectTarget::Descriptor(n) => assert_eq!(n, 2),
            other => panic!("expected a descriptor target, found {:?}", other),
        },
        other => panic!("expected a redirect, found {:?}", other),
    }

    // suffixes stack around the command
    match parse_line("cmd > a >> b").unwrap() {
        ASTNode::Redirect { command, mode, .. } => {
            assert_eq!(mode, RedirectMode::Append);
            match *command {
                ASTNode::Redirect { mode, .. } => assert_eq!(mode, RedirectMode::Overwrite),
                other => panic!("expected a nested redirect, found {:?}", other),
            }
        }
        other => panic!("expected a redirect, found {:?}", other),
    }

    // a missing target is an error
    assert!(parse_line("echo hi >").is_err());
    assert!(parse_line("cmd >").is_err());
}

#[test]
fn parse_background_suffix() {
    match parse_line("sleep 5 &").unwrap() {
        ASTNode::Background { command } => match *command {
            ASTNode::Command { .. } => {}
            other => panic!("expected a command inside, found {:?}", other),
        },
        other => panic!("expected a background node, found {:?}", other),
    }
}

#[test]
fn parse_empty_inputs() {
    assert_eq!(parse_line("").unwrap_err(), "Empty command".to_string());
    assert_eq!(parse_line("   ").unwrap_err(), "Empty command".to_string());
    assert!(parse_line("a ; ; b").is_err());
    // a trailing `;` closes the statement without an error
    assert!(parse_line("a ;").is_ok());
}
