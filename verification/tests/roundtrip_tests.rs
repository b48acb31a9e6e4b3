use minishell::ast::ASTNode;
use minishell::completion::{command_table, Completer, Completion};
use minishell::lexer::lex;
use minishell::parser::parse;

fn command_words(node: &ASTNode) -> Vec<String> {
    match node {
        ASTNode::Command { name, args } => {
            let mut out = vec![name.to_string()];
            out.extend(args.iter().map(|w| w.to_string()));
            out
        }
        other => panic!("expected a command, found {:?}", other),
    }
}

#[test]
fn roundtrip_simple_command() {
    // lexing and parsing the textual form of a simple command reproduces its
    // name and arguments
    let words = vec!["ls", "-l", "some_file.txt"];
    let text = words.join(" ");
    let node = parse(lex(&text).as_slice()).unwrap();
    assert_eq!(command_words(&node), words);

    // and doing it again over the re-joined words changes nothing
    let again = command_words(&node).join(" ");
    assert_eq!(again, text);
    let node2 = parse(lex(&again).as_slice()).unwrap();
    assert_eq!(command_words(&node2), words);
}

#[test]
fn command_table_is_sorted_unique_with_builtins() {
    let table = command_table(&vec![
        "ls".to_string(),
        "cat".to_string(),
        "ls".to_string(),
        "awk".to_string(),
    ]);
    // ascending and duplicate-free
    for pair in table.windows(2) {
        assert!(pair[0] < pair[1], "{:?} out of order", pair);
    }
    // the given names and every builtin are present
    for name in ["ls", "cat", "awk", "cd", "echo", "exit", "wait"] {
        assert!(table.iter().any(|t| t == name), "{} missing", name);
    }
    // nothing else is
    assert_eq!(table.len(), 3 + 15);
}

#[test]
fn completion_matches_commands() {
    let completer = Completer::new(vec![
        "cat".to_string(),
        "cd".to_string(),
        "ls".to_string(),
    ]);
    assert_eq!(
        completer.complete_command("c"),
        vec!["cat".to_string(), "cd".to_string()]
    );
    match completer.complete("c") {
        Completion::Matches(m) => assert_eq!(m, vec!["cat".to_string(), "cd".to_string()]),
        other => panic!("expected matches, found {:?}", other),
    }
    match completer.complete("") {
        Completion::Matches(m) => assert_eq!(m.len(), 3),
        other => panic!("expected every command, found {:?}", other),
    }
    match completer.complete("cat src/ma") {
        Completion::ArgumentQuery { dir, prefix } => {
            assert_eq!(dir, "src");
            assert_eq!(prefix, "ma");
        }
        other => panic!("expected a directory query, found {:?}", other),
    }
    match completer.complete("cat plain") {
        Completion::ArgumentQuery { dir, prefix } => {
            assert_eq!(dir, ".");
            assert_eq!(prefix, "plain");
        }
        other => panic!("expected a directory query, found {:?}", other),
    }
}
