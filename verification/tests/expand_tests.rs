use minishell::executor::{trim_trailing_newlines, Executor};
use minishell::types::ShellError;
use minishell::word::{Word, WordPart};

fn state_with(env: Vec<(&str, &str)>, last_status: i32) -> Executor {
    let env: Vec<(String, String)> = env
        .into_iter()
        .map(|(k, v)| (k.to_string(), v.to_string()))
        .collect();
    let mut ex = Executor::new(env, "/".to_string());
    ex.last_status = last_status;
    ex
}

fn expand(ex: &Executor, parts: Vec<WordPart>, subs: Vec<&str>) -> Result<String, ShellError> {
    let word = Word { parts };
    let subs: Vec<String> = subs.into_iter().map(|s| s.to_string()).collect();
    ex.expand_word_to_string(&word, &subs)
}

#[test]
fn single_quoted_expansion_is_identity() {
    // expansion of single-quoted text changes nothing: no substitution, no
    // escape processing
    let ex = state_with(vec![("HOME", "/home/someone")], 0);
    let got = expand(
        &ex,
        vec![WordPart::SingleQuoted(r"$HOME \n".to_string())],
        vec![],
    )
    .unwrap();
    assert_eq!(got, r"$HOME \n");
}

#[test]
fn double_quoted_escapes() {
    let ex = state_with(vec![("HOME", "/home/someone")], 0);
    // `\$` is an explicit escape, `\q` keeps its backslash
    let got = expand(
        &ex,
        vec![WordPart::DoubleQuoted(r"\$HOME \q".to_string())],
        vec![],
    )
    .unwrap();
    assert_eq!(got, r"$HOME \q");
    // the four escapes reduce to their bare character
    let got = expand(
        &ex,
        vec![WordPart::DoubleQuoted(r#"\"\`\$\\"#.to_string())],
        vec![],
    )
    .unwrap();
    assert_eq!(got, r#""`$\"#);
    // an unescaped variable reference expands
    let got = expand(
        &ex,
        vec![WordPart::DoubleQuoted("$HOME".to_string())],
        vec![],
    )
    .unwrap();
    assert_eq!(got, "/home/someone");
}

#[test]
fn unquoted_escapes_and_variables() {
    let ex = state_with(vec![("X", "x-value")], 0);
    // a backslash removes itself and keeps the next character, with no
    // C-style escape table
    let got = expand(&ex, vec![WordPart::Simple(r"a\nb\ c".to_string())], vec![]).unwrap();
    assert_eq!(got, "anb c");
    // variables expand in unquoted text too; unset names become empty
    let got = expand(
        &ex,
        vec![WordPart::Simple("$X/${X}/$UNSET/end".to_string())],
        vec![],
    )
    .unwrap();
    assert_eq!(got, "x-value/x-value//end");
    // a lone dollar stays itself
    let got = expand(&ex, vec![WordPart::Simple("100$".to_string())], vec![]).unwrap();
    assert_eq!(got, "100$");
}

#[test]
fn status_and_pid_expansion() {
    let ex = state_with(vec![], 42);
    let got = expand(
        &ex,
        vec![WordPart::DoubleQuoted("status=$?".to_string())],
        vec![],
    )
    .unwrap();
    assert_eq!(got, "status=42");
    let got = expand(&ex, vec![WordPart::Simple("$$".to_string())], vec![]).unwrap();
    let pid: i32 = got.parse().expect("pid expands to a number");
    assert_eq!(pid, ex.pid);
}

#[test]
fn malformed_variable_reference() {
    let ex = state_with(vec![], 0);
    let err = expand(
        &ex,
        vec![WordPart::DoubleQuoted("${BAD-NAME}".to_string())],
        vec![],
    )
    .unwrap_err();
    match err {
        ShellError::InvalidSyntax(_) => {}
        other => panic!("expected invalid syntax, found {:?}", other),
    }
}

#[test]
fn command_substitution_trims_all_trailing_newlines() {
    // a sub-command producing "hello\n\n" substitutes to exactly "hello"
    let ex = state_with(vec![], 0);
    let got = expand(
        &ex,
        vec![WordPart::Simple("`echo hello`".to_string())],
        vec!["hello\n\n"],
    )
    .unwrap();
    assert_eq!(got, "hello");
    // inner newlines survive; only trailing ones go
    assert_eq!(trim_trailing_newlines("a\nb\n\n\n"), "a\nb");
    assert_eq!(trim_trailing_newlines("\n\n"), "");
    assert_eq!(trim_trailing_newlines("plain"), "plain");
}

#[test]
fn command_substitution_errors() {
    let ex = state_with(vec![], 0);
    // an unparseable sub-command is a parse error at expansion time
    let err = expand(
        &ex,
        vec![WordPart::Simple("`echo |`".to_string())],
        vec![""],
    )
    .unwrap_err();
    match err {
        ShellError::ParseError(_) => {}
        other => panic!("expected a parse error, found {:?}", other),
    }
    // an empty span substitutes nothing and runs nothing
    let got = expand(&ex, vec![WordPart::Simple("``".to_string())], vec![]).unwrap();
    assert_eq!(got, "");
}

#[test]
fn fragments_concatenate_in_order() {
    let ex = state_with(vec![("W", "world")], 0);
    let got = expand(
        &ex,
        vec![
            WordPart::Simple("hello-".to_string()),
            WordPart::SingleQuoted("$W".to_string()),
            WordPart::Simple("-".to_string()),
            WordPart::DoubleQuoted("$W".to_string()),
        ],
        vec![],
    )
    .unwrap();
    assert_eq!(got, "hello-$W-world");
}

#[test]
fn environment_binding_replaces_and_appends() {
    let mut ex = state_with(vec![("A", "1")], 0);
    ex.env_set("A", "2".to_string());
    assert_eq!(ex.env_get("A"), Some("2".to_string()));
    ex.env_set("B", "3".to_string());
    assert_eq!(ex.env_get("B"), Some("3".to_string()));
    assert_eq!(ex.env_get("C"), None);
}
