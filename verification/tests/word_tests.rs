use minishell::processor::{process_text, ProcessingMode};
use minishell::utils::{candidate_paths, is_builtin, normalize_command_name};
use minishell::word::{process_escapes, Word, WordPart};

#[test]
fn escape_processing_modes() {
    // unquoted: a backslash removes itself and the next character is kept
    // literally, with no C-style escape table
    assert_eq!(process_escapes(r"a\nb\qc\\d", false), r"anbqc\d");
    // double-quoted: unknown escapes keep the backslash, `\$` reduces
    assert_eq!(process_escapes(r"a\qb\$c", true), r"a\qb$c");
    assert_eq!(process_escapes("\\t\\r\\'\\\" ", true), "\\t\\r\\'\" ");
    // a trailing backslash stays
    assert_eq!(process_escapes("x\\", false), "x\\");
}

#[test]
fn word_to_string_concatenates_processed_parts() {
    let mut w = Word::new();
    w.add_part(WordPart::Simple(r"a\nb".to_string()));
    w.add_part(WordPart::SingleQuoted(r"c\nd".to_string()));
    w.add_part(WordPart::DoubleQuoted(r"e\nf".to_string()));
    assert_eq!(w.to_string(), r"anbc\nde\nf");
}

#[test]
fn command_name_normalization() {
    assert_eq!(normalize_command_name("ls"), "ls");
    assert_eq!(normalize_command_name("  ls  "), "ls");
    assert_eq!(normalize_command_name("'ls'"), "ls");
    assert_eq!(normalize_command_name("\"my cmd\""), "my cmd");
    assert_eq!(normalize_command_name(r"'it\'s'"), "it's");
    // an unquoted name keeps its characters
    assert_eq!(normalize_command_name(r"a\'b"), r"a\'b");
}

#[test]
fn word_push_str_extends_trailing_simple_part() {
    let mut w = Word::new();
    w.push_str("ab");
    w.push_str("cd");
    assert_eq!(w.parts, vec![WordPart::Simple("abcd".to_string())]);
    let mut w = Word::new();
    w.add_part(WordPart::SingleQuoted("q".to_string()));
    w.push_str("xy");
    assert_eq!(
        w.parts,
        vec![
            WordPart::SingleQuoted("q".to_string()),
            WordPart::Simple("xy".to_string())
        ]
    );
}

#[test]
fn empty_word_is_empty_string() {
    assert_eq!(Word::new().to_string(), "");
}

#[test]
fn process_text_by_mode() {
    // argument mode strips outer quotes and resolves escapes
    assert_eq!(process_text("'hello world'", ProcessingMode::Argument), "hello world");
    assert_eq!(process_text(r"a\tb", ProcessingMode::Argument), "a\tb");
    // command mode keeps quotes but unescapes escaped ones
    assert_eq!(process_text(r#"say\"hi\""#, ProcessingMode::Command), "say\"hi\"");
    assert_eq!(process_text("'q'", ProcessingMode::Command), "'q'");
    // literal mode keeps quotes
    assert_eq!(process_text("'q'", ProcessingMode::Literal), "'q'");
    // path mode drops quote characters
    assert_eq!(process_text("'/tmp/x'", ProcessingMode::Path), "/tmp/x");
}

#[test]
fn builtin_names() {
    assert!(is_builtin("cd"));
    assert!(is_builtin("echo"));
    assert!(is_builtin("export"));
    assert!(!is_builtin("ls"));
    assert!(!is_builtin(""));
}

#[test]
fn candidate_path_construction() {
    assert_eq!(
        candidate_paths("ls", "/bin::/usr/bin"),
        vec!["/bin/ls".to_string(), "/usr/bin/ls".to_string()]
    );
    assert_eq!(candidate_paths("x", ""), Vec::<String>::new());
}
