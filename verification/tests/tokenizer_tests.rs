use minishell::tokenizer::{tokenize, TokenType};

#[test]
fn test_escape_character() {
    let input = r"echo Hello\ World";
    let tokens = tokenize(input);
    assert_eq!(
        tokens,
        vec![
            TokenType::Word("echo".to_string()),
            TokenType::Word("Hello World".to_string())
        ]
    );
}

#[test]
fn test_single_quotes() {
    let input = r"echo 'Hello World'";
    let tokens = tokenize(input);
    assert_eq!(
        tokens,
        vec![
            TokenType::Word("echo".to_string()),
            TokenType::SingleQuotedString("Hello World".to_string())
        ]
    );
}

#[test]
fn test_double_quotes() {
    let input = r#"echo "Hello World""#;
    let tokens = tokenize(input);
    assert_eq!(
        tokens,
        vec![
            TokenType::Word("echo".to_string()),
            TokenType::DoubleQuotedString("Hello World".to_string())
        ]
    );
}

#[test]
fn test_nested_quotes() {
    let input = r#"echo "hello 'world'""#;
    let tokens = tokenize(input);
    assert_eq!(
        tokens,
        vec![
            TokenType::Word("echo".to_string()),
            TokenType::DoubleQuotedString("hello 'world'".to_string())
        ]
    );
}

#[test]
fn test_mixed_quotes() {
    let input = r#"echo 'hello "world"'"#;
    let tokens = tokenize(input);
    assert_eq!(
        tokens,
        vec![
            TokenType::Word("echo".to_string()),
            TokenType::SingleQuotedString("hello \"world\"".to_string())
        ]
    );
}

#[test]
fn test_escaped_quotes() {
    let input = r#"echo hello\"world"#;
    let tokens = tokenize(input);
    assert_eq!(
        tokens,
        vec![
            TokenType::Word("echo".to_string()),
            TokenType::Word("hello\"world".to_string())
        ]
    );
}

// Additional tests to verify bash-like behavior
#[test]
fn test_bash_quote_behavior() {
    // Each quoting style keeps its own fragment kind with the quotes removed
    assert_eq!(
        tokenize(r#"echo "hello 'world'""#),
        vec![
            TokenType::Word("echo".to_string()),
            TokenType::DoubleQuotedString("hello 'world'".to_string())
        ]
    );
    assert_eq!(
        tokenize(r#"echo 'hello "world"'"#),
        vec![
            TokenType::Word("echo".to_string()),
            TokenType::SingleQuotedString("hello \"world\"".to_string())
        ]
    );

    // Test that quotes are preserved in output
    let input = r#"echo '"hello" world'"#;
    let tokens = tokenize(input);
    assert_eq!(
        tokens,
        vec![
            TokenType::Word("echo".to_string()),
            TokenType::SingleQuotedString("\"hello\" world".to_string())
        ]
    );
}

#[test]
fn test_operators_and_dollar() {
    assert_eq!(
        tokenize("a | b || c & d && e ; f > g >> h < i"),
        vec![
            TokenType::Word("a".to_string()),
            TokenType::Pipe,
            TokenType::Word("b".to_string()),
            TokenType::LogicalOr,
            TokenType::Word("c".to_string()),
            TokenType::Background,
            TokenType::Word("d".to_string()),
            TokenType::LogicalAnd,
            TokenType::Word("e".to_string()),
            TokenType::Semicolon,
            TokenType::Word("f".to_string()),
            TokenType::RedirectionOperator(">".to_string()),
            TokenType::Word("g".to_string()),
            TokenType::RedirectionOperator(">>".to_string()),
            TokenType::Word("h".to_string()),
            TokenType::RedirectionOperator("<".to_string()),
            TokenType::Word("i".to_string()),
        ]
    );
    assert_eq!(
        tokenize("$HOME $(pwd)"),
        vec![
            TokenType::DollarVar("HOME".to_string()),
            TokenType::CommandSubstitution("pwd".to_string()),
        ]
    );
    assert_eq!(tokenize("   spaced   out   "), vec![
        TokenType::Word("spaced".to_string()),
        TokenType::Word("out".to_string()),
    ]);
}
