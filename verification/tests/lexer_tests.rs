use minishell::lexer::{lex, Operator, Token};
use minishell::word::{Word, WordPart};

fn word(parts: Vec<WordPart>) -> Token {
    Token::Word(Word { parts })
}

fn simple(s: &str) -> WordPart {
    WordPart::Simple(s.to_string())
}

#[test]
fn lex_words_and_spaces() {
    assert_eq!(
        lex("echo hello"),
        vec![
            word(vec![simple("echo")]),
            Token::Space,
            word(vec![simple("hello")]),
        ]
    );
}

#[test]
fn lex_quoting_fragments() {
    assert_eq!(
        lex(r#"a'b c'"d e"f"#),
        vec![word(vec![
            simple("a"),
            WordPart::SingleQuoted("b c".to_string()),
            WordPart::DoubleQuoted("d e".to_string()),
            simple("f"),
        ])]
    );
    // an unterminated double quote commits its fragment at end of input
    assert_eq!(
        lex(r#"echo "Hello World"#),
        vec![
            word(vec![simple("echo")]),
            Token::Space,
            word(vec![WordPart::DoubleQuoted("Hello World".to_string())]),
        ]
    );
    // escapes keep their backslash for the expander
    assert_eq!(
        lex(r"a\ b"),
        vec![word(vec![simple(r"a\ b")])]
    );
}

#[test]
fn lex_operators() {
    assert_eq!(
        lex("a|b||c&&d&e;f>g>>h<i 2>j 2>>k>&l<<m<<<n"),
        vec![
            word(vec![simple("a")]),
            Token::Operator(Operator::Pipe),
            word(vec![simple("b")]),
            Token::Operator(Operator::Or),
            word(vec![simple("c")]),
            Token::Operator(Operator::And),
            word(vec![simple("d")]),
            Token::Operator(Operator::Background),
            word(vec![simple("e")]),
            Token::Operator(Operator::Semicolon),
            word(vec![simple("f")]),
            Token::Operator(Operator::RedirectOut),
            word(vec![simple("g")]),
            Token::Operator(Operator::RedirectAppend),
            word(vec![simple("h")]),
            Token::Operator(Operator::RedirectIn),
            word(vec![simple("i")]),
            Token::Space,
            Token::Operator(Operator::RedirectError),
            word(vec![simple("j")]),
            Token::Space,
            Token::Operator(Operator::RedirectErrorAppend),
            word(vec![simple("k")]),
            Token::Operator(Operator::RedirectDup),
            word(vec![simple("l")]),
            Token::Operator(Operator::RedirectHereDoc),
            word(vec![simple("m")]),
            Token::Operator(Operator::RedirectHereStr),
            word(vec![simple("n")]),
        ]
    );
}

#[test]
fn lex_backtick_span() {
    // a backtick span becomes one word, ticks kept, inner escapes resolved
    assert_eq!(
        lex(r"`echo \` \$ \n`"),
        vec![word(vec![simple("`echo ` $ \\n`")])]
    );
    // a missing closing backtick degrades to the rest of the line
    assert_eq!(lex("`abc"), vec![word(vec![simple("`abc`")])]);
}

#[test]
fn lex_digit_redirections() {
    // a digit immediately before `>` selects the descriptor
    assert_eq!(
        lex("2>x"),
        vec![
            Token::Operator(Operator::RedirectError),
            word(vec![simple("x")]),
        ]
    );
    // a plain digit is an ordinary word
    assert_eq!(lex("2 "), vec![word(vec![simple("2")])]);
    // any other digit yields an operator carrying that descriptor
    assert_eq!(
        lex("3>>"),
        vec![Token::Operator(Operator::RedirectAppendFd(3))]
    );
    assert_eq!(lex("3>"), vec![Token::Operator(Operator::RedirectOutFd(3))]);
    assert_eq!(lex("1>x"), vec![
        Token::Operator(Operator::RedirectOut),
        word(vec![simple("x")]),
    ]);
}

#[test]
fn lex_trailing_whitespace_produces_no_token() {
    assert_eq!(lex("a   "), vec![word(vec![simple("a")])]);
    assert_eq!(lex("  "), Vec::<Token>::new());
}
