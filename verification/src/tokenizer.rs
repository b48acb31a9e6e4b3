//! A flat, line-oriented tokenizer: a lighter companion to the lexer that
//! classifies a trimmed line into words, quoted strings, operators, variable
//! references and command substitutions without assembling words from
//! fragments.

use vstd::prelude::*;
use crate::lexer::is_blank;
use crate::text::{alnum, chars_of, is_alnum, is_white, string_of, white};

verus! {

/// One classified piece of the input line.
#[verifier::ext_equal]
#[derive(Debug, Clone, PartialEq)]
pub enum TokenType {
    /// A command or argument.
    Word(String),
    /// `>`, `>>` or `<`.
    RedirectionOperator(String),
    /// A descriptor number.
    FileDescriptor(i32),
    /// `|`
    Pipe,
    /// `&`
    Background,
    /// `(`
    LeftParen,
    /// `)`
    RightParen,
    /// `;`
    Semicolon,
    /// `&&`
    LogicalAnd,
    /// `||`
    LogicalOr,
    /// A `$name` variable reference.
    DollarVar(String),
    /// A `$(command)` substitution.
    CommandSubstitution(String),
    /// A `#` comment.
    Comment(String),
    /// A `name=value` assignment.
    Assignment(String, String),
    /// A line break.
    Newline,
    /// Text between single quotes.
    SingleQuotedString(String),
    /// Text between double quotes.
    DoubleQuotedString(String),
    /// A blank.
    Space,
}

/// The mathematical shape of a classified piece.
pub enum TokenTypeV {
    Word(Seq<char>),
    RedirectionOperator(Seq<char>),
    FileDescriptor(int),
    Pipe,
    Background,
    LeftParen,
    RightParen,
    Semicolon,
    LogicalAnd,
    LogicalOr,
    DollarVar(Seq<char>),
    CommandSubstitution(Seq<char>),
    Comment(Seq<char>),
    Assignment(Seq<char>, Seq<char>),
    Newline,
    SingleQuotedString(Seq<char>),
    DoubleQuotedString(Seq<char>),
    Space,
}

impl View for TokenType {
    type V = TokenTypeV;

    open spec fn view(&self) -> TokenTypeV {
        match self {
            TokenType::Word(s) => TokenTypeV::Word(s@),
            TokenType::RedirectionOperator(s) => TokenTypeV::RedirectionOperator(s@),
            TokenType::FileDescriptor(n) => TokenTypeV::FileDescriptor(*n as int),
            TokenType::Pipe => TokenTypeV::Pipe,
            TokenType::Background => TokenTypeV::Background,
            TokenType::LeftParen => TokenTypeV::LeftParen,
            TokenType::RightParen => TokenTypeV::RightParen,
            TokenType::Semicolon => TokenTypeV::Semicolon,
            TokenType::LogicalAnd => TokenTypeV::LogicalAnd,
            TokenType::LogicalOr => TokenTypeV::LogicalOr,
            TokenType::DollarVar(s) => TokenTypeV::DollarVar(s@),
            TokenType::CommandSubstitution(s) => TokenTypeV::CommandSubstitution(s@),
            TokenType::Comment(s) => TokenTypeV::Comment(s@),
            TokenType::Assignment(a, b) => TokenTypeV::Assignment(a@, b@),
            TokenType::Newline => TokenTypeV::Newline,
            TokenType::SingleQuotedString(s) => TokenTypeV::SingleQuotedString(s@),
            TokenType::DoubleQuotedString(s) => TokenTypeV::DoubleQuotedString(s@),
            TokenType::Space => TokenTypeV::Space,
        }
    }
}

/// The views of a classified token list.
pub open spec fn ttokens_view(ts: Seq<TokenType>) -> Seq<TokenTypeV> {
    ts.map_values(|t: TokenType| t@)
}

/// The input without leading whitespace.
pub open spec fn trim_start_spec(s: Seq<char>) -> Seq<char>
    decreases s.len(),
{
    if s.len() > 0 && white(s[0]) {
        trim_start_spec(s.drop_first())
    } else {
        s
    }
}

/// The input without trailing whitespace.
pub open spec fn trim_end_spec(s: Seq<char>) -> Seq<char>
    decreases s.len(),
{
    if s.len() > 0 && white(s.last()) {
        trim_end_spec(s.drop_last())
    } else {
        s
    }
}

/// The input without leading or trailing whitespace.
pub open spec fn trim_spec(s: Seq<char>) -> Seq<char> {
    trim_end_spec(trim_start_spec(s))
}

/// A character that ends a bare word.
pub open spec fn word_break(c: char) -> bool {
    c == ' ' || c == '\t' || c == '>' || c == '<' || c == '|' || c == '&' || c == ';' || c == '"'
        || c == '\''
}

/// One bare word from position `i`: characters up to a break, a backslash
/// making the next character literal.
pub open spec fn t_word_spec(s: Seq<char>, i: nat) -> (Seq<char>, nat)
    decreases s.len() - i,
{
    if i >= s.len() {
        (Seq::empty(), i)
    } else {
        let c = s[i as int];
        if word_break(c) {
            (Seq::empty(), i)
        } else if c == '\\' {
            if i + 1 < s.len() {
                let r = t_word_spec(s, i + 2);
                (seq![s[i as int + 1]] + r.0, r.1)
            } else {
                (Seq::empty(), i + 1)
            }
        } else {
            let r = t_word_spec(s, i + 1);
            (seq![c] + r.0, r.1)
        }
    }
}

/// One quoted string from position `i` (on the opening quote): inside double
/// quotes a backslash makes the next character literal; inside single quotes
/// everything is literal; a missing closing quote ends at end of input.
pub open spec fn t_quoted_spec(s: Seq<char>, i: nat, quote: char) -> (Seq<char>, nat)
    decreases s.len() - i,
{
    if i >= s.len() {
        (Seq::empty(), i)
    } else {
        let c = s[i as int];
        if c == quote {
            (Seq::empty(), i + 1)
        } else if c == '\\' && quote == '"' {
            if i + 1 < s.len() {
                let r = t_quoted_spec(s, i + 2, quote);
                (seq![s[i as int + 1]] + r.0, r.1)
            } else {
                (Seq::empty(), i + 1)
            }
        } else {
            let r = t_quoted_spec(s, i + 1, quote);
            (seq![c] + r.0, r.1)
        }
    }
}

/// The text of a `$(command)` substitution: up to the closing parenthesis or
/// end of input.
pub open spec fn t_subst_spec(s: Seq<char>, i: nat) -> (Seq<char>, nat)
    decreases s.len() - i,
{
    if i >= s.len() {
        (Seq::empty(), i)
    } else if s[i as int] == ')' {
        (Seq::empty(), i + 1)
    } else {
        let r = t_subst_spec(s, i + 1);
        (seq![s[i as int]] + r.0, r.1)
    }
}

/// A `$name` variable reference: the run of name characters after the `$`.
pub open spec fn t_var_spec(s: Seq<char>, i: nat) -> (Seq<char>, nat)
    decreases s.len() - i,
{
    if i < s.len() && (alnum(s[i as int]) || s[i as int] == '_') {
        let r = t_var_spec(s, i + 1);
        (seq![s[i as int]] + r.0, r.1)
    } else {
        (Seq::empty(), i)
    }
}

/// One classified token at position `i` of a trimmed input, and the position
/// after it.  Assumes `i` stands on a non-blank character.
pub open spec fn t_token_spec(s: Seq<char>, i: nat) -> (TokenTypeV, nat) {
    let c = s[i as int];
    if c == '"' || c == '\'' {
        let r = t_quoted_spec(s, i + 1, c);
        (
            if c == '\'' {
                TokenTypeV::SingleQuotedString(r.0)
            } else {
                TokenTypeV::DoubleQuotedString(r.0)
            },
            r.1,
        )
    } else if c == '>' {
        if i + 1 < s.len() && s[i as int + 1] == '>' {
            (TokenTypeV::RedirectionOperator(seq!['>', '>']), i + 2)
        } else {
            (TokenTypeV::RedirectionOperator(seq!['>']), i + 1)
        }
    } else if c == '<' {
        (TokenTypeV::RedirectionOperator(seq!['<']), i + 1)
    } else if c == '|' {
        if i + 1 < s.len() && s[i as int + 1] == '|' {
            (TokenTypeV::LogicalOr, i + 2)
        } else {
            (TokenTypeV::Pipe, i + 1)
        }
    } else if c == '&' {
        if i + 1 < s.len() && s[i as int + 1] == '&' {
            (TokenTypeV::LogicalAnd, i + 2)
        } else {
            (TokenTypeV::Background, i + 1)
        }
    } else if c == ';' {
        (TokenTypeV::Semicolon, i + 1)
    } else if c == '$' {
        if i + 1 < s.len() && s[i as int + 1] == '(' {
            let r = t_subst_spec(s, i + 2);
            (TokenTypeV::CommandSubstitution(r.0), r.1)
        } else {
            let r = t_var_spec(s, i + 1);
            (TokenTypeV::DollarVar(r.0), r.1)
        }
    } else {
        let r = t_word_spec(s, i);
        (TokenTypeV::Word(r.0), r.1)
    }
}

/// The classified tokens of a trimmed input from position `i` on.
pub open spec fn tokenize_from_spec(s: Seq<char>, i: nat) -> Seq<TokenTypeV>
    decreases s.len() - i,
{
    if i >= s.len() {
        Seq::empty()
    } else if is_blank(s[i as int]) {
        tokenize_from_spec(s, i + 1)
    } else {
        let r = t_token_spec(s, i);
        if i < r.1 <= s.len() {
            seq![r.0] + tokenize_from_spec(s, r.1)
        } else {
            seq![r.0]
        }
    }
}

/// The classified tokens of an input line: its trimmed text, scanned left to
/// right.
pub open spec fn tokenize_spec(s: Seq<char>) -> Seq<TokenTypeV> {
    tokenize_from_spec(trim_spec(s), 0)
}

/// Strips leading and trailing whitespace.
pub fn trim_chars(v: Vec<char>) -> (r: Vec<char>)
    ensures
        r@ == trim_spec(v@),
{
    let mut start: usize = 0;
    proof {
        assert(v@.skip(0) =~= v@);
    }
    while start < v.len() && is_white(v[start])
        invariant
            start <= v@.len(),
            trim_start_spec(v@) == trim_start_spec(v@.skip(start as int)),
        decreases v@.len() - start,
    {
        proof {
            assert(v@.skip(start as int)[0] == v@[start as int]);
            assert(v@.skip(start + 1 as int) =~= v@.skip(start as int).drop_first());
        }
        start += 1;
    }
    proof {
        if start < v@.len() {
            assert(v@.skip(start as int)[0] == v@[start as int]);
        } else {
            assert(v@.skip(start as int) =~= Seq::<char>::empty());
        }
        assert(trim_start_spec(v@.skip(start as int)) == v@.skip(start as int));
    }
    let mut out: Vec<char> = Vec::new();
    let mut i: usize = start;
    while i < v.len()
        invariant
            start <= i <= v@.len(),
            out@ == v@.skip(start as int).take(i - start),
        decreases v@.len() - i,
    {
        out.push(v[i]);
        proof {
            assert(v@.skip(start as int).take(i + 1 - start) =~= v@.skip(start as int).take(
                i - start,
            ).push(v@[i as int]));
        }
        i += 1;
    }
    proof {
        assert(v@.skip(start as int).take(v@.len() - start) =~= v@.skip(start as int));
        assert(out@ == trim_start_spec(v@));
    }
    let ghost st = trim_start_spec(v@);
    loop
        invariant
            st == trim_start_spec(v@),
            trim_end_spec(st) == trim_end_spec(out@),
        decreases out@.len(),
    {
        if out.len() > 0 && is_white(out[out.len() - 1]) {
            out.pop();
        } else {
            proof {
                assert(trim_end_spec(out@) == out@);
            }
            return out;
        }
    }
}

/// Reads one bare word.
fn tokenize_word(chars: &Vec<char>, pos: usize) -> (r: (TokenType, usize))
    requires
        pos <= chars@.len(),
    ensures
        ({
            let sp = t_word_spec(chars@, pos as nat);
            r.0@ == TokenTypeV::Word(sp.0) && r.1 as nat == sp.1
        }),
        pos <= r.1 <= chars@.len(),
        pos < chars@.len() && !word_break(chars@[pos as int]) ==> r.1 > pos,
    decreases chars@.len() - pos,
{
    if pos >= chars.len() {
        let empty: Vec<char> = Vec::new();
        return (TokenType::Word(string_of(&empty)), pos);
    }
    let c = chars[pos];
    if c == ' ' || c == '\t' || c == '>' || c == '<' || c == '|' || c == '&' || c == ';' || c
        == '"' || c == '\'' {
        let empty: Vec<char> = Vec::new();
        return (TokenType::Word(string_of(&empty)), pos);
    }
    if c == '\\' {
        if pos + 1 < chars.len() {
            let d = chars[pos + 1];
            let (rest, end) = tokenize_word(chars, pos + 2);
            let mut out: Vec<char> = Vec::new();
            out.push(d);
            let mut tail = chars_of(match &rest {
                TokenType::Word(s) => s.as_str(),
                _ => "",
            });
            let ghost tv = tail@;
            out.append(&mut tail);
            proof {
                assert(out@ =~= seq![d] + tv);
            }
            return (TokenType::Word(string_of(&out)), end);
        }
        let empty: Vec<char> = Vec::new();
        return (TokenType::Word(string_of(&empty)), pos + 1);
    }
    let (rest, end) = tokenize_word(chars, pos + 1);
    let mut out: Vec<char> = Vec::new();
    out.push(c);
    let mut tail = chars_of(match &rest {
        TokenType::Word(s) => s.as_str(),
        _ => "",
    });
    let ghost tv = tail@;
    out.append(&mut tail);
    proof {
        assert(out@ =~= seq![c] + tv);
    }
    (TokenType::Word(string_of(&out)), end)
}

/// Reads a quoted string starting on its opening quote.
fn tokenize_quoted_string(chars: &Vec<char>, pos: usize) -> (r: (TokenType, usize))
    requires
        pos < chars@.len(),
        chars@[pos as int] == '"' || chars@[pos as int] == '\'',
    ensures
        ({
            let q = chars@[pos as int];
            let sp = t_quoted_spec(chars@, (pos + 1) as nat, q);
            (if q == '\'' {
                r.0@ == TokenTypeV::SingleQuotedString(sp.0)
            } else {
                r.0@ == TokenTypeV::DoubleQuotedString(sp.0)
            }) && r.1 as nat == sp.1
        }),
        pos < r.1 <= chars@.len(),
{
    let n = chars.len();
    let quote = chars[pos];
    let mut out: Vec<char> = Vec::new();
    let mut i = pos + 1;
    let ghost q = quote;
    loop
        invariant_except_break
            t_quoted_spec(chars@, (pos + 1) as nat, q).0 == out@ + t_quoted_spec(
                chars@,
                i as nat,
                q,
            ).0,
            t_quoted_spec(chars@, (pos + 1) as nat, q).1 == t_quoted_spec(chars@, i as nat, q).1,
        invariant
            pos + 1 <= i <= chars@.len(),
            n == chars@.len(),
            q == chars@[pos as int],
            quote == q,
            (q == '"' || q == '\''),
        ensures
            out@ == t_quoted_spec(chars@, (pos + 1) as nat, q).0,
            i as nat == t_quoted_spec(chars@, (pos + 1) as nat, q).1,
        decreases chars@.len() - i,
    {
        if i >= chars.len() {
            proof {
                assert(t_quoted_spec(chars@, i as nat, q).0 =~= Seq::<char>::empty());
                assert(out@ + Seq::<char>::empty() =~= out@);
            }
            break;
        }
        let c = chars[i];
        if c == quote {
            i += 1;
            proof {
                assert(out@ + Seq::<char>::empty() =~= out@);
            }
            break;
        }
        if c == '\\' && quote == '"' {
            if i + 1 < chars.len() {
                let d = chars[i + 1];
                let ghost rest = t_quoted_spec(chars@, (i + 2) as nat, q).0;
                out.push(d);
                proof {
                    assert(out@ + rest =~= out@.drop_last() + (seq![d] + rest));
                }
                i += 2;
            } else {
                i += 1;
                proof {
                    assert(t_quoted_spec(chars@, i as nat, q).0 =~= Seq::<char>::empty());
                    assert(out@ + Seq::<char>::empty() =~= out@);
                }
                break;
            }
        } else {
            let ghost rest = t_quoted_spec(chars@, (i + 1) as nat, q).0;
            out.push(c);
            proof {
                assert(out@ + rest =~= out@.drop_last() + (seq![c] + rest));
            }
            i += 1;
        }
    }
    let text = string_of(&out);
    if quote == '\'' {
        (TokenType::SingleQuotedString(text), i)
    } else {
        (TokenType::DoubleQuotedString(text), i)
    }
}

/// Reads `|` or `||`.
fn tokenize_pipe(chars: &Vec<char>, pos: usize) -> (r: (TokenType, usize))
    requires
        pos < chars@.len(),
    ensures
        ({
            let more = pos + 1 < chars@.len() && chars@[pos as int + 1] == '|';
            (if more {
                r.0@ == TokenTypeV::LogicalOr && r.1 == pos + 2
            } else {
                r.0@ == TokenTypeV::Pipe && r.1 == pos + 1
            })
        }),
        pos < r.1 <= chars@.len(),
{
    let n = chars.len();
    if pos + 1 < n && chars[pos + 1] == '|' {
        (TokenType::LogicalOr, pos + 2)
    } else {
        (TokenType::Pipe, pos + 1)
    }
}

/// Reads `&` or `&&`.
fn tokenize_background(chars: &Vec<char>, pos: usize) -> (r: (TokenType, usize))
    requires
        pos < chars@.len(),
    ensures
        ({
            let more = pos + 1 < chars@.len() && chars@[pos as int + 1] == '&';
            (if more {
                r.0@ == TokenTypeV::LogicalAnd && r.1 == pos + 2
            } else {
                r.0@ == TokenTypeV::Background && r.1 == pos + 1
            })
        }),
        pos < r.1 <= chars@.len(),
{
    let n = chars.len();
    if pos + 1 < n && chars[pos + 1] == '&' {
        (TokenType::LogicalAnd, pos + 2)
    } else {
        (TokenType::Background, pos + 1)
    }
}

/// Reads `>`, `>>` or `<`.
fn tokenize_redirection(chars: &Vec<char>, pos: usize) -> (r: (TokenType, usize))
    requires
        pos < chars@.len(),
        chars@[pos as int] == '>' || chars@[pos as int] == '<',
    ensures
        ({
            let c = chars@[pos as int];
            if c == '>' && pos + 1 < chars@.len() && chars@[pos as int + 1] == '>' {
                r.0@ == TokenTypeV::RedirectionOperator(seq!['>', '>']) && r.1 == pos + 2
            } else {
                r.0@ == TokenTypeV::RedirectionOperator(seq![c]) && r.1 == pos + 1
            }
        }),
        pos < r.1 <= chars@.len(),
{
    let n = chars.len();
    let c = chars[pos];
    if c == '>' && pos + 1 < n && chars[pos + 1] == '>' {
        let mut v: Vec<char> = Vec::new();
        v.push('>');
        v.push('>');
        proof {
            assert(v@ =~= seq!['>', '>']);
        }
        (TokenType::RedirectionOperator(string_of(&v)), pos + 2)
    } else {
        let mut v: Vec<char> = Vec::new();
        v.push(c);
        proof {
            assert(v@ =~= seq![c]);
        }
        (TokenType::RedirectionOperator(string_of(&v)), pos + 1)
    }
}

/// Reads a `$(command)` substitution or a `$name` variable reference,
/// starting just after the `$`.
fn tokenize_dollar(chars: &Vec<char>, pos: usize) -> (r: (TokenType, usize))
    requires
        pos <= chars@.len(),
    ensures
        ({
            if pos < chars@.len() && chars@[pos as int] == '(' {
                let sp = t_subst_spec(chars@, (pos + 1) as nat);
                r.0@ == TokenTypeV::CommandSubstitution(sp.0) && r.1 as nat == sp.1
            } else {
                let sp = t_var_spec(chars@, pos as nat);
                r.0@ == TokenTypeV::DollarVar(sp.0) && r.1 as nat == sp.1
            }
        }),
        pos <= r.1 <= chars@.len(),
{
    if pos < chars.len() && chars[pos] == '(' {
        let n = chars.len();
        let mut out: Vec<char> = Vec::new();
        let mut i = pos + 1;
        loop
            invariant_except_break
                t_subst_spec(chars@, (pos + 1) as nat).0 == out@ + t_subst_spec(
                    chars@,
                    i as nat,
                ).0,
                t_subst_spec(chars@, (pos + 1) as nat).1 == t_subst_spec(chars@, i as nat).1,
            invariant
                pos + 1 <= i <= chars@.len(),
                n == chars@.len(),
            ensures
                out@ == t_subst_spec(chars@, (pos + 1) as nat).0,
                i as nat == t_subst_spec(chars@, (pos + 1) as nat).1,
            decreases chars@.len() - i,
        {
            if i >= chars.len() {
                proof {
                    assert(t_subst_spec(chars@, i as nat).0 =~= Seq::<char>::empty());
                    assert(out@ + Seq::<char>::empty() =~= out@);
                }
                break;
            }
            let c = chars[i];
            if c == ')' {
                i += 1;
                proof {
                    assert(out@ + Seq::<char>::empty() =~= out@);
                }
                break;
            }
            let ghost rest = t_subst_spec(chars@, (i + 1) as nat).0;
            out.push(c);
            proof {
                assert(out@ + rest =~= out@.drop_last() + (seq![c] + rest));
            }
            i += 1;
        }
        (TokenType::CommandSubstitution(string_of(&out)), i)
    } else {
        let mut out: Vec<char> = Vec::new();
        let mut i = pos;
        loop
            invariant_except_break
                t_var_spec(chars@, pos as nat).0 == out@ + t_var_spec(chars@, i as nat).0,
                t_var_spec(chars@, pos as nat).1 == t_var_spec(chars@, i as nat).1,
            invariant
                pos <= i <= chars@.len(),
            ensures
                out@ == t_var_spec(chars@, pos as nat).0,
                i as nat == t_var_spec(chars@, pos as nat).1,
            decreases chars@.len() - i,
        {
            if i < chars.len() {
                let c = chars[i];
                if is_alnum(c) || c == '_' {
                    let ghost rest = t_var_spec(chars@, (i + 1) as nat).0;
                    out.push(c);
                    proof {
                        assert(out@ + rest =~= out@.drop_last() + (seq![c] + rest));
                    }
                    i += 1;
                    continue ;
                }
            }
            proof {
                assert(t_var_spec(chars@, i as nat).0 =~= Seq::<char>::empty());
                assert(out@ + Seq::<char>::empty() =~= out@);
            }
            break;
        }
        (TokenType::DollarVar(string_of(&out)), i)
    }
}

/// Classifies a whole input line into flat tokens: its text is trimmed, then
/// scanned left to right with blanks skipped.
pub fn tokenize(input: &str) -> (r: Vec<TokenType>)
    ensures
        ttokens_view(r@) == tokenize_spec(input@),
{
    let chars = trim_chars(chars_of(input));
    let ghost s = chars@;
    let mut tokens: Vec<TokenType> = Vec::new();
    let mut i: usize = 0;
    proof {
        assert(ttokens_view(tokens@) =~= Seq::<TokenTypeV>::empty());
        assert(Seq::<TokenTypeV>::empty() + tokenize_from_spec(s, 0) =~= tokenize_from_spec(s, 0));
    }
    while i < chars.len()
        invariant
            i <= chars@.len(),
            chars@ == s,
            tokenize_spec(input@) == ttokens_view(tokens@) + tokenize_from_spec(s, i as nat),
        decreases chars@.len() - i,
    {
        let c = chars[i];
        if c == ' ' || c == '\t' {
            i += 1;
            continue ;
        }
        let (tok, j) = if c == '"' || c == '\'' {
            tokenize_quoted_string(&chars, i)
        } else if c == '>' || c == '<' {
            tokenize_redirection(&chars, i)
        } else if c == '|' {
            tokenize_pipe(&chars, i)
        } else if c == '&' {
            tokenize_background(&chars, i)
        } else if c == ';' {
            (TokenType::Semicolon, i + 1)
        } else if c == '$' {
            tokenize_dollar(&chars, i + 1)
        } else {
            tokenize_word(&chars, i)
        };
        let ghost tv = tok@;
        let ghost before = ttokens_view(tokens@);
        tokens.push(tok);
        proof {
            assert(ttokens_view(tokens@) =~= before + seq![tv]);
            assert(t_token_spec(s, i as nat) == (tv, j as nat));
            assert((before + seq![tv]) + tokenize_from_spec(s, j as nat) =~= before + (seq![tv]
                + tokenize_from_spec(s, j as nat)));
        }
        i = j;
    }
    proof {
        assert(tokenize_from_spec(s, i as nat) =~= Seq::<TokenTypeV>::empty());
        assert(ttokens_view(tokens@) + Seq::<TokenTypeV>::empty() =~= ttokens_view(tokens@));
    }
    tokens
}

} // verus!
