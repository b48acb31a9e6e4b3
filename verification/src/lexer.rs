//! The lexer: a single-pass character scanner that turns a line of text into
//! quoting-aware words and operators.  It is total — malformed quoting at end
//! of input degrades to a best-effort word, never a failure.

use vstd::prelude::*;
use crate::text::string_of;
use crate::types::QuoteType;
use crate::word::{Word, WordPart, WordPartV};

verus! {

/// One token of the input line.
#[verifier::ext_equal]
#[derive(Debug, Clone, PartialEq)]
pub enum Token {
    /// A word, possibly combining differently quoted fragments.
    Word(Word),
    /// A control or redirection operator.
    Operator(Operator),
    /// A run of blanks between words.
    Space,
    /// A line break.
    NewLine,
}

/// The closed set of operators.
#[derive(Debug, Clone, Copy, PartialEq, Eq, Structural)]
pub enum Operator {
    /// `|`
    Pipe,
    /// `|&`
    PipeAnd,
    /// `&&`
    And,
    /// `||`
    Or,
    /// `&`
    Background,
    /// `;`
    Semicolon,
    /// `>`
    RedirectOut,
    /// `<`
    RedirectIn,
    /// `>>`
    RedirectAppend,
    /// `2>`
    RedirectError,
    /// `<<`
    RedirectHereDoc,
    /// `<<<`
    RedirectHereStr,
    /// `>&` or `<&`
    RedirectDup,
    /// `2>>`
    RedirectErrorAppend,
    /// `n>` for any other single digit `n`: output redirection carrying its
    /// descriptor.
    RedirectOutFd(i32),
    /// `n>>` for any other single digit `n`: appending redirection carrying
    /// its descriptor.
    RedirectAppendFd(i32),
}

/// The mathematical shape of a token: a word is its sequence of fragment
/// views, the rest carry themselves.
pub enum TokenV {
    Word(Seq<WordPartV>),
    Operator(Operator),
    Space,
    NewLine,
}

impl View for Token {
    type V = TokenV;

    open spec fn view(&self) -> TokenV {
        match self {
            Token::Word(w) => TokenV::Word(w@),
            Token::Operator(op) => TokenV::Operator(*op),
            Token::Space => TokenV::Space,
            Token::NewLine => TokenV::NewLine,
        }
    }
}

/// The views of a token list.
pub open spec fn tokens_view(ts: Seq<Token>) -> Seq<TokenV> {
    ts.map_values(|t: Token| t@)
}

/// A blank that separates words without ending the line.
pub open spec fn is_blank(c: char) -> bool {
    c == ' ' || c == '\t'
}

/// A decimal digit.
pub open spec fn is_digit_char(c: char) -> bool {
    '0' as u32 <= c as u32 && c as u32 <= '9' as u32
}

/// A character that starts an operator token.
pub open spec fn is_operator_char(c: char) -> bool {
    c == '|' || c == '&' || c == '>' || c == '<' || c == ';'
}

/// A character that ends an unquoted word: blanks, line breaks, operator
/// starters and the backtick.
pub open spec fn is_word_terminator(c: char) -> bool {
    is_blank(c) || c == '\n' || is_operator_char(c) || c == '`'
}

/// The first position at or after `i` that does not hold a blank.
pub open spec fn skip_blanks_spec(s: Seq<char>, i: nat) -> nat
    decreases s.len() - i,
{
    if i < s.len() && is_blank(s[i as int]) {
        skip_blanks_spec(s, i + 1)
    } else {
        i
    }
}

/// Skipping blanks never moves the cursor backwards.
pub proof fn lemma_skip_blanks_ge(s: Seq<char>, i: nat)
    ensures
        skip_blanks_spec(s, i) >= i,
    decreases s.len() - i,
{
    if i < s.len() && is_blank(s[i as int]) {
        lemma_skip_blanks_ge(s, i + 1);
    }
}

/// The text of a backtick span starting at `i` (just after the opening
/// backtick), with its internal escapes resolved, and the position just after
/// the closing backtick.  `` \` ``, `\\` and `\$` drop their backslash; any
/// other escape keeps it; a missing closing backtick ends the span at end of
/// input.
pub open spec fn backtick_spec(s: Seq<char>, i: nat) -> (Seq<char>, nat)
    decreases s.len() - i,
{
    if i >= s.len() {
        (Seq::empty(), i)
    } else {
        let c = s[i as int];
        if c == '\\' {
            if i + 1 < s.len() {
                let d = s[i as int + 1];
                let head: Seq<char> = if d == '`' || d == '\\' || d == '$' {
                    seq![d]
                } else {
                    seq!['\\', d]
                };
                let r = backtick_spec(s, i + 2);
                (head + r.0, r.1)
            } else {
                (Seq::empty(), i + 1)
            }
        } else if c == '`' {
            (Seq::empty(), i + 1)
        } else {
            let r = backtick_spec(s, i + 1);
            (seq![c] + r.0, r.1)
        }
    }
}

/// The fragment a pending segment commits to when a word ends in quoting
/// state `q`.
pub open spec fn segment_part(q: QuoteType, seg: Seq<char>) -> WordPartV {
    match q {
        QuoteType::Single => WordPartV::SingleQuoted(seg),
        QuoteType::Double => WordPartV::DoubleQuoted(seg),
        _ => WordPartV::Simple(seg),
    }
}

/// The fragments of a finished word: the collected parts, plus the pending
/// segment if it is not empty.
pub open spec fn finish_word(q: QuoteType, seg: Seq<char>, parts: Seq<WordPartV>) -> Seq<
    WordPartV,
> {
    if seg.len() > 0 {
        parts.push(segment_part(q, seg))
    } else {
        parts
    }
}

/// The word-reading state machine.  From position `i` in quoting state `q`,
/// with pending segment `seg` and committed fragments `parts`, it returns the
/// word's fragments and the position where the word ends.
///
/// Outside quotes a backslash keeps itself and the next character for the
/// expander, a quote opens a quoted fragment, and a terminator ends the word.
/// Inside single quotes everything is literal until the closing quote.
/// Inside double quotes a backslash keeps itself and the next character, and
/// the closing quote commits the fragment.  An unterminated quote commits its
/// fragment at end of input.
pub open spec fn read_word_spec(
    s: Seq<char>,
    i: nat,
    q: QuoteType,
    seg: Seq<char>,
    parts: Seq<WordPartV>,
) -> (Seq<WordPartV>, nat)
    decreases s.len() - i,
{
    if i >= s.len() {
        (finish_word(q, seg, parts), i)
    } else {
        let c = s[i as int];
        match q {
            QuoteType::Single => {
                if c == '\'' {
                    read_word_spec(
                        s,
                        i + 1,
                        QuoteType::Unquoted,
                        Seq::empty(),
                        parts.push(WordPartV::SingleQuoted(seg)),
                    )
                } else {
                    read_word_spec(s, i + 1, q, seg.push(c), parts)
                }
            },
            QuoteType::Double => {
                if c == '\\' {
                    if i + 1 < s.len() {
                        read_word_spec(s, i + 2, q, seg.push('\\').push(s[i as int + 1]), parts)
                    } else {
                        read_word_spec(s, i + 1, q, seg.push('\\'), parts)
                    }
                } else if c == '"' {
                    read_word_spec(
                        s,
                        i + 1,
                        QuoteType::Unquoted,
                        Seq::empty(),
                        parts.push(WordPartV::DoubleQuoted(seg)),
                    )
                } else {
                    read_word_spec(s, i + 1, q, seg.push(c), parts)
                }
            },
            _ => {
                if c == '\\' {
                    if i + 1 < s.len() {
                        read_word_spec(s, i + 2, q, seg.push('\\').push(s[i as int + 1]), parts)
                    } else {
                        read_word_spec(s, i + 1, q, seg.push('\\'), parts)
                    }
                } else if c == '\'' {
                    read_word_spec(s, i + 1, QuoteType::Single, Seq::empty(), finish_word(q, seg, parts))
                } else if c == '"' {
                    read_word_spec(s, i + 1, QuoteType::Double, Seq::empty(), finish_word(q, seg, parts))
                } else if is_word_terminator(c) {
                    (finish_word(q, seg, parts), i)
                } else {
                    read_word_spec(s, i + 1, q, seg.push(c), parts)
                }
            },
        }
    }
}

/// The operator token starting at position `i`, and the position just after
/// it.  A digit before `>` selects the descriptor the operator carries:
/// `1>`/`1>>` are the plain output forms, `2>`/`2>>` target the error
/// stream, and any other digit yields an operator carrying that number.
pub open spec fn read_operator_spec(s: Seq<char>, i: nat) -> (TokenV, nat) {
    let c = s[i as int];
    if is_digit_char(c) {
        let d = (c as u32 - '0' as u32) as i32;
        if i + 1 < s.len() && s[i as int + 1] == '>' {
            if i + 2 < s.len() && s[i as int + 2] == '>' {
                if c == '1' {
                    (TokenV::Operator(Operator::RedirectAppend), i + 3)
                } else if c == '2' {
                    (TokenV::Operator(Operator::RedirectErrorAppend), i + 3)
                } else {
                    (TokenV::Operator(Operator::RedirectAppendFd(d)), i + 3)
                }
            } else {
                if c == '1' {
                    (TokenV::Operator(Operator::RedirectOut), i + 2)
                } else if c == '2' {
                    (TokenV::Operator(Operator::RedirectError), i + 2)
                } else {
                    (TokenV::Operator(Operator::RedirectOutFd(d)), i + 2)
                }
            }
        } else {
            (TokenV::Word(seq![WordPartV::Simple(seq![c])]), i + 1)
        }
    } else if c == '>' {
        if i + 1 < s.len() && s[i as int + 1] == '>' {
            (TokenV::Operator(Operator::RedirectAppend), i + 2)
        } else if i + 1 < s.len() && s[i as int + 1] == '&' {
            (TokenV::Operator(Operator::RedirectDup), i + 2)
        } else {
            (TokenV::Operator(Operator::RedirectOut), i + 1)
        }
    } else if c == '<' {
        if i + 1 < s.len() && s[i as int + 1] == '<' {
            if i + 2 < s.len() && s[i as int + 2] == '<' {
                (TokenV::Operator(Operator::RedirectHereStr), i + 3)
            } else {
                (TokenV::Operator(Operator::RedirectHereDoc), i + 2)
            }
        } else if i + 1 < s.len() && s[i as int + 1] == '&' {
            (TokenV::Operator(Operator::RedirectDup), i + 2)
        } else {
            (TokenV::Operator(Operator::RedirectIn), i + 1)
        }
    } else if c == '|' {
        if i + 1 < s.len() && s[i as int + 1] == '|' {
            (TokenV::Operator(Operator::Or), i + 2)
        } else {
            (TokenV::Operator(Operator::Pipe), i + 1)
        }
    } else if c == '&' {
        if i + 1 < s.len() && s[i as int + 1] == '&' {
            (TokenV::Operator(Operator::And), i + 2)
        } else {
            (TokenV::Operator(Operator::Background), i + 1)
        }
    } else {
        (TokenV::Operator(Operator::Semicolon), i + 1)
    }
}

/// The next token from position `i`, and the position after it.  Blanks
/// collapse to one `Space` token; trailing blanks produce none.
pub open spec fn next_token_spec(s: Seq<char>, i: nat) -> (Option<TokenV>, nat) {
    let j = skip_blanks_spec(s, i);
    if j >= s.len() {
        (None, j)
    } else if j > i {
        (Some(TokenV::Space), j)
    } else {
        let c = s[i as int];
        if c == '\n' {
            (Some(TokenV::NewLine), i + 1)
        } else if c == '`' {
            let r = backtick_spec(s, i + 1);
            (
                Some(TokenV::Word(seq![WordPartV::Simple(seq!['`'] + r.0 + seq!['`'])])),
                r.1,
            )
        } else if (is_digit_char(c) && i + 1 < s.len() && s[i as int + 1] == '>') || is_operator_char(c) {
            let r = read_operator_spec(s, i);
            (Some(r.0), r.1)
        } else {
            let r = read_word_spec(s, i, QuoteType::Unquoted, Seq::empty(), Seq::empty());
            (Some(TokenV::Word(r.0)), r.1)
        }
    }
}

/// The token stream from position `i` to the end of the input.
pub open spec fn lex_from_spec(s: Seq<char>, i: nat) -> Seq<TokenV>
    decreases s.len() - i,
{
    if i >= s.len() {
        Seq::empty()
    } else {
        let r = next_token_spec(s, i);
        match r.0 {
            None => Seq::empty(),
            Some(tv) => {
                if i < r.1 <= s.len() {
                    seq![tv] + lex_from_spec(s, r.1)
                } else {
                    seq![tv]
                }
            },
        }
    }
}

/// The token stream of a whole input line.
pub open spec fn lex_spec(s: Seq<char>) -> Seq<TokenV> {
    lex_from_spec(s, 0)
}

/// The character scanner: the input characters and a cursor.
pub struct Lexer {
    pub chars: Vec<char>,
    pub pos: usize,
}

impl Lexer {
    /// The cursor never passes the end of the input.
    pub open spec fn wf(&self) -> bool {
        self.pos <= self.chars@.len()
    }

    /// A scanner over the given line, at its start.
    pub fn new(input: &str) -> (r: Lexer)
        ensures
            r.chars@ == input@,
            r.pos == 0,
            r.wf(),
    {
        Lexer { chars: crate::text::chars_of(input), pos: 0 }
    }

    /// Reads the characters of a backtick span up to and including the
    /// closing backtick, resolving the span's internal escapes.
    fn read_until_backtick(&mut self) -> (r: Vec<char>)
        requires
            old(self).wf(),
        ensures
            final(self).wf(),
            final(self).chars@ == old(self).chars@,
            ({
                let sp = backtick_spec(old(self).chars@, old(self).pos as nat);
                r@ == sp.0 && final(self).pos as nat == sp.1
            }),
            final(self).pos >= old(self).pos,
    {
        let ghost s = self.chars@;
        let ghost i0 = self.pos as nat;
        let mut out: Vec<char> = Vec::new();
        loop
            invariant
                self.wf(),
                s == old(self).chars@,
                i0 == old(self).pos as nat,
                self.chars@ == s,
                i0 <= self.pos as nat,
                backtick_spec(s, i0).0 == out@ + backtick_spec(s, self.pos as nat).0,
                backtick_spec(s, i0).1 == backtick_spec(s, self.pos as nat).1,
            decreases s.len() - self.pos,
        {
            if self.pos >= self.chars.len() {
                proof {
                    assert(backtick_spec(s, self.pos as nat).0 =~= Seq::<char>::empty());
                    assert(out@ + Seq::<char>::empty() =~= out@);
                }
                return out;
            }
            let c = self.chars[self.pos];
            if c == '\\' {
                if self.pos + 1 < self.chars.len() {
                    let d = self.chars[self.pos + 1];
                    let ghost rest = backtick_spec(s, (self.pos + 2) as nat).0;
                    if d == '`' || d == '\\' || d == '$' {
                        out.push(d);
                        proof {
                            assert(out@ + rest =~= (out@.drop_last() + (seq![d] + rest)));
                        }
                    } else {
                        out.push('\\');
                        out.push(d);
                        proof {
                            assert(out@ + rest =~= (out@.drop_last().drop_last() + (seq!['\\', d]
                                + rest)));
                        }
                    }
                    self.pos = self.pos + 2;
                } else {
                    self.pos = self.pos + 1;
                    proof {
                        assert(backtick_spec(s, self.pos as nat).0 =~= Seq::<char>::empty());
                        assert(out@ + Seq::<char>::empty() =~= out@);
                    }
                    return out;
                }
            } else if c == '`' {
                self.pos = self.pos + 1;
                proof {
                    assert(out@ + Seq::<char>::empty() =~= out@);
                }
                return out;
            } else {
                let ghost rest = backtick_spec(s, (self.pos + 1) as nat).0;
                out.push(c);
                proof {
                    assert(out@ + rest =~= (out@.drop_last() + (seq![c] + rest)));
                }
                self.pos = self.pos + 1;
            }
        }
    }

    /// Reads one word starting at the cursor, which must not stand on a word
    /// terminator reachable only through the operator path.
    fn read_word(&mut self) -> (r: Word)
        requires
            old(self).wf(),
        ensures
            final(self).wf(),
            final(self).chars@ == old(self).chars@,
            ({
                let sp = read_word_spec(
                    old(self).chars@,
                    old(self).pos as nat,
                    QuoteType::Unquoted,
                    Seq::empty(),
                    Seq::empty(),
                );
                r@ == sp.0 && final(self).pos as nat == sp.1
            }),
            final(self).pos >= old(self).pos,
            old(self).pos < old(self).chars@.len() && !is_word_terminator(
                old(self).chars@[old(self).pos as int],
            ) ==> final(self).pos > old(self).pos,
    {
        let ghost s = self.chars@;
        let ghost i0 = self.pos as nat;
        let mut word = Word::new();
        let mut seg: Vec<char> = Vec::new();
        let mut q = QuoteType::Unquoted;
        loop
            invariant
                self.wf(),
                s == old(self).chars@,
                i0 == old(self).pos as nat,
                self.chars@ == s,
                i0 <= self.pos as nat,
                q == QuoteType::Unquoted || q == QuoteType::Single || q == QuoteType::Double,
                self.pos as nat == i0 ==> q == QuoteType::Unquoted && seg@ == Seq::<char>::empty()
                    && word@ == Seq::<WordPartV>::empty(),
                read_word_spec(s, i0, QuoteType::Unquoted, Seq::empty(), Seq::empty())
                    == read_word_spec(s, self.pos as nat, q, seg@, word@),
            ensures
                self.wf(),
                s == old(self).chars@,
                i0 == old(self).pos as nat,
                self.chars@ == s,
                i0 <= self.pos as nat,
                self.pos as nat == i0 ==> i0 >= s.len() || is_word_terminator(s[i0 as int]),
                read_word_spec(s, i0, QuoteType::Unquoted, Seq::empty(), Seq::empty()) == (
                finish_word(q, seg@, word@), self.pos as nat),
            decreases s.len() - self.pos,
        {
            if self.pos >= self.chars.len() {
                proof {
                    assert(read_word_spec(s, self.pos as nat, q, seg@, word@) == (finish_word(
                        q,
                        seg@,
                        word@,
                    ), self.pos as nat));
                }
                break;
            }
            let ghost pp = self.pos as nat;
            let ghost qq = q;
            let ghost sg = seg@;
            let ghost wd = word@;
            let c = self.chars[self.pos];
            match q {
                QuoteType::Single => {
                    if c == '\'' {
                        word.add_part(WordPart::SingleQuoted(string_of(&seg)));
                        seg = Vec::new();
                        q = QuoteType::Unquoted;
                        self.pos = self.pos + 1;
                        proof {
                            assert(read_word_spec(s, pp, qq, sg, wd) == read_word_spec(
                                s,
                                self.pos as nat,
                                q,
                                seg@,
                                word@,
                            ));
                        }
                    } else {
                        seg.push(c);
                        self.pos = self.pos + 1;
                        proof {
                            assert(read_word_spec(s, pp, qq, sg, wd) == read_word_spec(
                                s,
                                self.pos as nat,
                                q,
                                seg@,
                                word@,
                            ));
                        }
                    }
                },
                QuoteType::Double => {
                    if c == '\\' {
                        if self.pos + 1 < self.chars.len() {
                            let d = self.chars[self.pos + 1];
                            seg.push('\\');
                            seg.push(d);
                            self.pos = self.pos + 2;
                            proof {
                                assert(read_word_spec(s, pp, qq, sg, wd) == read_word_spec(
                                    s,
                                    self.pos as nat,
                                    q,
                                    seg@,
                                    word@,
                                ));
                            }
                        } else {
                            seg.push('\\');
                            self.pos = self.pos + 1;
                            proof {
                                assert(read_word_spec(s, pp, qq, sg, wd) == read_word_spec(
                                    s,
                                    self.pos as nat,
                                    q,
                                    seg@,
                                    word@,
                                ));
                            }
                        }
                    } else if c == '"' {
                        word.add_part(WordPart::DoubleQuoted(string_of(&seg)));
                        seg = Vec::new();
                        q = QuoteType::Unquoted;
                        self.pos = self.pos + 1;
                        proof {
                            assert(read_word_spec(s, pp, qq, sg, wd) == read_word_spec(
                                s,
                                self.pos as nat,
                                q,
                                seg@,
                                word@,
                            ));
                        }
                    } else {
                        seg.push(c);
                        self.pos = self.pos + 1;
                        proof {
                            assert(read_word_spec(s, pp, qq, sg, wd) == read_word_spec(
                                s,
                                self.pos as nat,
                                q,
                                seg@,
                                word@,
                            ));
                        }
                    }
                },
                _ => {
                    if c == '\\' {
                        if self.pos + 1 < self.chars.len() {
                            let d = self.chars[self.pos + 1];
                            seg.push('\\');
                            seg.push(d);
                            self.pos = self.pos + 2;
                            proof {
                                assert(read_word_spec(s, pp, qq, sg, wd) == read_word_spec(
                                    s,
                                    self.pos as nat,
                                    q,
                                    seg@,
                                    word@,
                                ));
                            }
                        } else {
                            seg.push('\\');
                            self.pos = self.pos + 1;
                            proof {
                                assert(read_word_spec(s, pp, qq, sg, wd) == read_word_spec(
                                    s,
                                    self.pos as nat,
                                    q,
                                    seg@,
                                    word@,
                                ));
                            }
                        }
                    } else if c == '\'' {
                        if seg.len() > 0 {
                            word.add_part(WordPart::Simple(string_of(&seg)));
                            seg = Vec::new();
                        }
                        q = QuoteType::Single;
                        self.pos = self.pos + 1;
                        proof {
                            assert(seg@ =~= Seq::<char>::empty());
                            assert(read_word_spec(s, pp, qq, sg, wd) == read_word_spec(s, self.pos as nat, q, seg@, word@));
                        }
                    } else if c == '"' {
                        if seg.len() > 0 {
                            word.add_part(WordPart::Simple(string_of(&seg)));
                            seg = Vec::new();
                        }
                        q = QuoteType::Double;
                        self.pos = self.pos + 1;
                        proof {
                            assert(seg@ =~= Seq::<char>::empty());
                            assert(read_word_spec(s, pp, qq, sg, wd) == read_word_spec(s, self.pos as nat, q, seg@, word@));
                        }
                    } else if c == ' ' || c == '\t' || c == '\n' || c == '|' || c == '&' || c == '>'
                        || c == '<' || c == ';' || c == '`' {
                        proof {
                            assert(is_word_terminator(c));
                            assert(read_word_spec(s, self.pos as nat, q, seg@, word@) == (
                            finish_word(q, seg@, word@), self.pos as nat));
                        }
                        break;
                    } else {
                        seg.push(c);
                        self.pos = self.pos + 1;
                        proof {
                            assert(read_word_spec(s, pp, qq, sg, wd) == read_word_spec(
                                s,
                                self.pos as nat,
                                q,
                                seg@,
                                word@,
                            ));
                        }
                    }
                },
            }
        }
        if seg.len() > 0 {
            match q {
                QuoteType::Single => word.add_part(WordPart::SingleQuoted(string_of(&seg))),
                QuoteType::Double => word.add_part(WordPart::DoubleQuoted(string_of(&seg))),
                _ => word.add_part(WordPart::Simple(string_of(&seg))),
            }
        }
        word
    }

    /// Reads one operator token; the cursor must stand on an operator
    /// character, or on a digit directly before `>`.
    fn read_operator(&mut self) -> (r: Token)
        requires
            old(self).wf(),
            old(self).pos < old(self).chars@.len(),
            is_operator_char(old(self).chars@[old(self).pos as int]) || (is_digit_char(
                old(self).chars@[old(self).pos as int],
            ) && old(self).pos + 1 < old(self).chars@.len() && old(self).chars@[old(self).pos
                + 1] == '>'),
        ensures
            final(self).wf(),
            final(self).chars@ == old(self).chars@,
            ({
                let sp = read_operator_spec(old(self).chars@, old(self).pos as nat);
                r@ == sp.0 && final(self).pos as nat == sp.1
            }),
            final(self).pos > old(self).pos,
    {
        let n = self.chars.len();
        proof {
            assert(self.chars@.len() == n);
        }
        let c = self.chars[self.pos];
        let u = c as u32;
        if '0' as u32 <= u && u <= '9' as u32 {
            let d: i32 = (u - '0' as u32) as i32;
            self.pos = self.pos + 1;
            if self.pos < self.chars.len() && self.chars[self.pos] == '>' {
                self.pos = self.pos + 1;
                if self.pos < self.chars.len() && self.chars[self.pos] == '>' {
                    self.pos = self.pos + 1;
                    if c == '1' {
                        Token::Operator(Operator::RedirectAppend)
                    } else if c == '2' {
                        Token::Operator(Operator::RedirectErrorAppend)
                    } else {
                        Token::Operator(Operator::RedirectAppendFd(d))
                    }
                } else {
                    if c == '1' {
                        Token::Operator(Operator::RedirectOut)
                    } else if c == '2' {
                        Token::Operator(Operator::RedirectError)
                    } else {
                        Token::Operator(Operator::RedirectOutFd(d))
                    }
                }
            } else {
                let mut v: Vec<char> = Vec::new();
                v.push(c);
                let mut w = Word::new();
                w.add_part(WordPart::Simple(string_of(&v)));
                proof {
                    assert(v@ =~= seq![c]);
                    assert(w@ =~= seq![WordPartV::Simple(seq![c])]);
                }
                Token::Word(w)
            }
        } else if c == '>' {
            self.pos = self.pos + 1;
            if self.pos < self.chars.len() && self.chars[self.pos] == '>' {
                self.pos = self.pos + 1;
                Token::Operator(Operator::RedirectAppend)
            } else if self.pos < self.chars.len() && self.chars[self.pos] == '&' {
                self.pos = self.pos + 1;
                Token::Operator(Operator::RedirectDup)
            } else {
                Token::Operator(Operator::RedirectOut)
            }
        } else if c == '<' {
            self.pos = self.pos + 1;
            if self.pos < self.chars.len() && self.chars[self.pos] == '<' {
                self.pos = self.pos + 1;
                if self.pos < self.chars.len() && self.chars[self.pos] == '<' {
                    self.pos = self.pos + 1;
                    Token::Operator(Operator::RedirectHereStr)
                } else {
                    Token::Operator(Operator::RedirectHereDoc)
                }
            } else if self.pos < self.chars.len() && self.chars[self.pos] == '&' {
                self.pos = self.pos + 1;
                Token::Operator(Operator::RedirectDup)
            } else {
                Token::Operator(Operator::RedirectIn)
            }
        } else if c == '|' {
            self.pos = self.pos + 1;
            if self.pos < self.chars.len() && self.chars[self.pos] == '|' {
                self.pos = self.pos + 1;
                Token::Operator(Operator::Or)
            } else {
                Token::Operator(Operator::Pipe)
            }
        } else if c == '&' {
            self.pos = self.pos + 1;
            if self.pos < self.chars.len() && self.chars[self.pos] == '&' {
                self.pos = self.pos + 1;
                Token::Operator(Operator::And)
            } else {
                Token::Operator(Operator::Background)
            }
        } else {
            self.pos = self.pos + 1;
            Token::Operator(Operator::Semicolon)
        }
    }

    /// Skips a run of blanks.
    fn consume_whitespace(&mut self)
        requires
            old(self).wf(),
        ensures
            final(self).wf(),
            final(self).chars@ == old(self).chars@,
            final(self).pos as nat == skip_blanks_spec(old(self).chars@, old(self).pos as nat),
            final(self).pos >= old(self).pos,
    {
        let ghost s = self.chars@;
        let ghost i0 = self.pos as nat;
        while self.pos < self.chars.len() && (self.chars[self.pos] == ' ' || self.chars[self.pos]
            == '\t')
            invariant
                self.wf(),
                s == old(self).chars@,
                i0 == old(self).pos as nat,
                self.chars@ == s,
                i0 <= self.pos as nat,
                skip_blanks_spec(s, i0) == skip_blanks_spec(s, self.pos as nat),
            decreases s.len() - self.pos,
        {
            self.pos = self.pos + 1;
        }
    }

    /// Produces the next token, or nothing at end of input.
    pub fn next_token(&mut self) -> (r: Option<Token>)
        requires
            old(self).wf(),
        ensures
            final(self).wf(),
            final(self).chars@ == old(self).chars@,
            ({
                let sp = next_token_spec(old(self).chars@, old(self).pos as nat);
                (match r {
                    Some(t) => sp.0 == Some(t@),
                    None => sp.0 is None,
                }) && final(self).pos as nat == sp.1
            }),
            r is Some ==> final(self).pos > old(self).pos,
            r is None ==> final(self).pos == final(self).chars@.len(),
    {
        let start = self.pos;
        self.consume_whitespace();
        if self.pos >= self.chars.len() {
            return None;
        }
        if self.pos > start {
            return Some(Token::Space);
        }
        let c = self.chars[self.pos];
        if c == '\n' {
            self.pos = self.pos + 1;
            return Some(Token::NewLine);
        }
        if c == '`' {
            self.pos = self.pos + 1;
            let content = self.read_until_backtick();
            let mut v: Vec<char> = Vec::new();
            v.push('`');
            let mut k: usize = 0;
            while k < content.len()
                invariant
                    k <= content@.len(),
                    v@ == seq!['`'] + content@.take(k as int),
                decreases content@.len() - k,
            {
                v.push(content[k]);
                proof {
                    assert(content@.take(k + 1 as int) =~= content@.take(k as int).push(
                        content@[k as int],
                    ));
                    assert(seq!['`'] + content@.take(k + 1 as int) =~= (seq!['`'] + content@.take(
                        k as int,
                    )).push(content@[k as int]));
                }
                k += 1;
            }
            v.push('`');
            proof {
                assert(content@.take(content@.len() as int) =~= content@);
                assert(v@ =~= seq!['`'] + content@ + seq!['`']);
            }
            let mut w = Word::new();
            w.add_part(WordPart::Simple(string_of(&v)));
            proof {
                assert(w@ =~= seq![WordPartV::Simple(seq!['`'] + content@ + seq!['`'])]);
            }
            return Some(Token::Word(w));
        }
        let u = c as u32;
        let digit_redirect = '0' as u32 <= u && u <= '9' as u32 && self.pos + 1 < self.chars.len()
            && self.chars[self.pos + 1] == '>';
        if digit_redirect || c == '|' || c == '&' || c == '>' || c == '<' || c == ';' {
            return Some(self.read_operator());
        }
        proof {
            if is_blank(self.chars@[self.pos as int]) {
                lemma_skip_blanks_ge(self.chars@, self.pos as nat + 1);
                assert(false);
            }
            assert(!is_word_terminator(self.chars@[self.pos as int]));
        }
        Some(Token::Word(self.read_word()))
    }
}

/// Turns an input line into its token stream.  Total and deterministic: every
/// line lexes, however malformed its quoting.
pub fn lex(input: &str) -> (r: Vec<Token>)
    ensures
        tokens_view(r@) == lex_spec(input@),
{
    let mut lexer = Lexer::new(input);
    let ghost s = lexer.chars@;
    let mut tokens: Vec<Token> = Vec::new();
    proof {
        assert(tokens_view(tokens@) =~= Seq::<TokenV>::empty());
        assert(Seq::<TokenV>::empty() + lex_from_spec(s, 0) =~= lex_from_spec(s, 0));
    }
    loop
        invariant
            lexer.wf(),
            s == input@,
            lexer.chars@ == s,
            lex_spec(s) == tokens_view(tokens@) + lex_from_spec(s, lexer.pos as nat),
        decreases s.len() - lexer.pos + 1,
    {
        let ghost i = lexer.pos as nat;
        let r = lexer.next_token();
        match r {
            Some(token) => {
                let ghost tv = token@;
                tokens.push(token);
                proof {
                    assert(tokens_view(tokens@) =~= tokens_view(tokens@.drop_last()).push(tv));
                    assert(tokens_view(tokens@.drop_last()).push(tv) =~= tokens_view(
                        tokens@.drop_last(),
                    ) + seq![tv]);
                    assert(lex_from_spec(s, i) == seq![tv] + lex_from_spec(s, lexer.pos as nat));
                    assert(tokens_view(tokens@) + lex_from_spec(s, lexer.pos as nat) =~= (
                    tokens_view(tokens@.drop_last()) + seq![tv]) + lex_from_spec(
                        s,
                        lexer.pos as nat,
                    ));
                    assert((tokens_view(tokens@.drop_last()) + seq![tv]) + lex_from_spec(
                        s,
                        lexer.pos as nat,
                    ) =~= tokens_view(tokens@.drop_last()) + (seq![tv] + lex_from_spec(
                        s,
                        lexer.pos as nat,
                    )));
                }
            },
            None => {
                proof {
                    assert(lex_from_spec(s, i) =~= Seq::<TokenV>::empty());
                    assert(tokens_view(tokens@) + Seq::<TokenV>::empty() =~= tokens_view(
                        tokens@,
                    ));
                }
                return tokens;
            },
        }
    }
}

} // verus!
