//! Round-trip idempotence: re-lexing and re-parsing the textual form of a
//! simple command — words of plain characters joined by single spaces —
//! reproduces a command tree with the same name and arguments.

use vstd::prelude::*;
use crate::ast::AstV;
use crate::lexer::{
    is_blank, is_digit_char, is_operator_char, is_word_terminator, lex_from_spec, lex_spec,
    next_token_spec, read_word_spec, skip_blanks_spec, TokenV,
};
use crate::parser::{
    command_spec, logical_more_spec, logical_spec, parse_spec, pipeline_spec, sequence_more_spec,
    sequence_spec, sp_spec, suffix_spec, tok_word, words_spec,
};
use crate::types::QuoteType;
use crate::word::WordPartV;

verus! {

/// A plain character: the lexer copies it into a word unchanged — not a
/// blank, a line break, an operator character, a backtick, a backslash or a
/// quote.
pub open spec fn plain_char(c: char) -> bool {
    !is_word_terminator(c) && c != '\\' && c != '\'' && c != '"'
}

/// A nonempty word of plain characters.
pub open spec fn plain_word(w: Seq<char>) -> bool {
    w.len() >= 1 && forall|k: int| 0 <= k < w.len() ==> plain_char(w[k])
}

/// A list of plain words.
pub open spec fn plain_words(ws: Seq<Seq<char>>) -> bool {
    forall|i: int| 0 <= i < ws.len() ==> plain_word(#[trigger] ws[i])
}

/// The textual form of a simple command: its words joined by single spaces.
pub open spec fn unparse_spec(ws: Seq<Seq<char>>) -> Seq<char>
    decreases ws.len(),
{
    if ws.len() == 0 {
        Seq::empty()
    } else if ws.len() == 1 {
        ws[0]
    } else {
        ws[0] + seq![' '] + unparse_spec(ws.drop_first())
    }
}

/// The token a plain word lexes to.
pub open spec fn word_token(w: Seq<char>) -> TokenV {
    TokenV::Word(seq![WordPartV::Simple(w)])
}

/// The token stream of a simple command: word tokens separated by single
/// spaces.
pub open spec fn simple_tokens(ws: Seq<Seq<char>>) -> Seq<TokenV>
    decreases ws.len(),
{
    if ws.len() == 0 {
        Seq::empty()
    } else if ws.len() == 1 {
        seq![word_token(ws[0])]
    } else {
        seq![word_token(ws[0]), TokenV::Space] + simple_tokens(ws.drop_first())
    }
}

/// Reading a run of plain characters closed by a terminator or the end of
/// input yields exactly that run as one unquoted segment.
proof fn lemma_read_plain_word(s: Seq<char>, i: nat, j: nat, seg: Seq<char>, parts: Seq<WordPartV>)
    requires
        i <= j <= s.len(),
        forall|k: int| i <= k < j ==> plain_char(s[k]),
        j == s.len() || is_word_terminator(s[j as int]),
    ensures
        read_word_spec(s, i, QuoteType::Unquoted, seg, parts) == (
            crate::lexer::finish_word(QuoteType::Unquoted, seg + s.subrange(i as int, j as int), parts),
            j,
        ),
    decreases j - i,
{
    if i == j {
        assert(seg + s.subrange(i as int, j as int) =~= seg);
    } else {
        let c = s[i as int];
        assert(plain_char(c));
        lemma_read_plain_word(s, i + 1, j, seg.push(c), parts);
        assert(seg.push(c) + s.subrange(i as int + 1, j as int) =~= seg + s.subrange(
            i as int,
            j as int,
        ));
    }
}

/// Lexing the textual form of a simple command from position `p` yields its
/// token stream.
proof fn lemma_lex_simple(s: Seq<char>, p: nat, ws: Seq<Seq<char>>)
    requires
        ws.len() >= 1,
        plain_words(ws),
        p + unparse_spec(ws).len() == s.len(),
        s.subrange(p as int, s.len() as int) == unparse_spec(ws),
    ensures
        lex_from_spec(s, p) == simple_tokens(ws),
    decreases ws.len(),
{
    let w = ws[0];
    assert(plain_word(w));
    let q: nat = (p + w.len()) as nat;
    let u = unparse_spec(ws);
    // the word's characters stand at s[p..q]
    if ws.len() == 1 {
        assert(u == w);
    } else {
        assert(u == w + seq![' '] + unparse_spec(ws.drop_first()));
    }
    assert forall|k: int| p <= k < q implies plain_char(s[k]) by {
        assert(s[k] == s.subrange(p as int, s.len() as int)[k - p]);
        assert(u[k - p] == w[k - p]);
    }
    assert(s.subrange(p as int, q as int) =~= w);
    // what closes the word: the end of input, or the separating space
    if ws.len() > 1 {
        assert(s[q as int] == s.subrange(p as int, s.len() as int)[q - p]);
        assert(u[q - p] == ' ');
        assert(s[q as int] == ' ');
    } else {
        assert(q == s.len());
    }
    // the next token is the word itself
    assert(skip_blanks_spec(s, p) == p);
    let c = s[p as int];
    assert(plain_char(c));
    if p + 1 < s.len() && is_digit_char(c) {
        // the character after a digit is plain or the separating space
        if p + 1 < q {
            assert(plain_char(s[p as int + 1]));
            assert(s[p as int + 1] != '>');
        } else {
            assert(s[p as int + 1] == ' ');
        }
    }
    lemma_read_plain_word(s, p, q, Seq::empty(), Seq::empty());
    assert(Seq::<char>::empty() + s.subrange(p as int, q as int) =~= w);
    assert(crate::lexer::finish_word(QuoteType::Unquoted, w, Seq::empty()) =~= seq![
        WordPartV::Simple(w),
    ]);
    assert(next_token_spec(s, p) == (Some(word_token(w)), q));
    if ws.len() == 1 {
        assert(lex_from_spec(s, q) == Seq::<TokenV>::empty());
        assert(lex_from_spec(s, p) == seq![word_token(w)] + Seq::<TokenV>::empty());
        assert(seq![word_token(w)] + Seq::<TokenV>::empty() =~= simple_tokens(ws));
    } else {
        let rest = ws.drop_first();
        assert(plain_words(rest)) by {
            assert(forall|i: int|
                0 <= i < rest.len() ==> rest[i] == ws[i + 1] && plain_word(#[trigger] rest[i]));
        }
        assert(rest.len() >= 1);
        assert(plain_word(rest[0]));
        // the rest of the text is the unparse of the remaining words
        assert((q + 1) + unparse_spec(rest).len() == s.len());
        assert(s.subrange(q as int + 1, s.len() as int) =~= unparse_spec(rest)) by {
            assert forall|k: int| 0 <= k < s.len() - q - 1 implies s.subrange(
                q as int + 1,
                s.len() as int,
            )[k] == unparse_spec(rest)[k] by {
                assert(s.subrange(q as int + 1, s.len() as int)[k] == s[q + 1 + k]);
                assert(s[q + 1 + k] == s.subrange(p as int, s.len() as int)[q + 1 + k - p]);
                assert(u[q + 1 + k - p] == unparse_spec(rest)[k]);
            }
        }
        // a single space token separates the words
        assert(unparse_spec(rest).len() >= rest[0].len());
        assert(q + 1 < s.len());
        assert(s[q as int + 1] == s.subrange(q as int + 1, s.len() as int)[0]);
        assert(unparse_spec(rest)[0] == rest[0][0]) by {
            if rest.len() == 1 {
            } else {
                assert(unparse_spec(rest) == rest[0] + seq![' '] + unparse_spec(rest.drop_first()));
            }
        }
        assert(plain_char(s[q as int + 1]));
        assert(!is_blank(s[q as int + 1]));
        assert(skip_blanks_spec(s, q) == skip_blanks_spec(s, (q + 1) as nat));
        assert(skip_blanks_spec(s, (q + 1) as nat) == q + 1);
        assert(next_token_spec(s, q) == (Some(TokenV::Space), (q + 1) as nat));
        assert(lex_from_spec(s, q) == seq![TokenV::Space] + lex_from_spec(s, (q + 1) as nat));
        lemma_lex_simple(s, (q + 1) as nat, rest);
        assert(lex_from_spec(s, p) == seq![word_token(w)] + (seq![TokenV::Space] + simple_tokens(
            rest,
        )));
        assert(seq![word_token(w)] + (seq![TokenV::Space] + simple_tokens(rest)) =~= seq![
            word_token(w),
            TokenV::Space,
        ] + simple_tokens(rest));
    }
}

/// Gathering words over a simple token stream from position `p` collects the
/// remaining words and ends at the stream's end.
proof fn lemma_words_simple(ts: Seq<TokenV>, p: nat, ws: Seq<Seq<char>>)
    requires
        p + simple_tokens(ws).len() == ts.len(),
        ts.subrange(p as int, ts.len() as int) == simple_tokens(ws),
    ensures
        words_spec(ts, p) == (
            ws.map_values(|w: Seq<char>| seq![WordPartV::Simple(w)]),
            ts.len() as nat,
        ),
    decreases ws.len(),
{
    let st = simple_tokens(ws);
    if ws.len() == 0 {
        assert(p == ts.len());
        assert(sp_spec(ts, p) == p);
        assert(words_spec(ts, p) == (Seq::<Seq<WordPartV>>::empty(), p));
        assert(ws.map_values(|w: Seq<char>| seq![WordPartV::Simple(w)]) =~= Seq::<
            Seq<WordPartV>,
        >::empty());
    } else {
        assert(ts[p as int] == ts.subrange(p as int, ts.len() as int)[0]);
        assert(st[0] == word_token(ws[0]));
        assert(ts[p as int] == word_token(ws[0]));
        assert(sp_spec(ts, p) == p);
        assert(tok_word(ts[p as int]) == seq![WordPartV::Simple(ws[0])]);
        if ws.len() == 1 {
            assert(p + 1 == ts.len());
            assert(sp_spec(ts, (p + 1) as nat) == p + 1);
            assert(words_spec(ts, (p + 1) as nat) == (Seq::<Seq<WordPartV>>::empty(), (p
                + 1) as nat));
            assert(words_spec(ts, p) == (
                seq![seq![WordPartV::Simple(ws[0])]] + Seq::<Seq<WordPartV>>::empty(),
                (p + 1) as nat,
            ));
            assert(seq![seq![WordPartV::Simple(ws[0])]] + Seq::<Seq<WordPartV>>::empty()
                =~= ws.map_values(|w: Seq<char>| seq![WordPartV::Simple(w)]));
        } else {
            let rest = ws.drop_first();
            assert(st == seq![word_token(ws[0]), TokenV::Space] + simple_tokens(rest));
            assert(ts[p as int + 1] == ts.subrange(p as int, ts.len() as int)[1]);
            assert(st[1] == TokenV::Space);
            assert((p + 2) + simple_tokens(rest).len() == ts.len());
            assert(ts.subrange(p as int + 2, ts.len() as int) =~= simple_tokens(rest)) by {
                assert forall|k: int| 0 <= k < ts.len() - p - 2 implies ts.subrange(
                    p as int + 2,
                    ts.len() as int,
                )[k] == simple_tokens(rest)[k] by {
                    assert(ts.subrange(p as int + 2, ts.len() as int)[k] == ts[p + 2 + k]);
                    assert(ts[p + 2 + k] == ts.subrange(p as int, ts.len() as int)[2 + k]);
                    assert(st[2 + k] == simple_tokens(rest)[k]);
                }
            }
            lemma_words_simple(ts, (p + 2) as nat, rest);
            // the next word stands just past the space
            assert(rest.len() >= 1);
            assert(simple_tokens(rest).len() >= 1);
            assert(p + 2 < ts.len());
            assert(ts[p as int + 2] == ts.subrange(p as int + 2, ts.len() as int)[0]);
            assert(simple_tokens(rest)[0] == word_token(rest[0])) by {
                if rest.len() == 1 {
                } else {
                    assert(simple_tokens(rest) == seq![word_token(rest[0]), TokenV::Space]
                        + simple_tokens(rest.drop_first()));
                }
            }
            assert(!(ts[p as int + 2] is Space));
            assert(sp_spec(ts, (p + 2) as nat) == p + 2);
            assert(sp_spec(ts, (p + 1) as nat) == p + 2);
            assert(words_spec(ts, (p + 1) as nat) == words_spec(ts, (p + 2) as nat)) by {
                assert(ts[p as int + 2] is Word);
            }
            assert(words_spec(ts, p) == (
                seq![seq![WordPartV::Simple(ws[0])]] + rest.map_values(
                    |w: Seq<char>| seq![WordPartV::Simple(w)],
                ),
                ts.len() as nat,
            ));
            assert(seq![seq![WordPartV::Simple(ws[0])]] + rest.map_values(
                |w: Seq<char>| seq![WordPartV::Simple(w)],
            ) =~= ws.map_values(|w: Seq<char>| seq![WordPartV::Simple(w)]));
        }
    }
}

/// Law: round-trip idempotence.  For a simple command — nonempty words of
/// plain characters — lexing and parsing its textual form reproduces a
/// command node with the same name and argument content.
pub proof fn lemma_roundtrip_simple_command(ws: Seq<Seq<char>>)
    requires
        ws.len() >= 1,
        plain_words(ws),
    ensures
        parse_spec(lex_spec(unparse_spec(ws))) == Ok::<AstV, Seq<char>>(
            AstV::Command {
                name: seq![WordPartV::Simple(ws[0])],
                args: ws.drop_first().map_values(|w: Seq<char>| seq![WordPartV::Simple(w)]),
            },
        ),
{
    let s = unparse_spec(ws);
    assert(s.subrange(0, s.len() as int) =~= s);
    lemma_lex_simple(s, 0, ws);
    let ts = simple_tokens(ws);
    assert(lex_spec(s) == ts);
    assert(ts.subrange(0, ts.len() as int) =~= ts);
    lemma_words_simple(ts, 0, ws);
    let wsv = ws.map_values(|w: Seq<char>| seq![WordPartV::Simple(w)]);
    let n = ts.len() as nat;
    let node = AstV::Command { name: wsv[0], args: wsv.drop_first() };
    // the suffix loop finds nothing after the words
    assert(sp_spec(ts, n) == n);
    assert(suffix_spec(ts, n, node) == (Ok::<AstV, Seq<char>>(node), n));
    assert(wsv.len() == ws.len());
    assert(command_spec(ts, 0) == (Ok::<AstV, Seq<char>>(node), n));
    assert(pipeline_spec(ts, 0) == (Ok::<AstV, Seq<char>>(node), n));
    assert(logical_more_spec(ts, n, node) == (Ok::<AstV, Seq<char>>(node), n));
    assert(logical_spec(ts, 0) == (Ok::<AstV, Seq<char>>(node), n));
    assert(sequence_more_spec(ts, n, node) == (Ok::<AstV, Seq<char>>(node), n));
    assert(sequence_spec(ts, 0) == (Ok::<AstV, Seq<char>>(node), n));
    // the stream neither is empty nor starts with a line break
    assert(ts.len() >= 1);
    assert(ts[0] == word_token(ws[0])) by {
        if ws.len() > 1 {
            assert(ts == seq![word_token(ws[0]), TokenV::Space] + simple_tokens(ws.drop_first()));
        }
    }
    assert(sp_spec(ts, 0) == 0);
    assert(parse_spec(ts) == Ok::<AstV, Seq<char>>(node));
    assert(wsv[0] == seq![WordPartV::Simple(ws[0])]);
    assert(wsv.drop_first() =~= ws.drop_first().map_values(
        |w: Seq<char>| seq![WordPartV::Simple(w)],
    ));
}

} // verus!
