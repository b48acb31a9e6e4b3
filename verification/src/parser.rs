//! The parser: a recursive-descent, precedence-climbing consumer of the token
//! stream.  Binding from loosest to tightest: `;` sequences, `&&`/`||`
//! combinators (left-associative), `|` pipelines, redirection and
//! backgrounding suffixes, bare commands.

use vstd::prelude::*;
use crate::ast::{ASTNode, AstV, RedirectMode, RedirectTarget, RedirectTargetV};
use crate::lexer::{is_digit_char, tokens_view, Operator, Token, TokenV};
use crate::text::chars_of;
use crate::word::{word_string_spec, Word, WordPartV};

verus! {

/// The word fragments of a word token; empty for any other token.
pub open spec fn tok_word(t: TokenV) -> Seq<WordPartV> {
    match t {
        TokenV::Word(w) => w,
        _ => Seq::empty(),
    }
}

/// The operator of an operator token.
pub open spec fn tok_op(t: TokenV) -> Operator {
    match t {
        TokenV::Operator(op) => op,
        _ => Operator::Pipe,
    }
}

/// The first position at or after `i` that does not hold a `Space` token.
pub open spec fn sp_spec(ts: Seq<TokenV>, i: nat) -> nat
    decreases ts.len() - i,
{
    if i < ts.len() && ts[i as int] is Space {
        sp_spec(ts, i + 1)
    } else {
        i
    }
}

/// The consecutive words from position `i` (spaces between them skipped), and
/// the position just after them.
pub open spec fn words_spec(ts: Seq<TokenV>, i: nat) -> (Seq<Seq<WordPartV>>, nat)
    decreases ts.len() - i,
{
    let j = sp_spec(ts, i);
    if i <= j && j < ts.len() && ts[j as int] is Word {
        let r = words_spec(ts, j + 1);
        (seq![tok_word(ts[j as int])] + r.0, r.1)
    } else {
        (Seq::empty(), j)
    }
}

/// An operator that opens a redirection suffix.
pub open spec fn is_redirect_op(op: Operator) -> bool {
    op == Operator::RedirectOut || op == Operator::RedirectAppend || op == Operator::RedirectError
        || op == Operator::RedirectErrorAppend || op == Operator::RedirectIn
        || op == Operator::RedirectHereDoc || op == Operator::RedirectHereStr
        || op == Operator::RedirectDup || op is RedirectOutFd || op is RedirectAppendFd
}

/// The descriptor a redirection operator rebinds: the number a digit prefix
/// carried, or the default — 1 for the output forms, 2 for the `2>` family,
/// 0 for the input forms.
pub open spec fn redirect_fd_spec(op: Operator) -> int {
    match op {
        Operator::RedirectOutFd(n) => n as int,
        Operator::RedirectAppendFd(n) => n as int,
        Operator::RedirectError => 2,
        Operator::RedirectErrorAppend => 2,
        Operator::RedirectIn => 0,
        Operator::RedirectHereDoc => 0,
        Operator::RedirectHereStr => 0,
        _ => 1,
    }
}

/// The redirection mode of each operator.
pub open spec fn redirect_mode_spec(op: Operator) -> RedirectMode {
    match op {
        Operator::RedirectAppend => RedirectMode::Append,
        Operator::RedirectErrorAppend => RedirectMode::Append,
        Operator::RedirectAppendFd(_) => RedirectMode::Append,
        Operator::RedirectIn => RedirectMode::Input,
        Operator::RedirectHereDoc => RedirectMode::HereDoc,
        Operator::RedirectHereStr => RedirectMode::HereString,
        Operator::RedirectDup => RedirectMode::DupOutput,
        _ => RedirectMode::Overwrite,
    }
}

/// The numeric value of a digit string, most significant digit first.
pub open spec fn digits_val(cs: Seq<char>) -> int
    decreases cs.len(),
{
    if cs.len() == 0 {
        0
    } else {
        digits_val(cs.drop_last()) * 10 + (cs.last() as u32 - '0' as u32)
    }
}

/// Every character is a decimal digit.
pub open spec fn all_digits(cs: Seq<char>) -> bool {
    forall|k: int| 0 <= k < cs.len() ==> is_digit_char(cs[k])
}

/// What `str::parse::<i32>` accepts: an optional sign, then digits, with the
/// value inside the 32-bit signed range.
pub open spec fn parse_i32_spec(cs: Seq<char>) -> Option<int> {
    let signed = cs.len() > 0 && (cs[0] == '+' || cs[0] == '-');
    let body = if signed {
        cs.drop_first()
    } else {
        cs
    };
    if body.len() > 0 && all_digits(body) {
        let v = if cs.len() > 0 && cs[0] == '-' {
            -digits_val(body)
        } else {
            digits_val(body)
        };
        if -0x8000_0000 <= v <= 0x7fff_ffff {
            Some(v)
        } else {
            None
        }
    } else {
        None
    }
}

/// How a redirection target word is read: here-documents and here-strings
/// carry their text; otherwise a word whose escape-processed string parses as
/// an integer names a descriptor, any other word names a file.  A descriptor
/// duplication with a non-numeric target has no reading.
pub open spec fn redirect_target_spec(op: Operator, w: Seq<WordPartV>) -> Option<
    RedirectTargetV,
> {
    if op == Operator::RedirectHereDoc {
        Some(RedirectTargetV::HereDoc(word_string_spec(w)))
    } else if op == Operator::RedirectHereStr {
        Some(RedirectTargetV::HereString(word_string_spec(w)))
    } else {
        match parse_i32_spec(word_string_spec(w)) {
            Some(n) => Some(RedirectTargetV::Descriptor(n)),
            None => if op == Operator::RedirectDup {
                None
            } else {
                Some(RedirectTargetV::File(w))
            },
        }
    }
}

/// The redirection and backgrounding suffixes following a command, folded
/// around `node` from the inside out.
pub open spec fn suffix_spec(ts: Seq<TokenV>, i: nat, node: AstV) -> (Result<AstV, Seq<char>>, nat)
    decreases ts.len() - i,
{
    let j = sp_spec(ts, i);
    if i <= j && j < ts.len() && ts[j as int] is Operator {
        let op = tok_op(ts[j as int]);
        if is_redirect_op(op) {
            let k = sp_spec(ts, j + 1);
            if j < k && k < ts.len() && ts[k as int] is Word {
                match redirect_target_spec(op, tok_word(ts[k as int])) {
                    Some(t) => suffix_spec(
                        ts,
                        k + 1,
                        AstV::Redirect {
                            command: Box::new(node),
                            fd: redirect_fd_spec(op),
                            target: t,
                            mode: redirect_mode_spec(op),
                        },
                    ),
                    None => (
                        Err("Expected filename or descriptor after redirection operator"@),
                        k,
                    ),
                }
            } else {
                (Err("Expected filename or descriptor after redirection operator"@), k)
            }
        } else if op == Operator::Background {
            suffix_spec(ts, j + 1, AstV::Background { command: Box::new(node) })
        } else {
            (Ok(node), j)
        }
    } else {
        (Ok(node), j)
    }
}

/// A bare command with its suffixes: one name word, its argument words, then
/// redirections and backgrounding.  An empty word run is an error naming what
/// stood in the command's place.
pub open spec fn command_spec(ts: Seq<TokenV>, i: nat) -> (Result<AstV, Seq<char>>, nat)
    decreases ts.len() - i,
{
    let r = words_spec(ts, i);
    let ws = r.0;
    let j = r.1;
    if ws.len() == 0 {
        if j < ts.len() && ts[j as int] is Operator {
            let op = tok_op(ts[j as int]);
            if op == Operator::Pipe {
                (Err("No command before pipe"@), j)
            } else if is_redirect_op(op) {
                (Err("No command before redirection"@), j)
            } else {
                (Err("Empty command"@), j)
            }
        } else {
            (Err("Empty command"@), j)
        }
    } else {
        if i <= j {
            suffix_spec(ts, j, AstV::Command { name: ws[0], args: ws.drop_first() })
        } else {
            (Err("Empty command"@), j)
        }
    }
}

/// A pipeline: commands joined right-nested by `|`, so the leftmost command's
/// output feeds the rest.
pub open spec fn pipeline_spec(ts: Seq<TokenV>, i: nat) -> (Result<AstV, Seq<char>>, nat)
    decreases ts.len() - i,
{
    let r = command_spec(ts, i);
    match r.0 {
        Err(e) => (Err(e), r.1),
        Ok(left) => {
            let j = sp_spec(ts, r.1);
            if i <= j && j < ts.len() && ts[j as int] is Operator && tok_op(ts[j as int])
                == Operator::Pipe {
                let rr = pipeline_spec(ts, j + 1);
                match rr.0 {
                    Err(e) => (Err(e), rr.1),
                    Ok(right) => (
                        Ok(AstV::Pipe { left: Box::new(left), right: Box::new(right) }),
                        rr.1,
                    ),
                }
            } else {
                (Ok(left), r.1)
            }
        },
    }
}

/// The `&&`/`||` chain continuing an accumulated left operand, strictly
/// left-associative: `a && b || c` reads as `(a && b) || c`.
pub open spec fn logical_more_spec(ts: Seq<TokenV>, i: nat, acc: AstV) -> (
    Result<AstV, Seq<char>>,
    nat,
)
    decreases ts.len() - i,
{
    let j = sp_spec(ts, i);
    if i <= j && j < ts.len() && ts[j as int] is Operator && (tok_op(ts[j as int]) == Operator::And
        || tok_op(ts[j as int]) == Operator::Or) {
        let rr = pipeline_spec(ts, j + 1);
        match rr.0 {
            Err(e) => (Err(e), rr.1),
            Ok(rhs) => {
                let node = if tok_op(ts[j as int]) == Operator::And {
                    AstV::LogicalAnd { left: Box::new(acc), right: Box::new(rhs) }
                } else {
                    AstV::LogicalOr { left: Box::new(acc), right: Box::new(rhs) }
                };
                if j < rr.1 && rr.1 <= ts.len() {
                    logical_more_spec(ts, rr.1, node)
                } else {
                    (Ok(node), rr.1)
                }
            },
        }
    } else {
        (Ok(acc), i)
    }
}

/// A logical tier: a pipeline, then any `&&`/`||` chain.
pub open spec fn logical_spec(ts: Seq<TokenV>, i: nat) -> (Result<AstV, Seq<char>>, nat) {
    let r = pipeline_spec(ts, i);
    match r.0 {
        Err(e) => (Err(e), r.1),
        Ok(left) => if i <= r.1 {
            logical_more_spec(ts, r.1, left)
        } else {
            (Ok(left), r.1)
        },
    }
}

/// The `;` chain continuing an accumulated left operand.  A `;` followed only
/// by spaces, a line break or nothing closes the sequence.
pub open spec fn sequence_more_spec(ts: Seq<TokenV>, i: nat, acc: AstV) -> (
    Result<AstV, Seq<char>>,
    nat,
)
    decreases ts.len() - i,
{
    let j = sp_spec(ts, i);
    if i <= j && j < ts.len() && ts[j as int] is Operator && tok_op(ts[j as int])
        == Operator::Semicolon {
        let k = sp_spec(ts, j + 1);
        if k >= ts.len() || ts[k as int] is NewLine {
            (Ok(acc), k)
        } else {
            let rr = logical_spec(ts, j + 1);
            match rr.0 {
                Err(e) => (Err(e), rr.1),
                Ok(right) => {
                    let node = AstV::Semicolon { left: Box::new(acc), right: Box::new(right) };
                    if j < rr.1 && rr.1 <= ts.len() {
                        sequence_more_spec(ts, rr.1, node)
                    } else {
                        (Ok(node), rr.1)
                    }
                },
            }
        }
    } else {
        (Ok(acc), i)
    }
}

/// A full statement: logical tiers folded left-to-right across `;`.
pub open spec fn sequence_spec(ts: Seq<TokenV>, i: nat) -> (Result<AstV, Seq<char>>, nat) {
    let r = logical_spec(ts, i);
    match r.0 {
        Err(e) => (Err(e), r.1),
        Ok(left) => if i <= r.1 {
            sequence_more_spec(ts, r.1, left)
        } else {
            (Ok(left), r.1)
        },
    }
}

/// What parsing a token stream yields: the tree of the first statement, or an
/// error for empty input and for each malformed construct.  Input after a
/// line break is ignored.
pub open spec fn parse_spec(ts: Seq<TokenV>) -> Result<AstV, Seq<char>> {
    let i = sp_spec(ts, 0);
    if i >= ts.len() || ts[i as int] is NewLine {
        Err("Empty command"@)
    } else {
        sequence_spec(ts, i).0
    }
}

/// The exec result mirrors the spec result: same case, same tree or message.
pub open spec fn result_matches(r: Result<ASTNode, String>, s: Result<AstV, Seq<char>>) -> bool {
    match r {
        Ok(node) => s matches Ok(v) && node@ == v,
        Err(m) => s matches Err(e) && m@ == e,
    }
}

/// A nonempty digit string has a nonnegative value.
proof fn lemma_digits_val_nonneg(cs: Seq<char>)
    requires
        all_digits(cs),
    ensures
        digits_val(cs) >= 0,
    decreases cs.len(),
{
    if cs.len() > 0 {
        assert(all_digits(cs.drop_last()));
        lemma_digits_val_nonneg(cs.drop_last());
    }
}

/// Dropping trailing digits never increases the value.
proof fn lemma_digits_prefix_le(cs: Seq<char>, j: int)
    requires
        all_digits(cs),
        0 <= j <= cs.len(),
    ensures
        digits_val(cs.take(j)) <= digits_val(cs),
    decreases cs.len(),
{
    if j < cs.len() {
        assert(cs.drop_last().take(j) =~= cs.take(j));
        assert(all_digits(cs.drop_last()));
        lemma_digits_prefix_le(cs.drop_last(), j);
        lemma_digits_val_nonneg(cs.drop_last());
    } else {
        assert(cs.take(j) =~= cs);
    }
}

/// Reads an optionally signed decimal integer the way `str::parse::<i32>`
/// does: the whole string must be digits after the sign, and the value must
/// fit the 32-bit signed range.
pub fn parse_i32(chars: &Vec<char>) -> (r: Option<i32>)
    ensures
        ({
            let sp = parse_i32_spec(chars@);
            match r {
                Some(v) => sp matches Some(n) && v as int == n,
                None => sp is None,
            }
        }),
{
    let n = chars.len();
    if n == 0 {
        return None;
    }
    let c0 = chars[0];
    let neg = c0 == '-';
    let signed = c0 == '-' || c0 == '+';
    let start: usize = if signed {
        1
    } else {
        0
    };
    let ghost body = if signed {
        chars@.drop_first()
    } else {
        chars@
    };
    if start >= n {
        return None;
    }
    let mut acc: u64 = 0;
    let mut i: usize = start;
    proof {
        assert(body.take(0) =~= Seq::<char>::empty());
    }
    while i < n
        invariant
            start <= i <= n,
            n == chars@.len(),
            start == (if signed {
                1int
            } else {
                0int
            }),
            signed == (chars@.len() > 0 && (chars@[0] == '+' || chars@[0] == '-')),
            neg == (chars@.len() > 0 && chars@[0] == '-'),
            body == (if signed {
                chars@.drop_first()
            } else {
                chars@
            }),
            body.len() == n - start,
            all_digits(body.take(i - start)),
            acc as int == digits_val(body.take(i - start)),
            acc <= 0x8000_0000,
        decreases n - i,
    {
        let c = chars[i];
        let u = c as u32;
        proof {
            assert(body[(i - start) as int] == chars@[i as int]);
        }
        if u < '0' as u32 || u > '9' as u32 {
            proof {
                assert(!is_digit_char(body[(i - start) as int]));
            }
            return None;
        }
        let d: u64 = (u - '0' as u32) as u64;
        let ghost prev = body.take((i - start) as int);
        acc = acc * 10 + d;
        proof {
            assert(body.take((i + 1 - start) as int).drop_last() =~= prev);
            assert(body.take((i + 1 - start) as int).last() == body[(i - start) as int]);
        }
        if acc > 0x8000_0000 {
            proof {
                if parse_i32_spec(chars@) is Some {
                    assert(all_digits(body));
                    lemma_digits_prefix_le(body, (i + 1 - start) as int);
                    assert(false);
                }
            }
            return None;
        }
        i += 1;
    }
    proof {
        assert(body.take((n - start) as int) =~= body);
    }
    if neg {
        let v: i64 = -(acc as i64);
        Some(v as i32)
    } else {
        if acc > 0x7fff_ffff {
            return None;
        }
        Some(acc as i32)
    }
}

/// The first position at or after `pos` that does not hold a `Space` token.
fn skip_sp(tokens: &[Token], pos: usize) -> (r: usize)
    requires
        pos <= tokens@.len(),
    ensures
        r as nat == sp_spec(tokens_view(tokens@), pos as nat),
        pos <= r <= tokens@.len(),
{
    let ghost ts = tokens_view(tokens@);
    let mut i = pos;
    while i < tokens.len() && matches!(&tokens[i], Token::Space)
        invariant
            pos <= i <= tokens@.len(),
            ts == tokens_view(tokens@),
            sp_spec(ts, pos as nat) == sp_spec(ts, i as nat),
        decreases tokens@.len() - i,
    {
        i += 1;
    }
    i
}

/// Collects the consecutive words from `pos`, cloned out of the token slice.
fn parse_words(tokens: &[Token], pos: usize) -> (r: (Vec<Word>, usize))
    requires
        pos <= tokens@.len(),
    ensures
        ({
            let sp = words_spec(tokens_view(tokens@), pos as nat);
            r.0@.map_values(|w: Word| w@) == sp.0 && r.1 as nat == sp.1
        }),
        pos <= r.1 <= tokens@.len(),
    decreases tokens@.len() - pos,
{
    let ghost ts = tokens_view(tokens@);
    let j = skip_sp(tokens, pos);
    if j < tokens.len() {
        if let Token::Word(w) = &tokens[j] {
            let (mut rest, end) = parse_words(tokens, j + 1);
            let ghost rest_views = rest@.map_values(|w: Word| w@);
            let dup = w.duplicate();
            rest.insert(0, dup);
            proof {
                assert(rest@.map_values(|w: Word| w@) =~= seq![tok_word(ts[j as int])]
                    + rest_views);
            }
            return (rest, end);
        }
    }
    let empty: Vec<Word> = Vec::new();
    proof {
        assert(empty@.map_values(|w: Word| w@) =~= Seq::<Seq<WordPartV>>::empty());
    }
    (empty, j)
}

/// Whether this operator opens a redirection suffix.
fn is_redirect(op: Operator) -> (r: bool)
    ensures
        r == is_redirect_op(op),
{
    op == Operator::RedirectOut || op == Operator::RedirectAppend || op == Operator::RedirectError
        || op == Operator::RedirectErrorAppend || op == Operator::RedirectIn
        || op == Operator::RedirectHereDoc || op == Operator::RedirectHereStr
        || op == Operator::RedirectDup || matches!(op, Operator::RedirectOutFd(_)) || matches!(
        op,
        Operator::RedirectAppendFd(_),
    )
}

/// The descriptor a redirection operator rebinds.
fn redirect_fd(op: Operator) -> (r: i32)
    ensures
        r as int == redirect_fd_spec(op),
{
    match op {
        Operator::RedirectOutFd(n) => n,
        Operator::RedirectAppendFd(n) => n,
        Operator::RedirectError => 2,
        Operator::RedirectErrorAppend => 2,
        Operator::RedirectIn => 0,
        Operator::RedirectHereDoc => 0,
        Operator::RedirectHereStr => 0,
        _ => 1,
    }
}

/// The redirection mode of an operator.
fn redirect_mode(op: Operator) -> (r: RedirectMode)
    ensures
        r == redirect_mode_spec(op),
{
    match op {
        Operator::RedirectAppend => RedirectMode::Append,
        Operator::RedirectErrorAppend => RedirectMode::Append,
        Operator::RedirectAppendFd(_) => RedirectMode::Append,
        Operator::RedirectIn => RedirectMode::Input,
        Operator::RedirectHereDoc => RedirectMode::HereDoc,
        Operator::RedirectHereStr => RedirectMode::HereString,
        Operator::RedirectDup => RedirectMode::DupOutput,
        _ => RedirectMode::Overwrite,
    }
}

/// Reads a redirection target word: here-document and here-string text is
/// taken as written; otherwise an integer names a descriptor and any other
/// word names a file, except that descriptor duplication demands an integer.
fn make_target(op: Operator, w: &Word) -> (r: Option<RedirectTarget>)
    ensures
        ({
            let sp = redirect_target_spec(op, w@);
            match r {
                Some(t) => sp matches Some(tv) && t@ == tv,
                None => sp is None,
            }
        }),
{
    if op == Operator::RedirectHereDoc {
        return Some(RedirectTarget::HereDoc(w.to_string()));
    }
    if op == Operator::RedirectHereStr {
        return Some(RedirectTarget::HereString(w.to_string()));
    }
    let s = w.to_string();
    let cs = chars_of(s.as_str());
    match parse_i32(&cs) {
        Some(n) => Some(RedirectTarget::Descriptor(n)),
        None => if op == Operator::RedirectDup {
            None
        } else {
            Some(RedirectTarget::File(w.duplicate()))
        },
    }
}

/// Consumes the redirection and backgrounding suffixes after a command,
/// wrapping `node` from the inside out.
fn parse_suffix(tokens: &[Token], pos: usize, node: ASTNode) -> (r: (
    Result<ASTNode, String>,
    usize,
))
    requires
        pos <= tokens@.len(),
    ensures
        ({
            let sp = suffix_spec(tokens_view(tokens@), pos as nat, node@);
            result_matches(r.0, sp.0) && r.1 as nat == sp.1
        }),
        pos <= r.1 <= tokens@.len(),
    decreases tokens@.len() - pos,
{
    let ghost ts = tokens_view(tokens@);
    let j = skip_sp(tokens, pos);
    if j >= tokens.len() {
        return (Ok(node), j);
    }
    let op: Operator = match &tokens[j] {
        Token::Operator(op) => *op,
        _ => { return (Ok(node), j) },
    };
    if is_redirect(op) {
        let k = skip_sp(tokens, j + 1);
        if k < tokens.len() {
            if let Token::Word(w) = &tokens[k] {
                match make_target(op, w) {
                    Some(target) => {
                        let wrapped = ASTNode::Redirect {
                            command: Box::new(node),
                            fd: redirect_fd(op),
                            target,
                            mode: redirect_mode(op),
                        };
                        return parse_suffix(tokens, k + 1, wrapped);
                    },
                    None => {
                        return (
                            Err(
                                String::from_str(
                                    "Expected filename or descriptor after redirection operator",
                                ),
                            ),
                            k,
                        );
                    },
                }
            }
        }
        return (
            Err(String::from_str("Expected filename or descriptor after redirection operator")),
            k,
        );
    }
    if op == Operator::Background {
        return parse_suffix(tokens, j + 1, ASTNode::Background { command: Box::new(node) });
    }
    (Ok(node), j)
}

/// Parses one bare command — a name word, argument words, then redirection
/// and backgrounding suffixes.  An empty word run is an error naming what
/// stood in the command's place.
pub fn parse_command(tokens: &[Token], pos: usize) -> (r: (Result<ASTNode, String>, usize))
    requires
        pos <= tokens@.len(),
    ensures
        ({
            let sp = command_spec(tokens_view(tokens@), pos as nat);
            result_matches(r.0, sp.0) && r.1 as nat == sp.1
        }),
        pos <= r.1 <= tokens@.len(),
{
    let ghost ts = tokens_view(tokens@);
    let (mut words, j) = parse_words(tokens, pos);
    let ghost ws = words@.map_values(|w: Word| w@);
    if words.len() == 0 {
        if j < tokens.len() {
            if let Token::Operator(op) = &tokens[j] {
                let o = *op;
                if o == Operator::Pipe {
                    return (Err(String::from_str("No command before pipe")), j);
                }
                if is_redirect(o) {
                    return (Err(String::from_str("No command before redirection")), j);
                }
            }
        }
        return (Err(String::from_str("Empty command")), j);
    }
    let name = words.remove(0);
    proof {
        assert(words@.map_values(|w: Word| w@) =~= ws.drop_first());
    }
    let node = ASTNode::Command { name, args: words };
    parse_suffix(tokens, j, node)
}

/// Parses a pipeline: commands joined right-nested across `|`.
fn parse_pipeline(tokens: &[Token], pos: usize) -> (r: (Result<ASTNode, String>, usize))
    requires
        pos <= tokens@.len(),
    ensures
        ({
            let sp = pipeline_spec(tokens_view(tokens@), pos as nat);
            result_matches(r.0, sp.0) && r.1 as nat == sp.1
        }),
        pos <= r.1 <= tokens@.len(),
    decreases tokens@.len() - pos,
{
    let ghost ts = tokens_view(tokens@);
    let (r0, p1) = parse_command(tokens, pos);
    match r0 {
        Err(e) => (Err(e), p1),
        Ok(left) => {
            let j = skip_sp(tokens, p1);
            if j < tokens.len() && matches!(&tokens[j], Token::Operator(Operator::Pipe)) {
                let (rr, p2) = parse_pipeline(tokens, j + 1);
                match rr {
                    Err(e) => (Err(e), p2),
                    Ok(right) => (
                        Ok(ASTNode::Pipe { left: Box::new(left), right: Box::new(right) }),
                        p2,
                    ),
                }
            } else {
                (Ok(left), p1)
            }
        },
    }
}

/// Folds `&&`/`||` continuations onto an accumulated left operand.
fn parse_logical_more(tokens: &[Token], pos: usize, acc: ASTNode) -> (r: (
    Result<ASTNode, String>,
    usize,
))
    requires
        pos <= tokens@.len(),
    ensures
        ({
            let sp = logical_more_spec(tokens_view(tokens@), pos as nat, acc@);
            result_matches(r.0, sp.0) && r.1 as nat == sp.1
        }),
        pos <= r.1 <= tokens@.len(),
    decreases tokens@.len() - pos,
{
    let ghost ts = tokens_view(tokens@);
    let j = skip_sp(tokens, pos);
    if j < tokens.len() {
        let is_and = matches!(&tokens[j], Token::Operator(Operator::And));
        let is_or = matches!(&tokens[j], Token::Operator(Operator::Or));
        if is_and || is_or {
            let (rr, p2) = parse_pipeline(tokens, j + 1);
            match rr {
                Err(e) => {
                    return (Err(e), p2);
                },
                Ok(rhs) => {
                    let node = if is_and {
                        ASTNode::LogicalAnd { left: Box::new(acc), right: Box::new(rhs) }
                    } else {
                        ASTNode::LogicalOr { left: Box::new(acc), right: Box::new(rhs) }
                    };
                    return parse_logical_more(tokens, p2, node);
                },
            }
        }
    }
    (Ok(acc), pos)
}

/// Parses a logical tier: a pipeline and its `&&`/`||` chain.
fn parse_logical(tokens: &[Token], pos: usize) -> (r: (Result<ASTNode, String>, usize))
    requires
        pos <= tokens@.len(),
    ensures
        ({
            let sp = logical_spec(tokens_view(tokens@), pos as nat);
            result_matches(r.0, sp.0) && r.1 as nat == sp.1
        }),
        pos <= r.1 <= tokens@.len(),
{
    let (r0, p1) = parse_pipeline(tokens, pos);
    match r0 {
        Err(e) => (Err(e), p1),
        Ok(left) => parse_logical_more(tokens, p1, left),
    }
}

/// Folds `;` continuations onto an accumulated left operand.  A trailing `;`
/// before nothing or a line break closes the statement.
fn parse_sequence_more(tokens: &[Token], pos: usize, acc: ASTNode) -> (r: (
    Result<ASTNode, String>,
    usize,
))
    requires
        pos <= tokens@.len(),
    ensures
        ({
            let sp = sequence_more_spec(tokens_view(tokens@), pos as nat, acc@);
            result_matches(r.0, sp.0) && r.1 as nat == sp.1
        }),
        pos <= r.1 <= tokens@.len(),
    decreases tokens@.len() - pos,
{
    let ghost ts = tokens_view(tokens@);
    let j = skip_sp(tokens, pos);
    if j < tokens.len() && matches!(&tokens[j], Token::Operator(Operator::Semicolon)) {
        let k = skip_sp(tokens, j + 1);
        if k >= tokens.len() || matches!(&tokens[k], Token::NewLine) {
            return (Ok(acc), k);
        }
        let (rr, p2) = parse_logical(tokens, j + 1);
        match rr {
            Err(e) => {
                return (Err(e), p2);
            },
            Ok(right) => {
                let node = ASTNode::Semicolon { left: Box::new(acc), right: Box::new(right) };
                return parse_sequence_more(tokens, p2, node);
            },
        }
    }
    (Ok(acc), pos)
}

/// Parses a full statement: logical tiers folded left-to-right across `;`.
fn parse_sequence(tokens: &[Token], pos: usize) -> (r: (Result<ASTNode, String>, usize))
    requires
        pos <= tokens@.len(),
    ensures
        ({
            let sp = sequence_spec(tokens_view(tokens@), pos as nat);
            result_matches(r.0, sp.0) && r.1 as nat == sp.1
        }),
        pos <= r.1 <= tokens@.len(),
{
    let (r0, p1) = parse_pipeline(tokens, pos);
    let (r1, p2) = match r0 {
        Err(e) => (Err(e), p1),
        Ok(left) => parse_logical_more(tokens, p1, left),
    };
    match r1 {
        Err(e) => (Err(e), p2),
        Ok(left) => parse_sequence_more(tokens, p2, left),
    }
}

/// Turns a token stream into the syntax tree of its first statement.  Fails
/// exactly on empty input and on each malformed construct: a pipe or a
/// redirection with no command before it, a redirection with no target after
/// it, a pipe or `&&`/`||`/`;` with nothing parseable after it.
pub fn parse(tokens: &[Token]) -> (r: Result<ASTNode, String>)
    ensures
        result_matches(r, parse_spec(tokens_view(tokens@))),
{
    let i = skip_sp(tokens, 0);
    if i >= tokens.len() {
        return Err(String::from_str("Empty command"));
    }
    if matches!(&tokens[i], Token::NewLine) {
        return Err(String::from_str("Empty command"));
    }
    let (r, _end) = parse_sequence(tokens, i);
    r
}

} // verus!
