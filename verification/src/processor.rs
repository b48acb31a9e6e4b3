//! Mode-directed text cleanup: quote stripping and escape handling tuned to
//! whether the text names a command, stands as an argument, is a path, or
//! must stay literal.

use vstd::prelude::*;
use crate::text::{chars_of, string_of};

verus! {

/// What the text is for, which decides how quotes and escapes are treated.
#[derive(Debug, Clone, Copy, PartialEq, Eq, Structural)]
pub enum ProcessingMode {
    /// A command name: quotes are kept, escaped quotes lose their backslash.
    Command,
    /// An argument: outer quotes are stripped and escapes are applied.
    Argument,
    /// A file path: quotes are dropped, slashes and dots kept.
    Path,
    /// Literal text: quotes are kept.
    Literal,
}

/// An argument's outer quotes, stripped when they enclose the whole text.
pub open spec fn strip_outer_quotes(s: Seq<char>, mode: ProcessingMode) -> Seq<char> {
    if mode == ProcessingMode::Argument && s.len() >= 2 && ((s[0] == '\'' && s.last() == '\'') || (
    s[0] == '"' && s.last() == '"')) {
        s.subrange(1, s.len() - 1)
    } else {
        s
    }
}

/// Whether a quote character is echoed in this mode.
pub open spec fn keeps_quotes(mode: ProcessingMode) -> bool {
    mode == ProcessingMode::Command || mode == ProcessingMode::Literal
}

/// The cleanup state machine from position `i`: `sq`/`dq` say whether the
/// scan stands inside single or double quotes.  Quote characters toggle the
/// state and are echoed only in quote-keeping modes; a backslash resolves
/// C-style pairs, keeps escaped quotes (with their backslash outside command
/// mode), and makes anything else literal; all other characters are copied.
pub open spec fn process_text_from(
    s: Seq<char>,
    i: nat,
    sq: bool,
    dq: bool,
    mode: ProcessingMode,
) -> Seq<char>
    decreases s.len() - i,
{
    if i >= s.len() {
        Seq::empty()
    } else {
        let c = s[i as int];
        if c == '\'' && !sq && !dq {
            let keep: Seq<char> = if keeps_quotes(mode) {
                seq![c]
            } else {
                Seq::empty()
            };
            keep + process_text_from(s, i + 1, true, dq, mode)
        } else if c == '\'' && sq && !dq {
            let keep: Seq<char> = if keeps_quotes(mode) {
                seq![c]
            } else {
                Seq::empty()
            };
            keep + process_text_from(s, i + 1, false, dq, mode)
        } else if c == '"' && !sq && !dq {
            let keep: Seq<char> = if keeps_quotes(mode) {
                seq![c]
            } else {
                Seq::empty()
            };
            keep + process_text_from(s, i + 1, sq, true, mode)
        } else if c == '"' && !sq && dq {
            let keep: Seq<char> = if keeps_quotes(mode) {
                seq![c]
            } else {
                Seq::empty()
            };
            keep + process_text_from(s, i + 1, sq, false, mode)
        } else if c == '\\' {
            if i + 1 < s.len() {
                let d = s[i as int + 1];
                let head: Seq<char> = if d == '\'' || d == '"' {
                    if mode == ProcessingMode::Command {
                        seq![d]
                    } else {
                        seq!['\\', d]
                    }
                } else if d == 'n' {
                    seq!['\n']
                } else if d == 't' {
                    seq!['\t']
                } else if d == 'r' {
                    seq!['\r']
                } else {
                    seq![d]
                };
                head + process_text_from(s, i + 2, sq, dq, mode)
            } else {
                Seq::empty()
            }
        } else {
            seq![c] + process_text_from(s, i + 1, sq, dq, mode)
        }
    }
}

/// The cleaned-up text: outer argument quotes stripped, then the state
/// machine run over the rest.
pub open spec fn process_text_spec(s: Seq<char>, mode: ProcessingMode) -> Seq<char> {
    process_text_from(strip_outer_quotes(s, mode), 0, false, false, mode)
}

/// The recursive worker behind [`process_text`].
fn process_from(chars: &Vec<char>, pos: usize, sq: bool, dq: bool, mode: ProcessingMode) -> (r:
    Vec<char>)
    requires
        pos <= chars@.len(),
    ensures
        r@ == process_text_from(chars@, pos as nat, sq, dq, mode),
    decreases chars@.len() - pos,
{
    if pos >= chars.len() {
        let empty: Vec<char> = Vec::new();
        return empty;
    }
    let c = chars[pos];
    if c == '\'' && !sq && !dq {
        let mut out: Vec<char> = Vec::new();
        if mode == ProcessingMode::Command || mode == ProcessingMode::Literal {
            out.push(c);
        }
        let ghost h = out@;
        let mut rest = process_from(chars, pos + 1, true, dq, mode);
        let ghost rv = rest@;
        out.append(&mut rest);
        proof {
            assert(out@ =~= h + rv);
        }
        out
    } else if c == '\'' && sq && !dq {
        let mut out: Vec<char> = Vec::new();
        if mode == ProcessingMode::Command || mode == ProcessingMode::Literal {
            out.push(c);
        }
        let ghost h = out@;
        let mut rest = process_from(chars, pos + 1, false, dq, mode);
        let ghost rv = rest@;
        out.append(&mut rest);
        proof {
            assert(out@ =~= h + rv);
        }
        out
    } else if c == '"' && !sq && !dq {
        let mut out: Vec<char> = Vec::new();
        if mode == ProcessingMode::Command || mode == ProcessingMode::Literal {
            out.push(c);
        }
        let ghost h = out@;
        let mut rest = process_from(chars, pos + 1, sq, true, mode);
        let ghost rv = rest@;
        out.append(&mut rest);
        proof {
            assert(out@ =~= h + rv);
        }
        out
    } else if c == '"' && !sq && dq {
        let mut out: Vec<char> = Vec::new();
        if mode == ProcessingMode::Command || mode == ProcessingMode::Literal {
            out.push(c);
        }
        let ghost h = out@;
        let mut rest = process_from(chars, pos + 1, sq, false, mode);
        let ghost rv = rest@;
        out.append(&mut rest);
        proof {
            assert(out@ =~= h + rv);
        }
        out
    } else if c == '\\' {
        if pos + 1 < chars.len() {
            let d = chars[pos + 1];
            let mut out: Vec<char> = Vec::new();
            if d == '\'' || d == '"' {
                if mode == ProcessingMode::Command {
                    out.push(d);
                } else {
                    out.push('\\');
                    out.push(d);
                }
            } else if d == 'n' {
                out.push('\n');
            } else if d == 't' {
                out.push('\t');
            } else if d == 'r' {
                out.push('\r');
            } else {
                out.push(d);
            }
            let ghost h = out@;
            let mut rest = process_from(chars, pos + 2, sq, dq, mode);
            let ghost rv = rest@;
            out.append(&mut rest);
            proof {
                assert(out@ =~= h + rv);
            }
            out
        } else {
            let empty: Vec<char> = Vec::new();
            empty
        }
    } else {
        let mut out: Vec<char> = Vec::new();
        out.push(c);
        let ghost h = out@;
        let mut rest = process_from(chars, pos + 1, sq, dq, mode);
        let ghost rv = rest@;
        out.append(&mut rest);
        proof {
            assert(out@ =~= h + rv);
        }
        out
    }
}

/// Cleans up one piece of text under the given mode: an argument loses its
/// outer quotes, quote characters toggle quoting and survive only in
/// quote-keeping modes, and backslash escapes are resolved.
pub fn process_text(text: &str, mode: ProcessingMode) -> (r: String)
    ensures
        r@ == process_text_spec(text@, mode),
{
    let chars = chars_of(text);
    let n = chars.len();
    let stripped: Vec<char> = if mode == ProcessingMode::Argument && n >= 2 && ((chars[0] == '\''
        && chars[n - 1] == '\'') || (chars[0] == '"' && chars[n - 1] == '"')) {
        let mut inner: Vec<char> = Vec::new();
        let mut i: usize = 1;
        while i < n - 1
            invariant
                1 <= i <= n - 1,
                n == chars@.len(),
                n >= 2,
                inner@ == chars@.subrange(1, i as int),
            decreases n - i,
        {
            inner.push(chars[i]);
            proof {
                assert(chars@.subrange(1, i + 1 as int) =~= chars@.subrange(1, i as int).push(
                    chars@[i as int],
                ));
            }
            i += 1;
        }
        inner
    } else {
        chars
    };
    proof {
        assert(stripped@ == strip_outer_quotes(text@, mode));
    }
    let out = process_from(&stripped, 0, false, false, mode);
    string_of(&out)
}

} // verus!
