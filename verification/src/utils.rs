//! Small command-classification and lookup helpers.

use vstd::prelude::*;
use crate::text::{chars_of, str_eq, string_of};
use crate::tokenizer::{trim_chars, trim_spec};

verus! {

/// The names the shell runs in-process rather than as child processes.
pub open spec fn is_builtin_spec(s: Seq<char>) -> bool {
    s == "exit"@ || s == "echo"@ || s == "type"@ || s == "pwd"@ || s == "cd"@ || s == "alias"@
        || s == "unalias"@ || s == "export"@ || s == "unset"@ || s == "history"@ || s == "jobs"@
        || s == "fg"@ || s == "bg"@ || s == "kill"@ || s == "wait"@
}

/// Whether `cmd` names a shell builtin.
pub fn is_builtin(cmd: &str) -> (r: bool)
    ensures
        r == is_builtin_spec(cmd@),
{
    str_eq(cmd, "exit") || str_eq(cmd, "echo") || str_eq(cmd, "type") || str_eq(cmd, "pwd")
        || str_eq(cmd, "cd") || str_eq(cmd, "alias") || str_eq(cmd, "unalias") || str_eq(
        cmd,
        "export",
    ) || str_eq(cmd, "unset") || str_eq(cmd, "history") || str_eq(cmd, "jobs") || str_eq(
        cmd,
        "fg",
    ) || str_eq(cmd, "bg") || str_eq(cmd, "kill") || str_eq(cmd, "wait")
}

/// The text with each two-character escape of `q` reduced to the bare
/// quote, left to right: what replacing `\q` by `q` leaves.
pub open spec fn unescape_quote_spec(s: Seq<char>, q: char) -> Seq<char>
    decreases s.len(),
{
    if s.len() == 0 {
        Seq::empty()
    } else if s.len() >= 2 && s[0] == '\\' && s[1] == q {
        seq![q] + unescape_quote_spec(s.skip(2), q)
    } else {
        seq![s[0]] + unescape_quote_spec(s.skip(1), q)
    }
}

/// A typed command name made searchable: when it starts with a quote, its
/// escaped quotes lose their backslashes and the outer pair of characters is
/// stripped; surrounding whitespace goes either way.
pub open spec fn normalize_command_spec(s: Seq<char>) -> Seq<char> {
    let t = if s.len() > 0 && (s[0] == '"' || s[0] == '\'') {
        let u = unescape_quote_spec(unescape_quote_spec(s, '\''), '"');
        if u.len() >= 2 {
            u.subrange(1, u.len() - 1)
        } else {
            u
        }
    } else {
        s
    };
    trim_spec(t)
}

/// Reduces each `\q` pair to the bare quote `q`, left to right.
fn unescape_quote(v: &Vec<char>, q: char) -> (r: Vec<char>)
    ensures
        r@ == unescape_quote_spec(v@, q),
{
    let mut out: Vec<char> = Vec::new();
    let mut i: usize = 0;
    proof {
        assert(v@.skip(0) =~= v@);
        assert(out@ + unescape_quote_spec(v@, q) =~= unescape_quote_spec(v@, q));
    }
    while i < v.len()
        invariant
            i <= v@.len(),
            unescape_quote_spec(v@, q) == out@ + unescape_quote_spec(v@.skip(i as int), q),
        decreases v@.len() - i,
    {
        let ghost rest = v@.skip(i as int);
        let c = v[i];
        proof {
            assert(rest[0] == c);
        }
        if c == '\\' && i + 1 < v.len() && v[i + 1] == q {
            proof {
                assert(rest[1] == v@[i as int + 1]);
            }
            let ghost tail = unescape_quote_spec(v@.skip((i + 2) as int), q);
            out.push(q);
            proof {
                assert(v@.skip((i + 2) as int) =~= rest.skip(2));
                assert(out@ + tail =~= out@.drop_last() + (seq![q] + tail));
            }
            i += 2;
        } else {
            let ghost tail = unescape_quote_spec(v@.skip((i + 1) as int), q);
            out.push(c);
            proof {
                assert(v@.skip((i + 1) as int) =~= rest.skip(1));
                assert(out@ + tail =~= out@.drop_last() + (seq![c] + tail));
            }
            i += 1;
        }
    }
    proof {
        assert(v@.skip(v@.len() as int) =~= Seq::<char>::empty());
        assert(out@ =~= out@ + unescape_quote_spec(v@.skip(v@.len() as int), q));
    }
    out
}

/// Normalizes a typed command name for resolution: a quoted name loses its
/// escaped-quote backslashes and its outer pair of characters, and
/// surrounding whitespace is trimmed.
pub fn normalize_command_name(cmd: &str) -> (r: String)
    ensures
        r@ == normalize_command_spec(cmd@),
{
    let cs = chars_of(cmd);
    let stripped: Vec<char> = if cs.len() > 0 && (cs[0] == '"' || cs[0] == '\'') {
        let u1 = unescape_quote(&cs, '\'');
        let u = unescape_quote(&u1, '"');
        let n = u.len();
        if n >= 2 {
            let mut inner: Vec<char> = Vec::new();
            let mut i: usize = 1;
            while i < n - 1
                invariant
                    1 <= i <= n - 1,
                    n == u@.len(),
                    n >= 2,
                    inner@ == u@.subrange(1, i as int),
                decreases n - i,
            {
                inner.push(u[i]);
                proof {
                    assert(u@.subrange(1, i + 1 as int) =~= u@.subrange(1, i as int).push(
                        u@[i as int],
                    ));
                }
                i += 1;
            }
            inner
        } else {
            u
        }
    } else {
        cs
    };
    string_of(&trim_chars(stripped))
}

/// The `:`-separated components of a search path from position `i`, with
/// `acc` the piece read so far; empty components are skipped.
pub open spec fn split_paths_spec(s: Seq<char>, i: nat, acc: Seq<char>) -> Seq<Seq<char>>
    decreases s.len() - i,
{
    if i >= s.len() {
        if acc.len() > 0 {
            seq![acc]
        } else {
            Seq::empty()
        }
    } else if s[i as int] == ':' {
        if acc.len() > 0 {
            seq![acc] + split_paths_spec(s, i + 1, Seq::empty())
        } else {
            split_paths_spec(s, i + 1, Seq::empty())
        }
    } else {
        split_paths_spec(s, i + 1, acc.push(s[i as int]))
    }
}

/// The candidate executable paths for `cmd` under a `:`-separated search
/// path: each nonempty component, a slash, and the command name.
pub open spec fn candidate_paths_spec(cmd: Seq<char>, paths: Seq<char>) -> Seq<Seq<char>> {
    split_paths_spec(paths, 0, Seq::empty()).map_values(|d: Seq<char>| d + seq!['/'] + cmd)
}

/// A directory, a slash, and a command name, as one string.
fn join_path(dir: &Vec<char>, cmd_chars: &Vec<char>) -> (r: String)
    ensures
        r@ == dir@ + seq!['/'] + cmd_chars@,
{
    let mut full: Vec<char> = Vec::new();
    let mut k: usize = 0;
    while k < dir.len()
        invariant
            k <= dir@.len(),
            full@ == dir@.take(k as int),
        decreases dir@.len() - k,
    {
        full.push(dir[k]);
        proof {
            assert(dir@.take(k + 1 as int) =~= dir@.take(k as int).push(dir@[k as int]));
        }
        k += 1;
    }
    proof {
        assert(dir@.take(dir@.len() as int) =~= dir@);
    }
    full.push('/');
    let mut m: usize = 0;
    while m < cmd_chars.len()
        invariant
            m <= cmd_chars@.len(),
            full@ == dir@ + seq!['/'] + cmd_chars@.take(m as int),
        decreases cmd_chars@.len() - m,
    {
        full.push(cmd_chars[m]);
        proof {
            assert(cmd_chars@.take(m + 1 as int) =~= cmd_chars@.take(m as int).push(
                cmd_chars@[m as int],
            ));
            assert(dir@ + seq!['/'] + cmd_chars@.take(m + 1 as int) =~= (dir@ + seq!['/']
                + cmd_chars@.take(m as int)).push(cmd_chars@[m as int]));
        }
        m += 1;
    }
    proof {
        assert(cmd_chars@.take(cmd_chars@.len() as int) =~= cmd_chars@);
    }
    string_of(&full)
}

/// Builds the candidate executable paths for `cmd`: one per nonempty search
/// path component.  Which candidate exists and is executable is for the
/// caller to test.
pub fn candidate_paths(cmd: &str, paths: &str) -> (r: Vec<String>)
    ensures
        r@.map_values(|s: String| s@) == candidate_paths_spec(cmd@, paths@),
{
    let ghost s = paths@;
    let cs = chars_of(paths);
    let cmd_chars = chars_of(cmd);
    let mut out: Vec<String> = Vec::new();
    let mut acc: Vec<char> = Vec::new();
    let mut i: usize = 0;
    proof {
        assert(out@.map_values(|q: String| q@) =~= Seq::<Seq<char>>::empty());
        assert(Seq::<Seq<char>>::empty() + split_paths_spec(s, 0, Seq::empty()).map_values(
            |d: Seq<char>| d + seq!['/'] + cmd@,
        ) =~= split_paths_spec(s, 0, Seq::empty()).map_values(|d: Seq<char>| d + seq!['/'] + cmd@));
    }
    while i < cs.len()
        invariant
            i <= cs@.len(),
            cs@ == s,
            cmd_chars@ == cmd@,
            candidate_paths_spec(cmd@, s) == out@.map_values(|q: String| q@) + split_paths_spec(
                s,
                i as nat,
                acc@,
            ).map_values(|d: Seq<char>| d + seq!['/'] + cmd@),
        decreases cs@.len() - i,
    {
        let c = cs[i];
        if c == ':' {
            if acc.len() > 0 {
                let ghost outs0 = out@.map_values(|q: String| q@);
                let ghost tail = split_paths_spec(s, (i + 1) as nat, Seq::empty()).map_values(
                    |d: Seq<char>| d + seq!['/'] + cmd@,
                );
                out.push(join_path(&acc, &cmd_chars));
                proof {
                    assert(out@.map_values(|q: String| q@) =~= outs0.push(acc@ + seq!['/'] + cmd@));
                    assert((seq![acc@] + split_paths_spec(s, (i + 1) as nat, Seq::empty())).map_values(
                        |d: Seq<char>| d + seq!['/'] + cmd@,
                    ) =~= seq![acc@ + seq!['/'] + cmd@] + tail);
                    assert(outs0 + (seq![acc@ + seq!['/'] + cmd@] + tail) =~= outs0.push(
                        acc@ + seq!['/'] + cmd@,
                    ) + tail);
                }
                acc = Vec::new();
                proof {
                    assert(acc@ =~= Seq::<char>::empty());
                }
            } else {
                proof {
                    assert(acc@ =~= Seq::<char>::empty());
                }
            }
            i += 1;
        } else {
            acc.push(c);
            i += 1;
        }
    }
    if acc.len() > 0 {
        let ghost outs0 = out@.map_values(|q: String| q@);
        out.push(join_path(&acc, &cmd_chars));
        proof {
            assert(out@.map_values(|q: String| q@) =~= outs0.push(acc@ + seq!['/'] + cmd@));
            assert(split_paths_spec(s, s.len(), acc@).map_values(
                |d: Seq<char>| d + seq!['/'] + cmd@,
            ) =~= seq![acc@ + seq!['/'] + cmd@]);
            assert(outs0 + seq![acc@ + seq!['/'] + cmd@] =~= outs0.push(acc@ + seq!['/'] + cmd@));
        }
    } else {
        proof {
            assert(split_paths_spec(s, s.len(), acc@).map_values(
                |d: Seq<char>| d + seq!['/'] + cmd@,
            ) =~= Seq::<Seq<char>>::empty());
            assert(out@.map_values(|q: String| q@) + Seq::<Seq<char>>::empty() =~= out@.map_values(
                |q: String| q@,
            ));
        }
    }
    out
}

} // verus!
