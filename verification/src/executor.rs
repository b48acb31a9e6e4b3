//! The shell's session state and the word expander.  A word's final string
//! exists only here: variable values, the last exit status, the shell's pid
//! and captured command-substitution output are folded into the word's
//! fragments under each fragment's quoting rule.

use vstd::prelude::*;
use crate::lexer::{lex, lex_spec, TokenV};
use crate::parser::{parse, parse_spec};
use crate::text::{alnum, chars_of, is_alnum, str_eq, string_of};
use crate::types::ShellError;
use crate::word::{Word, WordPart, WordPartV};

verus! {

/// The environment as a sequence of name-value pairs of plain characters.
pub type EnvV = Seq<(Seq<char>, Seq<char>)>;

/// The view of an environment vector.
pub open spec fn env_view(env: Seq<(String, String)>) -> EnvV {
    env.map_values(|p: (String, String)| (p.0@, p.1@))
}

/// Whether the environment binds `name`.
pub open spec fn env_has(env: EnvV, name: Seq<char>) -> bool
    decreases env.len(),
{
    if env.len() == 0 {
        false
    } else if env[0].0 == name {
        true
    } else {
        env_has(env.drop_first(), name)
    }
}

/// The value bound to `name`; the empty string when `name` is unbound.
pub open spec fn env_lookup(env: EnvV, name: Seq<char>) -> Seq<char>
    decreases env.len(),
{
    if env.len() == 0 {
        Seq::empty()
    } else if env[0].0 == name {
        env[0].1
    } else {
        env_lookup(env.drop_first(), name)
    }
}

/// The environment after binding `name` to `value`: the first binding of
/// `name` is replaced, or a new one is appended.
pub open spec fn env_set_spec(env: EnvV, name: Seq<char>, value: Seq<char>) -> EnvV
    decreases env.len(),
{
    if env.len() == 0 {
        seq![(name, value)]
    } else if env[0].0 == name {
        seq![(name, value)] + env.drop_first()
    } else {
        seq![env[0]] + env_set_spec(env.drop_first(), name, value)
    }
}

/// The decimal digit characters.
pub open spec fn digit_char(d: int) -> char {
    if d == 0 {
        '0'
    } else if d == 1 {
        '1'
    } else if d == 2 {
        '2'
    } else if d == 3 {
        '3'
    } else if d == 4 {
        '4'
    } else if d == 5 {
        '5'
    } else if d == 6 {
        '6'
    } else if d == 7 {
        '7'
    } else if d == 8 {
        '8'
    } else {
        '9'
    }
}

/// The decimal digits of a nonnegative number.
pub open spec fn dec_str_nat(n: nat) -> Seq<char>
    decreases n,
{
    if n < 10 {
        seq![digit_char(n as int)]
    } else {
        dec_str_nat(n / 10).push(digit_char((n % 10) as int))
    }
}

/// The decimal rendering of an integer.
pub open spec fn dec_str(n: int) -> Seq<char> {
    if n < 0 {
        seq!['-'] + dec_str_nat((-n) as nat)
    } else {
        dec_str_nat(n as nat)
    }
}

/// A variable-name character: a Unicode letter or digit, or an underscore.
pub open spec fn is_var_char(c: char) -> bool {
    alnum(c) || c == '_'
}

/// The run of variable-name characters from `i`, and the position after it.
pub open spec fn plain_var_spec(s: Seq<char>, i: nat) -> (Seq<char>, nat)
    decreases s.len() - i,
{
    if i < s.len() && is_var_char(s[i as int]) {
        let r = plain_var_spec(s, i + 1);
        (seq![s[i as int]] + r.0, r.1)
    } else {
        (Seq::empty(), i)
    }
}

/// The closing check of a braced variable name: an empty name is malformed
/// unless a closing brace stands right there.
pub open spec fn after_brace_spec(s: Seq<char>, j: nat, acc: Seq<char>) -> Result<
    (Seq<char>, nat),
    Seq<char>,
> {
    if acc.len() == 0 && !(j < s.len() && s[j as int] == '}') {
        Err("Empty or malformed variable name in ${...}"@)
    } else {
        Ok((acc, j))
    }
}

/// A braced variable name read from inside `${...}`: name characters up to
/// the closing brace; anything else is invalid syntax.
pub open spec fn braced_var_spec(s: Seq<char>, i: nat, acc: Seq<char>) -> Result<
    (Seq<char>, nat),
    Seq<char>,
>
    decreases s.len() - i,
{
    if i < s.len() {
        let c = s[i as int];
        if c == '}' {
            after_brace_spec(s, i + 1, acc)
        } else if is_var_char(c) {
            braced_var_spec(s, i + 1, acc.push(c))
        } else {
            Err("Invalid character in variable name within ${}"@)
        }
    } else {
        after_brace_spec(s, i, acc)
    }
}

/// A variable name starting at `i` (just after `$`): braced or plain.
pub open spec fn read_var_spec(s: Seq<char>, i: nat) -> Result<(Seq<char>, nat), Seq<char>> {
    if i < s.len() && s[i as int] == '{' {
        braced_var_spec(s, i + 1, Seq::empty())
    } else {
        Ok(plain_var_spec(s, i))
    }
}

/// One text segment expanded from position `i`.
///
/// Outside double quotes a backslash removes itself and keeps the next
/// character.  Inside them only `\$`, `` \` ``, `\"` and `\\` reduce to their
/// bare character; any other escape keeps both characters.  `$?` becomes the
/// last exit status, `$$` the shell's pid, `$name` and `${name}` the
/// environment value of `name` (empty when unset), and a lone `$` stays
/// itself.
pub open spec fn seg_spec(
    s: Seq<char>,
    i: nat,
    dq: bool,
    env: EnvV,
    status: i32,
    pid: i32,
) -> Result<Seq<char>, Seq<char>>
    decreases s.len() - i,
{
    if i >= s.len() {
        Ok(Seq::empty())
    } else {
        let c = s[i as int];
        if c == '\\' {
            if i + 1 < s.len() {
                let d = s[i as int + 1];
                let head: Seq<char> = if dq {
                    if d == '$' || d == '`' || d == '"' || d == '\\' {
                        seq![d]
                    } else {
                        seq!['\\', d]
                    }
                } else {
                    seq![d]
                };
                match seg_spec(s, i + 2, dq, env, status, pid) {
                    Ok(r) => Ok(head + r),
                    Err(e) => Err(e),
                }
            } else {
                Ok(seq!['\\'])
            }
        } else if c == '$' {
            if i + 1 < s.len() && s[i as int + 1] == '?' {
                match seg_spec(s, i + 2, dq, env, status, pid) {
                    Ok(r) => Ok(dec_str(status as int) + r),
                    Err(e) => Err(e),
                }
            } else if i + 1 < s.len() && s[i as int + 1] == '$' {
                match seg_spec(s, i + 2, dq, env, status, pid) {
                    Ok(r) => Ok(dec_str(pid as int) + r),
                    Err(e) => Err(e),
                }
            } else {
                match read_var_spec(s, i + 1) {
                    Err(m) => Err(m),
                    Ok((name, j)) => {
                        let piece: Seq<char> = if name.len() == 0 {
                            seq!['$']
                        } else {
                            env_lookup(env, name)
                        };
                        if i < j <= s.len() {
                            match seg_spec(s, j, dq, env, status, pid) {
                                Ok(r) => Ok(piece + r),
                                Err(e) => Err(e),
                            }
                        } else {
                            Ok(piece)
                        }
                    },
                }
            }
        } else {
            match seg_spec(s, i + 1, dq, env, status, pid) {
                Ok(r) => Ok(seq![c] + r),
                Err(e) => Err(e),
            }
        }
    }
}

/// A command-substitution span: backticks around the command text.
pub open spec fn is_backtick_span(s: Seq<char>) -> bool {
    s.len() >= 2 && s[0] == '`' && s.last() == '`'
}

/// Tokens that carry no content.
pub open spec fn trivial_tokens(ts: Seq<TokenV>) -> bool {
    forall|k: int| 0 <= k < ts.len() ==> (ts[k] is Space || ts[k] is NewLine)
}

/// Whether a backtick span's inner text names a command that must actually
/// run: it is nonempty and lexes to more than blanks.
pub open spec fn span_runs(inner: Seq<char>) -> bool {
    inner.len() > 0 && lex_spec(inner).len() > 0 && !trivial_tokens(lex_spec(inner))
}

/// The sub-command texts of one word part: the inner text of a backtick span
/// that must run, nothing otherwise.
pub open spec fn part_subst(p: WordPartV) -> Seq<Seq<char>> {
    match p {
        WordPartV::Simple(s) => {
            if is_backtick_span(s) {
                let inner = s.subrange(1, s.len() - 1);
                if span_runs(inner) {
                    seq![inner]
                } else {
                    Seq::empty()
                }
            } else {
                Seq::empty()
            }
        },
        _ => Seq::empty(),
    }
}

/// The sub-command texts of a whole word, in fragment order.
pub open spec fn word_subst_commands(w: Seq<WordPartV>) -> Seq<Seq<char>>
    decreases w.len(),
{
    if w.len() == 0 {
        Seq::empty()
    } else {
        part_subst(w[0]) + word_subst_commands(w.drop_first())
    }
}

/// Command-substitution output with every trailing newline removed.
pub open spec fn trim_newlines_spec(s: Seq<char>) -> Seq<char>
    decreases s.len(),
{
    if s.len() > 0 && s.last() == '\n' {
        trim_newlines_spec(s.drop_last())
    } else {
        s
    }
}

/// Why an expansion failed.
pub enum ExpandErrV {
    /// A command substitution's text does not parse; carries the message.
    Parse(Seq<char>),
    /// A malformed `${...}` variable reference; carries the message.
    Syntax(Seq<char>),
    /// A substitution capture is missing or is not usable text.
    Short,
}

/// The expansion of a word's parts, consuming captured substitution outputs
/// in order.  Single-quoted text is copied verbatim; double-quoted and plain
/// text go through [`seg_spec`]; a backtick span that runs substitutes its
/// captured output with trailing newlines trimmed.
pub open spec fn expand_parts_spec(
    w: Seq<WordPartV>,
    env: EnvV,
    status: i32,
    pid: i32,
    outs: Seq<Seq<char>>,
) -> Result<Seq<char>, ExpandErrV>
    decreases w.len(),
{
    if w.len() == 0 {
        Ok(Seq::empty())
    } else {
        match w[0] {
            WordPartV::SingleQuoted(s) => match expand_parts_spec(
                w.drop_first(),
                env,
                status,
                pid,
                outs,
            ) {
                Ok(r) => Ok(s + r),
                Err(e) => Err(e),
            },
            WordPartV::DoubleQuoted(s) => match seg_spec(s, 0, true, env, status, pid) {
                Err(m) => Err(ExpandErrV::Syntax(m)),
                Ok(head) => match expand_parts_spec(w.drop_first(), env, status, pid, outs) {
                    Ok(r) => Ok(head + r),
                    Err(e) => Err(e),
                },
            },
            WordPartV::Simple(s) => {
                if is_backtick_span(s) {
                    let inner = s.subrange(1, s.len() - 1);
                    if span_runs(inner) {
                        match parse_spec(lex_spec(inner)) {
                            Err(m) => Err(ExpandErrV::Parse(m)),
                            Ok(_) => {
                                if outs.len() == 0 {
                                    Err(ExpandErrV::Short)
                                } else {
                                    match expand_parts_spec(
                                        w.drop_first(),
                                        env,
                                        status,
                                        pid,
                                        outs.drop_first(),
                                    ) {
                                        Ok(r) => Ok(trim_newlines_spec(outs[0]) + r),
                                        Err(e) => Err(e),
                                    }
                                }
                            },
                        }
                    } else {
                        expand_parts_spec(w.drop_first(), env, status, pid, outs)
                    }
                } else {
                    match seg_spec(s, 0, false, env, status, pid) {
                        Err(m) => Err(ExpandErrV::Syntax(m)),
                        Ok(head) => match expand_parts_spec(
                            w.drop_first(),
                            env,
                            status,
                            pid,
                            outs,
                        ) {
                            Ok(r) => Ok(head + r),
                            Err(e) => Err(e),
                        },
                    }
                }
            },
        }
    }
}

/// Law: the expander and the textual escape processing apply one escape
/// rule — on text free of `$`, a segment's expansion is exactly its
/// escape-processed form, under either quoting regime.
pub proof fn lemma_expand_agrees_with_escapes(
    s: Seq<char>,
    i: nat,
    dq: bool,
    env: EnvV,
    status: i32,
    pid: i32,
)
    requires
        i <= s.len(),
        forall|k: int| 0 <= k < s.len() ==> s[k] != '$',
    ensures
        seg_spec(s, i, dq, env, status, pid) == Ok::<Seq<char>, Seq<char>>(
            crate::word::escapes_spec(s.skip(i as int), dq),
        ),
    decreases s.len() - i,
{
    let rest = s.skip(i as int);
    if i >= s.len() {
        assert(rest =~= Seq::<char>::empty());
    } else {
        let c = s[i as int];
        assert(rest[0] == c);
        if c == '\\' {
            if i + 1 < s.len() {
                lemma_expand_agrees_with_escapes(s, i + 2, dq, env, status, pid);
                assert(rest[1] == s[i as int + 1]);
                assert(rest.skip(2) =~= s.skip(i as int + 2));
            } else {
                assert(rest.len() == 1);
                assert(crate::word::escapes_spec(rest, dq) == seq!['\\']);
            }
        } else {
            lemma_expand_agrees_with_escapes(s, i + 1, dq, env, status, pid);
            assert(rest.skip(1) =~= s.skip(i as int + 1));
        }
    }
}

/// Law: a word with no parts expands to the empty string.
pub proof fn lemma_empty_word_expands_empty(
    env: EnvV,
    status: i32,
    pid: i32,
    outs: Seq<Seq<char>>,
)
    ensures
        expand_parts_spec(Seq::empty(), env, status, pid, outs) == Ok::<Seq<char>, ExpandErrV>(
            Seq::empty(),
        ),
{
}

/// The exec expansion result mirrors the spec result, with each spec error
/// mapped to its shell error.
pub open spec fn expand_result_matches(
    r: Result<String, ShellError>,
    s: Result<Seq<char>, ExpandErrV>,
) -> bool {
    match r {
        Ok(out) => s matches Ok(v) && out@ == v,
        Err(ShellError::ParseError(m)) => s matches Err(ExpandErrV::Parse(mm)) && m@ == mm,
        Err(ShellError::InvalidSyntax(m)) => s matches Err(ExpandErrV::Syntax(mm)) && m@ == mm,
        Err(ShellError::InternalError(_)) => s matches Err(ExpandErrV::Short),
        Err(_) => false,
    }
}

/// The shell session state: the last exit status, the environment, the
/// working directory, the alias table and the shell's process id.  It is
/// created at startup, mutated by one statement at a time, and copied — never
/// shared — into command-substitution children.
pub struct Executor {
    pub last_status: i32,
    pub environment: Vec<(String, String)>,
    pub current_dir: String,
    pub aliases: Vec<(String, String)>,
    pub pid: i32,
}

/// A fresh copy of an environment vector, with the same view.
fn clone_env(env: &Vec<(String, String)>) -> (r: Vec<(String, String)>)
    ensures
        env_view(r@) == env_view(env@),
{
    let mut out: Vec<(String, String)> = Vec::new();
    let mut i: usize = 0;
    while i < env.len()
        invariant
            i <= env@.len(),
            env_view(out@) == env_view(env@.take(i as int)),
        decreases env@.len() - i,
    {
        let name = env[i].0.clone();
        let value = env[i].1.clone();
        out.push((name, value));
        proof {
            assert(env_view(out@) =~= env_view(out@.drop_last()).push(
                (out@.last().0@, out@.last().1@),
            ));
            assert(env_view(env@.take(i + 1 as int)) =~= env_view(env@.take(i as int)).push(
                (env@[i as int].0@, env@[i as int].1@),
            ));
        }
        i += 1;
    }
    proof {
        assert(env@.take(env@.len() as int) =~= env@);
    }
    out
}

impl Executor {
    /// A session over the given environment and working directory, with a
    /// clean status and the current process's id.
    pub fn new(environment: Vec<(String, String)>, current_dir: String) -> (r: Executor)
        ensures
            r.last_status == 0,
            env_view(r.environment@) == env_view(environment@),
            r.current_dir@ == current_dir@,
            r.aliases@.len() == 0,
    {
        Executor {
            last_status: 0,
            environment,
            current_dir,
            aliases: Vec::new(),
            pid: crate::shell_pid(),
        }
    }

    /// The state a command-substitution child starts from: this session's
    /// environment, directory and aliases, with a clean status.  Mutations in
    /// the child never reach this session.
    pub fn new_for_command_substitution(&self) -> (r: Executor)
        ensures
            r.last_status == 0,
            env_view(r.environment@) == env_view(self.environment@),
            r.current_dir@ == self.current_dir@,
            env_view(r.aliases@) == env_view(self.aliases@),
            r.pid == self.pid,
    {
        Executor {
            last_status: 0,
            environment: clone_env(&self.environment),
            current_dir: self.current_dir.clone(),
            aliases: clone_env(&self.aliases),
            pid: self.pid,
        }
    }

    /// The value bound to `name`, if any.
    pub fn env_get(&self, name: &str) -> (r: Option<String>)
        ensures
            r is Some <==> env_has(env_view(self.environment@), name@),
            r matches Some(v) ==> v@ == env_lookup(env_view(self.environment@), name@),
            r is None ==> env_lookup(env_view(self.environment@), name@) == Seq::<char>::empty(),
    {
        let ghost env = env_view(self.environment@);
        match env_find(&self.environment, name) {
            Some(k) => {
                proof {
                    lemma_env_first_match(env, name@, k as int);
                }
                Some(self.environment[k].1.clone())
            },
            None => {
                proof {
                    lemma_env_no_match(env, name@);
                }
                None
            },
        }
    }

    /// Binds `name` to `value`, replacing its first binding or appending a
    /// new one.
    pub fn env_set(&mut self, name: &str, value: String)
        ensures
            env_view(final(self).environment@) == env_set_spec(
                env_view(old(self).environment@),
                name@,
                value@,
            ),
            final(self).last_status == old(self).last_status,
            final(self).current_dir == old(self).current_dir,
            final(self).aliases == old(self).aliases,
            final(self).pid == old(self).pid,
    {
        let ghost env = env_view(self.environment@);
        match env_find(&self.environment, name) {
            Some(k) => {
                let key = self.environment[k].0.clone();
                self.environment.set(k, (key, value));
                proof {
                    lemma_env_set_at(env, name@, value@, k as int);
                    assert(env_view(self.environment@) =~= env.update(
                        k as int,
                        (name@, value@),
                    ));
                }
            },
            None => {
                proof {
                    lemma_env_set_append(env, name@, value@);
                }
                self.environment.push((name.to_owned(), value));
                proof {
                    assert(env_view(self.environment@) =~= env.push((name@, value@)));
                }
            },
        }
    }
}

/// The index of the first binding of `name`, if any.
fn env_find(env: &Vec<(String, String)>, name: &str) -> (r: Option<usize>)
    ensures
        ({
            let ev = env_view(env@);
            match r {
                Some(k) => k < ev.len() && ev[k as int].0 == name@ && (forall|j: int|
                    0 <= j < k ==> ev[j].0 != name@),
                None => forall|j: int| 0 <= j < ev.len() ==> ev[j].0 != name@,
            }
        }),
{
    let ghost ev = env_view(env@);
    let mut i: usize = 0;
    while i < env.len()
        invariant
            i <= env@.len(),
            ev == env_view(env@),
            forall|j: int| 0 <= j < i ==> ev[j].0 != name@,
        decreases env@.len() - i,
    {
        if str_eq(env[i].0.as_str(), name) {
            proof {
                assert(ev[i as int].0 == env@[i as int].0@);
            }
            return Some(i);
        }
        proof {
            assert(ev[i as int].0 == env@[i as int].0@);
        }
        i += 1;
    }
    None
}

/// A first match at index `k` settles membership and lookup.
proof fn lemma_env_first_match(env: EnvV, name: Seq<char>, k: int)
    requires
        0 <= k < env.len(),
        env[k].0 == name,
        forall|j: int| 0 <= j < k ==> env[j].0 != name,
    ensures
        env_has(env, name),
        env_lookup(env, name) == env[k].1,
    decreases k,
{
    if k > 0 {
        assert(env.drop_first()[k - 1] == env[k]);
        assert forall|j: int| 0 <= j < k - 1 implies env.drop_first()[j].0 != name by {
            assert(env.drop_first()[j] == env[j + 1]);
        }
        lemma_env_first_match(env.drop_first(), name, k - 1);
    }
}

/// No match anywhere settles absence and the empty default.
proof fn lemma_env_no_match(env: EnvV, name: Seq<char>)
    requires
        forall|j: int| 0 <= j < env.len() ==> env[j].0 != name,
    ensures
        !env_has(env, name),
        env_lookup(env, name) == Seq::<char>::empty(),
    decreases env.len(),
{
    if env.len() > 0 {
        assert forall|j: int| 0 <= j < env.drop_first().len() implies env.drop_first()[j].0
            != name by {
            assert(env.drop_first()[j] == env[j + 1]);
        }
        lemma_env_no_match(env.drop_first(), name);
    }
}

/// Binding over a first match at `k` updates that entry in place.
proof fn lemma_env_set_at(env: EnvV, name: Seq<char>, value: Seq<char>, k: int)
    requires
        0 <= k < env.len(),
        env[k].0 == name,
        forall|j: int| 0 <= j < k ==> env[j].0 != name,
    ensures
        env_set_spec(env, name, value) =~= env.update(k, (name, value)),
    decreases k,
{
    if k == 0 {
        assert(env_set_spec(env, name, value) =~= env.update(0, (name, value)));
    } else {
        assert(env.drop_first()[k - 1] == env[k]);
        assert forall|j: int| 0 <= j < k - 1 implies env.drop_first()[j].0 != name by {
            assert(env.drop_first()[j] == env[j + 1]);
        }
        lemma_env_set_at(env.drop_first(), name, value, k - 1);
        assert(env_set_spec(env, name, value) =~= seq![env[0]] + env.drop_first().update(
            k - 1,
            (name, value),
        ));
        assert(seq![env[0]] + env.drop_first().update(k - 1, (name, value)) =~= env.update(
            k,
            (name, value),
        ));
    }
}

/// Binding an absent name appends a fresh entry.
proof fn lemma_env_set_append(env: EnvV, name: Seq<char>, value: Seq<char>)
    requires
        forall|j: int| 0 <= j < env.len() ==> env[j].0 != name,
    ensures
        env_set_spec(env, name, value) =~= env.push((name, value)),
    decreases env.len(),
{
    if env.len() > 0 {
        assert forall|j: int| 0 <= j < env.drop_first().len() implies env.drop_first()[j].0
            != name by {
            assert(env.drop_first()[j] == env[j + 1]);
        }
        lemma_env_set_append(env.drop_first(), name, value);
        assert(env_set_spec(env, name, value) =~= seq![env[0]] + env.drop_first().push(
            (name, value),
        ));
        assert(seq![env[0]] + env.drop_first().push((name, value)) =~= env.push((name, value)));
    }
}

/// Appends the decimal digits of `n`.
fn push_dec(out: &mut Vec<char>, n: u32)
    ensures
        final(out)@ == old(out)@ + dec_str_nat(n as nat),
    decreases n,
{
    if n < 10 {
        let d: char = match n {
            0 => '0',
            1 => '1',
            2 => '2',
            3 => '3',
            4 => '4',
            5 => '5',
            6 => '6',
            7 => '7',
            8 => '8',
            _ => '9',
        };
        out.push(d);
        proof {
            assert(out@ =~= old(out)@ + dec_str_nat(n as nat));
        }
    } else {
        push_dec(out, n / 10);
        let d: char = match n % 10 {
            0 => '0',
            1 => '1',
            2 => '2',
            3 => '3',
            4 => '4',
            5 => '5',
            6 => '6',
            7 => '7',
            8 => '8',
            _ => '9',
        };
        out.push(d);
        proof {
            assert(out@ =~= old(out)@ + dec_str_nat(n as nat));
        }
    }
}

/// The decimal rendering of an integer, as characters.
fn dec_chars(n: i32) -> (r: Vec<char>)
    ensures
        r@ == dec_str(n as int),
{
    let mut out: Vec<char> = Vec::new();
    if n < 0 {
        out.push('-');
        let m: u32 = if n == -0x8000_0000i32 {
            0x8000_0000u32
        } else {
            (-n) as u32
        };
        push_dec(&mut out, m);
        proof {
            assert(out@ =~= dec_str(n as int));
        }
    } else {
        push_dec(&mut out, n as u32);
        proof {
            assert(out@ =~= dec_str(n as int));
        }
    }
    out
}

/// How a variable-name reading is mirrored by the spec.
pub open spec fn var_result_matches(
    r: Result<(String, usize), ShellError>,
    s: Result<(Seq<char>, nat), Seq<char>>,
) -> bool {
    match r {
        Ok(p) => s matches Ok(q) && p.0@ == q.0 && p.1 as nat == q.1,
        Err(ShellError::InvalidSyntax(m)) => s matches Err(mm) && m@ == mm,
        Err(_) => false,
    }
}

/// How a segment expansion is mirrored by the spec.
pub open spec fn seg_result_matches(
    r: Result<String, ShellError>,
    s: Result<Seq<char>, Seq<char>>,
) -> bool {
    match r {
        Ok(v) => s matches Ok(x) && v@ == x,
        Err(ShellError::InvalidSyntax(m)) => s matches Err(mm) && m@ == mm,
        Err(_) => false,
    }
}

/// Removes every trailing newline from command-substitution output.
pub fn trim_trailing_newlines(s: &str) -> (r: String)
    ensures
        r@ == trim_newlines_spec(s@),
{
    let mut v = chars_of(s);
    loop
        invariant
            trim_newlines_spec(s@) == trim_newlines_spec(v@),
        decreases v@.len(),
    {
        if v.len() > 0 && v[v.len() - 1] == '\n' {
            v.pop();
        } else {
            proof {
                assert(trim_newlines_spec(v@) == v@);
            }
            return string_of(&v);
        }
    }
}

/// Law: trimming removes exactly the maximal run of trailing newlines — the
/// result is the longest prefix without a trailing newline, and everything
/// cut was a newline.
pub proof fn lemma_trim_trailing(s: Seq<char>)
    ensures
        ({
            let t = trim_newlines_spec(s);
            (t.len() == 0 || t.last() != '\n') && t.len() <= s.len() && t == s.take(t.len() as int)
                && forall|k: int| t.len() <= k < s.len() ==> s[k] == '\n'
        }),
    decreases s.len(),
{
    if s.len() > 0 && s.last() == '\n' {
        lemma_trim_trailing(s.drop_last());
        let t = trim_newlines_spec(s);
        assert(s.drop_last().take(t.len() as int) =~= s.take(t.len() as int));
        assert forall|k: int| t.len() <= k < s.len() implies s[k] == '\n' by {
            if k < s.len() - 1 {
                assert(s.drop_last()[k] == s[k]);
            }
        }
    }
}

/// Law: expansion of a single-quoted fragment is the identity — no
/// substitution and no escape processing touch its text.
pub proof fn lemma_single_quoted_identity(
    s: Seq<char>,
    env: EnvV,
    status: i32,
    pid: i32,
    outs: Seq<Seq<char>>,
)
    ensures
        expand_parts_spec(seq![WordPartV::SingleQuoted(s)], env, status, pid, outs) == Ok::<
            Seq<char>,
            ExpandErrV,
        >(s),
{
    let w = seq![WordPartV::SingleQuoted(s)];
    assert(w.drop_first() =~= Seq::<WordPartV>::empty());
    assert(expand_parts_spec(w.drop_first(), env, status, pid, outs) == Ok::<
        Seq<char>,
        ExpandErrV,
    >(Seq::empty()));
    assert(s + Seq::<char>::empty() =~= s);
}

/// Law: inside double quotes, `\"`, `` \` ``, `\$` and `\\` reduce to the
/// bare character, and any other escaped character keeps its backslash.
pub proof fn lemma_double_quote_escape(c: char, env: EnvV, status: i32, pid: i32)
    ensures
        (c == '$' || c == '`' || c == '"' || c == '\\') ==> seg_spec(
            seq!['\\', c],
            0,
            true,
            env,
            status,
            pid,
        ) == Ok::<Seq<char>, Seq<char>>(seq![c]),
        !(c == '$' || c == '`' || c == '"' || c == '\\') ==> seg_spec(
            seq!['\\', c],
            0,
            true,
            env,
            status,
            pid,
        ) == Ok::<Seq<char>, Seq<char>>(seq!['\\', c]),
{
    let s = seq!['\\', c];
    assert(seg_spec(s, 2, true, env, status, pid) == Ok::<Seq<char>, Seq<char>>(Seq::empty()));
    if c == '$' || c == '`' || c == '"' || c == '\\' {
        assert(seq![c] + Seq::<char>::empty() =~= seq![c]);
    } else {
        assert(seq!['\\', c] + Seq::<char>::empty() =~= seq!['\\', c]);
    }
}

/// Law: the double-quote escape rule holds at every position of a segment —
/// `\"`, `` \` ``, `\$` and `\\` reduce to the bare character, any other
/// escape keeps both characters, and the rest of the segment expands
/// unchanged after it.
pub proof fn lemma_double_quote_escape_at(
    s: Seq<char>,
    i: nat,
    env: EnvV,
    status: i32,
    pid: i32,
)
    requires
        i + 1 < s.len(),
        s[i as int] == '\\',
    ensures
        ({
            let d = s[i as int + 1];
            let head: Seq<char> = if d == '$' || d == '`' || d == '"' || d == '\\' {
                seq![d]
            } else {
                seq!['\\', d]
            };
            seg_spec(s, i, true, env, status, pid) == (match seg_spec(
                s,
                i + 2,
                true,
                env,
                status,
                pid,
            ) {
                Ok(r) => Ok::<Seq<char>, Seq<char>>(head + r),
                Err(e) => Err(e),
            })
        }),
{
}

/// Law: outside quotes, a backslash removes itself and keeps the next
/// character literal, whatever it is.
pub proof fn lemma_unquoted_escape(c: char, env: EnvV, status: i32, pid: i32)
    ensures
        seg_spec(seq!['\\', c], 0, false, env, status, pid) == Ok::<Seq<char>, Seq<char>>(
            seq![c],
        ),
{
    let s = seq!['\\', c];
    assert(seg_spec(s, 2, false, env, status, pid) == Ok::<Seq<char>, Seq<char>>(Seq::empty()));
    assert(seq![c] + Seq::<char>::empty() =~= seq![c]);
}

impl Executor {
    /// Reads a variable name at `pos` in `chars` (just after a `$`): either a
    /// braced `${name}` form, which may be malformed, or a plain run of
    /// name characters.
    pub fn read_variable_name(&self, chars: &Vec<char>, pos: usize) -> (r: Result<
        (String, usize),
        ShellError,
    >)
        requires
            pos <= chars@.len(),
        ensures
            var_result_matches(r, read_var_spec(chars@, pos as nat)),
            r matches Ok(p) ==> pos <= p.1 <= chars@.len(),
    {
        if pos < chars.len() && chars[pos] == '{' {
            let mut acc: Vec<char> = Vec::new();
            let mut i = pos + 1;
            loop
                invariant
                    pos + 1 <= i <= chars@.len(),
                    pos < chars@.len() && chars@[pos as int] == '{',
                    braced_var_spec(chars@, (pos + 1) as nat, Seq::empty()) == braced_var_spec(
                        chars@,
                        i as nat,
                        acc@,
                    ),
                decreases chars@.len() - i,
            {
                if i >= chars.len() {
                    if acc.len() == 0 && !(i < chars.len() && chars[i] == '}') {
                        return Err(
                            ShellError::InvalidSyntax(
                                String::from_str("Empty or malformed variable name in ${...}"),
                            ),
                        );
                    }
                    return Ok((string_of(&acc), i));
                }
                let c = chars[i];
                if c == '}' {
                    let j = i + 1;
                    if acc.len() == 0 && !(j < chars.len() && chars[j] == '}') {
                        return Err(
                            ShellError::InvalidSyntax(
                                String::from_str("Empty or malformed variable name in ${...}"),
                            ),
                        );
                    }
                    return Ok((string_of(&acc), j));
                }
                if is_alnum(c) || c == '_' {
                    acc.push(c);
                    i += 1;
                } else {
                    return Err(
                        ShellError::InvalidSyntax(
                            String::from_str("Invalid character in variable name within ${}"),
                        ),
                    );
                }
            }
        } else {
            let mut acc: Vec<char> = Vec::new();
            let mut i = pos;
            loop
                invariant
                    pos <= i <= chars@.len(),
                    !(pos < chars@.len() && chars@[pos as int] == '{'),
                    plain_var_spec(chars@, pos as nat).0 == acc@ + plain_var_spec(
                        chars@,
                        i as nat,
                    ).0,
                    plain_var_spec(chars@, pos as nat).1 == plain_var_spec(chars@, i as nat).1,
                decreases chars@.len() - i,
            {
                if i < chars.len() {
                    let c = chars[i];
                    if is_alnum(c) || c == '_' {
                        let ghost rest = plain_var_spec(chars@, (i + 1) as nat).0;
                        acc.push(c);
                        proof {
                            assert(acc@ + rest =~= acc@.drop_last() + (seq![c] + rest));
                        }
                        i += 1;
                        continue ;
                    }
                }
                proof {
                    assert(plain_var_spec(chars@, i as nat).0 =~= Seq::<char>::empty());
                    assert(acc@ + Seq::<char>::empty() =~= acc@);
                }
                return Ok((string_of(&acc), i));
            }
        }
    }

    /// Expands one text segment: backslash escapes under the fragment's
    /// quoting rule, `$?`, `$$`, and `$name`/`${name}` variable references.
    pub fn expand_string_segment(&self, segment: &str, is_double_quoted: bool) -> (r: Result<
        String,
        ShellError,
    >)
        ensures
            seg_result_matches(
                r,
                seg_spec(
                    segment@,
                    0,
                    is_double_quoted,
                    env_view(self.environment@),
                    self.last_status,
                    self.pid,
                ),
            ),
    {
        let chars = chars_of(segment);
        match self.seg_expand(&chars, 0, is_double_quoted) {
            Ok(v) => Ok(string_of(&v)),
            Err(e) => Err(e),
        }
    }

    /// The recursive worker behind [`Executor::expand_string_segment`].
    fn seg_expand(&self, chars: &Vec<char>, pos: usize, dq: bool) -> (r: Result<
        Vec<char>,
        ShellError,
    >)
        requires
            pos <= chars@.len(),
        ensures
            ({
                let sp = seg_spec(
                    chars@,
                    pos as nat,
                    dq,
                    env_view(self.environment@),
                    self.last_status,
                    self.pid,
                );
                match r {
                    Ok(v) => sp matches Ok(x) && v@ == x,
                    Err(ShellError::InvalidSyntax(m)) => sp matches Err(mm) && m@ == mm,
                    Err(_) => false,
                }
            }),
        decreases chars@.len() - pos,
    {
        if pos >= chars.len() {
            let empty: Vec<char> = Vec::new();
            return Ok(empty);
        }
        let c = chars[pos];
        if c == '\\' {
            if pos + 1 < chars.len() {
                let d = chars[pos + 1];
                let mut head: Vec<char> = Vec::new();
                if dq {
                    if d == '$' || d == '`' || d == '"' || d == '\\' {
                        head.push(d);
                    } else {
                        head.push('\\');
                        head.push(d);
                    }
                } else {
                    head.push(d);
                }
                match self.seg_expand(chars, pos + 2, dq) {
                    Ok(mut rest) => {
                        let ghost h = head@;
                        let ghost rv = rest@;
                        head.append(&mut rest);
                        proof {
                            assert(head@ =~= h + rv);
                        }
                        Ok(head)
                    },
                    Err(e) => Err(e),
                }
            } else {
                let mut v: Vec<char> = Vec::new();
                v.push('\\');
                proof {
                    assert(v@ =~= seq!['\\']);
                }
                Ok(v)
            }
        } else if c == '$' {
            if pos + 1 < chars.len() && chars[pos + 1] == '?' {
                let mut head = dec_chars(self.last_status);
                match self.seg_expand(chars, pos + 2, dq) {
                    Ok(mut rest) => {
                        let ghost h = head@;
                        let ghost rv = rest@;
                        head.append(&mut rest);
                        proof {
                            assert(head@ =~= h + rv);
                        }
                        Ok(head)
                    },
                    Err(e) => Err(e),
                }
            } else if pos + 1 < chars.len() && chars[pos + 1] == '$' {
                let mut head = dec_chars(self.pid);
                match self.seg_expand(chars, pos + 2, dq) {
                    Ok(mut rest) => {
                        let ghost h = head@;
                        let ghost rv = rest@;
                        head.append(&mut rest);
                        proof {
                            assert(head@ =~= h + rv);
                        }
                        Ok(head)
                    },
                    Err(e) => Err(e),
                }
            } else {
                match self.read_variable_name(chars, pos + 1) {
                    Err(e) => Err(e),
                    Ok((name, j)) => {
                        let mut head: Vec<char> = if name.as_str().unicode_len() == 0 {
                            let mut v: Vec<char> = Vec::new();
                            v.push('$');
                            proof {
                                assert(v@ =~= seq!['$']);
                            }
                            v
                        } else {
                            match self.env_get(name.as_str()) {
                                Some(value) => chars_of(value.as_str()),
                                None => Vec::new(),
                            }
                        };
                        match self.seg_expand(chars, j, dq) {
                            Ok(mut rest) => {
                                let ghost h = head@;
                                let ghost rv = rest@;
                                head.append(&mut rest);
                                proof {
                                    assert(head@ =~= h + rv);
                                }
                                Ok(head)
                            },
                            Err(e) => Err(e),
                        }
                    },
                }
            }
        } else {
            let mut head: Vec<char> = Vec::new();
            head.push(c);
            match self.seg_expand(chars, pos + 1, dq) {
                Ok(mut rest) => {
                    let ghost h = head@;
                    let ghost rv = rest@;
                    head.append(&mut rest);
                    proof {
                        assert(head@ =~= h + rv);
                    }
                    Ok(head)
                },
                Err(e) => Err(e),
            }
        }
    }
}

/// Whether every token is a blank or a line break.
fn tokens_trivial(toks: &Vec<crate::lexer::Token>) -> (r: bool)
    ensures
        r == trivial_tokens(crate::lexer::tokens_view(toks@)),
{
    let ghost tv = crate::lexer::tokens_view(toks@);
    let mut i: usize = 0;
    while i < toks.len()
        invariant
            i <= toks@.len(),
            tv == crate::lexer::tokens_view(toks@),
            forall|k: int| 0 <= k < i ==> (tv[k] is Space || tv[k] is NewLine),
        decreases toks@.len() - i,
    {
        match &toks[i] {
            crate::lexer::Token::Space => {},
            crate::lexer::Token::NewLine => {},
            _ => {
                proof {
                    assert(tv[i as int] == toks@[i as int]@);
                }
                return false;
            },
        }
        proof {
            assert(tv[i as int] == toks@[i as int]@);
        }
        i += 1;
    }
    true
}

/// Appending a part appends its sub-commands.
proof fn lemma_subst_snoc(w: Seq<WordPartV>, p: WordPartV)
    ensures
        word_subst_commands(w.push(p)) == word_subst_commands(w) + part_subst(p),
    decreases w.len(),
{
    if w.len() == 0 {
        assert(w.push(p).drop_first() =~= Seq::<WordPartV>::empty());
        assert(w.push(p)[0] == p);
        assert(word_subst_commands(w.push(p).drop_first()) == Seq::<Seq<char>>::empty());
        assert(word_subst_commands(w.push(p)) == part_subst(p) + Seq::<Seq<char>>::empty());
        assert(part_subst(p) + Seq::<Seq<char>>::empty() =~= part_subst(p));
        assert(word_subst_commands(w) + part_subst(p) =~= part_subst(p));
    } else {
        assert(w.push(p)[0] == w[0]);
        assert(w.push(p).drop_first() =~= w.drop_first().push(p));
        lemma_subst_snoc(w.drop_first(), p);
        assert(word_subst_commands(w.push(p)) == part_subst(w[0]) + (word_subst_commands(
            w.drop_first(),
        ) + part_subst(p)));
        assert(part_subst(w[0]) + (word_subst_commands(w.drop_first()) + part_subst(p)) =~= (
        part_subst(w[0]) + word_subst_commands(w.drop_first())) + part_subst(p));
    }
}

/// The sub-command texts a word needs captured before it can expand: the
/// inner text of each backtick span that actually runs, in order.
pub fn substitution_commands(word: &Word) -> (r: Vec<String>)
    ensures
        r@.map_values(|s: String| s@) == word_subst_commands(word@),
{
    let ghost w = word@;
    let mut out: Vec<String> = Vec::new();
    let mut i: usize = 0;
    proof {
        assert(out@.map_values(|s: String| s@) =~= Seq::<Seq<char>>::empty());
        assert(w.take(0) =~= Seq::<WordPartV>::empty());
    }
    while i < word.parts.len()
        invariant
            i <= word.parts@.len(),
            w == word@,
            w.len() == word.parts@.len(),
            out@.map_values(|s: String| s@) == word_subst_commands(w.take(i as int)),
        decreases word.parts@.len() - i,
    {
        let ghost done = w.take(i as int);
        let ghost outs0 = out@.map_values(|s: String| s@);
        if let WordPart::Simple(s) = &word.parts[i] {
            let cs = chars_of(s.as_str());
            let n = cs.len();
            if n >= 2 && cs[0] == '`' && cs[n - 1] == '`' {
                let mut inner: Vec<char> = Vec::new();
                let mut k: usize = 1;
                while k < n - 1
                    invariant
                        1 <= k <= n - 1,
                        n == cs@.len(),
                        n >= 2,
                        inner@ == cs@.subrange(1, k as int),
                    decreases n - k,
                {
                    inner.push(cs[k]);
                    proof {
                        assert(cs@.subrange(1, k + 1 as int) =~= cs@.subrange(1, k as int).push(
                            cs@[k as int],
                        ));
                    }
                    k += 1;
                }
                if inner.len() > 0 {
                    let inner_str = string_of(&inner);
                    let toks = lex(inner_str.as_str());
                    if toks.len() > 0 && !tokens_trivial(&toks) {
                        out.push(inner_str);
                        proof {
                            assert(out@.map_values(|s: String| s@) =~= outs0.push(inner@));
                            assert(part_subst(w[i as int]) =~= seq![inner@]);
                            assert(outs0.push(inner@) =~= outs0 + seq![inner@]);
                        }
                    }
                }
            }
        }
        proof {
            lemma_subst_snoc(done, w[i as int]);
            assert(w.take(i + 1 as int) =~= done.push(w[i as int]));
            assert(out@.map_values(|s: String| s@) =~= word_subst_commands(w.take(i + 1 as int)));
        }
        i += 1;
    }
    proof {
        assert(w.take(w.len() as int) =~= w);
    }
    out
}

impl Executor {
    /// Expands a word to its final string: each fragment under its quoting
    /// rule, captured substitution outputs — trailing newlines trimmed —
    /// spliced in span order, and everything concatenated.
    pub fn expand_word_to_string(&self, word: &Word, substitutions: &Vec<String>) -> (r: Result<
        String,
        ShellError,
    >)
        ensures
            expand_result_matches(
                r,
                expand_parts_spec(
                    word@,
                    env_view(self.environment@),
                    self.last_status,
                    self.pid,
                    substitutions@.map_values(|s: String| s@),
                ),
            ),
    {
        proof {
            assert(word@.skip(0) =~= word@);
            assert(substitutions@.map_values(|s: String| s@).skip(0) =~= substitutions@.map_values(
                |s: String| s@,
            ));
        }
        match self.expand_parts(word, 0, substitutions, 0) {
            Ok(v) => Ok(string_of(&v)),
            Err(e) => Err(e),
        }
    }

    /// The recursive worker behind [`Executor::expand_word_to_string`]: the
    /// expansion of the fragments from `pi` on, consuming captured outputs
    /// from `si` on.
    fn expand_parts(&self, word: &Word, pi: usize, subs: &Vec<String>, si: usize) -> (r: Result<
        Vec<char>,
        ShellError,
    >)
        requires
            pi <= word.parts@.len(),
            si <= subs@.len(),
        ensures
            ({
                let sp = expand_parts_spec(
                    word@.skip(pi as int),
                    env_view(self.environment@),
                    self.last_status,
                    self.pid,
                    subs@.map_values(|s: String| s@).skip(si as int),
                );
                match r {
                    Ok(v) => sp matches Ok(x) && v@ == x,
                    Err(ShellError::ParseError(m)) => sp matches Err(ExpandErrV::Parse(mm)) && m@
                        == mm,
                    Err(ShellError::InvalidSyntax(m)) => sp matches Err(ExpandErrV::Syntax(mm))
                        && m@ == mm,
                    Err(ShellError::InternalError(_)) => sp matches Err(ExpandErrV::Short),
                    Err(_) => false,
                }
            }),
        decreases word.parts@.len() - pi,
    {
        let ghost wrest = word@.skip(pi as int);
        let ghost orest = subs@.map_values(|s: String| s@).skip(si as int);
        if pi >= word.parts.len() {
            proof {
                assert(wrest =~= Seq::<WordPartV>::empty());
            }
            let empty: Vec<char> = Vec::new();
            return Ok(empty);
        }
        proof {
            assert(wrest[0] == word@[pi as int]);
            assert(wrest.drop_first() =~= word@.skip(pi + 1 as int));
        }
        match &word.parts[pi] {
            WordPart::SingleQuoted(s) => {
                let mut head = chars_of(s.as_str());
                match self.expand_parts(word, pi + 1, subs, si) {
                    Ok(mut rest) => {
                        let ghost h = head@;
                        let ghost rv = rest@;
                        head.append(&mut rest);
                        proof {
                            assert(head@ =~= h + rv);
                        }
                        Ok(head)
                    },
                    Err(e) => Err(e),
                }
            },
            WordPart::DoubleQuoted(s) => {
                let cs = chars_of(s.as_str());
                match self.seg_expand(&cs, 0, true) {
                    Err(e) => Err(e),
                    Ok(mut head) => match self.expand_parts(word, pi + 1, subs, si) {
                        Ok(mut rest) => {
                            let ghost h = head@;
                            let ghost rv = rest@;
                            head.append(&mut rest);
                            proof {
                                assert(head@ =~= h + rv);
                            }
                            Ok(head)
                        },
                        Err(e) => Err(e),
                    },
                }
            },
            WordPart::Simple(s) => {
                let cs = chars_of(s.as_str());
                let n = cs.len();
                if n >= 2 && cs[0] == '`' && cs[n - 1] == '`' {
                    let mut inner: Vec<char> = Vec::new();
                    let mut k: usize = 1;
                    while k < n - 1
                        invariant
                            1 <= k <= n - 1,
                            n == cs@.len(),
                            n >= 2,
                            inner@ == cs@.subrange(1, k as int),
                        decreases n - k,
                    {
                        inner.push(cs[k]);
                        proof {
                            assert(cs@.subrange(1, k + 1 as int) =~= cs@.subrange(
                                1,
                                k as int,
                            ).push(cs@[k as int]));
                        }
                        k += 1;
                    }
                    let runs: bool = if inner.len() == 0 {
                        false
                    } else {
                        let inner_str = string_of(&inner);
                        let toks = lex(inner_str.as_str());
                        toks.len() > 0 && !tokens_trivial(&toks)
                    };
                    if !runs {
                        return self.expand_parts(word, pi + 1, subs, si);
                    }
                    let inner_str = string_of(&inner);
                    let toks = lex(inner_str.as_str());
                    match parse(toks.as_slice()) {
                        Err(m) => Err(ShellError::ParseError(m)),
                        Ok(_) => {
                            if si >= subs.len() {
                                return Err(
                                    ShellError::InternalError(
                                        String::from_str(
                                            "missing captured output for a command substitution",
                                        ),
                                    ),
                                );
                            }
                            proof {
                                assert(orest[0] == subs@.map_values(|s: String| s@)[si as int]);
                                assert(orest.drop_first() =~= subs@.map_values(
                                    |s: String| s@,
                                ).skip(si + 1 as int));
                            }
                            let mut head = chars_of(
                                trim_trailing_newlines(subs[si].as_str()).as_str(),
                            );
                            match self.expand_parts(word, pi + 1, subs, si + 1) {
                                Ok(mut rest) => {
                                    let ghost h = head@;
                                    let ghost rv = rest@;
                                    head.append(&mut rest);
                                    proof {
                                        assert(head@ =~= h + rv);
                                    }
                                    Ok(head)
                                },
                                Err(e) => Err(e),
                            }
                        },
                    }
                } else {
                    match self.seg_expand(&cs, 0, false) {
                        Err(e) => Err(e),
                        Ok(mut head) => match self.expand_parts(word, pi + 1, subs, si) {
                            Ok(mut rest) => {
                                let ghost h = head@;
                                let ghost rv = rest@;
                                head.append(&mut rest);
                                proof {
                                    assert(head@ =~= h + rv);
                                }
                                Ok(head)
                            },
                            Err(e) => Err(e),
                        },
                    }
                }
            },
        }
    }
}

} // verus!
