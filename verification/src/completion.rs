//! Command completion: the pure matching logic.  Scanning `PATH` for
//! executables and listing directories is outside work; this module decides
//! what a line's last word asks for and which known names match it.

use vstd::prelude::*;
use crate::text::{chars_of, is_white, str_eq, string_of, white};

verus! {

/// The names among `items` that start with `p`.
pub open spec fn prefixed_spec(items: Seq<Seq<char>>, p: Seq<char>) -> Seq<Seq<char>>
    decreases items.len(),
{
    if items.len() == 0 {
        Seq::empty()
    } else {
        let rest = prefixed_spec(items.drop_first(), p);
        if p.is_prefix_of(items[0]) {
            seq![items[0]] + rest
        } else {
            rest
        }
    }
}

/// Whether `p` is a prefix of `s`.
fn has_prefix(s: &str, p: &str) -> (r: bool)
    ensures
        r == p@.is_prefix_of(s@),
{
    let sc = chars_of(s);
    let pc = chars_of(p);
    if pc.len() > sc.len() {
        return false;
    }
    let mut i: usize = 0;
    while i < pc.len()
        invariant
            i <= pc@.len(),
            pc@.len() <= sc@.len(),
            sc@ == s@,
            pc@ == p@,
            forall|k: int| 0 <= k < i ==> pc@[k] == sc@[k],
        decreases pc@.len() - i,
    {
        if pc[i] != sc[i] {
            return false;
        }
        i += 1;
    }
    proof {
        assert(p@ =~= s@.subrange(0, p@.len() as int));
    }
    true
}

/// Appending an item extends the matches accordingly.
proof fn lemma_prefixed_snoc(items: Seq<Seq<char>>, x: Seq<char>, p: Seq<char>)
    ensures
        prefixed_spec(items.push(x), p) == prefixed_spec(items, p) + (if p.is_prefix_of(x) {
            seq![x]
        } else {
            Seq::<Seq<char>>::empty()
        }),
    decreases items.len(),
{
    let tail: Seq<Seq<char>> = if p.is_prefix_of(x) {
        seq![x]
    } else {
        Seq::empty()
    };
    if items.len() == 0 {
        assert(items.push(x)[0] == x);
        assert(items.push(x).drop_first() =~= Seq::<Seq<char>>::empty());
        assert(prefixed_spec(items.push(x).drop_first(), p) == Seq::<Seq<char>>::empty());
        if p.is_prefix_of(x) {
            assert(prefixed_spec(items.push(x), p) =~= seq![x]);
            assert(prefixed_spec(items, p) + tail =~= seq![x]);
        } else {
            assert(prefixed_spec(items, p) + tail =~= Seq::<Seq<char>>::empty());
        }
    } else {
        assert(items.push(x)[0] == items[0]);
        assert(items.push(x).drop_first() =~= items.drop_first().push(x));
        lemma_prefixed_snoc(items.drop_first(), x, p);
        if p.is_prefix_of(items[0]) {
            assert(seq![items[0]] + (prefixed_spec(items.drop_first(), p) + tail) =~= (seq![
                items[0],
            ] + prefixed_spec(items.drop_first(), p)) + tail);
        }
    }
}

/// The items that start with `prefix`, in their original order.
pub fn filter_prefixed(items: &Vec<String>, prefix: &str) -> (r: Vec<String>)
    ensures
        r@.map_values(|s: String| s@) == prefixed_spec(
            items@.map_values(|s: String| s@),
            prefix@,
        ),
{
    let ghost iv = items@.map_values(|s: String| s@);
    let mut out: Vec<String> = Vec::new();
    let mut i: usize = 0;
    proof {
        assert(out@.map_values(|s: String| s@) =~= Seq::<Seq<char>>::empty());
        assert(iv.take(0) =~= Seq::<Seq<char>>::empty());
    }
    while i < items.len()
        invariant
            i <= items@.len(),
            iv == items@.map_values(|s: String| s@),
            out@.map_values(|s: String| s@) == prefixed_spec(iv.take(i as int), prefix@),
        decreases items@.len() - i,
    {
        let ghost outs0 = out@.map_values(|s: String| s@);
        if has_prefix(items[i].as_str(), prefix) {
            out.push(items[i].clone());
            proof {
                assert(out@.map_values(|s: String| s@) =~= outs0.push(iv[i as int]));
                assert(outs0.push(iv[i as int]) =~= outs0 + seq![iv[i as int]]);
            }
        }
        proof {
            lemma_prefixed_snoc(iv.take(i as int), iv[i as int], prefix@);
            assert(iv.take(i + 1 as int) =~= iv.take(i as int).push(iv[i as int]));
            if !prefix@.is_prefix_of(iv[i as int]) {
                assert(outs0 + Seq::<Seq<char>>::empty() =~= outs0);
            }
        }
        i += 1;
    }
    proof {
        assert(iv.take(iv.len() as int) =~= iv);
    }
    out
}

/// The whitespace-separated words of a line.
pub open spec fn split_ws_spec(s: Seq<char>, i: nat, acc: Seq<char>) -> Seq<Seq<char>>
    decreases s.len() - i,
{
    if i >= s.len() {
        if acc.len() > 0 {
            seq![acc]
        } else {
            Seq::empty()
        }
    } else if white(s[i as int]) {
        if acc.len() > 0 {
            seq![acc] + split_ws_spec(s, i + 1, Seq::empty())
        } else {
            split_ws_spec(s, i + 1, Seq::empty())
        }
    } else {
        split_ws_spec(s, i + 1, acc.push(s[i as int]))
    }
}

/// Splits a line into its whitespace-separated words.
pub fn split_words(line: &str) -> (r: Vec<String>)
    ensures
        r@.map_values(|s: String| s@) == split_ws_spec(line@, 0, Seq::empty()),
{
    let ghost s = line@;
    let cs = chars_of(line);
    let mut out: Vec<String> = Vec::new();
    let mut acc: Vec<char> = Vec::new();
    let mut i: usize = 0;
    proof {
        assert(out@.map_values(|q: String| q@) =~= Seq::<Seq<char>>::empty());
        assert(Seq::<Seq<char>>::empty() + split_ws_spec(s, 0, Seq::empty()) =~= split_ws_spec(
            s,
            0,
            Seq::empty(),
        ));
    }
    while i < cs.len()
        invariant
            i <= cs@.len(),
            cs@ == s,
            split_ws_spec(s, 0, Seq::empty()) == out@.map_values(|q: String| q@) + split_ws_spec(
                s,
                i as nat,
                acc@,
            ),
        decreases cs@.len() - i,
    {
        let c = cs[i];
        if is_white(c) {
            if acc.len() > 0 {
                let ghost outs0 = out@.map_values(|q: String| q@);
                let ghost tail = split_ws_spec(s, (i + 1) as nat, Seq::empty());
                out.push(string_of(&acc));
                proof {
                    assert(out@.map_values(|q: String| q@) =~= outs0.push(acc@));
                    assert(outs0 + (seq![acc@] + tail) =~= outs0.push(acc@) + tail);
                }
                acc = Vec::new();
                proof {
                    assert(acc@ =~= Seq::<char>::empty());
                }
            } else {
                proof {
                    assert(acc@ =~= Seq::<char>::empty());
                }
            }
            i += 1;
        } else {
            acc.push(c);
            i += 1;
        }
    }
    if acc.len() > 0 {
        let ghost outs0 = out@.map_values(|q: String| q@);
        out.push(string_of(&acc));
        proof {
            assert(out@.map_values(|q: String| q@) =~= outs0.push(acc@));
            assert(split_ws_spec(s, s.len(), acc@) =~= seq![acc@]);
            assert(outs0 + seq![acc@] =~= outs0.push(acc@));
        }
    } else {
        proof {
            assert(split_ws_spec(s, s.len(), acc@) =~= Seq::<Seq<char>>::empty());
            assert(out@.map_values(|q: String| q@) + Seq::<Seq<char>>::empty() =~= out@.map_values(
                |q: String| q@,
            ));
        }
    }
    out
}

/// The index of the last `/` in `s`, or a negative number when none occurs.
pub open spec fn last_slash_spec(s: Seq<char>) -> int
    decreases s.len(),
{
    if s.len() == 0 {
        -1
    } else if s.last() == '/' {
        s.len() - 1
    } else {
        last_slash_spec(s.drop_last())
    }
}

/// What a completion request resolves to: finished matches, or a directory
/// whose entries the caller must list and filter.
#[derive(Debug)]
pub enum Completion {
    /// The matching names, in their table order.
    Matches(Vec<String>),
    /// Complete the last word as a path: list `dir` and keep the entries
    /// starting with `prefix`.
    ArgumentQuery { dir: String, prefix: String },
}

/// The completion engine: the table of known command names.
pub struct Completer {
    pub commands: Vec<String>,
}

impl Completer {
    /// A completer over the given command names.
    pub fn new(commands: Vec<String>) -> (r: Completer)
        ensures
            r.commands == commands,
    {
        Completer { commands }
    }

    /// The known command names starting with `prefix`.
    pub fn complete_command(&self, prefix: &str) -> (r: Vec<String>)
        ensures
            r@.map_values(|s: String| s@) == prefixed_spec(
                self.commands@.map_values(|s: String| s@),
                prefix@,
            ),
    {
        filter_prefixed(&self.commands, prefix)
    }

    /// What completing `line` asks for: every known command on an empty
    /// line, the matching commands for a single word, and a directory
    /// listing request for a later word.
    pub fn complete(&self, line: &str) -> (r: Completion)
        ensures
            ({
                let ws = split_ws_spec(line@, 0, Seq::empty());
                if ws.len() == 0 {
                    r matches Completion::Matches(m) && m@.map_values(|s: String| s@)
                        == self.commands@.map_values(|s: String| s@)
                } else if ws.len() == 1 {
                    r matches Completion::Matches(m) && m@.map_values(|s: String| s@)
                        == prefixed_spec(self.commands@.map_values(|s: String| s@), ws[0])
                } else {
                    r matches Completion::ArgumentQuery { dir, prefix } && ({
                        let w = ws.last();
                        let k = last_slash_spec(w);
                        if k < 0 {
                            dir@ == "."@ && prefix@ == w
                        } else if k == 0 {
                            dir@ == "/"@ && prefix@ == w.skip(1)
                        } else {
                            dir@ == w.take(k) && prefix@ == w.skip(k + 1)
                        }
                    })
                }
            }),
    {
        let words = split_words(line);
        if words.len() == 0 {
            let mut all: Vec<String> = Vec::new();
            let mut i: usize = 0;
            while i < self.commands.len()
                invariant
                    i <= self.commands@.len(),
                    all@.map_values(|s: String| s@) == self.commands@.map_values(
                        |s: String| s@,
                    ).take(i as int),
                decreases self.commands@.len() - i,
            {
                all.push(self.commands[i].clone());
                proof {
                    let cv = self.commands@.map_values(|s: String| s@);
                    assert(all@.map_values(|s: String| s@) =~= cv.take(i as int).push(
                        cv[i as int],
                    ));
                    assert(cv.take(i + 1 as int) =~= cv.take(i as int).push(cv[i as int]));
                }
                i += 1;
            }
            proof {
                let cv = self.commands@.map_values(|s: String| s@);
                assert(cv.take(cv.len() as int) =~= cv);
            }
            return Completion::Matches(all);
        }
        if words.len() == 1 {
            return Completion::Matches(self.complete_command(words[0].as_str()));
        }
        let last = &words[words.len() - 1];
        let cs = chars_of(last.as_str());
        let ghost w = last@;
        let mut slash: usize = cs.len();
        let mut i: usize = cs.len();
        while i > 0
            invariant
                i <= cs@.len(),
                slash <= cs@.len(),
                slash == cs@.len() ==> forall|k: int| i <= k < cs@.len() ==> cs@[k] != '/',
                slash < cs@.len() ==> i <= slash && cs@[slash as int] == '/' && (forall|k: int|
                    slash < k < cs@.len() ==> cs@[k] != '/'),
            decreases i,
        {
            i -= 1;
            if cs[i] == '/' && slash == cs.len() {
                slash = i;
            }
        }
        proof {
            if slash == cs@.len() {
                assert(forall|k: int| 0 <= k < cs@.len() ==> cs@[k] != '/');
                lemma_no_slash(w);
            } else {
                assert(cs@[slash as int] == '/');
                assert(forall|k: int| slash < k < cs@.len() ==> cs@[k] != '/');
                lemma_last_slash_unique(w, slash as int);
            }
        }
        if slash == cs.len() {
            let mut pre: Vec<char> = Vec::new();
            let mut k: usize = 0;
            while k < cs.len()
                invariant
                    k <= cs@.len(),
                    pre@ == cs@.take(k as int),
                decreases cs@.len() - k,
            {
                pre.push(cs[k]);
                proof {
                    assert(cs@.take(k + 1 as int) =~= cs@.take(k as int).push(cs@[k as int]));
                }
                k += 1;
            }
            proof {
                assert(cs@.take(cs@.len() as int) =~= cs@);
            }
            return Completion::ArgumentQuery {
                dir: String::from_str("."),
                prefix: string_of(&pre),
            };
        }
        let mut dirv: Vec<char> = Vec::new();
        let mut k: usize = 0;
        while k < slash
            invariant
                k <= slash <= cs@.len(),
                dirv@ == cs@.take(k as int),
            decreases slash - k,
        {
            dirv.push(cs[k]);
            proof {
                assert(cs@.take(k + 1 as int) =~= cs@.take(k as int).push(cs@[k as int]));
            }
            k += 1;
        }
        let mut prev: Vec<char> = Vec::new();
        let mut m: usize = slash + 1;
        while m < cs.len()
            invariant
                slash + 1 <= m <= cs@.len(),
                prev@ == cs@.subrange(slash + 1 as int, m as int),
            decreases cs@.len() - m,
        {
            prev.push(cs[m]);
            proof {
                assert(cs@.subrange(slash + 1 as int, m + 1 as int) =~= cs@.subrange(
                    slash + 1 as int,
                    m as int,
                ).push(cs@[m as int]));
            }
            m += 1;
        }
        proof {
            assert(prev@ =~= w.skip(slash + 1 as int));
            assert(dirv@ =~= w.take(slash as int));
        }
        if slash == 0 {
            return Completion::ArgumentQuery {
                dir: String::from_str("/"),
                prefix: string_of(&prev),
            };
        }
        Completion::ArgumentQuery { dir: string_of(&dirv), prefix: string_of(&prev) }
    }
}


/// Strict lexicographic order on character sequences, by code point.
pub open spec fn lex_lt(a: Seq<char>, b: Seq<char>) -> bool
    decreases a.len(),
{
    if b.len() == 0 {
        false
    } else if a.len() == 0 {
        true
    } else if (a[0] as u32) < (b[0] as u32) {
        true
    } else if (a[0] as u32) > (b[0] as u32) {
        false
    } else {
        lex_lt(a.drop_first(), b.drop_first())
    }
}

/// Nothing is lexicographically below itself.
proof fn lemma_lex_lt_irrefl(a: Seq<char>)
    ensures
        !lex_lt(a, a),
    decreases a.len(),
{
    if a.len() > 0 {
        lemma_lex_lt_irrefl(a.drop_first());
    }
}

/// Two sequences are equal or one is lexicographically below the other.
proof fn lemma_lex_lt_connected(a: Seq<char>, b: Seq<char>)
    ensures
        a == b || lex_lt(a, b) || lex_lt(b, a),
    decreases a.len(),
{
    if a.len() == 0 {
        if b.len() == 0 {
            assert(a =~= b);
        }
    } else if b.len() > 0 {
        if (a[0] as u32) == (b[0] as u32) {
            lemma_lex_lt_connected(a.drop_first(), b.drop_first());
            if a.drop_first() == b.drop_first() {
                assert(a.drop_first().len() == a.len() - 1);
                assert(b.drop_first().len() == b.len() - 1);
                assert(a =~= b) by {
                    assert(a.len() == b.len());
                    vstd::utf8::char_u32_cast(a[0], a[0] as u32);
                    vstd::utf8::char_u32_cast(b[0], b[0] as u32);
                    assert(a[0] == b[0]);
                    assert(forall|k: int|
                        1 <= k < a.len() ==> a[k] == a.drop_first()[k - 1] && b[k]
                            == b.drop_first()[k - 1]);
                }
            }
        }
    }
}

/// Lexicographic order is transitive.
proof fn lemma_lex_lt_trans(a: Seq<char>, b: Seq<char>, c: Seq<char>)
    requires
        lex_lt(a, b),
        lex_lt(b, c),
    ensures
        lex_lt(a, c),
    decreases a.len(),
{
    if a.len() > 0 && b.len() > 0 && c.len() > 0 {
        if (a[0] as u32) == (b[0] as u32) && (b[0] as u32) == (c[0] as u32) {
            lemma_lex_lt_trans(a.drop_first(), b.drop_first(), c.drop_first());
        }
    }
}

/// The character-sequence views of a table of names.
pub open spec fn names_view(v: Seq<String>) -> Seq<Seq<char>> {
    v.map_values(|s: String| s@)
}

/// A strictly ascending table of names.
pub open spec fn sorted_names(s: Seq<Seq<char>>) -> bool {
    forall|i: int| 0 <= i < s.len() - 1 ==> #[trigger] lex_lt(s[i], s[i + 1])
}

/// In an ascending table, earlier entries are below later ones.
proof fn lemma_sorted_lt(s: Seq<Seq<char>>, i: int, j: int)
    requires
        sorted_names(s),
        0 <= i < j < s.len(),
    ensures
        lex_lt(s[i], s[j]),
    decreases j - i,
{
    if j == i + 1 {
        assert(lex_lt(s[i], s[i + 1]));
    } else {
        lemma_sorted_lt(s, i, j - 1);
        assert(lex_lt(s[j - 1], s[j - 1 + 1]));
        lemma_lex_lt_trans(s[i], s[j - 1], s[j]);
    }
}

/// Law: an ascending table holds no name twice.
pub proof fn lemma_sorted_distinct(s: Seq<Seq<char>>)
    requires
        sorted_names(s),
    ensures
        forall|i: int, j: int| 0 <= i < j < s.len() ==> s[i] != s[j],
{
    assert forall|i: int, j: int| 0 <= i < j < s.len() implies s[i] != s[j] by {
        lemma_sorted_lt(s, i, j);
        lemma_lex_lt_irrefl(s[i]);
    }
}

/// Membership over an appended element.
proof fn lemma_contains_push(s: Seq<Seq<char>>, e: Seq<char>, x: Seq<char>)
    ensures
        s.push(e).contains(x) <==> s.contains(x) || x == e,
{
    if s.push(e).contains(x) {
        let k = choose|k: int| 0 <= k < s.push(e).len() && s.push(e)[k] == x;
        if k < s.len() {
            assert(s[k] == x);
        }
    }
    if s.contains(x) {
        let k = choose|k: int| 0 <= k < s.len() && s[k] == x;
        assert(s.push(e)[k] == x);
    }
    if x == e {
        assert(s.push(e)[s.len() as int] == x);
    }
}

/// Whether `a` comes strictly before `b` in the table order.
fn str_lt(a: &str, b: &str) -> (r: bool)
    ensures
        r == lex_lt(a@, b@),
{
    let ac = chars_of(a);
    let bc = chars_of(b);
    let mut i: usize = 0;
    proof {
        assert(a@.skip(0) =~= a@);
        assert(b@.skip(0) =~= b@);
    }
    loop
        invariant
            i <= ac@.len(),
            i <= bc@.len(),
            ac@ == a@,
            bc@ == b@,
            lex_lt(a@, b@) == lex_lt(a@.skip(i as int), b@.skip(i as int)),
        decreases ac@.len() - i,
    {
        let ghost ar = a@.skip(i as int);
        let ghost br = b@.skip(i as int);
        if i >= bc.len() {
            proof {
                assert(br.len() == 0);
            }
            return false;
        }
        if i >= ac.len() {
            proof {
                assert(ar.len() == 0 && br.len() > 0);
            }
            return true;
        }
        let x = ac[i] as u32;
        let y = bc[i] as u32;
        proof {
            assert(ar[0] == a@[i as int]);
            assert(br[0] == b@[i as int]);
        }
        if x < y {
            return true;
        }
        if x > y {
            return false;
        }
        proof {
            assert(a@.skip(i + 1 as int) =~= ar.drop_first());
            assert(b@.skip(i + 1 as int) =~= br.drop_first());
        }
        i += 1;
    }
}

/// Inserts a name into an ascending table, keeping it ascending; a name
/// already present is left alone.
fn insert_name(v: &mut Vec<String>, name: String)
    requires
        sorted_names(names_view(old(v)@)),
    ensures
        sorted_names(names_view(final(v)@)),
        forall|x: Seq<char>|
            #[trigger] names_view(final(v)@).contains(x) <==> names_view(old(v)@).contains(x)
                || x == name@,
{
    let ghost vs = names_view(v@);
    let n = v.len();
    let mut i: usize = 0;
    while i < n && str_lt(v[i].as_str(), name.as_str())
        invariant
            i <= n,
            n == v@.len(),
            vs == names_view(v@),
            sorted_names(vs),
            forall|k: int| 0 <= k < i ==> lex_lt(vs[k], name@),
        decreases n - i,
    {
        i += 1;
    }
    if i < v.len() && str_eq(v[i].as_str(), name.as_str()) {
        proof {
            assert(vs[i as int] == name@);
            assert forall|x: Seq<char>| #[trigger] vs.contains(x) <==> vs.contains(x) || x
                == name@ by {
                if x == name@ {
                    assert(vs[i as int] == x);
                }
            }
        }
        return ;
    }
    proof {
        if i < vs.len() {
            lemma_lex_lt_connected(vs[i as int], name@);
        }
    }
    v.insert(i, name);
    proof {
        let ws = names_view(v@);
        assert(ws =~= vs.insert(i as int, name@));
        assert forall|p: int| 0 <= p < ws.len() - 1 implies #[trigger] lex_lt(ws[p], ws[p + 1]) by {
            if p + 1 < i {
                assert(ws[p] == vs[p] && ws[p + 1] == vs[p + 1]);
                assert(lex_lt(vs[p], vs[p + 1]));
            } else if p + 1 == i {
                assert(ws[p] == vs[p] && ws[p + 1] == name@);
                assert(lex_lt(vs[p], name@));
            } else if p == i {
                assert(ws[p] == name@ && ws[p + 1] == vs[p]);
                assert(vs[i as int] != name@);
                assert(!lex_lt(vs[i as int], name@));
                assert(lex_lt(name@, vs[i as int]));
            } else {
                assert(ws[p] == vs[p - 1] && ws[p + 1] == vs[p]);
                assert(lex_lt(vs[p - 1], vs[p - 1 + 1]));
            }
        }
        assert forall|x: Seq<char>| #[trigger] ws.contains(x) <==> vs.contains(x) || x
            == name@ by {
            if ws.contains(x) {
                let k = choose|k: int| 0 <= k < ws.len() && ws[k] == x;
                if k < i {
                    assert(vs[k] == x);
                } else if k == i {
                } else {
                    assert(vs[k - 1] == x);
                }
            }
            if vs.contains(x) {
                let k = choose|k: int| 0 <= k < vs.len() && vs[k] == x;
                if k < i {
                    assert(ws[k] == x);
                } else {
                    assert(ws[k + 1] == x);
                }
            }
            if x == name@ {
                assert(ws[i as int] == x);
            }
        }
    }
}

/// Builds the completion table: every given name and every builtin name,
/// ascending and without duplicates.
pub fn command_table(names: &Vec<String>) -> (r: Vec<String>)
    ensures
        sorted_names(names_view(r@)),
        forall|i: int, j: int|
            0 <= i < j < r@.len() ==> names_view(r@)[i] != names_view(r@)[j],
        forall|x: Seq<char>|
            #[trigger] names_view(r@).contains(x) <==> names_view(names@).contains(x)
                || crate::utils::is_builtin_spec(x),
{
    let ghost nv = names_view(names@);
    let mut out: Vec<String> = Vec::new();
    let mut i: usize = 0;
    proof {
        assert(names_view(out@) =~= Seq::<Seq<char>>::empty());
        assert(nv.take(0) =~= Seq::<Seq<char>>::empty());
    }
    while i < names.len()
        invariant
            i <= names@.len(),
            nv == names_view(names@),
            sorted_names(names_view(out@)),
            forall|x: Seq<char>|
                #[trigger] names_view(out@).contains(x) <==> nv.take(i as int).contains(x),
        decreases names@.len() - i,
    {
        insert_name(&mut out, names[i].clone());
        proof {
            assert(nv.take(i + 1 as int) =~= nv.take(i as int).push(nv[i as int]));
            assert forall|x: Seq<char>|
                #[trigger] nv.take(i + 1 as int).contains(x) <==> nv.take(i as int).contains(x)
                    || x == nv[i as int] by {
                lemma_contains_push(nv.take(i as int), nv[i as int], x);
            }
        }
        i += 1;
    }
    proof {
        assert(nv.take(nv.len() as int) =~= nv);
    }
    insert_name(&mut out, String::from_str("exit"));
    insert_name(&mut out, String::from_str("echo"));
    insert_name(&mut out, String::from_str("type"));
    insert_name(&mut out, String::from_str("pwd"));
    insert_name(&mut out, String::from_str("cd"));
    insert_name(&mut out, String::from_str("alias"));
    insert_name(&mut out, String::from_str("unalias"));
    insert_name(&mut out, String::from_str("export"));
    insert_name(&mut out, String::from_str("unset"));
    insert_name(&mut out, String::from_str("history"));
    insert_name(&mut out, String::from_str("jobs"));
    insert_name(&mut out, String::from_str("fg"));
    insert_name(&mut out, String::from_str("bg"));
    insert_name(&mut out, String::from_str("kill"));
    insert_name(&mut out, String::from_str("wait"));
    proof {
        lemma_sorted_distinct(names_view(out@));
    }
    out
}

/// A position holding `/`, with nothing later holding it, is the last
/// slash.
pub proof fn lemma_last_slash_unique(s: Seq<char>, k: int)
    requires
        0 <= k < s.len(),
        s[k] == '/',
        forall|j: int| k < j < s.len() ==> s[j] != '/',
    ensures
        last_slash_spec(s) == k,
    decreases s.len(),
{
    if s.len() > 0 {
        if s.last() == '/' {
            assert(k == s.len() - 1);
        } else {
            assert(s.drop_last()[k] == s[k]);
            assert forall|j: int| k < j < s.drop_last().len() implies s.drop_last()[j] != '/' by {
                assert(s.drop_last()[j] == s[j]);
            }
            lemma_last_slash_unique(s.drop_last(), k);
        }
    }
}

/// A string without a slash has no last slash.
pub proof fn lemma_no_slash(s: Seq<char>)
    requires
        forall|j: int| 0 <= j < s.len() ==> s[j] != '/',
    ensures
        last_slash_spec(s) < 0,
    decreases s.len(),
{
    if s.len() > 0 {
        assert forall|j: int| 0 <= j < s.drop_last().len() implies s.drop_last()[j] != '/' by {
            assert(s.drop_last()[j] == s[j]);
        }
        lemma_no_slash(s.drop_last());
    }
}

} // verus!
