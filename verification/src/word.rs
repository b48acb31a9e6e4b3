//! The word model: a word is an ordered run of differently quoted fragments,
//! and its final string value exists only once each fragment's escape rule has
//! been applied.

use vstd::prelude::*;
use crate::text::{chars_of, string_of};

verus! {

/// One quoting-tagged fragment of a word.
///
/// `Simple` text is unquoted: a backslash there escapes the next character.
/// `SingleQuoted` text is fully literal.  `DoubleQuoted` text keeps a
/// restricted escape set and is subject to substitution at expansion time.
#[verifier::ext_equal]
#[derive(Debug, Clone, PartialEq)]
pub enum WordPart {
    Simple(String),
    SingleQuoted(String),
    DoubleQuoted(String),
}

/// The mathematical shape of a word part: the same three tags over plain
/// character sequences.
pub enum WordPartV {
    Simple(Seq<char>),
    SingleQuoted(Seq<char>),
    DoubleQuoted(Seq<char>),
}

impl View for WordPart {
    type V = WordPartV;

    open spec fn view(&self) -> WordPartV {
        match self {
            WordPart::Simple(s) => WordPartV::Simple(s@),
            WordPart::SingleQuoted(s) => WordPartV::SingleQuoted(s@),
            WordPart::DoubleQuoted(s) => WordPartV::DoubleQuoted(s@),
        }
    }
}

/// A word: an ordered sequence of quoting-tagged fragments.  A word with no
/// parts stands for the empty string.
#[verifier::ext_equal]
#[derive(Debug, Clone, PartialEq)]
pub struct Word {
    pub parts: Vec<WordPart>,
}

impl View for Word {
    type V = Seq<WordPartV>;

    open spec fn view(&self) -> Seq<WordPartV> {
        self.parts@.map_values(|p: WordPart| p@)
    }
}

/// The escape-processed form of one fragment's raw text, shared by
/// [`process_escapes`] and the contracts built on it; the same escape rules
/// the expander applies, without its substitutions.
///
/// Outside double quotes a backslash removes itself and the next character
/// is kept literally, whatever it is — there is no C-style escape table.
/// Inside double quotes only `\$`, `` \` ``, `\"` and `\\` reduce to their
/// bare character; any other escape keeps both characters.  A trailing
/// backslash stays.
pub open spec fn escapes_spec(s: Seq<char>, dq: bool) -> Seq<char>
    decreases s.len(),
{
    if s.len() == 0 {
        Seq::empty()
    } else if s[0] == '\\' {
        if s.len() == 1 {
            seq!['\\']
        } else {
            let c = s[1];
            let head: Seq<char> = if dq {
                if c == '$' || c == '`' || c == '"' || c == '\\' {
                    seq![c]
                } else {
                    seq!['\\', c]
                }
            } else {
                seq![c]
            };
            head + escapes_spec(s.skip(2), dq)
        }
    } else {
        seq![s[0]] + escapes_spec(s.skip(1), dq)
    }
}

/// The escape-processed string of one word part.
pub open spec fn part_string_spec(p: WordPartV) -> Seq<char> {
    match p {
        WordPartV::Simple(s) => escapes_spec(s, false),
        WordPartV::SingleQuoted(s) => s,
        WordPartV::DoubleQuoted(s) => escapes_spec(s, true),
    }
}

/// The escape-processed string of a whole word: its parts' strings in order.
pub open spec fn word_string_spec(parts: Seq<WordPartV>) -> Seq<char>
    decreases parts.len(),
{
    if parts.len() == 0 {
        Seq::empty()
    } else {
        part_string_spec(parts[0]) + word_string_spec(parts.drop_first())
    }
}

/// What [`Word::push_str`] leaves behind: text glued onto a trailing `Simple`
/// fragment, or a fresh `Simple` fragment when none ends the word.
pub open spec fn push_str_spec(parts: Seq<WordPartV>, s: Seq<char>) -> Seq<WordPartV> {
    if parts.len() > 0 && parts.last() is Simple {
        parts.update(parts.len() - 1, WordPartV::Simple(parts.last()->Simple_0 + s))
    } else {
        parts.push(WordPartV::Simple(s))
    }
}

impl Word {
    /// An empty word.
    pub fn new() -> (r: Word)
        ensures
            r@ == Seq::<WordPartV>::empty(),
    {
        let r = Word { parts: Vec::new() };
        proof {
            assert(r@ =~= Seq::<WordPartV>::empty());
        }
        r
    }

    /// Appends one fragment.
    pub fn add_part(&mut self, part: WordPart)
        ensures
            final(self)@ == old(self)@.push(part@),
    {
        let ghost p = part@;
        self.parts.push(part);
        proof {
            assert(self@ =~= old(self)@.push(p));
        }
    }

    /// The escape-processed string of the word.  This is not the word's final
    /// value — substitution happens at expansion time — but it is the form the
    /// parser inspects, e.g. to tell a descriptor target from a file target.
    pub fn to_string(&self) -> (r: String)
        ensures
            r@ == word_string_spec(self@),
    {
        let mut out: Vec<char> = Vec::new();
        let mut i: usize = 0;
        while i < self.parts.len()
            invariant
                i <= self.parts@.len(),
                self@.len() == self.parts@.len(),
                out@ == word_string_spec(self@.take(i as int)),
            decreases self.parts@.len() - i,
        {
            let ghost done = self@.take(i as int);
            let mut piece: Vec<char> = match &self.parts[i] {
                WordPart::Simple(s) => process_escape_chars(&chars_of(s.as_str()), false),
                WordPart::SingleQuoted(s) => chars_of(s.as_str()),
                WordPart::DoubleQuoted(s) => process_escape_chars(&chars_of(s.as_str()), true),
            };
            assert(piece@ == part_string_spec(self@[i as int]));
            out.append(&mut piece);
            proof {
                lemma_word_string_snoc(done, self@[i as int]);
                assert(self@.take(i + 1 as int) =~= done.push(self@[i as int]));
            }
            i += 1;
        }
        proof {
            assert(self@.take(self@.len() as int) =~= self@);
        }
        string_of(&out)
    }

    /// Glues text onto the end of the word, extending a trailing unquoted
    /// fragment when there is one.
    pub fn push_str(&mut self, s: &str)
        ensures
            final(self)@ == push_str_spec(old(self)@, s@),
    {
        let n = self.parts.len();
        let mut extend = false;
        if n > 0 {
            if let WordPart::Simple(_) = &self.parts[n - 1] {
                extend = true;
            }
        }
        if extend {
            if let WordPart::Simple(last) = &self.parts[n - 1] {
                let mut grown = last.clone();
                grown.append(s);
                self.parts.set(n - 1, WordPart::Simple(grown));
                proof {
                    assert(self@ =~= push_str_spec(old(self)@, s@));
                }
                return;
            }
        }
        self.parts.push(WordPart::Simple(s.to_owned()));
        proof {
            assert(self@ =~= push_str_spec(old(self)@, s@));
        }
    }
}

impl WordPart {
    /// A fresh copy of the fragment, with the same view.
    pub fn duplicate(&self) -> (r: WordPart)
        ensures
            r@ == self@,
    {
        match self {
            WordPart::Simple(s) => WordPart::Simple(s.clone()),
            WordPart::SingleQuoted(s) => WordPart::SingleQuoted(s.clone()),
            WordPart::DoubleQuoted(s) => WordPart::DoubleQuoted(s.clone()),
        }
    }
}

impl Word {
    /// A fresh copy of the word, with the same view.
    pub fn duplicate(&self) -> (r: Word)
        ensures
            r@ == self@,
    {
        let mut parts: Vec<WordPart> = Vec::new();
        let mut i: usize = 0;
        while i < self.parts.len()
            invariant
                i <= self.parts@.len(),
                parts@.map_values(|p: WordPart| p@) == self@.take(i as int),
                self@.len() == self.parts@.len(),
            decreases self.parts@.len() - i,
        {
            parts.push(self.parts[i].duplicate());
            proof {
                assert(parts@.map_values(|p: WordPart| p@) =~= parts@.drop_last().map_values(
                    |p: WordPart| p@,
                ).push(parts@.last()@));
                assert(self@.take(i + 1 as int) =~= self@.take(i as int).push(self@[i as int]));
            }
            i += 1;
        }
        proof {
            assert(self@.take(self@.len() as int) =~= self@);
        }
        let r = Word { parts };
        r
    }
}

/// Appending one part appends its string to the word's string.
pub proof fn lemma_word_string_snoc(parts: Seq<WordPartV>, p: WordPartV)
    ensures
        word_string_spec(parts.push(p)) == word_string_spec(parts) + part_string_spec(p),
    decreases parts.len(),
{
    if parts.len() == 0 {
        assert(parts.push(p)[0] == p);
        assert(parts.push(p).drop_first() =~= Seq::<WordPartV>::empty());
        assert(word_string_spec(parts.push(p).drop_first()) == Seq::<char>::empty());
        assert(word_string_spec(parts.push(p)) == part_string_spec(p) + Seq::<char>::empty());
        assert(part_string_spec(p) + Seq::<char>::empty() =~= part_string_spec(p));
        assert(word_string_spec(parts) + part_string_spec(p) =~= part_string_spec(p));
    } else {
        assert(parts.push(p)[0] == parts[0]);
        assert(parts.push(p).drop_first() =~= parts.drop_first().push(p));
        lemma_word_string_snoc(parts.drop_first(), p);
        assert(word_string_spec(parts.push(p)) == part_string_spec(parts[0]) + (word_string_spec(
            parts.drop_first(),
        ) + part_string_spec(p)));
        assert(part_string_spec(parts[0]) + (word_string_spec(parts.drop_first())
            + part_string_spec(p)) =~= (part_string_spec(parts[0]) + word_string_spec(
            parts.drop_first(),
        )) + part_string_spec(p));
    }
}

/// Escape processing over a character vector; the core of
/// [`process_escapes`].
pub fn process_escape_chars(s: &Vec<char>, is_double_quoted: bool) -> (r: Vec<char>)
    ensures
        r@ == escapes_spec(s@, is_double_quoted),
{
    let mut out: Vec<char> = Vec::new();
    let mut i: usize = 0;
    proof {
        assert(s@.skip(0) =~= s@);
        assert(out@ + escapes_spec(s@, is_double_quoted) =~= escapes_spec(s@, is_double_quoted));
    }
    while i < s.len()
        invariant
            i <= s@.len(),
            escapes_spec(s@, is_double_quoted) == out@ + escapes_spec(
                s@.skip(i as int),
                is_double_quoted,
            ),
        decreases s@.len() - i,
    {
        let ghost pre = out@;
        let ghost rest = s@.skip(i as int);
        let c = s[i];
        assert(rest[0] == c);
        if c == '\\' {
            if i + 1 < s.len() {
                let d = s[i + 1];
                assert(rest[1] == d);
                if is_double_quoted {
                    if d == '$' || d == '`' || d == '"' || d == '\\' {
                        out.push(d);
                    } else {
                        out.push('\\');
                        out.push(d);
                    }
                } else {
                    out.push(d);
                }
                proof {
                    assert(s@.skip(i + 2 as int) =~= rest.skip(2));
                }
                i += 2;
            } else {
                out.push('\\');
                proof {
                    assert(rest.len() == 1);
                    assert(s@.skip(i + 1 as int) =~= rest.skip(1));
                    assert(escapes_spec(rest, is_double_quoted) =~= seq!['\\']);
                    assert(escapes_spec(s@.skip(i + 1 as int), is_double_quoted) =~= Seq::<
                        char,
                    >::empty());
                }
                i += 1;
            }
        } else {
            out.push(c);
            proof {
                assert(s@.skip(i + 1 as int) =~= rest.skip(1));
            }
            i += 1;
        }
    }
    proof {
        assert(s@.skip(s@.len() as int) =~= Seq::<char>::empty());
        assert(out@ =~= out@ + escapes_spec(s@.skip(s@.len() as int), is_double_quoted));
    }
    out
}

/// Applies one fragment's escape rule to raw text: outside double quotes a
/// backslash makes the next character literal; inside them the restricted
/// escape set applies and unknown escapes keep their backslash.
pub fn process_escapes(s: &str, is_double_quoted: bool) -> (r: String)
    ensures
        r@ == escapes_spec(s@, is_double_quoted),
{
    let chars = chars_of(s);
    let out = process_escape_chars(&chars, is_double_quoted);
    string_of(&out)
}

} // verus!
