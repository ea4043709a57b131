//! The table of word triples of a corpus and walks through it.
use vstd::prelude::*;
use crate::garbage::generator::{entries, keys};
use crate::order::sorted_by;
use crate::reading::{ParseState, State};
use crate::text::{capitalize, capitalized, ends_with, joins_before, sentence_endings};
use crate::chars::{char_len, chars_of, push_char, push_str};
use crate::generator::read_text::{read, read_from_strings, ParseError};
use crate::random::random_index;
use crate::reading::{text_windows, texts_windows};
use rand_seeder::SipRng;

pub use crate::reading::Substring;

verus! {

broadcast use {vstd::seq_lib::to_multiset_contains};

/// The pairs of `ks` whose first word does not start with closing punctuation.
pub open spec fn starting_keys(text: Seq<char>, ks: Seq<State>) -> Seq<State>
    decreases ks.len(),
{
    if ks.len() == 0 {
        Seq::empty()
    } else {
        let k = ks.last();
        let first = text.subrange(k.0.0 as int, k.0.1 as int);
        if !(first.len() > 0 && joins_before(first[0])) {
            starting_keys(text, ks.drop_last()).push(k)
        } else {
            starting_keys(text, ks.drop_last())
        }
    }
}

/// The table of word triples read from a corpus.
pub struct Corpus {
    pub text: String,
    pub table: ParseState,
    pub states: Vec<State>,
}

impl Corpus {
    pub open spec fn wf(self) -> bool {
        &&& self.table.wf()
        &&& self.text@ == self.table.compressed@
        &&& self.table.map@.len() > 0
        &&& sorted_by(self.states@, false)
        &&& self.states@.to_multiset() == starting_keys(
            self.text@,
            keys(entries(self.table.map@)),
        ).to_multiset()
    }
}


/// Whether `s` ends with one of the first nine sentence endings (those
/// without a closing parenthesis).
pub open spec fn has_plain_ending(s: Seq<char>) -> bool {
    exists|k: int| 0 <= k < 9 && ends_with(s, #[trigger] sentence_endings()[k])
}

/// A word with its first character in ASCII upper case, if it has one.
pub open spec fn capitalize_word(w: Seq<char>) -> Seq<char> {
    if w.len() > 0 {
        capitalize(w)
    } else {
        w
    }
}

/// The words `ws` separated by spaces, the first one capitalized.
pub open spec fn spaced(ws: Seq<Seq<char>>) -> Seq<char>
    decreases ws.len(),
{
    if ws.len() == 0 {
        Seq::empty()
    } else if ws.len() == 1 {
        capitalize_word(ws[0])
    } else {
        spaced(ws.drop_last()) + seq![' '] + ws.last()
    }
}

/// The sentence of the words `ws`: spaced, with a full stop unless it
/// already ends a sentence.
pub open spec fn plain_sentence(ws: Seq<Seq<char>>) -> Seq<char> {
    if has_plain_ending(spaced(ws)) {
        spaced(ws)
    } else {
        spaced(ws).push('.')
    }
}

proof fn lemma_plain_ending(s: Seq<char>)
    requires
        s.len() > 0,
    ensures
        has_plain_ending(s) <==> (s.last() == '.' || s.last() == '!' || s.last() == '?' || (s.len()
            >= 2 && (s.last() == '"' || s.last() == '”') && (s[s.len() - 2] == '.' || s[s.len() - 2]
            == '!' || s[s.len() - 2] == '?'))),
{
    let n = s.len() as int;
    let e = sentence_endings();
    assert forall|k: int| 0 <= k < 9 implies #[trigger] e[k] == e[k] && (ends_with(s, e[k]) <==> (
    if e[k].len() == 1 {
        s.last() == e[k][0]
    } else {
        n >= 2 && s[n - 2] == e[k][0] && s.last() == e[k][1]
    })) by {
        if e[k].len() == 1 {
            if s.last() == e[k][0] {
                assert(s.subrange(n - 1, n) =~= e[k]);
            }
        } else {
            if n >= 2 && s[n - 2] == e[k][0] && s.last() == e[k][1] {
                assert(s.subrange(n - 2, n) =~= e[k]);
            }
            if ends_with(s, e[k]) {
                assert(s.subrange(n - 2, n)[0] == s[n - 2]);
                assert(s.subrange(n - 2, n)[1] == s[n - 1]);
            }
        }
    }
    if s.last() == '.' {
        assert(ends_with(s, e[0]));
    } else if s.last() == '!' {
        assert(ends_with(s, e[1]));
    } else if s.last() == '?' {
        assert(ends_with(s, e[2]));
    } else if n >= 2 && (s[n - 2] == '.' || s[n - 2] == '!' || s[n - 2] == '?') {
        if s.last() == '"' {
            if s[n - 2] == '.' {
                assert(ends_with(s, e[3]));
            } else if s[n - 2] == '!' {
                assert(ends_with(s, e[4]));
            } else {
                assert(ends_with(s, e[5]));
            }
        } else if s.last() == '”' {
            if s[n - 2] == '.' {
                assert(ends_with(s, e[6]));
            } else if s[n - 2] == '!' {
                assert(ends_with(s, e[7]));
            } else {
                assert(ends_with(s, e[8]));
            }
        }
    }
}

/// Whether `s` ends with one of the first nine sentence endings.
pub fn plain_ending(s: &str) -> (r: bool)
    ensures
        r == has_plain_ending(s@),
{
    let cs = chars_of(s);
    let n = cs.len();
    if n == 0 {
        proof {
            assert forall|k: int| 0 <= k < 9 implies !ends_with(s@, #[trigger] sentence_endings()[k]) by {
                assert(sentence_endings()[k].len() > 0);
            }
        }
        return false;
    }
    proof {
        lemma_plain_ending(cs@);
    }
    let last = cs[n - 1];
    if last == '.' || last == '!' || last == '?' {
        true
    } else if n >= 2 && (last == '"' || last == '”') {
        let p = cs[n - 2];
        p == '.' || p == '!' || p == '?'
    } else {
        false
    }
}

proof fn lemma_keys_words(c: Corpus, k: State)
    requires
        c.wf(),
        c.states@.contains(k),
    ensures
        c.table.is_word(k.0),
        c.table.is_word(k.1),
        exists|j: int| 0 <= j < c.table.map@.len() && c.table.map@[j].0 == k,
{
    reveal(ParseState::entries_ok);
    let ks = keys(entries(c.table.map@));
    assert(c.states@.to_multiset().contains(k));
    lemma_starting_sub(c.text@, ks, k);
    let j = choose|j: int| 0 <= j < ks.len() && ks[j] == k;
    assert(c.table.map@[j].0 == k);
}

proof fn lemma_starting_sub(text: Seq<char>, ks: Seq<State>, k: State)
    requires
        starting_keys(text, ks).to_multiset().contains(k),
    ensures
        ks.contains(k),
    decreases ks.len(),
{
    let sk = starting_keys(text, ks);
    assert(sk.contains(k));
    if ks.len() > 0 {
        let prev = starting_keys(text, ks.drop_last());
        if k != ks.last() {
            if sk == prev.push(ks.last()) {
                let i = choose|i: int| 0 <= i < sk.len() && sk[i] == k;
                assert(prev[i] == k);
            }
            assert(prev.contains(k));
            assert(prev.to_multiset().contains(k));
            lemma_starting_sub(text, ks.drop_last(), k);
            let i = choose|i: int| 0 <= i < ks.drop_last().len() && ks.drop_last()[i] == k;
            assert(ks[i] == k);
        } else {
            assert(ks[ks.len() - 1] == k);
        }
    }
}

impl Corpus {
    /// Reads one text (see `read`).
    pub fn from_string(text: &str) -> (r: Result<Corpus, ParseError>)
        ensures
            r is Err <==> text_windows(text@, 0, true).len() == 0,
            r matches Err(e) ==> e == ParseError::NoContent,
            r matches Ok(c) ==> c.wf() && c.table.fed@ == text_windows(text@, 0, true),
    {
        read(text)
    }

    /// Reads several texts, one after the other (see `read_from_strings`).
    pub fn from_strings(texts: &[&str]) -> (r: Result<Corpus, ParseError>)
        ensures
            r is Err <==> texts_windows(texts@.map_values(|t: &str| t@), 0, true).len() == 0,
            r matches Err(e) ==> e == ParseError::NoContent,
            r matches Ok(c) ==> c.wf() && c.table.fed@ == texts_windows(
                texts@.map_values(|t: &str| t@),
                0,
                true,
            ),
    {
        read_from_strings(texts)
    }

    /// The table entry for the pair `k`, if there is one.
    pub fn entry(&self, k: State) -> (r: Option<usize>)
        ensures
            r matches Some(j) ==> j < self.table.map@.len() && self.table.map@[j as int].0 == k,
            r is None ==> forall|j: int| 0 <= j < self.table.map@.len() ==> self.table.map@[j].0 != k,
    {
        let mut j: usize = 0;
        while j < self.table.map.len()
            invariant
                j <= self.table.map@.len(),
                forall|q: int| 0 <= q < j ==> self.table.map@[q].0 != k,
            decreases self.table.map.len() - j,
        {
            let e = self.table.map[j].0;
            if e.0.0 == k.0.0 && e.0.1 == k.0.1 && e.1.0 == k.1.0 && e.1.1 == k.1.1 {
                return Some(j);
            }
            j += 1;
        }
        None
    }

    /// A walk through the corpus from a random starting pair, or from the
    /// empty pair when there is none.
    pub fn generate<'a>(&'a self, rng: SipRng) -> (r: Generator<'a>)
        requires
            self.wf(),
        ensures
            r.wf(),
            r.corpus == self,
            self.states@.len() > 0 ==> self.states@.contains(r.state),
            self.states@.len() == 0 ==> r.state == (Substring(0, 0), Substring(0, 0)),
    {
        let mut rng = rng;
        if self.states.len() == 0 {
            return Generator { corpus: self, rng, state: (Substring(0, 0), Substring(0, 0)) };
        }
        let i = random_index(&mut rng, self.states.len());
        let state = self.states[i];
        proof {
            lemma_keys_words(*self, state);
        }
        Generator { corpus: self, rng, state }
    }
}

/// Whether the table of `c` has an entry for the pair `k`.
pub open spec fn has_entry(c: Corpus, k: State) -> bool {
    exists|q: int| 0 <= q < c.table.map@.len() && #[trigger] c.table.map@[q].0 == k
}

/// Whether the walk may move from the pair `from` to the pair `to`: to the
/// second word of an entry's pair and one of its followers, where the entry
/// is that of `from` if it has one, else that of a starting pair.
pub open spec fn walk_step(c: Corpus, from: State, to: State) -> bool {
    exists|j: int, k: int| #![trigger c.table.map@[j].1@[k]]
        0 <= j < c.table.map@.len() && 0 <= k < c.table.map@[j].1@.len() && (if has_entry(c, from) {
            c.table.map@[j].0 == from
        } else {
            c.states@.contains(c.table.map@[j].0)
        }) && to == (c.table.map@[j].0.1, c.table.map@[j].1@[k])
}

/// Whether `w` is a word of the corpus, or the empty word of the empty pair
/// that a walk without starting pairs stands at.
pub open spec fn is_walk_word(c: Corpus, w: Seq<char>) -> bool {
    w.len() == 0 || exists|s: Substring| c.table.is_word(s) && #[trigger] c.text@.subrange(s.0 as int, s.1 as int) == w
}

/// Whether `sts` are the successive pairs of a walk: each pair follows
/// from the one before it by a step of the walk.
pub open spec fn is_walk(c: Corpus, sts: Seq<State>) -> bool {
    forall|t: int| 0 <= t < sts.len() - 1 ==> #[trigger] walk_step(c, sts[t], sts[t + 1])
}

/// In a walk, a pair that has an entry in the table is followed by the
/// pair of its second word and one of the words that follow it in the
/// texts read: each word of the walk follows the two words before it.
pub proof fn lemma_walk_follows_table(c: Corpus, sts: Seq<State>, t: int)
    requires
        is_walk(c, sts),
        0 <= t < sts.len() - 1,
        has_entry(c, sts[t]),
    ensures
        sts[t + 1].0 == sts[t].1,
        exists|j: int| 0 <= j < c.table.map@.len() && c.table.map@[j].0 == sts[t] && #[trigger] c.table.map@[j].1@.contains(
            sts[t + 1].1,
        ),
{
    assert(walk_step(c, sts[t], sts[t + 1]));
    let (j, k) = choose|j: int, k: int| #![trigger c.table.map@[j].1@[k]]
        0 <= j < c.table.map@.len() && 0 <= k < c.table.map@[j].1@.len() && (if has_entry(c, sts[t]) {
            c.table.map@[j].0 == sts[t]
        } else {
            c.states@.contains(c.table.map@[j].0)
        }) && sts[t + 1] == (c.table.map@[j].0.1, c.table.map@[j].1@[k]);
    assert(c.table.map@[j].1@.contains(sts[t + 1].1));
}

/// A random walk through the word triples of a corpus.
pub struct Generator<'a> {
    pub corpus: &'a Corpus,
    pub rng: SipRng,
    pub state: State,
}

impl<'a> Generator<'a> {
    pub open spec fn wf(&self) -> bool {
        &&& self.corpus.wf()
        &&& (self.corpus.table.is_word(self.state.0) && self.corpus.table.is_word(self.state.1))
            || self.state == (Substring(0, 0), Substring(0, 0))
    }

    /// The characters of a substring of the corpus text.
    pub open spec fn text_of(&self, s: Substring) -> Seq<char> {
        self.corpus.text@.subrange(s.0 as int, s.1 as int)
    }

    /// The first word of the current pair, moving on to a follower of the
    /// pair; when the pair has no followers, the walk jumps to a random
    /// starting pair first, and ends when there is none.
    pub fn next(&mut self) -> (r: Option<&'a str>)
        requires
            old(self).wf(),
        ensures
            final(self).wf(),
            final(self).corpus == old(self).corpus,
            r matches Some(w) ==> w@ == old(self).text_of(old(self).state.0) && is_walk_word(
                *old(self).corpus,
                w@,
            ),
            r is None ==> old(self).corpus.states@.len() == 0,
            old(self).corpus.states@.len() > 0 ==> r is Some,
            r is Some ==> walk_step(*old(self).corpus, old(self).state, final(self).state),
            r is None ==> final(self).state == old(self).state,
    {
        let corpus = self.corpus;
        let ghost from = self.state;
        proof {
            if corpus.table.is_word(self.state.0) {
                let q = choose|q: int| 0 <= q < corpus.table.interned@.len() && corpus.table.interned@[q] == self.state.0;
                corpus.table.lemma_interned_bounds(q);
            }
        }
        let word = self.state.0.of(corpus.text.as_str());
        let j = match corpus.entry(self.state) {
            Some(j) => {
                assert(has_entry(*corpus, from));
                j
            },
            None => {
                assert(!has_entry(*corpus, from));
                if corpus.states.len() == 0 {
                    return None;
                }
                let i = random_index(&mut self.rng, corpus.states.len());
                self.state = corpus.states[i];
                proof {
                    lemma_keys_words(*corpus, self.state);
                }
                match corpus.entry(self.state) {
                    Some(j) => {
                        assert(corpus.states@.contains(corpus.table.map@[j as int].0));
                        j
                    },
                    None => {
                        proof {
                            assert(false);
                        }
                        return None;
                    },
                }
            },
        };
        proof {
            reveal(ParseState::entries_ok);
        }
        let followers = &corpus.table.map[j].1;
        let k = random_index(&mut self.rng, followers.len());
        let next = followers[k];
        self.state = (self.state.1, next);
        assert(walk_step(*corpus, from, self.state)) by {
            assert(corpus.table.map@[j as int].1@[k as int] == next);
        }
        Some(word)
    }

    /// A sentence of `length` words of the walk (see `plain_sentence`).
    pub fn sentence(&mut self, length: usize) -> (r: String)
        requires
            old(self).wf(),
            length > 0 ==> old(self).corpus.states@.len() > 0,
        ensures
            final(self).wf(),
            final(self).corpus == old(self).corpus,
            exists|ws: Seq<Seq<char>>| #![trigger plain_sentence(ws)]
                ws.len() == length && r@ == plain_sentence(ws) && forall|i: int|
                    0 <= i < ws.len() ==> is_walk_word(*old(self).corpus, #[trigger] ws[i]),
            exists|sts: Seq<State>, ws: Seq<Seq<char>>| #![trigger plain_sentence(ws), sts.len()]
                {
                    &&& sts.len() == length + 1
                    &&& sts[0] == old(self).state
                    &&& sts.last() == final(self).state
                    &&& is_walk(*old(self).corpus, sts)
                    &&& ws.len() == length
                    &&& r@ == plain_sentence(ws)
                    &&& forall|i: int| 0 <= i < ws.len() ==> #[trigger] ws[i] == old(self).text_of(sts[i].0)
                },
    {
        let mut output = String::new();
        let ghost mut ws: Seq<Seq<char>> = Seq::empty();
        let ghost corpus = self.corpus;
        let ghost mut sts: Seq<State> = seq![self.state];
        let mut i: usize = 0;
        while i < length
            invariant
                self.wf(),
                self.corpus == corpus,
                length > 0 ==> corpus.states@.len() > 0,
                i <= length,
                ws.len() == i,
                output@ == spaced(ws),
                forall|q: int| 0 <= q < ws.len() ==> is_walk_word(*corpus, #[trigger] ws[q]),
                sts.len() == i + 1,
                sts[0] == old(self).state,
                sts.last() == self.state,
                is_walk(*corpus, sts),
                forall|q: int| 0 <= q < ws.len() ==> #[trigger] ws[q] == corpus.text@.subrange(
                    sts[q].0.0 as int,
                    sts[q].0.1 as int,
                ),
            decreases length - i,
        {
            let ghost st = self.state;
            let w = match self.next() {
                Some(w) => w,
                None => {
                    proof {
                        assert(false);
                    }
                    return output;
                },
            };
            if i == 0 {
                if char_len(w) > 0 {
                    let c = capitalized(w);
                    push_str(&mut output, c.as_str());
                } else {
                    push_str(&mut output, w);
                }
            } else {
                push_char(&mut output, ' ');
                push_str(&mut output, w);
            }
            proof {
                let nsts = sts.push(self.state);
                assert forall|t: int| 0 <= t < nsts.len() - 1 implies #[trigger] walk_step(*corpus, nsts[t], nsts[t + 1]) by {
                    if t < sts.len() - 1 {
                        assert(nsts[t] == sts[t] && nsts[t + 1] == sts[t + 1]);
                    } else {
                        assert(nsts[t] == st);
                    }
                }
                assert(forall|q: int| 0 <= q < sts.len() ==> nsts[q] == sts[q]);
                let nws = ws.push(w@);
                assert(nws.drop_last() =~= ws);
                assert forall|q: int| 0 <= q < nws.len() implies is_walk_word(*corpus, #[trigger] nws[q]) by {
                    if q < ws.len() {
                        assert(nws[q] == ws[q]);
                    }
                }
                if i == 0 {
                    assert(output@ =~= spaced(nws));
                } else {
                    assert(output@ =~= spaced(nws));
                }
                assert forall|q: int| 0 <= q < nws.len() implies #[trigger] nws[q] == corpus.text@.subrange(
                    nsts[q].0.0 as int,
                    nsts[q].0.1 as int,
                ) by {
                    if q < ws.len() {
                        assert(nws[q] == ws[q]);
                    }
                }
                ws = nws;
                sts = nsts;
            }
            i += 1;
        }
        if plain_ending(output.as_str()) {
            assert(output@ == plain_sentence(ws));
            return output;
        }
        push_char(&mut output, '.');
        assert(output@ == plain_sentence(ws));
        output
    }
}

} // verus!
