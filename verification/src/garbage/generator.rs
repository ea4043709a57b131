//! The word graph of a corpus and walks through it.
use vstd::prelude::*;
use crate::chars::{chars_of, decimal, push_decimal, push_str};
use crate::garbage::read_text::{read, read_from_strings, ParseError};
use crate::order::strictly_sorted;
use crate::random::{random_between, random_index};
use crate::reading::{text_windows, texts_windows, ParseState, State};
use crate::text::{
    append_word, ends_sentence, finish_sentence, is_sentence_ending_word, join_before, joined,
    joins_before, lemma_finished_ends_sentence, sentence_of,
};
use rand_seeder::SipRng;
use std::ops::RangeInclusive;
use vstd::layout::size_of;
use vstd::string::StrSliceExecFns;

pub use crate::reading::Substring;
pub use crate::text::{capitalized, is_ending, is_punct, whitespace_after_output, whitespace_before_word};

verus! {

/// A possible next word, and the node to continue from after it.
#[derive(Clone, Copy, Debug, PartialEq, Eq)]
pub struct Next {
    pub word: Substring,
    pub next: Option<usize>,
}

/// The possible next words after a pair of words.
#[derive(Debug)]
pub struct Node {
    pub choices: Vec<Next>,
}

/// The position of `k` in `states`, if it occurs there.
pub open spec fn position(states: Seq<State>, k: State) -> Option<usize> {
    if states.contains(k) {
        Some((choose|i: int| 0 <= i < states.len() && states[i] == k) as usize)
    } else {
        None
    }
}

/// The choices after the pair `e.0`: each follower, continuing from the
/// pair it forms with the second word.
pub open spec fn base_choices(states: Seq<State>, key: State, followers: Seq<Substring>) -> Seq<Next> {
    followers.map_values(|w: Substring| Next { word: w, next: position(states, (key.1, w)) })
}

/// The views of the table's entries.
pub open spec fn entries(map: Seq<(State, Vec<Substring>)>) -> Seq<(State, Seq<Substring>)> {
    map.map_values(|e: (State, Vec<Substring>)| (e.0, e.1@))
}

/// The words that may start a sentence: the followers of every pair whose
/// second word ends a sentence, each continuing from that pair.
pub open spec fn start_choices(
    states: Seq<State>,
    text: Seq<char>,
    map: Seq<(State, Seq<Substring>)>,
) -> Seq<Next>
    decreases map.len(),
{
    if map.len() == 0 {
        Seq::empty()
    } else {
        let e = map.last();
        start_choices(states, text, map.drop_last()) + if is_sentence_ending_word(
            text.subrange(e.0.1.0 as int, e.0.1.1 as int),
        ) {
            e.1.map_values(|w: Substring| Next { word: w, next: position(states, e.0) })
        } else {
            Seq::empty()
        }
    }
}

/// The index of the table entry for the pair `k`.
pub open spec fn entry_for(map: Seq<(State, Seq<Substring>)>, k: State) -> int {
    choose|j: int| 0 <= j < map.len() && map[j].0 == k
}

/// The keys of the table.
pub open spec fn keys(map: Seq<(State, Seq<Substring>)>) -> Seq<State> {
    map.map_values(|e: (State, Seq<Substring>)| e.0)
}

/// The graph of a table: one node per pair of words, in the order of `states`.
pub open spec fn graph_of(states: Seq<State>, text: Seq<char>, map: Seq<(State, Seq<Substring>)>, nodes: Seq<Seq<Next>>) -> bool {
    &&& nodes.len() == states.len()
    &&& forall|i: int|
        0 <= i < states.len() ==> #[trigger] nodes[i] == base_choices(
            states,
            states[i],
            map[entry_for(map, states[i])].1,
        ) + if i == 0 {
            start_choices(states, text, map)
        } else {
            Seq::empty()
        }
}

/// The word graph read from a corpus.
pub struct Corpus {
    pub text: String,
    pub table: ParseState,
    pub states: Vec<State>,
    pub nodes: Vec<Node>,
}

impl Corpus {
    /// The choices of each node.
    pub open spec fn node_choices(self) -> Seq<Seq<Next>> {
        self.nodes@.map_values(|n: Node| n.choices@)
    }

    pub open spec fn wf(self) -> bool {
        &&& self.table.wf()
        &&& self.text@ == self.table.compressed@
        &&& self.table.map@.len() > 0
        &&& strictly_sorted(self.states@)
        &&& self.states@.to_multiset() == keys(entries(self.table.map@)).to_multiset()
        &&& graph_of(self.states@, self.text@, entries(self.table.map@), self.node_choices())
    }
}

} // verus!

verus! {

impl Substring {
    /// The characters of `s` that this substring denotes, counted in
    /// characters (see `Substring`).
    pub fn of(self, s: &str) -> (r: &str)
        requires
            self.0 <= self.1 <= s@.len(),
        ensures
            r@ == s@.subrange(self.0 as int, self.1 as int),
    {
        s.substring_char(self.0, self.1)
    }
}

impl Corpus {
    /// The characters of a word of the corpus.
    pub open spec fn word_text(self, s: Substring) -> Seq<char> {
        self.text@.subrange(s.0 as int, s.1 as int)
    }

    /// The corpus words are within the text.
    pub proof fn lemma_word(self, s: Substring)
        requires
            self.wf(),
            self.table.is_word(s),
        ensures
            s.0 <= s.1 <= self.text@.len(),
            self.word_text(s) == self.table.text_of(s),
    {
        let q = choose|q: int| 0 <= q < self.table.interned@.len() && self.table.interned@[q] == s;
        self.table.lemma_interned_bounds(q);
    }

    /// The shape of the word graph of a well-formed corpus: one node per
    /// pair of words in the table; every node has choices; each choice is a
    /// word within the text, and leads to a node of the graph where it
    /// leads anywhere.
    pub proof fn lemma_graph_shape(self)
        requires
            self.wf(),
        ensures
            self.nodes@.len() == self.table.map@.len(),
            forall|i: int| 0 <= i < self.nodes@.len() ==> (#[trigger] self.nodes@[i]).choices@.len() > 0,
            forall|i: int, k: int|
                0 <= i < self.nodes@.len() && 0 <= k < self.nodes@[i].choices@.len() ==> {
                    let c = #[trigger] self.nodes@[i].choices@[k];
                    &&& c.word.0 <= c.word.1 <= self.text@.len()
                    &&& c.next matches Some(p) ==> p < self.nodes@.len()
                },
    {
        vstd::seq_lib::to_multiset_len(self.states@);
        vstd::seq_lib::to_multiset_len(keys(entries(self.table.map@)));
        assert(self.node_choices().len() == self.nodes@.len());
        assert forall|i: int| 0 <= i < self.nodes@.len() implies (#[trigger] self.nodes@[i]).choices@.len() > 0 by {
            self.lemma_nodes(i, 0);
        }
        assert forall|i: int, k: int|
            0 <= i < self.nodes@.len() && 0 <= k < self.nodes@[i].choices@.len() implies {
                let c = #[trigger] self.nodes@[i].choices@[k];
                &&& c.word.0 <= c.word.1 <= self.text@.len()
                &&& c.next matches Some(p) ==> p < self.nodes@.len()
            } by {
            self.lemma_nodes(i, k);
            self.lemma_word(self.nodes@[i].choices@[k].word);
        }
    }

    /// The text of a corpus word.
    pub fn word(&self, s: Substring) -> (r: &str)
        requires
            self.wf(),
            self.table.is_word(s),
        ensures
            r@ == self.word_text(s),
    {
        proof {
            self.lemma_word(s);
        }
        s.of(self.text.as_str())
    }

    /// The table entry for the pair `k`, if there is one.
    pub fn entry(&self, k: State) -> (r: Option<usize>)
        ensures
            r matches Some(j) ==> j < self.table.map@.len() && self.table.map@[j as int].0 == k,
            r is None ==> forall|j: int| 0 <= j < self.table.map@.len() ==> self.table.map@[j].0 != k,
    {
        let mut j: usize = 0;
        while j < self.table.map.len()
            invariant
                j <= self.table.map@.len(),
                forall|q: int| 0 <= q < j ==> self.table.map@[q].0 != k,
            decreases self.table.map.len() - j,
        {
            let e = self.table.map[j].0;
            if e.0.0 == k.0.0 && e.0.1 == k.0.1 && e.1.0 == k.1.0 && e.1.1 == k.1.1 {
                return Some(j);
            }
            j += 1;
        }
        None
    }

    /// A walk through the corpus that starts at a random pair of words.
    pub fn generator<'a>(&'a self, rng: SipRng) -> (r: Generator<'a>)
        requires
            self.wf(),
        ensures
            r.wf(),
            r.corpus == self,
            self.states@.contains(r.state),
    {
        let mut rng = rng;
        proof {
            broadcast use vstd::seq_lib::to_multiset_len;
            assert(self.states@.to_multiset().len() == self.states@.len());
            assert(keys(entries(self.table.map@)).to_multiset().len() == keys(entries(self.table.map@)).len());
        }
        let i = random_index(&mut rng, self.states.len());
        let state = self.states[i];
        proof {
            self.lemma_state_words(i as int);
        }
        Generator { corpus: self, rng, state }
    }

    /// Both words of every pair of `states` are corpus words.
    pub proof fn lemma_state_words(self, i: int)
        requires
            self.wf(),
            0 <= i < self.states@.len(),
        ensures
            self.table.is_word(self.states@[i].0),
            self.table.is_word(self.states@[i].1),
            exists|j: int| 0 <= j < self.table.map@.len() && self.table.map@[j].0 == self.states@[i],
    {
        broadcast use vstd::seq_lib::to_multiset_contains;
        reveal(ParseState::entries_ok);
        let ks = keys(entries(self.table.map@));
        assert(self.states@.contains(self.states@[i]));
        assert(ks.to_multiset().contains(self.states@[i]));
        assert(ks.contains(self.states@[i]));
        let j = choose|j: int| 0 <= j < ks.len() && ks[j] == self.states@[i];
        assert(self.table.map@[j].0 == self.states@[i]);
    }
}

/// Whether the table of `c` has an entry for the pair `k`.
pub open spec fn has_entry(c: Corpus, k: State) -> bool {
    exists|q: int| 0 <= q < c.table.map@.len() && #[trigger] c.table.map@[q].0 == k
}

/// Whether a walk may move from the pair `from` to the pair `to`: to the
/// second word of an entry's pair and one of its followers, where the entry
/// is that of `from` if it has one, else that of one of the graph's pairs.
pub open spec fn walk_step(c: Corpus, from: State, to: State) -> bool {
    exists|j: int, k: int| #![trigger c.table.map@[j].1@[k]]
        0 <= j < c.table.map@.len() && 0 <= k < c.table.map@[j].1@.len() && (if has_entry(c, from) {
            c.table.map@[j].0 == from
        } else {
            c.states@.contains(c.table.map@[j].0)
        }) && to == (c.table.map@[j].0.1, c.table.map@[j].1@[k])
}

/// Whether `sts` are the successive pairs of a walk: each pair follows
/// from the one before it by a step of the walk.
pub open spec fn is_walk(c: Corpus, sts: Seq<State>) -> bool {
    forall|t: int| 0 <= t < sts.len() - 1 ==> #[trigger] walk_step(c, sts[t], sts[t + 1])
}

/// In a walk, a pair that has an entry in the table is followed by the
/// pair of its second word and one of the words that follow it in the
/// texts read: each word of the walk follows the two words before it.
pub proof fn lemma_walk_follows_table(c: Corpus, sts: Seq<State>, t: int)
    requires
        is_walk(c, sts),
        0 <= t < sts.len() - 1,
        has_entry(c, sts[t]),
    ensures
        sts[t + 1].0 == sts[t].1,
        exists|j: int| 0 <= j < c.table.map@.len() && c.table.map@[j].0 == sts[t] && #[trigger] c.table.map@[j].1@.contains(
            sts[t + 1].1,
        ),
{
    assert(walk_step(c, sts[t], sts[t + 1]));
    let (j, k) = choose|j: int, k: int| #![trigger c.table.map@[j].1@[k]]
        0 <= j < c.table.map@.len() && 0 <= k < c.table.map@[j].1@.len() && (if has_entry(c, sts[t]) {
            c.table.map@[j].0 == sts[t]
        } else {
            c.states@.contains(c.table.map@[j].0)
        }) && sts[t + 1] == (c.table.map@[j].0.1, c.table.map@[j].1@[k]);
    assert(c.table.map@[j].1@.contains(sts[t + 1].1));
}

/// A random walk through the word triples of a corpus.
pub struct Generator<'a> {
    pub corpus: &'a Corpus,
    pub rng: SipRng,
    pub state: State,
}

impl<'a> Generator<'a> {
    pub open spec fn wf(&self) -> bool {
        &&& self.corpus.wf()
        &&& self.corpus.table.is_word(self.state.0)
        &&& self.corpus.table.is_word(self.state.1)
    }

    /// The random number generator that the walk draws from.
    pub fn rng(&mut self) -> (r: &mut SipRng)
        ensures
            *r == old(self).rng,
            final(self).corpus == old(self).corpus,
            final(self).state == old(self).state,
            final(self).rng == *final(r),
    {
        &mut self.rng
    }

    /// The first word of the current pair, moving on to a follower of the
    /// pair; when the pair has no followers, the walk jumps to a random
    /// pair first.
    pub fn next(&mut self) -> (r: Option<&'a str>)
        requires
            old(self).wf(),
        ensures
            final(self).wf(),
            final(self).corpus == old(self).corpus,
            r matches Some(w) && w@ == old(self).corpus.word_text(old(self).state.0),
            exists|j: int, k: int|
                0 <= j < old(self).corpus.table.map@.len() && 0 <= k < old(self).corpus.table.map@[j].1@.len()
                    && (forall|q: int| 0 <= q < old(self).corpus.table.map@.len() && old(self).corpus.table.map@[q].0 == old(self).state ==> q == j)
                    && final(self).state == (old(self).corpus.table.map@[j].0.1, old(self).corpus.table.map@[j].1@[k]),
            walk_step(*old(self).corpus, old(self).state, final(self).state),
    {
        let corpus = self.corpus;
        let ghost from = self.state;
        let word = corpus.word(self.state.0);
        let j = match corpus.entry(self.state) {
            Some(j) => {
                assert(has_entry(*corpus, from));
                j
            },
            None => {
                assert(!has_entry(*corpus, from));
                proof {
                    broadcast use vstd::seq_lib::to_multiset_len;
                    assert(corpus.states@.to_multiset().len() == corpus.states@.len());
                    assert(keys(entries(corpus.table.map@)).to_multiset().len() == keys(entries(corpus.table.map@)).len());
                }
                let i = random_index(&mut self.rng, corpus.states.len());
                self.state = corpus.states[i];
                proof {
                    corpus.lemma_state_words(i as int);
                }
                let found = corpus.entry(self.state);
                match found {
                    Some(j) => {
                        assert(corpus.states@.contains(corpus.table.map@[j as int].0));
                        j
                    },
                    None => {
                        proof {
                            assert(false);
                        }
                        return None;
                    },
                }
            },
        };
        proof {
            reveal(ParseState::entries_ok);
            reveal(ParseState::keys_distinct);
        }
        let followers = &corpus.table.map[j].1;
        let k = random_index(&mut self.rng, followers.len());
        let next = followers[k];
        self.state = (self.state.1, next);
        assert(walk_step(*corpus, from, self.state)) by {
            assert(corpus.table.map@[j as int].1@[k as int] == next);
        }
        Some(word)
    }
}


/// How many leading punctuation words a sentence skips at most; after that
/// the walk's words are taken as they come, so that a walk that only yields
/// such words still ends.
pub const LEADING_PUNCTUATION_LIMIT: usize = 1000;

/// The bounds of an inclusive range.
#[verifier::external_body]
pub(crate) fn range_bounds(r: &RangeInclusive<usize>) -> (b: (usize, usize))
    ensures
        b == (r@.start, r@.end),
{
    (*r.start(), *r.end())
}

/// Whether `s` starts with punctuation that attaches to the word before it.
pub fn starts_with_join_before(s: &str) -> (r: bool)
    ensures
        r == (s@.len() > 0 && joins_before(s@[0])),
{
    let cs = chars_of(s);
    cs.len() > 0 && join_before(cs[0])
}

/// Whether `p` is a sentence of `lo..=hi` corpus words (see `sentence_of`).
pub open spec fn is_corpus_sentence(c: &Corpus, p: Seq<char>, lo: int, hi: int) -> bool {
    exists|ws: Seq<Seq<char>>| #![trigger sentence_of(ws)]
        lo <= ws.len() <= hi && p == sentence_of(ws) && forall|i: int|
            0 <= i < ws.len() ==> is_corpus_word(c, #[trigger] ws[i])
}

/// Whether `w` starts with punctuation that attaches to the word before it.
pub open spec fn starts_joined(w: Seq<char>) -> bool {
    w.len() > 0 && joins_before(w[0])
}

/// Whether `p` is a sentence of `lo..=hi` corpus words that was preceded by
/// the skipped words `sk`: corpus words that start with joining punctuation,
/// at most `LEADING_PUNCTUATION_LIMIT` of them; the sentence's first word
/// starts with joining punctuation only when that many were skipped.
pub open spec fn skips_leading_joins(c: &Corpus, p: Seq<char>, lo: int, hi: int) -> bool {
    exists|ws: Seq<Seq<char>>, sk: Seq<Seq<char>>| #![trigger sentence_of(ws), sk.len()]
        {
            &&& lo <= ws.len() <= hi
            &&& p == sentence_of(ws)
            &&& forall|i: int| 0 <= i < ws.len() ==> is_corpus_word(c, #[trigger] ws[i])
            &&& sk.len() <= LEADING_PUNCTUATION_LIMIT
            &&& forall|i: int| 0 <= i < sk.len() ==> is_corpus_word(c, #[trigger] sk[i]) && starts_joined(sk[i])
            &&& (ws.len() > 0 && starts_joined(ws[0]) ==> sk.len() == LEADING_PUNCTUATION_LIMIT)
        }
}

/// Whether `p` is the sentence that a walk from the pair `from` to the pair
/// `to` makes: the walk passes through the pairs `sts`, one step at a time;
/// the first words of its first `n` pairs are skipped, each starting with
/// joining punctuation, at most `LEADING_PUNCTUATION_LIMIT` of them; the
/// sentence is made of the first words of the pairs after those, in the
/// order the walk reaches them, `lo..=hi` of them; and its first word starts
/// with joining punctuation only when that many were skipped.
pub open spec fn walk_sentence(c: &Corpus, from: State, to: State, p: Seq<char>, lo: int, hi: int) -> bool {
    exists|sts: Seq<State>, ws: Seq<Seq<char>>, n: int| #![trigger sentence_of(ws), sts.len(), n + 0]
        {
            &&& 0 <= n <= LEADING_PUNCTUATION_LIMIT
            &&& lo <= ws.len() <= hi
            &&& sts.len() == n + ws.len() + 1
            &&& sts[0] == from
            &&& sts.last() == to
            &&& is_walk(*c, sts)
            &&& p == sentence_of(ws)
            &&& forall|i: int| 0 <= i < ws.len() ==> #[trigger] ws[i] == c.word_text(sts[n + i].0)
            &&& forall|i: int| 0 <= i < n ==> starts_joined(c.word_text(#[trigger] sts[i].0))
            &&& (ws.len() > 0 && starts_joined(ws[0]) ==> n == LEADING_PUNCTUATION_LIMIT)
        }
}

/// Whether `w` is the text of a word of the corpus.
pub open spec fn is_corpus_word(c: &Corpus, w: Seq<char>) -> bool {
    exists|s: Substring| c.table.is_word(s) && c.word_text(s) == w
}

impl<'a> Generator<'a> {
    /// A sentence of a random number of words in `range` (see `sentence_of`),
    /// skipping punctuation at its start.
    pub fn generate(&mut self, range: RangeInclusive<usize>) -> (r: String)
        requires
            old(self).wf(),
            range@.start <= range@.end,
        ensures
            final(self).wf(),
            final(self).corpus == old(self).corpus,
            is_corpus_sentence(old(self).corpus, r@, range@.start as int, range@.end as int),
            skips_leading_joins(old(self).corpus, r@, range@.start as int, range@.end as int),
            walk_sentence(old(self).corpus, old(self).state, final(self).state, r@, range@.start as int, range@.end as int),
            ends_sentence(r@),
    {
        let (lo, hi) = range_bounds(&range);
        let num_words = random_between(&mut self.rng, lo, hi);
        let mut output = String::new();
        let ghost mut ws: Seq<Seq<char>> = Seq::empty();
        let ghost mut sk: Seq<Seq<char>> = Seq::empty();
        let ghost corpus = self.corpus;
        let ghost mut sts: Seq<State> = seq![self.state];
        let mut count: usize = 0;
        let mut skips: usize = 0;
        while count < num_words
            invariant
                self.wf(),
                self.corpus == corpus,
                count <= num_words,
                ws.len() == count,
                output@ == joined(ws),
                forall|i: int| 0 <= i < ws.len() ==> is_corpus_word(corpus, #[trigger] ws[i]),
                skips <= LEADING_PUNCTUATION_LIMIT,
                sk.len() == skips,
                forall|i: int| 0 <= i < sk.len() ==> is_corpus_word(corpus, #[trigger] sk[i]) && starts_joined(sk[i]),
                ws.len() > 0 && starts_joined(ws[0]) ==> skips == LEADING_PUNCTUATION_LIMIT,
                count > 0 ==> skips == sk.len(),
                sts.len() == skips + count + 1,
                sts[0] == old(self).state,
                sts.last() == self.state,
                is_walk(*corpus, sts),
                forall|i: int| 0 <= i < ws.len() ==> #[trigger] ws[i] == corpus.word_text(sts[skips + i].0),
                forall|i: int| 0 <= i < skips ==> starts_joined(corpus.word_text(#[trigger] sts[i].0)),
            decreases num_words - count, LEADING_PUNCTUATION_LIMIT - skips,
        {
            let ghost st = self.state;
            let w = match self.next() {
                Some(w) => w,
                None => {
                    proof {
                        assert(false);
                    }
                    return finish_sentence(output);
                },
            };
            proof {
                assert(self.corpus.table.is_word(st.0));
                let nsts = sts.push(self.state);
                assert forall|t: int| 0 <= t < nsts.len() - 1 implies #[trigger] walk_step(*corpus, nsts[t], nsts[t + 1]) by {
                    if t < sts.len() - 1 {
                        assert(nsts[t] == sts[t] && nsts[t + 1] == sts[t + 1]);
                    } else {
                        assert(nsts[t] == st);
                    }
                }
                assert(nsts[sts.len() - 1] == st);
                assert(forall|i: int| 0 <= i < sts.len() ==> nsts[i] == sts[i]);
                sts = nsts;
            }
            if count == 0 && skips < LEADING_PUNCTUATION_LIMIT && starts_with_join_before(w) {
                proof {
                    let nsk = sk.push(w@);
                    assert(is_corpus_word(corpus, w@));
                    assert forall|i: int| 0 <= i < nsk.len() implies is_corpus_word(corpus, #[trigger] nsk[i])
                        && starts_joined(nsk[i]) by {
                        if i < sk.len() {
                            assert(nsk[i] == sk[i]);
                        }
                    }
                    sk = nsk;
                }
                skips += 1;
                continue;
            }
            append_word(&mut output, w, count == 0);
            proof {
                let nws = ws.push(w@);
                assert(nws.drop_last() =~= ws);
                assert(is_corpus_word(corpus, w@));
                assert forall|i: int| 0 <= i < nws.len() implies is_corpus_word(corpus, #[trigger] nws[i]) by {
                    if i < ws.len() {
                        assert(nws[i] == ws[i]);
                    }
                }
                ws = nws;
            }
            count += 1;
        }
        let r = finish_sentence(output);
        assert(lo <= ws.len() <= hi && r@ == sentence_of(ws));
        assert(sk.len() <= LEADING_PUNCTUATION_LIMIT);
        proof {
            lemma_finished_ends_sentence(joined(ws));
        }
        r
    }

    /// A random number of paragraphs in `num_paragraphs`, each a sentence of
    /// a random number of words in `num_words`.
    pub fn paragraphs(
        &mut self,
        num_paragraphs: &RangeInclusive<usize>,
        num_words: &RangeInclusive<usize>,
    ) -> (r: Vec<String>)
        requires
            old(self).wf(),
            num_paragraphs@.start <= num_paragraphs@.end,
            num_paragraphs@.end > 0 ==> num_words@.start <= num_words@.end,
        ensures
            final(self).wf(),
            final(self).corpus == old(self).corpus,
            num_paragraphs@.start <= r@.len() <= num_paragraphs@.end,
            forall|i: int|
                0 <= i < r@.len() ==> is_corpus_sentence(
                    old(self).corpus,
                    #[trigger] r@[i]@,
                    num_words@.start as int,
                    num_words@.end as int,
                ),
            forall|i: int| 0 <= i < r@.len() ==> ends_sentence(#[trigger] r@[i]@),
    {
        let (lo, hi) = range_bounds(num_paragraphs);
        let (wlo, whi) = range_bounds(num_words);
        let n = random_between(&mut self.rng, lo, hi);
        let ghost corpus = self.corpus;
        let mut out: Vec<String> = Vec::new();
        let mut i: usize = 0;
        while i < n
            invariant
                self.wf(),
                self.corpus == corpus,
                i <= n,
                out@.len() == i,
                wlo == num_words@.start,
                whi == num_words@.end,
                n > 0 ==> wlo <= whi,
                corpus == old(self).corpus,
                forall|q: int|
                    0 <= q < out@.len() ==> is_corpus_sentence(
                        old(self).corpus,
                        #[trigger] out@[q]@,
                        num_words@.start as int,
                        num_words@.end as int,
                    ),
                forall|q: int| 0 <= q < out@.len() ==> ends_sentence(#[trigger] out@[q]@),
            decreases n - i,
        {
            let range = RangeInclusive::new(wlo, whi);
            let p = self.generate(range);
            let ghost before = out@;
            out.push(p);
            proof {
                assert forall|q: int| 0 <= q < out@.len() implies is_corpus_sentence(
                    old(self).corpus,
                    #[trigger] out@[q]@,
                    num_words@.start as int,
                    num_words@.end as int,
                ) by {
                    if q < before.len() {
                        assert(out@[q] == before[q]);
                    } else {
                        assert(out@[q] == p);
                    }
                }
                assert forall|q: int| 0 <= q < out@.len() implies ends_sentence(#[trigger] out@[q]@) by {
                    if q < before.len() {
                        assert(out@[q] == before[q]);
                    } else {
                        assert(out@[q] == p);
                    }
                }
            }
            i += 1;
        }
        out
    }
}


/// A random walk through the word graph of a corpus.
pub struct Generator2<'a> {
    pub corpus: &'a Corpus,
    pub pos: usize,
    pub rng: SipRng,
}

impl Corpus {
    /// Every node has choices, each a corpus word that leads to a node.
    pub proof fn lemma_nodes(self, i: int, k: int)
        requires
            self.wf(),
            0 <= i < self.nodes@.len(),
        ensures
            self.nodes@[i].choices@.len() > 0,
            0 <= k < self.nodes@[i].choices@.len() ==> self.table.is_word(self.nodes@[i].choices@[k].word)
                && (self.nodes@[i].choices@[k].next matches Some(p) ==> p < self.nodes@.len()),
    {
        reveal(ParseState::entries_ok);
        let es = entries(self.table.map@);
        assert(self.node_choices().len() == self.nodes@.len());
        self.lemma_state_words(i);
        let jw = choose|j: int| 0 <= j < self.table.map@.len() && self.table.map@[j].0 == self.states@[i];
        assert(es[jw].0 == self.states@[i]);
        let j = entry_for(es, self.states@[i]);
        assert(0 <= j < es.len() && es[j].0 == self.states@[i]);
        assert(es[j].1 == self.table.map@[j].1@);
        assert(self.node_choices()[i] == self.nodes@[i].choices@);
        let base = base_choices(self.states@, self.states@[i], es[j].1);
        let extra = if i == 0 {
            start_choices(self.states@, self.text@, es)
        } else {
            Seq::empty()
        };
        assert(self.nodes@[i].choices@ == base + extra);
        assert(base.len() == es[j].1.len());
        if 0 <= k < self.nodes@[i].choices@.len() {
            if k < base.len() {
                let w = es[j].1[k];
                assert(self.table.is_word(self.table.map@[j].1@[k]));
                let key = (self.states@[i].1, w);
                assert(self.nodes@[i].choices@[k] == base[k]);
                assert(base[k] == Next { word: w, next: position(self.states@, key) });
                if self.states@.contains(key) {
                    let p = choose|p: int| 0 <= p < self.states@.len() && self.states@[p] == key;
                }
            } else {
                assert(es.take(es.len() as int) =~= es);
                assert(i == 0);
                assert(self.nodes@[i].choices@[k] == extra[k - base.len()]);
                self.lemma_start_choices(es.len() as int, k - base.len());
            }
        }
    }

    proof fn lemma_start_choices(self, m: int, k: int)
        requires
            self.wf(),
            0 <= m <= entries(self.table.map@).len(),
            0 <= k < start_choices(self.states@, self.text@, entries(self.table.map@).take(m)).len(),
        ensures
            ({
                let c = start_choices(self.states@, self.text@, entries(self.table.map@).take(m))[k];
                self.table.is_word(c.word) && (c.next matches Some(p) ==> p < self.nodes@.len())
            }),
        decreases m,
    {
        reveal(ParseState::entries_ok);
        let es = entries(self.table.map@);
        let t = es.take(m);
        assert(t.drop_last() =~= es.take(m - 1));
        let prev = start_choices(self.states@, self.text@, es.take(m - 1));
        if k < prev.len() {
            self.lemma_start_choices(m - 1, k);
        } else {
            let e = t.last();
            assert(e == es[m - 1]);
            let w = e.1[k - prev.len()];
            assert(self.table.is_word(self.table.map@[m - 1].1@[k - prev.len()]));
            if self.states@.contains(e.0) {
                let p = choose|p: int| 0 <= p < self.states@.len() && self.states@[p] == e.0;
            }
        }
    }

    /// A walk through the word graph, starting at its first node.
    pub fn generator2<'a>(&'a self, rng: SipRng) -> (r: Generator2<'a>)
        requires
            self.wf(),
        ensures
            r.wf(),
            r.corpus == self,
            r.pos == 0,
    {
        proof {
            broadcast use vstd::seq_lib::to_multiset_len;
            assert(self.states@.to_multiset().len() == self.states@.len());
            assert(keys(entries(self.table.map@)).to_multiset().len() == keys(entries(self.table.map@)).len());
            assert(self.node_choices().len() == self.nodes@.len());
        }
        Generator2 { corpus: self, pos: 0, rng }
    }
}

impl<'a> Generator2<'a> {
    pub open spec fn wf(&self) -> bool {
        self.corpus.wf() && self.pos < self.corpus.nodes@.len()
    }

    /// The word of a random choice of the current node, moving on to the node
    /// that the choice leads to, or to a random node.
    pub fn next(&mut self) -> (r: Option<&'a str>)
        requires
            old(self).wf(),
        ensures
            final(self).wf(),
            final(self).corpus == old(self).corpus,
            exists|k: int| #![trigger old(self).corpus.nodes@[old(self).pos as int].choices@[k]]
                0 <= k < old(self).corpus.nodes@[old(self).pos as int].choices@.len() && ({
                    let c = old(self).corpus.nodes@[old(self).pos as int].choices@[k];
                    &&& r matches Some(w) && w@ == old(self).corpus.word_text(c.word)
                    &&& c.next matches Some(p) ==> final(self).pos == p
                }),
    {
        let corpus = self.corpus;
        proof {
            corpus.lemma_nodes(self.pos as int, 0);
        }
        let choices = &corpus.nodes[self.pos].choices;
        let k = random_index(&mut self.rng, choices.len());
        let c = choices[k];
        proof {
            corpus.lemma_nodes(self.pos as int, k as int);
        }
        self.pos = match c.next {
            Some(p) => p,
            None => random_index(&mut self.rng, corpus.nodes.len()),
        };
        Some(corpus.word(c.word))
    }
}


/// Statistics on the memory that a corpus takes.
#[derive(Debug, PartialEq, Eq)]
pub struct SizeData {
    pub text_bytes: usize,
    pub text_words: usize,
    pub map_keys: usize,
    pub map_bytes: usize,
    pub nodes_bytes: usize,
}

/// `a + b`, or `usize::MAX` when the sum does not fit.
pub open spec fn sat_add(a: int, b: int) -> int {
    if a + b > usize::MAX {
        usize::MAX as int
    } else {
        a + b
    }
}

/// The bytes that the followers lists of `map` take, summed.
pub open spec fn followers_bytes(map: Seq<(State, Seq<Substring>)>, pair: nat, list: nat, item: nat) -> int
    decreases map.len(),
{
    if map.len() == 0 {
        0
    } else {
        sat_add(
            followers_bytes(map.drop_last(), pair, list, item),
            sat_add((pair + list) as int, (map.last().1.len() * item) as int),
        )
    }
}

/// The bytes that the choices of `nodes` take, summed.
pub open spec fn choices_bytes(nodes: Seq<Seq<Next>>, item: nat) -> int
    decreases nodes.len(),
{
    if nodes.len() == 0 {
        0
    } else {
        sat_add(choices_bytes(nodes.drop_last(), item), (nodes.last().len() * item) as int)
    }
}

fn sat_mul(a: usize, b: usize) -> (r: usize)
    ensures
        r == if a * b > usize::MAX {
            usize::MAX as int
        } else {
            a * b
        },
{
    match a.checked_mul(b) {
        Some(x) => x,
        None => usize::MAX,
    }
}

fn sat_add_exec(a: usize, b: usize) -> (r: usize)
    ensures
        r == sat_add(a as int, b as int),
{
    a.saturating_add(b)
}

impl Corpus {
    /// Reads one text (see `read`).
    pub fn from_string(text: &str) -> (r: Result<Corpus, ParseError>)
        ensures
            r is Err <==> text_windows(text@, 2, false).len() == 0,
            r matches Err(e) ==> e == ParseError::NoContent,
            r matches Ok(c) ==> c.wf() && c.table.fed@ == text_windows(text@, 2, false),
    {
        read(text)
    }

    /// Reads several texts, one after the other (see `read_from_strings`).
    pub fn from_strings(texts: &[&str]) -> (r: Result<Corpus, ParseError>)
        ensures
            r is Err <==> texts_windows(texts@.map_values(|t: &str| t@), 2, false).len() == 0,
            r matches Err(e) ==> e == ParseError::NoContent,
            r matches Ok(c) ==> c.wf() && c.table.fed@ == texts_windows(
                texts@.map_values(|t: &str| t@),
                2,
                false,
            ),
    {
        read_from_strings(texts)
    }

    /// How much memory the corpus takes, estimated from the sizes of its parts.
    pub fn size(&self) -> (r: SizeData)
        ensures
            r.text_bytes == vstd::utf8::encode_utf8(self.text@).len() as usize,
            r.text_words == 0,
            r.map_keys == self.table.map@.len(),
            r.map_bytes == sat_add(
                sat_add(
                    size_of::<std::collections::HashMap<State, Vec<Substring>>>() as int,
                    followers_bytes(
                        entries(self.table.map@),
                        size_of::<State>(),
                        size_of::<Vec<Substring>>(),
                        size_of::<Substring>(),
                    ),
                ),
                sat_add(
                    size_of::<Vec<State>>() as int,
                    if self.states@.len() * size_of::<State>() > usize::MAX {
                        usize::MAX as int
                    } else {
                        (self.states@.len() * size_of::<State>()) as int
                    },
                ),
            ),
            r.nodes_bytes == sat_add(
                sat_add(
                    size_of::<Vec<Node>>() as int,
                    if self.nodes@.len() * size_of::<Node>() > usize::MAX {
                        usize::MAX as int
                    } else {
                        (self.nodes@.len() * size_of::<Node>()) as int
                    },
                ),
                choices_bytes(self.node_choices(), size_of::<Next>()),
            ),
    {
        let pair = core::mem::size_of::<State>();
        let list = core::mem::size_of::<Vec<Substring>>();
        let item = core::mem::size_of::<Substring>();
        let mut entries_total: usize = 0;
        let mut j: usize = 0;
        while j < self.table.map.len()
            invariant
                j <= self.table.map@.len(),
                pair == size_of::<State>(),
                list == size_of::<Vec<Substring>>(),
                item == size_of::<Substring>(),
                entries_total == followers_bytes(entries(self.table.map@).take(j as int), pair as nat, list as nat, item as nat),
            decreases self.table.map.len() - j,
        {
            let e = sat_add_exec(sat_add_exec(pair, list), sat_mul(self.table.map[j].1.len(), item));
            proof {
                let t = entries(self.table.map@).take(j + 1);
                assert(t.drop_last() =~= entries(self.table.map@).take(j as int));
                assert(t.last().1.len() == self.table.map@[j as int].1@.len());
            }
            entries_total = sat_add_exec(entries_total, e);
            j += 1;
        }
        assert(entries(self.table.map@).take(j as int) =~= entries(self.table.map@));
        let map_bytes = sat_add_exec(
            sat_add_exec(core::mem::size_of::<std::collections::HashMap<State, Vec<Substring>>>(), entries_total),
            sat_add_exec(core::mem::size_of::<Vec<State>>(), sat_mul(self.states.len(), pair)),
        );
        let next_size = core::mem::size_of::<Next>();
        let mut nodes_total: usize = 0;
        let mut i: usize = 0;
        while i < self.nodes.len()
            invariant
                i <= self.nodes@.len(),
                next_size == size_of::<Next>(),
                nodes_total == choices_bytes(self.node_choices().take(i as int), next_size as nat),
            decreases self.nodes.len() - i,
        {
            let e = sat_mul(self.nodes[i].choices.len(), next_size);
            proof {
                let t = self.node_choices().take(i + 1);
                assert(t.drop_last() =~= self.node_choices().take(i as int));
            }
            nodes_total = sat_add_exec(nodes_total, e);
            i += 1;
        }
        assert(self.node_choices().take(i as int) =~= self.node_choices());
        let nodes_bytes = sat_add_exec(
            sat_add_exec(core::mem::size_of::<Vec<Node>>(), sat_mul(self.nodes.len(), core::mem::size_of::<Node>())),
            nodes_total,
        );
        SizeData {
            text_bytes: self.text.as_str().len(),
            text_words: 0,
            map_keys: self.table.map.len(),
            map_bytes,
            nodes_bytes,
        }
    }
}

impl SizeData {
    /// A one-line description of the statistics.
    pub fn describe(&self) -> (r: String)
        ensures
            r@ == decimal(self.text_words as nat) + seq![' ', 'w', 'o', 'r', 'd', 's', ' ', 'i', 'n', ' ']
                + decimal(self.text_bytes as nat) + seq![' ', 'b', 'y', 't', 'e', 's', ',', ' ', 'm', 'a', 'p', ' ', 'o', 'f', ' ']
                + decimal(self.map_keys as nat) + seq![' ', 's', 't', 'a', 't', 'e', 's', ' ', 'i', 'n', ' ']
                + decimal(self.map_bytes as nat) + seq![' ', 'b', 'y', 't', 'e', 's', ',', ' ', 'n', 'o', 'd', 'e', 's', ' ', 'o', 'f', ' ']
                + decimal(self.nodes_bytes as nat) + seq![' ', 'b', 'y', 't', 'e', 's'],
    {
        let mut s = String::new();
        push_decimal(&mut s, self.text_words as u64);
        push_str(&mut s, " words in ");
        push_decimal(&mut s, self.text_bytes as u64);
        push_str(&mut s, " bytes, map of ");
        push_decimal(&mut s, self.map_keys as u64);
        push_str(&mut s, " states in ");
        push_decimal(&mut s, self.map_bytes as u64);
        push_str(&mut s, " bytes, nodes of ");
        push_decimal(&mut s, self.nodes_bytes as u64);
        push_str(&mut s, " bytes");
        proof {
            reveal_strlit(" words in ");
            reveal_strlit(" bytes, map of ");
            reveal_strlit(" states in ");
            reveal_strlit(" bytes, nodes of ");
            reveal_strlit(" bytes");
        }
        assert(s@ =~= decimal(self.text_words as nat) + seq![' ', 'w', 'o', 'r', 'd', 's', ' ', 'i', 'n', ' ']
                + decimal(self.text_bytes as nat) + seq![' ', 'b', 'y', 't', 'e', 's', ',', ' ', 'm', 'a', 'p', ' ', 'o', 'f', ' ']
                + decimal(self.map_keys as nat) + seq![' ', 's', 't', 'a', 't', 'e', 's', ' ', 'i', 'n', ' ']
                + decimal(self.map_bytes as nat) + seq![' ', 'b', 'y', 't', 'e', 's', ',', ' ', 'n', 'o', 'd', 'e', 's', ' ', 'o', 'f', ' ']
                + decimal(self.nodes_bytes as nat) + seq![' ', 'b', 'y', 't', 'e', 's']);
        s
    }
}

} // verus!
