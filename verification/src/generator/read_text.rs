//! Reading texts into the table of word triples.
use vstd::prelude::*;
use crate::chars::chars_range;
use crate::generator::generator::{starting_keys, Corpus};
use crate::garbage::generator::{entries, keys};
use crate::order::{sort_states, sorted_by};
use crate::reading::{texts_windows, text_windows, ParseState, State, Substring};
use crate::text::join_before;
use crate::tokens::{Capitalized, SubstringsWindows, Tokenizer, TokenizerView};

pub use crate::garbage::read_text::ParseError;

verus! {

broadcast use {vstd::seq_lib::to_multiset_contains, vstd::seq_lib::to_multiset_len};

/// Splits a text into words and punctuation.
pub struct Substrings {
    pub inner: Tokenizer,
}

impl Substrings {
    pub open spec fn view(&self) -> TokenizerView {
        self.inner@
    }

    /// The tokens of `s`.
    pub fn new(s: &str) -> (r: Substrings)
        ensures
            r.inner.wf(),
            r.view() == (TokenizerView {
                source: s@,
                pos: 0,
                start_of_sentence: true,
                leading_nulls: 0,
                legacy: true,
            }),
    {
        Substrings { inner: Tokenizer::new(s, 0, true) }
    }

    /// The next token, if any.
    pub fn next(&mut self) -> (r: Option<Capitalized>)
        requires
            old(self).inner.wf(),
        ensures
            final(self).inner.wf(),
            r matches Some(c) ==> old(self).view().step().0 == Some(c@),
            r is None ==> old(self).view().step().0 is None,
            final(self).view() == old(self).view().step().1,
    {
        self.inner.next()
    }

    /// All remaining tokens.
    pub fn collect_all(self) -> (r: Vec<Capitalized>)
        requires
            self.inner.wf(),
        ensures
            crate::tokens::token_views(r@) == self.view().tokens(),
    {
        let mut inner = self.inner;
        inner.collect_all()
    }

    /// Every three consecutive tokens.
    pub fn windows(self) -> (r: SubstringsWindows)
        requires
            self.inner.wf(),
        ensures
            r.wf(),
            r.remaining() == crate::tokens::windows_of(self.view().tokens()),
    {
        self.inner.windows()
    }
}

/// The pairs whose first word does not start with closing punctuation.
fn starting_states(st: &ParseState) -> (r: Vec<State>)
    requires
        st.wf(),
    ensures
        r@ == starting_keys(st.compressed@, keys(entries(st.map@))),
{
    let ghost ks = keys(entries(st.map@));
    let mut out: Vec<State> = Vec::new();
    let mut i: usize = 0;
    while i < st.map.len()
        invariant
            st.wf(),
            ks == keys(entries(st.map@)),
            i <= st.map@.len(),
            out@ == starting_keys(st.compressed@, ks.take(i as int)),
        decreases st.map.len() - i,
    {
        let k = st.map[i].0;
        proof {
            reveal(ParseState::entries_ok);
            assert(st.is_word(k.0));
            let q = choose|q: int| 0 <= q < st.interned@.len() && st.interned@[q] == k.0;
            st.lemma_interned_bounds(q);
            assert(ks.take(i + 1).drop_last() =~= ks.take(i as int));
            assert(ks.take(i + 1).last() == k);
        }
        let first = chars_range(&st.compressed, k.0.0, k.0.1);
        if !(first.len() > 0 && join_before(first[0])) {
            out.push(k);
        }
        i += 1;
    }
    assert(ks.take(i as int) =~= ks);
    out
}

/// Builds the table of everything read into `st`, with the pairs that may
/// start a walk in order of their positions.
pub fn finish(st: ParseState) -> (r: Result<Corpus, ParseError>)
    requires
        st.wf(),
    ensures
        r is Err <==> st.fed@.len() == 0,
        r matches Err(e) ==> e == ParseError::NoContent,
        r matches Ok(c) ==> c.wf() && c.table.fed@ == st.fed@,
        r matches Ok(c) ==> c.table == st && c.text@ == st.compressed@,
{
    proof {
        reveal(ParseState::entries_ok);
        reveal(ParseState::complete);
        if st.fed@.len() > 0 {
            assert(st.has_key_for(st.fed@[0].0, st.fed@[0].1));
        }
        if st.map@.len() > 0 {
            let m = st.map@[0];
            assert(m.1@.map_values(|s: Substring| st.text_of(s)).len() > 0);
        }
    }
    if st.map.len() == 0 {
        return Err(ParseError::NoContent);
    }
    let candidates = starting_states(&st);
    let states = sort_states(&candidates, false);
    let text = crate::chars::string_of(st.compressed.as_slice());
    Ok(Corpus { text, table: st, states })
}

/// Reads one text into a table.
pub fn read(text: &str) -> (r: Result<Corpus, ParseError>)
    ensures
        r is Err <==> text_windows(text@, 0, true).len() == 0,
        r matches Err(e) ==> e == ParseError::NoContent,
        r matches Ok(c) ==> c.wf() && c.table.fed@ == text_windows(text@, 0, true),
{
    let mut st = ParseState::new();
    st.read_text(text, 0, true);
    assert(st.fed@ =~= text_windows(text@, 0, true));
    finish(st)
}

/// Reads several texts, one after the other, into one table.
pub fn read_from_strings(texts: &[&str]) -> (r: Result<Corpus, ParseError>)
    ensures
        r is Err <==> texts_windows(texts@.map_values(|t: &str| t@), 0, true).len() == 0,
        r matches Err(e) ==> e == ParseError::NoContent,
        r matches Ok(c) ==> c.wf() && c.table.fed@ == texts_windows(
            texts@.map_values(|t: &str| t@),
            0,
            true,
        ),
{
    let mut st = ParseState::new();
    st.read_texts(texts, 0, true);
    assert(st.fed@ =~= texts_windows(texts@.map_values(|t: &str| t@), 0, true));
    finish(st)
}

} // verus!
