//! Reading texts into the word graph.
use vstd::prelude::*;
use crate::chars::chars_range;
use crate::garbage::generator::{
    base_choices, entries, entry_for, graph_of, keys, position, start_choices, Corpus, Next, Node,
};
use crate::order::{find_state, sort_states, sorted_by, state_lt, strictly_sorted};
use crate::reading::{texts_windows, text_windows, ParseState, State, Substring, Window};
use crate::text::is_ending_word;
use crate::tokens::{Capitalized, SubstringsWindows, Tokenizer, TokenizerView};

verus! {

broadcast use {vstd::seq_lib::to_multiset_contains, vstd::seq_lib::to_multiset_len};

/// Why no corpus could be read.
#[derive(Debug, PartialEq, Eq)]
pub enum ParseError {
    /// A source could not be read; the message says why.
    Io(String),
    /// The sources hold no words.
    NoContent,
}

/// Splits a text into words and punctuation. Every non-blank text starts
/// with two empty tokens, so that its first words also get a pair of
/// predecessors.
pub struct Substrings {
    pub inner: Tokenizer,
}

impl Substrings {
    pub open spec fn view(&self) -> TokenizerView {
        self.inner@
    }

    /// The tokens of `s`.
    pub fn new(s: &str) -> (r: Substrings)
        ensures
            r.inner.wf(),
            r.view() == (TokenizerView {
                source: s@,
                pos: 0,
                start_of_sentence: true,
                leading_nulls: 2,
                legacy: false,
            }),
    {
        Substrings { inner: Tokenizer::new(s, 2, false) }
    }

    /// The next token, if any.
    pub fn next(&mut self) -> (r: Option<Capitalized>)
        requires
            old(self).inner.wf(),
        ensures
            final(self).inner.wf(),
            r matches Some(c) ==> old(self).view().step().0 == Some(c@),
            r is None ==> old(self).view().step().0 is None,
            final(self).view() == old(self).view().step().1,
    {
        self.inner.next()
    }

    /// All remaining tokens.
    pub fn collect_all(self) -> (r: Vec<Capitalized>)
        requires
            self.inner.wf(),
        ensures
            crate::tokens::token_views(r@) == self.view().tokens(),
    {
        let mut inner = self.inner;
        inner.collect_all()
    }

    /// Every three consecutive tokens.
    pub fn windows(self) -> (r: SubstringsWindows)
        requires
            self.inner.wf(),
        ensures
            r.wf(),
            r.remaining() == crate::tokens::windows_of(self.view().tokens()),
    {
        self.inner.windows()
    }
}

proof fn lemma_empty_iff(st: ParseState)
    requires
        st.wf(),
    ensures
        st.map@.len() == 0 <==> st.fed@.len() == 0,
{
    reveal(ParseState::entries_ok);
    reveal(ParseState::complete);
    if st.fed@.len() > 0 {
        assert(st.has_key_for(st.fed@[0].0, st.fed@[0].1));
    }
    if st.map@.len() > 0 {
        let m = st.map@[0];
        assert(m.1@.map_values(|s: Substring| st.text_of(s)).len() > 0);
    }
}

/// Copies the keys of the table.
fn table_keys(st: &ParseState) -> (r: Vec<State>)
    ensures
        r@ == keys(entries(st.map@)),
{
    let mut out: Vec<State> = Vec::new();
    let mut i: usize = 0;
    while i < st.map.len()
        invariant
            i <= st.map@.len(),
            out@ == keys(entries(st.map@)).take(i as int),
        decreases st.map.len() - i,
    {
        out.push(st.map[i].0);
        i += 1;
        assert(out@ =~= keys(entries(st.map@)).take(i as int));
    }
    assert(keys(entries(st.map@)).take(i as int) =~= keys(entries(st.map@)));
    out
}

proof fn lemma_sorted_distinct(states: Seq<State>, ks: Seq<State>)
    requires
        sorted_by(states, true),
        ks.no_duplicates(),
        states.to_multiset() == ks.to_multiset(),
    ensures
        strictly_sorted(states),
        states.no_duplicates(),
{
    ks.lemma_multiset_has_no_duplicates();
    states.lemma_multiset_has_no_duplicates_conv();
    assert forall|i: int, j: int| 0 <= i < j < states.len() implies state_lt(
        #[trigger] states[i],
        #[trigger] states[j],
        true,
    ) by {
        assert(!state_lt(states[j], states[i], true));
        assert(states[i] != states[j]);
    }
}

proof fn lemma_position(states: Seq<State>, k: State, i: int)
    requires
        strictly_sorted(states),
        0 <= i < states.len(),
        states[i] == k,
    ensures
        position(states, k) == Some(i as usize),
{
    let j = choose|j: int| 0 <= j < states.len() && states[j] == k;
    if i < j {
        assert(state_lt(states[i], states[j], true));
    } else if j < i {
        assert(state_lt(states[j], states[i], true));
    }
}

/// The position of `k` in strictly sorted `states` (see `position`).
fn locate(states: &Vec<State>, k: State) -> (r: Option<usize>)
    requires
        strictly_sorted(states@),
    ensures
        r == position(states@, k),
{
    let r = find_state(states, k);
    proof {
        if let Some(i) = r {
            lemma_position(states@, k, i as int);
        }
    }
    r
}

/// The choices after pair `key` (see `base_choices`).
fn node_choices(states: &Vec<State>, key: State, followers: &Vec<Substring>) -> (r: Vec<Next>)
    requires
        strictly_sorted(states@),
    ensures
        r@ == base_choices(states@, key, followers@),
{
    let mut out: Vec<Next> = Vec::new();
    let mut i: usize = 0;
    while i < followers.len()
        invariant
            strictly_sorted(states@),
            i <= followers@.len(),
            out@ == base_choices(states@, key, followers@.take(i as int)),
        decreases followers.len() - i,
    {
        let w = followers[i];
        let next = locate(states, (key.1, w));
        out.push(Next { word: w, next });
        i += 1;
        assert(out@ =~= base_choices(states@, key, followers@.take(i as int)));
    }
    assert(followers@.take(i as int) =~= followers@);
    out
}

/// Builds the word graph of everything read into `st`.
pub fn finish(st: ParseState) -> (r: Result<Corpus, ParseError>)
    requires
        st.wf(),
    ensures
        r is Err <==> st.fed@.len() == 0,
        r matches Err(e) ==> e == ParseError::NoContent,
        r matches Ok(c) ==> c.wf() && c.table.fed@ == st.fed@,
        r matches Ok(c) ==> c.table == st && c.text@ == st.compressed@,
{
    proof {
        lemma_empty_iff(st);
    }
    if st.map.len() == 0 {
        return Err(ParseError::NoContent);
    }
    let ghost es = entries(st.map@);
    let ks = table_keys(&st);
    let states = sort_states(&ks, true);
    proof {
        reveal(ParseState::keys_distinct);
        assert(ks@.no_duplicates()) by {
            assert forall|i: int, j: int| 0 <= i < ks@.len() && 0 <= j < ks@.len() && i != j implies ks@[i]
                != ks@[j] by {
                assert(st.map@[i].0 != st.map@[j].0);
            }
        }
        lemma_sorted_distinct(states@, ks@);
    }
    // One node per state, filled in entry by entry.
    let n = states.len();
    let mut nodes: Vec<Node> = Vec::new();
    let mut i: usize = 0;
    while i < n
        invariant
            i <= n == states@.len(),
            nodes@.len() == i,
        decreases n - i,
    {
        nodes.push(Node { choices: Vec::new() });
        i += 1;
    }
    let mut j: usize = 0;
    while j < st.map.len()
        invariant
            st.wf(),
            es == entries(st.map@),
            ks@ == keys(es),
            strictly_sorted(states@),
            states@.to_multiset() == ks@.to_multiset(),
            states@.len() == n == nodes@.len(),
            j <= st.map@.len(),
            forall|q: int|
                0 <= q < j ==> (#[trigger] position(states@, es[q].0) matches Some(p) && nodes@[p as int].choices@
                    == base_choices(states@, es[q].0, es[q].1)),
        decreases st.map.len() - j,
    {
        let key = st.map[j].0;
        proof {
            assert(ks@[j as int] == key);
            assert(ks@.to_multiset().contains(key));
            assert(states@.contains(key));
        }
        let p = locate(&states, key).unwrap();
        let choices = node_choices(&states, key, &st.map[j].1);
        let ghost before = nodes@;
        nodes.set(p, Node { choices });
        proof {
            reveal(ParseState::keys_distinct);
            assert forall|q: int| 0 <= q < j + 1 implies (#[trigger] position(states@, es[q].0) matches Some(pp)
                && nodes@[pp as int].choices@ == base_choices(states@, es[q].0, es[q].1)) by {
                if q < j {
                    let pp = position(states@, es[q].0)->0;
                    assert(st.map@[q].0 != st.map@[j as int].0);
                    assert(pp != p);
                    assert(nodes@[pp as int] == before[pp as int]);
                }
            }
        }
        j += 1;
    }
    proof {
        assert(ks@.len() == st.map@.len());
        assert(ks@.to_multiset().len() == ks@.len());
        assert(states@.to_multiset().len() == states@.len());
    }
    let ghost text = st.compressed@;
    let ghost mid = nodes@;
    let ghost base0 = nodes@[0].choices@;
    let mut k: usize = 0;
    while k < st.map.len()
        invariant
            st.wf(),
            es == entries(st.map@),
            text == st.compressed@,
            strictly_sorted(states@),
            states@.len() == n == nodes@.len(),
            n > 0,
            mid.len() == n,
            base0 == mid[0].choices@,
            k <= st.map@.len(),
            nodes@[0].choices@ == base0 + start_choices(states@, text, es.take(k as int)),
            forall|q: int| 1 <= q < n ==> #[trigger] nodes@[q] == mid[q],
        decreases st.map.len() - k,
    {
        let key = st.map[k].0;
        proof {
            reveal(ParseState::entries_ok);
            assert(st.is_word(key.1));
            let q = choose|q: int| 0 <= q < st.interned@.len() && st.interned@[q] == key.1;
            st.lemma_interned_bounds(q);
        }
        let second = chars_range(&st.compressed, key.1.0, key.1.1);
        let ghost prev = nodes@[0].choices@;
        let ghost e = es[k as int];
        if is_ending_word(&second) {
            let target = locate(&states, key);
            let followers = &st.map[k].1;
            let mut w: usize = 0;
            while w < followers.len()
                invariant
                    states@.len() == n == nodes@.len(),
                    n > 0,
                    forall|q: int| 1 <= q < n ==> #[trigger] nodes@[q] == mid[q],
                    w <= followers@.len(),
                    followers@ == e.1,
                    target == position(states@, e.0),
                    nodes@[0].choices@ == prev + e.1.take(w as int).map_values(
                        |x: Substring| Next { word: x, next: position(states@, e.0) },
                    ),
                decreases followers.len() - w,
            {
                let item = Next { word: followers[w], next: target };
                nodes[0].choices.push(item);
                w += 1;
                assert(e.1.take(w as int).map_values(
                    |x: Substring| Next { word: x, next: position(states@, e.0) },
                ) =~= e.1.take(w - 1).map_values(
                    |x: Substring| Next { word: x, next: position(states@, e.0) },
                ).push(item));
            }
            assert(e.1.take(w as int) =~= e.1);
        }
        proof {
            assert(es.take(k + 1).drop_last() =~= es.take(k as int));
            assert(es.take(k + 1).last() == e);
            assert(second@ == text.subrange(e.0.1.0 as int, e.0.1.1 as int));
        }
        k += 1;
    }
    proof {
        assert(es.take(k as int) =~= es);
        let ghost chs = nodes@.map_values(|nd: Node| nd.choices@);
        assert forall|i: int| 0 <= i < states@.len() implies #[trigger] chs[i] == base_choices(states@, states@[i], es[entry_for(es, states@[i])].1) + if i == 0 {
            start_choices(states@, text, es)
        } else {
            Seq::empty()
        } by {
            assert(states@.contains(states@[i]));
            assert(ks@.to_multiset().contains(states@[i]));
            assert(ks@.contains(states@[i]));
            let jj = entry_for(es, states@[i]);
            let q = choose|q: int| 0 <= q < ks@.len() && ks@[q] == states@[i];
            assert(es[q].0 == states@[i]);
            reveal(ParseState::keys_distinct);
            assert(jj == q) by {
                if jj != q {
                    assert(st.map@[jj].0 != st.map@[q].0);
                }
            }
            lemma_position(states@, states@[i], i);
        }
    }
    let text_string = crate::chars::string_of(st.compressed.as_slice());
    Ok(Corpus { text: text_string, table: st, states, nodes })
}

} // verus!

verus! {

/// Reads one text into a word graph.
pub fn read(text: &str) -> (r: Result<Corpus, ParseError>)
    ensures
        r is Err <==> text_windows(text@, 2, false).len() == 0,
        r matches Err(e) ==> e == ParseError::NoContent,
        r matches Ok(c) ==> c.wf() && c.table.fed@ == text_windows(text@, 2, false),
{
    let mut st = ParseState::new();
    st.read_text(text, 2, false);
    assert(st.fed@ =~= text_windows(text@, 2, false));
    finish(st)
}

/// Reads several texts, one after the other, into one word graph.
pub fn read_from_strings(texts: &[&str]) -> (r: Result<Corpus, ParseError>)
    ensures
        r is Err <==> texts_windows(texts@.map_values(|t: &str| t@), 2, false).len() == 0,
        r matches Err(e) ==> e == ParseError::NoContent,
        r matches Ok(c) ==> c.wf() && c.table.fed@ == texts_windows(
            texts@.map_values(|t: &str| t@),
            2,
            false,
        ),
{
    let mut st = ParseState::new();
    st.read_texts(texts, 2, false);
    assert(st.fed@ =~= texts_windows(texts@.map_values(|t: &str| t@), 2, false));
    finish(st)
}

} // verus!
