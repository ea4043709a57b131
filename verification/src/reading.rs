//! Reading texts into a table of word triples: which words follow each pair
//! of words. Shared by both corpus readers.
use vstd::prelude::*;
use crate::chars::{chars_of, to_lowercase, unicode_lowercase};
use crate::tokens::{Capitalized, Tokenizer, TokenizerView, windows_of};

verus! {

/// The position of a word in the compressed text: the characters from index
/// `0` up to (not including) index `1`. The indices count characters, not
/// bytes: in `"éa"`, `Substring(0, 1)` is `"é"` and `Substring(0, 2)` is
/// `"éa"`. They match byte offsets only where the text is ASCII.
#[derive(Clone, Copy, Debug, Default, PartialEq, Eq, Hash, PartialOrd, Ord)]
pub struct Substring(pub usize, pub usize);

/// A pair of consecutive words.
pub type State = (Substring, Substring);

/// Three consecutive words of the source texts.
pub type Window = (Seq<char>, Seq<char>, Seq<char>);

/// The word that a token stands for in the corpus: capitalized tokens as
/// they are, the others in lower case.
pub open spec fn downcased(t: (bool, Seq<char>)) -> Seq<char> {
    if t.0 {
        t.1
    } else {
        unicode_lowercase(t.1)
    }
}

/// The word windows of one text, as read with the given tokenizer settings.
pub open spec fn text_windows(text: Seq<char>, leading_nulls: nat, legacy: bool) -> Seq<Window> {
    windows_of(
        TokenizerView { source: text, pos: 0, start_of_sentence: true, leading_nulls, legacy }.tokens(),
    ).map_values(
        |w: ((bool, Seq<char>), (bool, Seq<char>), (bool, Seq<char>))|
            (downcased(w.0), downcased(w.1), downcased(w.2)),
    )
}

/// The word windows of several texts, one text after the other.
pub open spec fn texts_windows(texts: Seq<Seq<char>>, leading_nulls: nat, legacy: bool) -> Seq<Window>
    decreases texts.len(),
{
    if texts.len() == 0 {
        Seq::empty()
    } else {
        texts_windows(texts.drop_last(), leading_nulls, legacy) + text_windows(
            texts.last(),
            leading_nulls,
            legacy,
        )
    }
}

/// Reading one text reads the same windows as reading a list that holds
/// only that text: so each reader's `read` and `read_from_strings` agree on
/// whether they succeed and on the windows their word graph is built from.
pub proof fn lemma_one_text_is_a_list_of_one(text: Seq<char>, leading_nulls: nat, legacy: bool)
    ensures
        texts_windows(seq![text], leading_nulls, legacy) == text_windows(text, leading_nulls, legacy),
{
    let texts = seq![text];
    assert(texts.drop_last() =~= Seq::<Seq<char>>::empty());
    assert(texts.last() == text);
    assert(texts_windows(Seq::<Seq<char>>::empty(), leading_nulls, legacy) == Seq::<Window>::empty());
    assert(Seq::<Window>::empty() + text_windows(text, leading_nulls, legacy) =~= text_windows(
        text,
        leading_nulls,
        legacy,
    ));
}

/// The words of the windows, in order.
pub open spec fn flat(f: Seq<Window>) -> Seq<Seq<char>>
    decreases f.len(),
{
    if f.len() == 0 {
        Seq::empty()
    } else {
        flat(f.drop_last()) + seq![f.last().0, f.last().1, f.last().2]
    }
}

/// The elements of `s` without repetitions, in order of first appearance.
pub open spec fn dedup<T>(s: Seq<T>) -> Seq<T>
    decreases s.len(),
{
    if s.len() == 0 {
        Seq::empty()
    } else if dedup(s.drop_last()).contains(s.last()) {
        dedup(s.drop_last())
    } else {
        dedup(s.drop_last()).push(s.last())
    }
}

/// The words `ws` written one after the other.
pub open spec fn concat(ws: Seq<Seq<char>>) -> Seq<char>
    decreases ws.len(),
{
    if ws.len() == 0 {
        Seq::empty()
    } else {
        concat(ws.drop_last()) + ws.last()
    }
}

/// The words that follow the pair `a b` in the windows, in order.
pub open spec fn followers(f: Seq<Window>, a: Seq<char>, b: Seq<char>) -> Seq<Seq<char>>
    decreases f.len(),
{
    if f.len() == 0 {
        Seq::empty()
    } else if f.last().0 == a && f.last().1 == b {
        followers(f.drop_last(), a, b).push(f.last().2)
    } else {
        followers(f.drop_last(), a, b)
    }
}

pub proof fn lemma_dedup(s: Seq<Seq<char>>)
    ensures
        dedup(s).no_duplicates(),
        forall|x: Seq<char>| dedup(s).contains(x) <==> s.contains(x),
    decreases s.len(),
{
    if s.len() > 0 {
        lemma_dedup(s.drop_last());
        assert forall|x: Seq<char>| dedup(s).contains(x) <==> s.contains(x) by {
            if s.contains(x) {
                let i = choose|i: int| 0 <= i < s.len() && s[i] == x;
                if i < s.len() - 1 {
                    assert(s.drop_last()[i] == x);
                }
            }
            if s.drop_last().contains(x) {
                let i = choose|i: int| 0 <= i < s.drop_last().len() && s.drop_last()[i] == x;
                assert(s[i] == x);
            }
            if dedup(s.drop_last()).contains(x) {
                let i = choose|i: int|
                    0 <= i < dedup(s.drop_last()).len() && dedup(s.drop_last())[i] == x;
                if !dedup(s.drop_last()).contains(s.last()) {
                    assert(dedup(s)[i] == x);
                }
            }
            if !dedup(s.drop_last()).contains(s.last()) {
                let d = dedup(s.drop_last());
                assert(d.push(s.last())[d.len() as int] == s.last());
                if d.push(s.last()).contains(x) {
                    let i = choose|i: int| 0 <= i < d.push(s.last()).len() && d.push(s.last())[i] == x;
                    if i < d.len() {
                        assert(d[i] == x);
                    }
                }
            }
        }
    }
}

pub proof fn lemma_concat_push(ws: Seq<Seq<char>>, w: Seq<char>)
    ensures
        concat(ws.push(w)) == concat(ws) + w,
{
    assert(ws.push(w).drop_last() =~= ws);
}

pub proof fn lemma_concat_take(ws: Seq<Seq<char>>, i: int)
    requires
        0 <= i < ws.len(),
    ensures
        concat(ws.take(i + 1)) == concat(ws.take(i)) + ws[i],
        concat(ws.take(i + 1)).len() <= concat(ws).len(),
    decreases ws.len(),
{
    assert(ws.take(i + 1).drop_last() =~= ws.take(i));
    if i + 1 < ws.len() {
        lemma_concat_take(ws.drop_last(), i);
        assert(ws.drop_last().take(i + 1) =~= ws.take(i + 1));
        assert(ws.drop_last().take(i) =~= ws.take(i));
    } else {
        assert(ws.take(i + 1) =~= ws);
    }
}

/// The state of reading texts: the compressed text, where each distinct word
/// is written once, and the table of followers of each pair of words.
pub struct ParseState {
    pub compressed: Vec<char>,
    pub interned: Vec<Substring>,
    pub map: Vec<(State, Vec<Substring>)>,
    pub seen: Ghost<Seq<Seq<char>>>,
    pub fed: Ghost<Seq<Window>>,
}

impl ParseState {
    /// The characters that a substring denotes.
    pub open spec fn text_of(self, s: Substring) -> Seq<char> {
        self.compressed@.subrange(s.0 as int, s.1 as int)
    }

    /// The distinct words, in order of first appearance.
    pub open spec fn words(self) -> Seq<Seq<char>> {
        self.interned@.map_values(|s: Substring| self.compressed@.subrange(s.0 as int, s.1 as int))
    }

    /// Whether `s` denotes one of the words.
    pub open spec fn is_word(self, s: Substring) -> bool {
        self.interned@.contains(s)
    }

    #[verifier::opaque]
    pub open spec fn wf_words(self) -> bool {
        &&& self.words() == dedup(self.seen@)
        &&& self.compressed@ == concat(self.words())
        &&& forall|i: int|
            0 <= i < self.interned@.len() ==> (#[trigger] self.interned@[i]).0 == concat(
                self.words().take(i),
            ).len() && self.interned@[i].1 == self.interned@[i].0 + self.words()[i].len()
    }

    /// No two entries of the table are for the same pair.
    #[verifier::opaque]
    pub open spec fn keys_distinct(self) -> bool {
        forall|i: int, j: int|
            0 <= i < self.map@.len() && 0 <= j < self.map@.len() && i != j ==> (#[trigger] self.map@[i]).0
                != (#[trigger] self.map@[j]).0
    }

    /// Each entry is for a pair of words and lists the followers of that pair.
    #[verifier::opaque]
    pub open spec fn entries_ok(self) -> bool {
        forall|i: int|
            0 <= i < self.map@.len() ==> self.is_word((#[trigger] self.map@[i]).0.0) && self.is_word(
                self.map@[i].0.1,
            ) && self.map@[i].1@.len() > 0 && (forall|k: int|
                0 <= k < self.map@[i].1@.len() ==> self.is_word(#[trigger] self.map@[i].1@[k]))
                && self.map@[i].1@.map_values(|s: Substring| self.text_of(s)) == followers(
                self.fed@,
                self.text_of(self.map@[i].0.0),
                self.text_of(self.map@[i].0.1),
            )
    }

    /// Every pair of the windows read has an entry.
    #[verifier::opaque]
    pub open spec fn complete(self) -> bool {
        forall|w: int|
            0 <= w < self.fed@.len() ==> self.has_key_for(#[trigger] self.fed@[w].0, self.fed@[w].1)
    }

    pub open spec fn wf_map(self) -> bool {
        &&& self.keys_distinct()
        &&& self.entries_ok()
        &&& self.complete()
    }

    /// Whether the table has an entry for the pair of words `a b`.
    pub open spec fn has_key_for(self, a: Seq<char>, b: Seq<char>) -> bool {
        exists|i: int|
            0 <= i < self.map@.len() && self.text_of((#[trigger] self.map@[i]).0.0) == a
                && self.text_of(self.map@[i].0.1) == b
    }

    pub open spec fn wf(self) -> bool {
        &&& self.wf_words()
        &&& self.wf_map()
        &&& self.seen@ == flat(self.fed@)
    }

    /// A state that has read nothing.
    pub fn new() -> (r: ParseState)
        ensures
            r.wf(),
            r.fed@ == Seq::<Window>::empty(),
    {
        proof {
            reveal(ParseState::wf_words);
            reveal(ParseState::keys_distinct);
            reveal(ParseState::entries_ok);
            reveal(ParseState::complete);
        }
        let r = ParseState {
            compressed: Vec::new(),
            interned: Vec::new(),
            map: Vec::new(),
            seen: Ghost(Seq::empty()),
            fed: Ghost(Seq::empty()),
        };
        assert(r.words() =~= Seq::<Seq<char>>::empty());
        r
    }
}


/// Whether `v[from..to]` holds the characters of `w`.
pub fn range_eq(v: &Vec<char>, from: usize, to: usize, w: &Vec<char>) -> (r: bool)
    requires
        from <= to <= v@.len(),
    ensures
        r == (v@.subrange(from as int, to as int) == w@),
{
    if to - from != w.len() {
        return false;
    }
    let mut i: usize = 0;
    while i < w.len()
        invariant
            from <= to <= v@.len(),
            to - from == w@.len(),
            i <= w@.len(),
            forall|j: int| 0 <= j < i ==> v@[from + j] == w@[j],
        decreases w.len() - i,
    {
        if v[from + i] != w[i] {
            assert(v@.subrange(from as int, to as int)[i as int] != w@[i as int]);
            return false;
        }
        i += 1;
    }
    assert(v@.subrange(from as int, to as int) =~= w@);
    true
}

impl ParseState {
    pub proof fn lemma_interned_bounds(self, i: int)
        requires
            self.wf_words(),
            0 <= i < self.interned@.len(),
        ensures
            self.interned@[i].0 <= self.interned@[i].1 <= self.compressed@.len(),
            self.text_of(self.interned@[i]) == self.words()[i],
    {
        reveal(ParseState::wf_words);
        lemma_concat_take(self.words(), i);
        assert(self.words().take(i + 1).len() == i + 1);
    }

    /// Interning keeps words unique: two different positions of the
    /// interned list hold different words, so equal words always intern to
    /// the same substring, and every word that was read is interned.
    pub proof fn lemma_interned_unique(self, i: int, j: int)
        requires
            self.wf_words(),
            0 <= i < self.interned@.len(),
            0 <= j < self.interned@.len(),
            i != j,
        ensures
            self.text_of(self.interned@[i]) != self.text_of(self.interned@[j]),
            self.interned@[i] != self.interned@[j],
            forall|w: Seq<char>| #[trigger] self.seen@.contains(w) <==> exists|k: int|
                0 <= k < self.interned@.len() && self.text_of(#[trigger] self.interned@[k]) == w,
    {
        reveal(ParseState::wf_words);
        lemma_dedup(self.seen@);
        self.lemma_interned_bounds(i);
        self.lemma_interned_bounds(j);
        assert forall|w: Seq<char>| #[trigger] self.seen@.contains(w) implies exists|k: int|
            0 <= k < self.interned@.len() && self.text_of(#[trigger] self.interned@[k]) == w by {
            assert(dedup(self.seen@).contains(w));
            let k = choose|k: int| 0 <= k < self.words().len() && self.words()[k] == w;
            self.lemma_interned_bounds(k);
        }
        assert forall|w: Seq<char>| (exists|k: int|
            0 <= k < self.interned@.len() && self.text_of(#[trigger] self.interned@[k]) == w) implies
            #[trigger] self.seen@.contains(w) by {
            let k = choose|k: int| 0 <= k < self.interned@.len() && self.text_of(#[trigger] self.interned@[k]) == w;
            self.lemma_interned_bounds(k);
            assert(dedup(self.seen@)[k] == w);
        }
    }

    proof fn lemma_word_stable(old: ParseState, new: ParseState, s: Substring)
        requires
            old.is_word(s),
            old.compressed@.len() <= new.compressed@.len(),
            new.compressed@.subrange(0, old.compressed@.len() as int) == old.compressed@,
            old.interned@.len() <= new.interned@.len(),
            new.interned@.take(old.interned@.len() as int) == old.interned@,
            forall|i: int|
                0 <= i < old.interned@.len() ==> (#[trigger] old.interned@[i]).1 <= old.compressed@.len(),
            forall|i: int|
                0 <= i < old.interned@.len() ==> (#[trigger] old.interned@[i]).0 <= old.interned@[i].1,
        ensures
            new.is_word(s),
            new.text_of(s) == old.text_of(s),
    {
        let i = choose|i: int| 0 <= i < old.interned@.len() && old.interned@[i] == s;
        assert(new.interned@.take(old.interned@.len() as int)[i] == s);
        assert(new.interned@[i] == s);
        assert(new.compressed@.subrange(s.0 as int, s.1 as int) =~= old.compressed@.subrange(
            s.0 as int,
            s.1 as int,
        ));
    }

    /// Extending the compressed text and the words keeps the table valid.
    proof fn lemma_extend_map(old: ParseState, new: ParseState)
        requires
            old.wf_map(),
            new.map == old.map,
            new.fed == old.fed,
            old.compressed@.len() <= new.compressed@.len(),
            new.compressed@.subrange(0, old.compressed@.len() as int) == old.compressed@,
            old.interned@.len() <= new.interned@.len(),
            new.interned@.take(old.interned@.len() as int) == old.interned@,
            forall|i: int|
                0 <= i < old.interned@.len() ==> (#[trigger] old.interned@[i]).1 <= old.compressed@.len(),
            forall|i: int|
                0 <= i < old.interned@.len() ==> (#[trigger] old.interned@[i]).0 <= old.interned@[i].1,
        ensures
            new.wf_map(),
    {
        reveal(ParseState::keys_distinct);
        reveal(ParseState::entries_ok);
        reveal(ParseState::complete);
        assert forall|s: Substring| old.is_word(s) implies new.is_word(s) && new.text_of(s)
            == old.text_of(s) by {
            ParseState::lemma_word_stable(old, new, s);
        }
        assert forall|i: int| #![trigger new.map@[i]] 0 <= i < new.map@.len() implies new.map@[i].1@.map_values(
            |s: Substring| new.text_of(s),
        ) == old.map@[i].1@.map_values(|s: Substring| old.text_of(s)) by {
            assert(new.map@[i].1@.map_values(|s: Substring| new.text_of(s)) =~= old.map@[i].1@.map_values(
                |s: Substring| old.text_of(s),
            ));
        }
        assert forall|w: int| 0 <= w < new.fed@.len() implies new.has_key_for(
            #[trigger] new.fed@[w].0,
            new.fed@[w].1,
        ) by {
            assert(old.fed@[w] == new.fed@[w]);
            assert(old.has_key_for(old.fed@[w].0, old.fed@[w].1));
            let i = choose|i: int|
                0 <= i < old.map@.len() && old.text_of((#[trigger] old.map@[i]).0.0) == old.fed@[w].0
                    && old.text_of(old.map@[i].0.1) == old.fed@[w].1;
            assert(new.map@[i] == old.map@[i]);
            ParseState::lemma_word_stable(old, new, old.map@[i].0.0);
            ParseState::lemma_word_stable(old, new, old.map@[i].0.1);
            assert(0 <= i < new.map@.len() && new.text_of(new.map@[i].0.0) == new.fed@[w].0
                && new.text_of(new.map@[i].0.1) == new.fed@[w].1);
        }
    }

    /// The position of `word` in the compressed text; a word seen for the
    /// first time is written at the end.
    pub fn intern(&mut self, word: &Vec<char>) -> (r: Substring)
        requires
            old(self).wf_words(),
        ensures
            final(self).wf_words(),
            final(self).seen@ == old(self).seen@.push(word@),
            final(self).fed == old(self).fed,
            final(self).map == old(self).map,
            final(self).is_word(r),
            final(self).text_of(r) == word@,
            old(self).wf_map() ==> final(self).wf_map(),
            forall|x: Substring| #[trigger] old(self).is_word(x) ==> final(self).is_word(x) && final(self).text_of(x)
                == old(self).text_of(x),
            old(self).interned@.contains(r) ==> final(self).interned@ == old(self).interned@
                && final(self).compressed@ == old(self).compressed@,
            !old(self).interned@.contains(r) ==> final(self).interned@ == old(self).interned@.push(r)
                && final(self).compressed@ == old(self).compressed@ + word@
                && r == Substring(old(self).compressed@.len() as usize, final(self).compressed@.len() as usize),
            old(self).interned@.contains(r) <==> exists|j: int|
                0 <= j < old(self).interned@.len() && old(self).text_of(#[trigger] old(self).interned@[j]) == word@,
    {
        proof {
            reveal(ParseState::wf_words);
        }
        let n = self.interned.len();
        let ghost words = self.words();
        proof {
            assert forall|j: int| 0 <= j < n implies (#[trigger] self.interned@[j]).0
                <= self.interned@[j].1 <= self.compressed@.len() && self.text_of(self.interned@[j])
                == words[j] by {
                self.lemma_interned_bounds(j);
            }
        }
        let mut i: usize = 0;
        let mut found = false;
        while i < n
            invariant_except_break
                !found,
            invariant
                n == self.interned@.len(),
                forall|j: int| 0 <= j < n ==> (#[trigger] self.interned@[j]).0
                    <= self.interned@[j].1 <= self.compressed@.len() && self.text_of(self.interned@[j])
                    == words[j],
                i <= n,
                forall|j: int| 0 <= j < i ==> words[j] != word@,
            ensures
                i <= n,
                found ==> i < n && words[i as int] == word@,
                !found ==> forall|j: int| 0 <= j < n ==> words[j] != word@,
            decreases n - i,
        {
            let s = self.interned[i];
            if range_eq(&self.compressed, s.0, s.1, word) {
                found = true;
                break;
            }
            i += 1;
        }
        if found {
            let s = self.interned[i];
            assert(old(self).text_of(old(self).interned@[i as int]) == word@);
            proof {
                lemma_dedup(self.seen@);
                assert(dedup(self.seen@).contains(word@));
                assert(self.seen@.contains(word@));
                assert(self.seen@.push(word@).drop_last() =~= self.seen@);
                assert(self.seen@.push(word@).last() == word@);
                assert(self.interned@.contains(s));
            }
            self.seen = Ghost(self.seen@.push(word@));
            proof {
                if old(self).wf_map() {
                    assert forall|j: int| 0 <= j < old(self).interned@.len() implies (#[trigger] old(
                        self,
                    ).interned@[j]).1 <= old(self).compressed@.len() by {
                        old(self).lemma_interned_bounds(j);
                    }
                    assert forall|j: int| 0 <= j < old(self).interned@.len() implies (#[trigger] old(
                        self,
                    ).interned@[j]).0 <= old(self).interned@[j].1 by {
                        old(self).lemma_interned_bounds(j);
                    }
                    assert(self.interned@.take(n as int) =~= old(self).interned@);
                    assert(self.compressed@.subrange(0, self.compressed@.len() as int) =~= self.compressed@);
                    ParseState::lemma_extend_map(*old(self), *self);
                }
            }
            return s;
        }
        let ghost old_words = self.words();
        let ghost old_compressed = self.compressed@;
        let start = self.compressed.len();
        let mut k: usize = 0;
        while k < word.len()
            invariant
                k <= word@.len(),
                self.compressed@ == old_compressed + word@.take(k as int),
                self.interned == old(self).interned,
                self.map == old(self).map,
                self.fed == old(self).fed,
                self.seen == old(self).seen,
            decreases word.len() - k,
        {
            self.compressed.push(word[k]);
            k += 1;
            assert(self.compressed@ =~= old_compressed + word@.take(k as int));
        }
        assert(word@.take(word@.len() as int) =~= word@);
        let end = self.compressed.len();
        let r = Substring(start, end);
        assert(forall|j: int| 0 <= j < n ==> old(self).text_of(#[trigger] old(self).interned@[j]) != word@);
        proof {
            lemma_dedup(self.seen@);
            assert(!old_words.contains(word@)) by {
                if old_words.contains(word@) {
                    let j = choose|j: int| 0 <= j < old_words.len() && old_words[j] == word@;
                }
            }
            assert(!self.interned@.contains(r)) by {
                if self.interned@.contains(r) {
                    let j = choose|j: int| 0 <= j < self.interned@.len() && self.interned@[j] == r;
                    old(self).lemma_interned_bounds(j);
                    if word@.len() == 0 {
                        assert(old_words[j] =~= word@);
                    } else {
                        assert(r.1 > old_compressed.len());
                    }
                }
            }
        }
        self.interned.push(r);
        self.seen = Ghost(self.seen@.push(word@));
        proof {
            let nw = self.words();
            assert forall|j: int| 0 <= j < n implies nw[j] == old_words[j] by {
                old(self).lemma_interned_bounds(j);
                assert(self.compressed@.subrange(
                    self.interned@[j].0 as int,
                    self.interned@[j].1 as int,
                ) =~= old_compressed.subrange(self.interned@[j].0 as int, self.interned@[j].1 as int));
            }
            assert(nw[n as int] =~= word@);
            assert(nw =~= old_words.push(word@));
            assert(self.seen@.drop_last() =~= old(self).seen@);
            lemma_concat_push(old_words, word@);
            assert forall|j: int| 0 <= j < self.interned@.len() implies (#[trigger] self.interned@[j]).0
                == concat(nw.take(j)).len() && self.interned@[j].1 == self.interned@[j].0 + nw[j].len() by {
                if j < n {
                    assert(nw.take(j) =~= old_words.take(j));
                } else {
                    assert(nw.take(j) =~= old_words);
                }
            }
            assert(self.interned@.take(n as int) =~= old(self).interned@);
            assert(self.compressed@.subrange(0, old_compressed.len() as int) =~= old_compressed);
            if old(self).wf_map() {
                assert forall|j: int| 0 <= j < old(self).interned@.len() implies (#[trigger] old(
                    self,
                ).interned@[j]).1 <= old(self).compressed@.len() by {
                    old(self).lemma_interned_bounds(j);
                }
                assert forall|j: int| 0 <= j < old(self).interned@.len() implies (#[trigger] old(
                    self,
                ).interned@[j]).0 <= old(self).interned@[j].1 by {
                    old(self).lemma_interned_bounds(j);
                }
                ParseState::lemma_extend_map(*old(self), *self);
            }
            assert(self.interned@[n as int] == r);
        }
        r
    }
}


pub proof fn lemma_followers_nonempty(f: Seq<Window>, a: Seq<char>, b: Seq<char>)
    requires
        followers(f, a, b).len() > 0,
    ensures
        exists|w: int| 0 <= w < f.len() && (#[trigger] f[w]).0 == a && f[w].1 == b,
    decreases f.len(),
{
    if f.len() > 0 {
        if f.last().0 == a && f.last().1 == b {
            assert(f[f.len() - 1] == f.last());
        } else {
            lemma_followers_nonempty(f.drop_last(), a, b);
            let w = choose|w: int| 0 <= w < f.drop_last().len() && (#[trigger] f.drop_last()[w]).0 == a
                && f.drop_last()[w].1 == b;
            assert(f[w] == f.drop_last()[w]);
        }
    }
}

pub proof fn lemma_followers_push(f: Seq<Window>, w: Window, a: Seq<char>, b: Seq<char>)
    ensures
        followers(f.push(w), a, b) == if w.0 == a && w.1 == b {
            followers(f, a, b).push(w.2)
        } else {
            followers(f, a, b)
        },
{
    assert(f.push(w).drop_last() =~= f);
}

pub proof fn lemma_flat_push(f: Seq<Window>, w: Window)
    ensures
        flat(f.push(w)) == flat(f) + seq![w.0, w.1, w.2],
{
    assert(f.push(w).drop_last() =~= f);
}

impl ParseState {
    /// Distinct words have distinct positions.
    pub proof fn lemma_word_injective(self, x: Substring, y: Substring)
        requires
            self.wf_words(),
            self.is_word(x),
            self.is_word(y),
            self.text_of(x) == self.text_of(y),
        ensures
            x == y,
    {
        reveal(ParseState::wf_words);
        lemma_dedup(self.seen@);
        let i = choose|i: int| 0 <= i < self.interned@.len() && self.interned@[i] == x;
        let j = choose|j: int| 0 <= j < self.interned@.len() && self.interned@[j] == y;
        assert(self.words()[i] == self.words()[j]);
    }

    /// Reads one window of three consecutive words.
    #[verifier::rlimit(50)]
    pub fn add_window(&mut self, a: &Vec<char>, b: &Vec<char>, c: &Vec<char>)
        requires
            old(self).wf(),
        ensures
            final(self).wf(),
            final(self).fed@ == old(self).fed@.push((a@, b@, c@)),
    {
        let s1 = self.intern(a);
        let s2 = self.intern(b);
        let s3 = self.intern(c);
        let ghost w: Window = (a@, b@, c@);
        let ghost before = *self;
        proof {
            lemma_flat_push(self.fed@, w);
            assert(self.seen@ =~= flat(self.fed@.push(w)));
        }
        self.fed = Ghost(self.fed@.push(w));
        let n = self.map.len();
        let mut i: usize = 0;
        let mut found = false;
        while i < n
            invariant_except_break
                !found,
            invariant
                n == self.map@.len(),
                self.map == before.map,
                i <= n,
                forall|j: int| 0 <= j < i ==> self.map@[j].0 != (s1, s2),
            ensures
                i <= n,
                found ==> i < n && self.map@[i as int].0 == (s1, s2),
                !found ==> forall|j: int| 0 <= j < n ==> self.map@[j].0 != (s1, s2),
            decreases n - i,
        {
            let k = self.map[i].0;
            if k.0.0 == s1.0 && k.0.1 == s1.1 && k.1.0 == s2.0 && k.1.1 == s2.1 {
                found = true;
                break;
            }
            i += 1;
        }
        let ghost m0 = self.map@;
        if found {
            self.map[i].1.push(s3);
        } else {
            let mut v: Vec<Substring> = Vec::new();
            v.push(s3);
            self.map.push(((s1, s2), v));
        }
        proof {
            ParseState::lemma_update_entries(before, *self, w, s1, s2, s3, found, i as int);
            ParseState::lemma_update_keys(before, *self, s1, s2, s3, found, i as int);
            ParseState::lemma_update_complete(before, *self, w, s1, s2, s3, found, i as int);
            ParseState::lemma_words_same(before, *self);
        }
    }

    proof fn lemma_words_same(a: ParseState, b: ParseState)
        requires
            a.wf_words(),
            a.interned == b.interned,
            a.compressed == b.compressed,
            a.seen == b.seen,
        ensures
            b.wf_words(),
    {
        reveal(ParseState::wf_words);
        assert(a.words() == b.words());
    }

    /// How `add_window` changes the table: the followers of the window's
    /// pair gain the window's last word.
    pub open spec fn map_updated(
        pre: ParseState,
        post: ParseState,
        s1: Substring,
        s2: Substring,
        s3: Substring,
        found: bool,
        idx: int,
    ) -> bool {
        &&& post.compressed == pre.compressed
        &&& post.interned == pre.interned
        &&& post.seen == pre.seen
        &&& if found {
            &&& 0 <= idx < pre.map@.len()
            &&& pre.map@[idx].0 == (s1, s2)
            &&& post.map@.len() == pre.map@.len()
            &&& post.map@[idx].0 == (s1, s2)
            &&& post.map@[idx].1@ == pre.map@[idx].1@.push(s3)
            &&& forall|j: int| 0 <= j < pre.map@.len() && j != idx ==> post.map@[j] == pre.map@[j]
        } else {
            &&& forall|j: int| 0 <= j < pre.map@.len() ==> pre.map@[j].0 != (s1, s2)
            &&& post.map@.len() == pre.map@.len() + 1
            &&& forall|j: int| 0 <= j < pre.map@.len() ==> post.map@[j] == pre.map@[j]
            &&& post.map@[pre.map@.len() as int].0 == (s1, s2)
            &&& post.map@[pre.map@.len() as int].1@ == seq![s3]
        }
    }

    #[verifier::rlimit(50)]
    proof fn lemma_update_entries(
        pre: ParseState,
        post: ParseState,
        w: Window,
        s1: Substring,
        s2: Substring,
        s3: Substring,
        found: bool,
        idx: int,
    )
        requires
            pre.wf_words(),
            pre.wf_map(),
            pre.is_word(s1),
            pre.is_word(s2),
            pre.is_word(s3),
            pre.text_of(s1) == w.0,
            pre.text_of(s2) == w.1,
            pre.text_of(s3) == w.2,
            post.fed@ == pre.fed@.push(w),
            ParseState::map_updated(pre, post, s1, s2, s3, found, idx),
        ensures
            post.entries_ok(),
    {
        reveal(ParseState::entries_ok);
        reveal(ParseState::complete);
        reveal(ParseState::keys_distinct);
        let f0 = pre.fed@;
        let n = pre.map@.len() as int;
        assert forall|j: int| 0 <= j < post.map@.len() implies post.is_word(
            (#[trigger] post.map@[j]).0.0,
        ) && post.is_word(post.map@[j].0.1) && post.map@[j].1@.len() > 0 && (forall|k: int|
            0 <= k < post.map@[j].1@.len() ==> post.is_word(#[trigger] post.map@[j].1@[k]))
            && post.map@[j].1@.map_values(|s: Substring| post.text_of(s)) == followers(
            post.fed@,
            post.text_of(post.map@[j].0.0),
            post.text_of(post.map@[j].0.1),
        ) by {
            if j < n {
                let t1 = pre.text_of(pre.map@[j].0.0);
                let t2 = pre.text_of(pre.map@[j].0.1);
                lemma_followers_push(f0, w, t1, t2);
                if found && j == idx {
                    assert forall|k: int| 0 <= k < post.map@[j].1@.len() implies post.is_word(
                        #[trigger] post.map@[j].1@[k],
                    ) by {
                        if k < pre.map@[j].1@.len() {
                            assert(post.map@[j].1@[k] == pre.map@[j].1@[k]);
                        }
                    }
                    assert(post.map@[j].1@.map_values(|s: Substring| post.text_of(s)) =~= pre.map@[j].1@.map_values(
                        |s: Substring| pre.text_of(s),
                    ).push(w.2));
                    assert(t1 == w.0 && t2 == w.1);
                    assert(post.text_of(post.map@[j].0.0) == t1);
                    assert(post.text_of(post.map@[j].0.1) == t2);
                } else {
                    assert(post.map@[j] == pre.map@[j]);
                    if t1 == w.0 && t2 == w.1 {
                        pre.lemma_word_injective(pre.map@[j].0.0, s1);
                        pre.lemma_word_injective(pre.map@[j].0.1, s2);
                    }
                    assert(post.map@[j].1@.map_values(|s: Substring| post.text_of(s)) =~= pre.map@[j].1@.map_values(
                        |s: Substring| pre.text_of(s),
                    ));
                    assert(post.text_of(post.map@[j].0.0) == t1);
                    assert(post.text_of(post.map@[j].0.1) == t2);
                }
            } else {
                let t1 = w.0;
                let t2 = w.1;
                lemma_followers_push(f0, w, t1, t2);
                if followers(f0, t1, t2).len() > 0 {
                    lemma_followers_nonempty(f0, t1, t2);
                    let ww = choose|ww: int|
                        0 <= ww < f0.len() && (#[trigger] f0[ww]).0 == t1 && f0[ww].1 == t2;
                    assert(pre.has_key_for(f0[ww].0, f0[ww].1));
                    let q = choose|q: int|
                        0 <= q < pre.map@.len() && pre.text_of((#[trigger] pre.map@[q]).0.0) == t1
                            && pre.text_of(pre.map@[q].0.1) == t2;
                    pre.lemma_word_injective(pre.map@[q].0.0, s1);
                    pre.lemma_word_injective(pre.map@[q].0.1, s2);
                    assert(pre.map@[q].0 == (s1, s2));
                }
                assert(followers(f0, t1, t2) =~= Seq::<Seq<char>>::empty());
                assert(post.map@[j].1@.map_values(|s: Substring| post.text_of(s)) =~= seq![w.2]);
            }
        }
    }

    proof fn lemma_update_keys(
        pre: ParseState,
        post: ParseState,
        s1: Substring,
        s2: Substring,
        s3: Substring,
        found: bool,
        idx: int,
    )
        requires
            pre.wf_map(),
            ParseState::map_updated(pre, post, s1, s2, s3, found, idx),
        ensures
            post.keys_distinct(),
    {
        reveal(ParseState::keys_distinct);
        let n = pre.map@.len() as int;
        assert forall|x: int, y: int|
            0 <= x < post.map@.len() && 0 <= y < post.map@.len() && x != y implies (
            #[trigger] post.map@[x]).0 != (#[trigger] post.map@[y]).0 by {
            if x < n && y < n {
                assert(pre.map@[x].0 == post.map@[x].0);
                assert(pre.map@[y].0 == post.map@[y].0);
            } else if x < n {
                assert(pre.map@[x].0 == post.map@[x].0);
            } else {
                assert(pre.map@[y].0 == post.map@[y].0);
            }
        }
    }

    proof fn lemma_update_complete(
        pre: ParseState,
        post: ParseState,
        w: Window,
        s1: Substring,
        s2: Substring,
        s3: Substring,
        found: bool,
        idx: int,
    )
        requires
            pre.wf_map(),
            pre.text_of(s1) == w.0,
            pre.text_of(s2) == w.1,
            post.fed@ == pre.fed@.push(w),
            ParseState::map_updated(pre, post, s1, s2, s3, found, idx),
        ensures
            post.complete(),
    {
        reveal(ParseState::complete);
        let f0 = pre.fed@;
        let n = pre.map@.len() as int;
        assert forall|ww: int| 0 <= ww < post.fed@.len() implies post.has_key_for(
            #[trigger] post.fed@[ww].0,
            post.fed@[ww].1,
        ) by {
            if ww < f0.len() {
                assert(post.fed@[ww] == f0[ww]);
                assert(pre.has_key_for(f0[ww].0, f0[ww].1));
                let q = choose|q: int|
                    0 <= q < pre.map@.len() && pre.text_of((#[trigger] pre.map@[q]).0.0) == f0[ww].0
                        && pre.text_of(pre.map@[q].0.1) == f0[ww].1;
                assert(post.map@[q].0 == pre.map@[q].0);
            } else {
                let q: int = if found {
                    idx
                } else {
                    n
                };
                assert(post.map@[q].0 == (s1, s2));
            }
        }
    }
}


/// The three words of a token window, as stored in the corpus.
pub open spec fn downcased_window(
    w: ((bool, Seq<char>), (bool, Seq<char>), (bool, Seq<char>)),
) -> Window {
    (downcased(w.0), downcased(w.1), downcased(w.2))
}

/// The word that a token stands for: see `downcased`.
pub fn downcase(c: &Capitalized) -> (r: Vec<char>)
    ensures
        r@ == downcased(c@),
{
    match c {
        Capitalized::Normal(s) => {
            let lower = to_lowercase(s.as_str());
            chars_of(lower.as_str())
        },
        Capitalized::Proper(s) => chars_of(s.as_str()),
    }
}

impl ParseState {
    /// Reads every window of three consecutive words of `text`.
    pub fn read_text(&mut self, text: &str, leading_nulls: u8, legacy: bool)
        requires
            old(self).wf(),
        ensures
            final(self).wf(),
            final(self).fed@ == old(self).fed@ + text_windows(text@, leading_nulls as nat, legacy),
    {
        let tok = Tokenizer::new(text, leading_nulls, legacy);
        let mut wins = tok.windows();
        let ghost all = wins.remaining();
        let ghost fed0 = self.fed@;
        let ghost k: int = 0;
        assert(all.skip(0) =~= all);
        loop
            invariant
                self.wf(),
                wins.wf(),
                0 <= k <= all.len(),
                wins.remaining() == all.skip(k),
                self.fed@ == fed0 + all.take(k).map_values(
                    |w: ((bool, Seq<char>), (bool, Seq<char>), (bool, Seq<char>))| downcased_window(w),
                ),
            ensures
                self.wf(),
                self.fed@ == fed0 + all.map_values(
                    |w: ((bool, Seq<char>), (bool, Seq<char>), (bool, Seq<char>))| downcased_window(w),
                ),
            decreases wins.remaining().len(),
        {
            match wins.next() {
                None => {
                    assert(all.take(k) =~= all);
                    break;
                },
                Some(win) => {
                    let a = downcase(&win.0);
                    let b = downcase(&win.1);
                    let c = downcase(&win.2);
                    self.add_window(&a, &b, &c);
                    proof {
                        assert(all[k] == (win.0@, win.1@, win.2@));
                        assert(all.take(k + 1) =~= all.take(k).push(all[k]));
                        assert(all.take(k + 1).map_values(
                            |w: ((bool, Seq<char>), (bool, Seq<char>), (bool, Seq<char>))| downcased_window(w),
                        ) =~= all.take(k).map_values(
                            |w: ((bool, Seq<char>), (bool, Seq<char>), (bool, Seq<char>))| downcased_window(w),
                        ).push(downcased_window(all[k])));
                        assert(all.skip(k + 1) =~= all.skip(k).drop_first());
                        k = k + 1;
                    }
                },
            }
        }
        proof {
            assert(all.map_values(
                |w: ((bool, Seq<char>), (bool, Seq<char>), (bool, Seq<char>))| downcased_window(w),
            ) =~= text_windows(text@, leading_nulls as nat, legacy));
        }
    }

    /// Reads every text, one after the other.
    pub fn read_texts(&mut self, texts: &[&str], leading_nulls: u8, legacy: bool)
        requires
            old(self).wf(),
        ensures
            final(self).wf(),
            final(self).fed@ == old(self).fed@ + texts_windows(
                texts@.map_values(|t: &str| t@),
                leading_nulls as nat,
                legacy,
            ),
    {
        let ghost fed0 = self.fed@;
        let ghost ts = texts@.map_values(|t: &str| t@);
        let mut i: usize = 0;
        while i < texts.len()
            invariant
                self.wf(),
                i <= texts@.len(),
                ts == texts@.map_values(|t: &str| t@),
                self.fed@ == fed0 + texts_windows(ts.take(i as int), leading_nulls as nat, legacy),
            decreases texts.len() - i,
        {
            self.read_text(texts[i], leading_nulls, legacy);
            proof {
                assert(ts.take(i + 1).drop_last() =~= ts.take(i as int));
                assert(ts.take(i + 1).last() == texts@[i as int]@);
                assert(texts_windows(ts.take(i + 1), leading_nulls as nat, legacy) == texts_windows(
                    ts.take(i as int),
                    leading_nulls as nat,
                    legacy,
                ) + text_windows(texts@[i as int]@, leading_nulls as nat, legacy));
                assert(self.fed@ =~= fed0 + texts_windows(ts.take(i + 1), leading_nulls as nat, legacy));
            }
            i += 1;
        }
        assert(ts.take(texts@.len() as int) =~= ts);
    }
}

} // verus!
