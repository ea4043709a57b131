//! Splitting text into words and punctuation, the building block of both
//! corpus readers.
use vstd::prelude::*;
use crate::chars::{is_uppercase, is_whitespace, string_of_range, unicode_uppercase, unicode_white_space};
use crate::text::{ends_sentence, split_on_punct, splits_on_punct};

verus! {

/// A token of the source text, with a guess whether its capitalization is
/// meaningful (`Proper`) or only due to its position (`Normal`).
pub enum Capitalized {
    Normal(String),
    Proper(String),
}

impl View for Capitalized {
    /// Whether the token keeps its capitalization, and its characters.
    type V = (bool, Seq<char>);

    open spec fn view(&self) -> (bool, Seq<char>) {
        match self {
            Capitalized::Normal(s) => (false, s@),
            Capitalized::Proper(s) => (true, s@),
        }
    }
}

impl Capitalized {
    /// The empty, ordinary token.
    pub fn empty() -> (r: Capitalized)
        ensures
            r@ == (false, Seq::<char>::empty()),
    {
        Capitalized::Normal(String::new())
    }

    /// A copy of this token.
    pub fn duplicate(&self) -> (r: Capitalized)
        ensures
            r@ == self@,
    {
        match self {
            Capitalized::Normal(s) => Capitalized::Normal(s.clone()),
            Capitalized::Proper(s) => Capitalized::Proper(s.clone()),
        }
    }

    /// The token's characters.
    pub fn as_str(&self) -> (r: &str)
        ensures
            r@ == self@.1,
    {
        match self {
            Capitalized::Normal(s) => s.as_str(),
            Capitalized::Proper(s) => s.as_str(),
        }
    }

    /// The word that the token stands for: capitalized tokens as they are,
    /// the others in lower case.
    pub fn downcase(&self) -> (r: String)
        ensures
            r@ == crate::reading::downcased(self@),
    {
        match self {
            Capitalized::Normal(s) => crate::chars::to_lowercase(s.as_str()),
            Capitalized::Proper(s) => s.clone(),
        }
    }

    /// Whether the token keeps its capitalization.
    pub fn is_proper(&self) -> (r: bool)
        ensures
            r == self@.0,
    {
        match self {
            Capitalized::Normal(_) => false,
            Capitalized::Proper(_) => true,
        }
    }
}

/// Index of the first character at or after `i` that is not white space,
/// or the length of `s` when there is none.
pub open spec fn skip_space(s: Seq<char>, i: int) -> int
    decreases s.len() - i,
{
    if i >= s.len() {
        s.len() as int
    } else if unicode_white_space(s[i]) {
        skip_space(s, i + 1)
    } else {
        i
    }
}

/// Whether a token continues with `c`: a punctuation token continues with
/// more punctuation, a word with anything but punctuation and white space.
pub open spec fn continues(punct: bool, c: char) -> bool {
    if punct {
        splits_on_punct(c)
    } else {
        !splits_on_punct(c) && !unicode_white_space(c)
    }
}

/// Index of the first character at or after `i` that does not continue the
/// token, or the length of `s`.
pub open spec fn token_end(s: Seq<char>, i: int, punct: bool) -> int
    decreases s.len() - i,
{
    if i >= s.len() {
        s.len() as int
    } else if continues(punct, s[i]) {
        token_end(s, i + 1, punct)
    } else {
        i
    }
}

/// The range of the next token at or after `pos`, if there is one.
pub open spec fn next_token(s: Seq<char>, pos: int) -> Option<(int, int)> {
    let a = skip_space(s, pos);
    if a >= s.len() {
        None
    } else {
        Some((a, token_end(s, a + 1, splits_on_punct(s[a]))))
    }
}

/// Whether a word is taken to be capitalized for its own sake: it holds an
/// upper case character, not counting the first one at the start of a sentence.
pub open spec fn keeps_case(word: Seq<char>, start_of_sentence: bool) -> bool {
    exists|i: int|
        (if start_of_sentence {
            1int
        } else {
            0int
        }) <= i < word.len() && unicode_uppercase(#[trigger] word[i])
}

pub proof fn lemma_skip_space_bounds(s: Seq<char>, i: int)
    requires
        0 <= i,
    ensures
        i <= skip_space(s, i) || i > s.len(),
        skip_space(s, i) <= s.len(),
        skip_space(s, i) < s.len() ==> !unicode_white_space(s[skip_space(s, i)]),
        forall|j: int| i <= j < skip_space(s, i) ==> unicode_white_space(#[trigger] s[j]),
    decreases s.len() - i,
{
    if i < s.len() && unicode_white_space(s[i]) {
        lemma_skip_space_bounds(s, i + 1);
    }
}

pub proof fn lemma_token_end_bounds(s: Seq<char>, i: int, punct: bool)
    requires
        0 <= i <= s.len(),
    ensures
        i <= token_end(s, i, punct) <= s.len(),
        token_end(s, i, punct) < s.len() ==> !continues(punct, s[token_end(s, i, punct)]),
        forall|j: int| i <= j < token_end(s, i, punct) ==> continues(punct, #[trigger] s[j]),
    decreases s.len() - i,
{
    if i < s.len() && continues(punct, s[i]) {
        lemma_token_end_bounds(s, i + 1, punct);
    }
}

pub proof fn lemma_next_token_bounds(s: Seq<char>, pos: int)
    requires
        0 <= pos <= s.len(),
    ensures
        next_token(s, pos) matches Some((a, b)) ==> pos <= a < b <= s.len(),
{
    lemma_skip_space_bounds(s, pos);
    let a = skip_space(s, pos);
    if a < s.len() {
        lemma_token_end_bounds(s, a + 1, splits_on_punct(s[a]));
    }
}

/// Whether a token continues with `c` (see `continues`).
pub fn continues_with(punct: bool, c: char) -> (r: bool)
    ensures
        r == continues(punct, c),
{
    if punct {
        split_on_punct(c)
    } else {
        !split_on_punct(c) && !is_whitespace(c)
    }
}

/// A cursor over the characters of a text that finds token boundaries.
pub struct Scanner {
    pub source: Vec<char>,
    pub pos: usize,
}

impl Scanner {
    /// Finds the next token and moves past it.
    pub fn next_range(&mut self) -> (r: Option<(usize, usize)>)
        requires
            old(self).pos <= old(self).source@.len(),
        ensures
            final(self).source@ == old(self).source@,
            final(self).pos <= final(self).source@.len(),
            r matches Some((a, b)) ==> next_token(old(self).source@, old(self).pos as int) == Some(
                (a as int, b as int),
            ) && final(self).pos == b,
            r is None ==> next_token(old(self).source@, old(self).pos as int) is None
                && final(self).pos == final(self).source@.len(),
    {
        let n = self.source.len();
        let ghost s = self.source@;
        let ghost p0 = self.pos as int;
        proof {
            lemma_skip_space_bounds(s, p0);
        }
        while self.pos < n && is_whitespace(self.source[self.pos])
            invariant
                self.source@ == s,
                n == s.len(),
                p0 <= self.pos <= n,
                skip_space(s, p0) == skip_space(s, self.pos as int),
            decreases n - self.pos,
        {
            self.pos += 1;
        }
        if self.pos >= n {
            return None;
        }
        let a = self.pos;
        let punct = split_on_punct(self.source[a]);
        let mut b = a + 1;
        while b < n && continues_with(punct, self.source[b])
            invariant
                self.source@ == s,
                n == s.len(),
                a < b <= n,
                punct == splits_on_punct(s[a as int]),
                token_end(s, a + 1, punct) == token_end(s, b as int, punct),
            decreases n - b,
        {
            b += 1;
        }
        self.pos = b;
        Some((a, b))
    }

    /// Whether the characters in `from..to` hold a character that keeps the
    /// word's capitalization (see `keeps_case`).
    pub fn keeps_case(&self, from: usize, to: usize, start_of_sentence: bool) -> (r: bool)
        requires
            from < to <= self.source@.len(),
        ensures
            r == keeps_case(self.source@.subrange(from as int, to as int), start_of_sentence),
    {
        let ghost w = self.source@.subrange(from as int, to as int);
        let mut i = if start_of_sentence {
            from + 1
        } else {
            from
        };
        while i < to
            invariant
                from <= i <= to <= self.source@.len(),
                start_of_sentence ==> from + 1 <= i,
                w == self.source@.subrange(from as int, to as int),
                forall|j: int|
                    (if start_of_sentence {
                        1int
                    } else {
                        0int
                    }) <= j < i - from ==> !unicode_uppercase(#[trigger] w[j]),
            decreases to - i,
        {
            if is_uppercase(self.source[i]) {
                assert(unicode_uppercase(w[i - from]));
                return true;
            }
            i += 1;
        }
        false
    }

    /// The token in `from..to` with its capitalization guess.
    pub fn token(&self, from: usize, to: usize, start_of_sentence: bool) -> (r: Capitalized)
        requires
            from < to <= self.source@.len(),
        ensures
            r@ == (
                keeps_case(self.source@.subrange(from as int, to as int), start_of_sentence),
                self.source@.subrange(from as int, to as int),
            ),
    {
        let word = string_of_range(self.source.as_slice(), from, to);
        if self.keeps_case(from, to, start_of_sentence) {
            Capitalized::Proper(word)
        } else {
            Capitalized::Normal(word)
        }
    }
}

} // verus!

verus! {

/// The abstract state of a tokenizer.
pub struct TokenizerView {
    pub source: Seq<char>,
    pub pos: nat,
    pub start_of_sentence: bool,
    pub leading_nulls: nat,
    pub legacy: bool,
}

/// Whether the token after `w` starts a sentence. In the legacy rule only
/// words update the flag; otherwise punctuation keeps a pending sentence
/// start and any word or punctuation that ends a sentence starts one.
pub open spec fn next_start_of_sentence(legacy: bool, sos: bool, punct: bool, w: Seq<char>) -> bool {
    if legacy {
        if !punct {
            ends_sentence(w)
        } else {
            sos
        }
    } else {
        (sos && punct) || ends_sentence(w)
    }
}

impl TokenizerView {
    /// One step of the tokenizer: the token it yields, and the state after.
    pub open spec fn step(self) -> (Option<(bool, Seq<char>)>, TokenizerView) {
        if self.leading_nulls > 0 {
            if self.pos >= self.source.len() {
                (None, self)
            } else {
                (
                    Some((false, Seq::<char>::empty())),
                    TokenizerView { leading_nulls: (self.leading_nulls - 1) as nat, ..self },
                )
            }
        } else {
            match next_token(self.source, self.pos as int) {
                None => (None, TokenizerView { pos: self.source.len(), ..self }),
                Some((a, b)) => {
                    let w = self.source.subrange(a, b);
                    let punct = splits_on_punct(self.source[a]);
                    (
                        Some((keeps_case(w, self.start_of_sentence), w)),
                        TokenizerView {
                            pos: b as nat,
                            start_of_sentence: next_start_of_sentence(
                                self.legacy,
                                self.start_of_sentence,
                                punct,
                                w,
                            ),
                            ..self
                        },
                    )
                },
            }
        }
    }

    /// All the tokens that the tokenizer yields from this state on.
    pub open spec fn tokens(self) -> Seq<(bool, Seq<char>)>
        decreases self.source.len() - self.pos, self.leading_nulls,
    {
        if self.pos > self.source.len() {
            Seq::empty()
        } else {
            match self.step().0 {
                None => Seq::empty(),
                Some(t) => {
                    proof {
                        lemma_next_token_bounds(self.source, self.pos as int);
                    }
                    seq![t] + self.step().1.tokens()
                },
            }
        }
    }
}

pub proof fn lemma_step_tokens(v: TokenizerView)
    requires
        v.pos <= v.source.len(),
    ensures
        v.step().1.pos <= v.step().1.source.len(),
        v.step().1.source == v.source,
        v.step().1.legacy == v.legacy,
        v.step().0 matches Some(t) ==> v.tokens() == seq![t] + v.step().1.tokens(),
        v.step().0 is None ==> v.tokens().len() == 0 && v.step().1.tokens().len() == 0
            && v.step().1.step().0 is None,
{
    lemma_next_token_bounds(v.source, v.pos as int);
    if v.step().0 is None {
        let w = v.step().1;
        lemma_next_token_bounds(w.source, w.pos as int);
        lemma_skip_space_bounds(w.source, w.pos as int);
    }
}

/// The characters of `s` that are not white space, in order.
pub open spec fn without_space(s: Seq<char>) -> Seq<char>
    decreases s.len(),
{
    if s.len() == 0 {
        Seq::empty()
    } else if unicode_white_space(s[0]) {
        without_space(s.drop_first())
    } else {
        seq![s[0]] + without_space(s.drop_first())
    }
}

/// The texts of the tokens `ts`, written one after the other.
pub open spec fn token_text(ts: Seq<(bool, Seq<char>)>) -> Seq<char>
    decreases ts.len(),
{
    if ts.len() == 0 {
        Seq::empty()
    } else {
        ts[0].1 + token_text(ts.drop_first())
    }
}

/// A token of the text: not empty, without white space, and either all
/// punctuation that splits words or free of it.
pub open spec fn is_plain_token(w: Seq<char>) -> bool {
    &&& w.len() > 0
    &&& forall|i: int| 0 <= i < w.len() ==> !unicode_white_space(#[trigger] w[i])
    &&& (forall|i: int| 0 <= i < w.len() ==> splits_on_punct(#[trigger] w[i])) || (forall|i: int|
        0 <= i < w.len() ==> !splits_on_punct(#[trigger] w[i]))
}

proof fn lemma_without_space_add(a: Seq<char>, b: Seq<char>)
    ensures
        without_space(a + b) == without_space(a) + without_space(b),
    decreases a.len(),
{
    if a.len() > 0 {
        assert((a + b).drop_first() =~= a.drop_first() + b);
        assert((a + b)[0] == a[0]);
        lemma_without_space_add(a.drop_first(), b);
        if !unicode_white_space(a[0]) {
            assert(seq![a[0]] + (without_space(a.drop_first()) + without_space(b)) =~= (seq![a[0]]
                + without_space(a.drop_first())) + without_space(b));
        }
    } else {
        assert(a + b =~= b);
    }
}

proof fn lemma_without_space_all(s: Seq<char>, space: bool)
    requires
        forall|i: int| 0 <= i < s.len() ==> unicode_white_space(#[trigger] s[i]) == space,
    ensures
        without_space(s) == if space {
            Seq::<char>::empty()
        } else {
            s
        },
    decreases s.len(),
{
    if s.len() > 0 {
        assert forall|i: int| 0 <= i < s.drop_first().len() implies unicode_white_space(
            #[trigger] s.drop_first()[i],
        ) == space by {
            assert(s.drop_first()[i] == s[i + 1]);
        }
        lemma_without_space_all(s.drop_first(), space);
        if !space {
            assert(seq![s[0]] + s.drop_first() =~= s);
        }
    }
}

/// Splitting a text into tokens loses only its white space: from any
/// position past the leading empty tokens, every token is a plain token (not
/// empty, without white space, all splitting punctuation or none), and the
/// tokens, written one after the other, are the rest of the text without
/// its white space. So the tokens are taken at increasing positions that do
/// not overlap.
pub proof fn lemma_tokens_split_text(v: TokenizerView)
    requires
        v.pos <= v.source.len(),
        v.leading_nulls == 0,
    ensures
        forall|k: int| 0 <= k < v.tokens().len() ==> is_plain_token(#[trigger] v.tokens()[k].1),
        token_text(v.tokens()) == without_space(v.source.subrange(v.pos as int, v.source.len() as int)),
    decreases v.source.len() - v.pos,
{
    let s = v.source;
    let n = s.len() as int;
    lemma_step_tokens(v);
    lemma_skip_space_bounds(s, v.pos as int);
    let a = skip_space(s, v.pos as int);
    assert(s.subrange(v.pos as int, n) =~= s.subrange(v.pos as int, a) + s.subrange(a, n));
    lemma_without_space_add(s.subrange(v.pos as int, a), s.subrange(a, n));
    lemma_without_space_all(s.subrange(v.pos as int, a), true);
    if a >= n {
        assert(s.subrange(a, n).len() == 0);
        assert(v.tokens().len() == 0);
        assert(without_space(s.subrange(a, n)) =~= Seq::<char>::empty());
        assert(token_text(v.tokens()) =~= Seq::<char>::empty());
    } else {
        let punct = splits_on_punct(s[a]);
        lemma_token_end_bounds(s, a + 1, punct);
        let b = token_end(s, a + 1, punct);
        let w = s.subrange(a, b);
        let t = v.step().0->0;
        let rest = v.step().1;
        assert(t.1 == w);
        assert(rest.pos == b && rest.leading_nulls == 0);
        lemma_tokens_split_text(rest);
        assert forall|i: int| 0 <= i < w.len() implies !unicode_white_space(#[trigger] w[i])
            && splits_on_punct(w[i]) == punct by {
            if i > 0 {
                assert(continues(punct, s[a + i]));
            }
        }
        assert(is_plain_token(w));
        assert(s.subrange(a, n) =~= w + s.subrange(b, n));
        lemma_without_space_add(w, s.subrange(b, n));
        lemma_without_space_all(w, false);
        let ts = v.tokens();
        assert(ts == seq![t] + rest.tokens());
        assert(ts.drop_first() =~= rest.tokens());
        assert(ts[0] == t);
        assert(Seq::<char>::empty() + (w + without_space(s.subrange(b, n))) =~= w + without_space(
            s.subrange(b, n),
        ));
        assert forall|k: int| 0 <= k < ts.len() implies is_plain_token(#[trigger] ts[k].1) by {
            if k > 0 {
                assert(ts[k] == rest.tokens()[k - 1]);
            }
        }
    }
}

/// The token windows of `t`: every three consecutive tokens.
pub open spec fn windows_of<T>(t: Seq<T>) -> Seq<(T, T, T)> {
    if t.len() < 3 {
        Seq::empty()
    } else {
        Seq::new((t.len() - 2) as nat, |k: int| (t[k], t[k + 1], t[k + 2]))
    }
}

/// Splits text into words and punctuation.
pub struct Tokenizer {
    pub leading_nulls: u8,
    pub start_of_sentence: bool,
    pub legacy: bool,
    pub scanner: Scanner,
}

impl View for Tokenizer {
    type V = TokenizerView;

    open spec fn view(&self) -> TokenizerView {
        TokenizerView {
            source: self.scanner.source@,
            pos: self.scanner.pos as nat,
            start_of_sentence: self.start_of_sentence,
            leading_nulls: self.leading_nulls as nat,
            legacy: self.legacy,
        }
    }
}

/// The views of a sequence of tokens.
pub open spec fn token_views(t: Seq<Capitalized>) -> Seq<(bool, Seq<char>)> {
    t.map_values(|c: Capitalized| c@)
}

impl Tokenizer {
    pub open spec fn wf(&self) -> bool {
        self.scanner.pos <= self.scanner.source@.len()
    }

    /// A tokenizer at the start of `s`.
    pub fn new(s: &str, leading_nulls: u8, legacy: bool) -> (r: Tokenizer)
        ensures
            r.wf(),
            r@ == (TokenizerView {
                source: s@,
                pos: 0,
                start_of_sentence: true,
                leading_nulls: leading_nulls as nat,
                legacy,
            }),
    {
        Tokenizer {
            leading_nulls,
            start_of_sentence: true,
            legacy,
            scanner: Scanner { source: crate::chars::chars_of(s), pos: 0 },
        }
    }

    /// The next token, if any.
    pub fn next(&mut self) -> (r: Option<Capitalized>)
        requires
            old(self).wf(),
        ensures
            final(self).wf(),
            r matches Some(c) ==> old(self)@.step().0 == Some(c@),
            r is None ==> old(self)@.step().0 is None,
            final(self)@ == old(self)@.step().1,
    {
        if self.leading_nulls > 0 {
            if self.scanner.pos >= self.scanner.source.len() {
                return None;
            }
            self.leading_nulls = self.leading_nulls - 1;
            return Some(Capitalized::empty());
        }
        let sos = self.start_of_sentence;
        match self.scanner.next_range() {
            None => None,
            Some((a, b)) => {
                proof {
                    lemma_next_token_bounds(self.scanner.source@, old(self).scanner.pos as int);
                }
                let punct = split_on_punct(self.scanner.source[a]);
                let token = self.scanner.token(a, b, sos);
                let word = crate::chars::chars_range(&self.scanner.source, a, b);
                let ends = crate::text::chars_end_sentence(&word);
                self.start_of_sentence = if self.legacy {
                    if !punct {
                        ends
                    } else {
                        sos
                    }
                } else {
                    (sos && punct) || ends
                };
                Some(token)
            },
        }
    }

    /// All remaining tokens.
    pub fn collect_all(&mut self) -> (r: Vec<Capitalized>)
        requires
            old(self).wf(),
        ensures
            final(self).wf(),
            token_views(r@) == old(self)@.tokens(),
            final(self)@.tokens().len() == 0,
    {
        let mut out: Vec<Capitalized> = Vec::new();
        loop
            invariant
                self.wf(),
                token_views(out@) + self@.tokens() == old(self)@.tokens(),
            ensures
                self.wf(),
                token_views(out@) == old(self)@.tokens(),
                self@.tokens().len() == 0,
            decreases self.scanner.source@.len() - self.scanner.pos, self.leading_nulls,
        {
            let ghost before = self@;
            proof {
                lemma_step_tokens(before);
            }
            match self.next() {
                None => {
                    assert(token_views(out@) =~= token_views(out@) + self@.tokens());
                    break;
                },
                Some(c) => {
                    proof {
                        lemma_next_token_bounds(before.source, before.pos as int);
                        assert(token_views(out@.push(c)) =~= token_views(out@).push(c@));
                    }
                    out.push(c);
                },
            }
        }
        out
    }
}

} // verus!

verus! {

/// Where the next token goes in the three-slot window.
#[derive(Clone, Copy)]
pub enum WindowState {
    At0,
    At1,
    At2,
}

impl WindowState {
    /// The slot after this one, cyclically.
    pub fn next(self) -> (r: WindowState)
        ensures
            r == (match self {
                WindowState::At0 => WindowState::At1,
                WindowState::At1 => WindowState::At2,
                WindowState::At2 => WindowState::At0,
            }),
    {
        match self {
            WindowState::At0 => WindowState::At1,
            WindowState::At1 => WindowState::At2,
            WindowState::At2 => WindowState::At0,
        }
    }

    pub open spec fn index(self) -> int {
        match self {
            WindowState::At0 => 0,
            WindowState::At1 => 1,
            WindowState::At2 => 2,
        }
    }

    /// The slot's position in the window.
    pub fn as_index(self) -> (r: usize)
        ensures
            r == self.index(),
    {
        match self {
            WindowState::At0 => 0,
            WindowState::At1 => 1,
            WindowState::At2 => 2,
        }
    }
}

pub proof fn lemma_windows_drop_first<T>(u: Seq<T>)
    requires
        u.len() >= 3,
    ensures
        windows_of(u).len() > 0,
        windows_of(u)[0] == (u[0], u[1], u[2]),
        windows_of(u.drop_first()) =~= windows_of(u).drop_first(),
{
}

/// Every three consecutive tokens of a tokenizer.
pub struct SubstringsWindows {
    pub inner: Tokenizer,
    pub window: Vec<Capitalized>,
    pub state: WindowState,
}

impl SubstringsWindows {
    pub open spec fn wf(&self) -> bool {
        self.inner.wf() && self.window@.len() == 3
    }

    /// The two most recent tokens, oldest first.
    pub open spec fn pending(&self) -> Seq<(bool, Seq<char>)> {
        match self.state {
            WindowState::At2 => seq![self.window@[0]@, self.window@[1]@],
            WindowState::At0 => seq![self.window@[1]@, self.window@[2]@],
            WindowState::At1 => seq![self.window@[2]@, self.window@[0]@],
        }
    }

    /// The windows still to come.
    pub open spec fn remaining(&self) -> Seq<((bool, Seq<char>), (bool, Seq<char>), (bool, Seq<char>))> {
        windows_of(self.pending() + self.inner@.tokens())
    }

    /// The windows of all tokens of `inner`.
    pub fn new(inner: Tokenizer) -> (r: SubstringsWindows)
        requires
            inner.wf(),
        ensures
            r.wf(),
            r.remaining() == windows_of(inner@.tokens()),
    {
        let mut inner = inner;
        let ghost v0 = inner@;
        proof {
            lemma_step_tokens(v0);
        }
        let first = inner.next();
        let ghost v1 = inner@;
        proof {
            lemma_step_tokens(v1);
        }
        let second = inner.next();
        let ghost v2 = inner@;
        proof {
            lemma_step_tokens(v2);
        }
        let w0 = match first {
            Some(c) => c,
            None => Capitalized::empty(),
        };
        let w1 = match second {
            Some(c) => c,
            None => Capitalized::empty(),
        };
        let mut window: Vec<Capitalized> = Vec::new();
        window.push(w0);
        window.push(w1);
        window.push(Capitalized::empty());
        let r = SubstringsWindows { inner, window, state: WindowState::At2 };
        proof {
            let t = v0.tokens();
            if first is Some && second is Some {
                assert(t =~= r.pending() + v2.tokens());
            } else {
                assert(t.len() < 3);
                assert(v2.tokens().len() == 0);
            }
        }
        r
    }

    /// The next window of three consecutive tokens, if any.
    pub fn next(&mut self) -> (r: Option<(Capitalized, Capitalized, Capitalized)>)
        requires
            old(self).wf(),
        ensures
            final(self).wf(),
            r matches Some(w) ==> old(self).remaining().len() > 0 && (w.0@, w.1@, w.2@)
                == old(self).remaining()[0] && final(self).remaining() == old(self).remaining().drop_first(),
            r is None ==> old(self).remaining().len() == 0 && final(self).remaining().len() == 0,
    {
        let ghost v0 = self.inner@;
        let ghost p0 = self.pending();
        proof {
            lemma_step_tokens(v0);
        }
        let z = match self.inner.next() {
            Some(c) => c,
            None => {
                proof {
                    assert(self.pending() + self.inner@.tokens() =~= p0);
                }
                return None;
            },
        };
        let ghost zv = z@;
        let idx = self.state.as_index();
        self.window.set(idx, z);
        let out = match self.state {
            WindowState::At0 => (self.window[1].duplicate(), self.window[2].duplicate(), self.window[0].duplicate()),
            WindowState::At1 => (self.window[2].duplicate(), self.window[0].duplicate(), self.window[1].duplicate()),
            WindowState::At2 => (self.window[0].duplicate(), self.window[1].duplicate(), self.window[2].duplicate()),
        };
        self.state = self.state.next();
        proof {
            let u = p0 + v0.tokens();
            assert(v0.tokens() == seq![zv] + self.inner@.tokens());
            lemma_windows_drop_first(u);
            assert(u.drop_first() =~= self.pending() + self.inner@.tokens());
            assert(u[2] == zv);
        }
        Some(out)
    }
}

impl Tokenizer {
    /// Every three consecutive tokens.
    pub fn windows(self) -> (r: SubstringsWindows)
        requires
            self.wf(),
        ensures
            r.wf(),
            r.remaining() == windows_of(self@.tokens()),
    {
        SubstringsWindows::new(self)
    }
}

} // verus!
