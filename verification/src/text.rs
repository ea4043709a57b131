//! Classes of words and punctuation that shape generated sentences.
use vstd::prelude::*;
use crate::chars::{
    ascii_punctuation, ascii_upper, char_len, chars_of, is_ascii_punct, is_whitespace, push_char,
    push_str, string_of_range, to_ascii_upper, unicode_white_space,
};

verus! {

/// Punctuation that attaches to the word before it (no space in front).
pub open spec fn joins_before(c: char) -> bool {
    c == '!' || c == '"' || c == ')' || c == ',' || c == '.' || c == ':' || c == ';' || c == '?'
        || c == '”'
}

/// Punctuation that attaches to the word after it (no space behind).
pub open spec fn joins_after(c: char) -> bool {
    c == '(' || c == '“'
}

/// Characters at which the tokenizer splits words from punctuation.
pub open spec fn splits_on_punct(c: char) -> bool {
    joins_before(c) || joins_after(c)
}

/// `s` without its leading white space.
pub open spec fn trim_start(s: Seq<char>) -> Seq<char>
    decreases s.len(),
{
    if s.len() > 0 && unicode_white_space(s[0]) {
        trim_start(s.drop_first())
    } else {
        s
    }
}

/// `s` without its trailing white space.
pub open spec fn trim_end(s: Seq<char>) -> Seq<char>
    decreases s.len(),
{
    if s.len() > 0 && unicode_white_space(s.last()) {
        trim_end(s.drop_last())
    } else {
        s
    }
}

/// `s` without leading and trailing white space.
pub open spec fn trim(s: Seq<char>) -> Seq<char> {
    trim_end(trim_start(s))
}

/// Whether `s` ends with `e`.
pub open spec fn ends_with(s: Seq<char>, e: Seq<char>) -> bool {
    e.len() <= s.len() && s.subrange(s.len() - e.len(), s.len() as int) == e
}

/// The character sequences that end a sentence.
pub open spec fn sentence_endings() -> Seq<Seq<char>> {
    seq![
        seq!['.'],
        seq!['!'],
        seq!['?'],
        seq!['.', '"'],
        seq!['!', '"'],
        seq!['?', '"'],
        seq!['.', '”'],
        seq!['!', '”'],
        seq!['?', '”'],
        seq!['.', ')'],
        seq!['?', ')'],
        seq!['!', ')'],
    ]
}

/// Whether `s` ends with one of the sentence endings.
pub open spec fn has_sentence_ending(s: Seq<char>) -> bool {
    exists|k: int| 0 <= k < sentence_endings().len() && ends_with(s, #[trigger] sentence_endings()[k])
}

/// A word ends a sentence when, trimmed, it is empty or ends with a sentence ending.
pub open spec fn ends_sentence(s: Seq<char>) -> bool {
    trim(s).len() == 0 || has_sentence_ending(trim(s))
}

/// Whether `s` is one of the sentence endings itself.
pub open spec fn is_sentence_ending_word(s: Seq<char>) -> bool {
    exists|k: int| 0 <= k < sentence_endings().len() && s == #[trigger] sentence_endings()[k]
}

/// Whether a space may follow `s`: not after an opening bracket or quote.
pub open spec fn space_after(s: Seq<char>) -> bool {
    !(s.len() > 0 && joins_after(s.last()))
}

/// Whether a space may precede `s`: not before closing punctuation.
pub open spec fn space_before(s: Seq<char>) -> bool {
    !(s.len() > 0 && joins_before(s[0]))
}

/// Whether every character of `s` is ASCII punctuation.
pub open spec fn all_punct(s: Seq<char>) -> bool {
    forall|i: int| 0 <= i < s.len() ==> is_ascii_punct(#[trigger] s[i])
}

/// `s` with its first character in ASCII upper case.
pub open spec fn capitalize(s: Seq<char>) -> Seq<char> {
    seq![ascii_upper(s[0])] + s.drop_first()
}

pub fn split_on_punct(c: char) -> (r: bool)
    ensures
        r == splits_on_punct(c),
{
    c == '!' || c == '"' || c == ')' || c == ',' || c == '.' || c == ':' || c == ';' || c == '?'
        || c == '”' || c == '(' || c == '“'
}

pub fn join_before(c: char) -> (r: bool)
    ensures
        r == joins_before(c),
{
    c == '!' || c == '"' || c == ')' || c == ',' || c == '.' || c == ':' || c == ';' || c == '?'
        || c == '”'
}

proof fn lemma_trim_start_skip(s: Seq<char>, i: int)
    requires
        0 <= i < s.len(),
        unicode_white_space(s[i]),
    ensures
        trim_start(s.subrange(i, s.len() as int)) == trim_start(s.subrange(i + 1, s.len() as int)),
{
    assert(s.subrange(i, s.len() as int).drop_first() =~= s.subrange(i + 1, s.len() as int));
}

proof fn lemma_trim_end_skip(s: Seq<char>, j: int)
    requires
        0 < j <= s.len(),
        unicode_white_space(s[j - 1]),
    ensures
        trim_end(s.subrange(0, j)) == trim_end(s.subrange(0, j - 1)),
{
    assert(s.subrange(0, j).drop_last() =~= s.subrange(0, j - 1));
}

/// Finds the trimmed part of `cs` as a range.
fn trimmed_range(cs: &Vec<char>) -> (r: (usize, usize))
    ensures
        r.0 <= r.1 <= cs@.len(),
        trim(cs@) == cs@.subrange(r.0 as int, r.1 as int),
{
    let n = cs.len();
    let mut a: usize = 0;
    assert(cs@.subrange(0, n as int) =~= cs@);
    while a < n && is_whitespace(cs[a])
        invariant
            a <= n == cs@.len(),
            trim_start(cs@) == trim_start(cs@.subrange(a as int, n as int)),
        decreases n - a,
    {
        proof {
            lemma_trim_start_skip(cs@, a as int);
        }
        a += 1;
    }
    let ghost t = cs@.subrange(a as int, n as int);
    assert(trim_start(t) == t);
    let mut b: usize = n;
    assert(t.subrange(0, (b - a) as int) =~= t);
    while b > a && is_whitespace(cs[b - 1])
        invariant
            a <= b <= n == cs@.len(),
            t == cs@.subrange(a as int, n as int),
            trim_end(t) == trim_end(t.subrange(0, (b - a) as int)),
        decreases b,
    {
        proof {
            lemma_trim_end_skip(t, (b - a) as int);
            assert(t.subrange(0, (b - a - 1) as int) =~= t.subrange(0, (b - 1 - a) as int));
        }
        b -= 1;
    }
    let ghost u = t.subrange(0, (b - a) as int);
    assert(trim_end(u) == u);
    assert(u =~= cs@.subrange(a as int, b as int));
    (a, b)
}

proof fn lemma_endings_last(s: Seq<char>)
    requires
        s.len() > 0,
    ensures
        has_sentence_ending(s) <==> (s.last() == '.' || s.last() == '!' || s.last() == '?' || (
        s.len() >= 2 && (s.last() == '"' || s.last() == '”' || s.last() == ')') && (s[s.len()
            - 2] == '.' || s[s.len() - 2] == '!' || s[s.len() - 2] == '?'))),
{
    let n = s.len() as int;
    let e = sentence_endings();
    assert forall|k: int| 0 <= k < e.len() implies #[trigger] e[k] == e[k] && (ends_with(s, e[k])
        <==> (if e[k].len() == 1 {
        s.last() == e[k][0]
    } else {
        n >= 2 && s[n - 2] == e[k][0] && s.last() == e[k][1]
    })) by {
        if e[k].len() == 1 {
            if s.last() == e[k][0] {
                assert(s.subrange(n - 1, n) =~= e[k]);
            }
        } else {
            if n >= 2 && s[n - 2] == e[k][0] && s.last() == e[k][1] {
                assert(s.subrange(n - 2, n) =~= e[k]);
            }
            if ends_with(s, e[k]) {
                assert(s.subrange(n - 2, n)[0] == s[n - 2]);
                assert(s.subrange(n - 2, n)[1] == s[n - 1]);
            }
        }
    }
    if s.last() == '.' {
        assert(ends_with(s, e[0]));
    } else if s.last() == '!' {
        assert(ends_with(s, e[1]));
    } else if s.last() == '?' {
        assert(ends_with(s, e[2]));
    } else if n >= 2 && (s[n - 2] == '.' || s[n - 2] == '!' || s[n - 2] == '?') {
        if s.last() == '"' {
            if s[n - 2] == '.' {
                assert(ends_with(s, e[3]));
            } else if s[n - 2] == '!' {
                assert(ends_with(s, e[4]));
            } else {
                assert(ends_with(s, e[5]));
            }
        } else if s.last() == '”' {
            if s[n - 2] == '.' {
                assert(ends_with(s, e[6]));
            } else if s[n - 2] == '!' {
                assert(ends_with(s, e[7]));
            } else {
                assert(ends_with(s, e[8]));
            }
        } else if s.last() == ')' {
            if s[n - 2] == '.' {
                assert(ends_with(s, e[9]));
            } else if s[n - 2] == '?' {
                assert(ends_with(s, e[10]));
            } else {
                assert(ends_with(s, e[11]));
            }
        }
    }
}

/// Whether the characters `cs` end a sentence (see `ends_sentence`).
pub fn chars_end_sentence(cs: &Vec<char>) -> (r: bool)
    ensures
        r == ends_sentence(cs@),
{
    let (a, b) = trimmed_range(cs);
    if a == b {
        return true;
    }
    proof {
        lemma_endings_last(cs@.subrange(a as int, b as int));
    }
    let last = cs[b - 1];
    if last == '.' || last == '!' || last == '?' {
        true
    } else if b - a >= 2 && (last == '"' || last == '”' || last == ')') {
        let p = cs[b - 2];
        p == '.' || p == '!' || p == '?'
    } else {
        false
    }
}

/// Whether `s` ends a sentence: it is blank once trimmed, or ends with one
/// of the sentence endings.
pub fn is_ending(s: &str) -> (r: bool)
    ensures
        r == ends_sentence(s@),
{
    let cs = chars_of(s);
    chars_end_sentence(&cs)
}

/// Whether `s` is exactly one of the sentence endings.
pub fn is_ending_word(s: &Vec<char>) -> (r: bool)
    ensures
        r == is_sentence_ending_word(s@),
{
    let ghost e = sentence_endings();
    let n = s.len();
    let r = if n == 1 {
        s[0] == '.' || s[0] == '!' || s[0] == '?'
    } else if n == 2 {
        (s[0] == '.' || s[0] == '!' || s[0] == '?') && (s[1] == '"' || s[1] == '”' || s[1] == ')')
    } else {
        false
    };
    proof {
        if r {
            if n == 1 {
                if s@[0] == '.' {
                    assert(s@ =~= e[0]);
                } else if s@[0] == '!' {
                    assert(s@ =~= e[1]);
                } else {
                    assert(s@ =~= e[2]);
                }
            } else {
                let k: int = if s@[1] == '"' {
                    3
                } else if s@[1] == '”' {
                    6
                } else {
                    9
                };
                let j: int = if s@[0] == '.' {
                    0
                } else if s@[0] == '!' {
                    1
                } else {
                    2
                };
                if k == 9 {
                    let kk: int = if j == 0 {
                        9
                    } else if j == 1 {
                        11
                    } else {
                        10
                    };
                    assert(s@ =~= e[kk]);
                } else {
                    assert(s@ =~= e[k + j]);
                }
            }
        } else {
            assert forall|k: int| 0 <= k < e.len() implies s@ != #[trigger] e[k] by {
                if s@ == e[k] {
                    assert(s@.len() == e[k].len());
                    assert(s@[0] == e[k][0]);
                    if n == 2 {
                        assert(s@[1] == e[k][1]);
                    }
                }
            }
        }
    }
    r
}

/// Whether a space may follow `s` (see `space_after`).
pub fn whitespace_after_output(s: &str) -> (r: bool)
    ensures
        r == space_after(s@),
{
    let cs = chars_of(s);
    if cs.len() == 0 {
        true
    } else {
        let c = cs[cs.len() - 1];
        !(c == '(' || c == '“')
    }
}

/// Whether a space may precede `s` (see `space_before`).
pub fn whitespace_before_word(s: &str) -> (r: bool)
    ensures
        r == space_before(s@),
{
    let cs = chars_of(s);
    if cs.len() == 0 {
        true
    } else {
        !join_before(cs[0])
    }
}

/// Whether every character of `s` is ASCII punctuation.
pub fn is_punct(s: &str) -> (r: bool)
    ensures
        r == all_punct(s@),
{
    let cs = chars_of(s);
    let mut i: usize = 0;
    while i < cs.len()
        invariant
            i <= cs@.len(),
            cs@ == s@,
            forall|j: int| 0 <= j < i ==> is_ascii_punct(#[trigger] cs@[j]),
        decreases cs.len() - i,
    {
        if !ascii_punctuation(cs[i]) {
            return false;
        }
        i += 1;
    }
    true
}

/// `word` with its first character turned to ASCII upper case.
pub fn capitalized(word: &str) -> (r: String)
    requires
        word@.len() > 0,
    ensures
        r@ == capitalize(word@),
{
    let cs = chars_of(word);
    let mut out = String::new();
    push_char(&mut out, to_ascii_upper(cs[0]));
    let rest = string_of_range(cs.as_slice(), 1, cs.len());
    push_str(&mut out, rest.as_str());
    assert(out@ =~= capitalize(word@));
    out
}


/// The words `ws` joined into one sentence: the first word, and every word
/// after the end of a sentence, is capitalized; words are separated by a
/// space except around punctuation that attaches to its neighbour.
pub open spec fn joined(ws: Seq<Seq<char>>) -> Seq<char>
    decreases ws.len(),
{
    if ws.len() == 0 {
        Seq::empty()
    } else {
        let out = joined(ws.drop_last());
        let w = ws.last();
        let cap = ws.len() == 1 || ends_sentence(out);
        let w2 = if cap && w.len() > 0 {
            capitalize(w)
        } else {
            w
        };
        if out.len() > 0 && space_before(w2) && space_after(out) {
            out + seq![' '] + w2
        } else {
            out + w2
        }
    }
}

/// A sentence that does not end a sentence yet gets a full stop, replacing
/// a final ASCII punctuation character.
pub open spec fn finished(out: Seq<char>) -> Seq<char> {
    if ends_sentence(out) {
        out
    } else if out.len() > 0 && is_ascii_punct(out.last()) {
        out.drop_last().push('.')
    } else {
        out.push('.')
    }
}

/// The sentence made of the words `ws`.
pub open spec fn sentence_of(ws: Seq<Seq<char>>) -> Seq<char> {
    finished(joined(ws))
}

proof fn lemma_trim_start_push(t: Seq<char>, c: char)
    requires
        !unicode_white_space(c),
    ensures
        trim_start(t.push(c)) == trim_start(t).push(c),
    decreases t.len(),
{
    if t.len() > 0 && unicode_white_space(t[0]) {
        assert(t.push(c).drop_first() =~= t.drop_first().push(c));
        lemma_trim_start_push(t.drop_first(), c);
    }
}

/// Whatever the words, a finished sentence ends a sentence: it ends with one
/// of the sentence endings, or is blank.
pub proof fn lemma_finished_ends_sentence(out: Seq<char>)
    ensures
        ends_sentence(finished(out)),
{
    if !ends_sentence(out) {
        let base = if out.len() > 0 && is_ascii_punct(out.last()) {
            out.drop_last()
        } else {
            out
        };
        let f = base.push('.');
        assert(finished(out) == f);
        lemma_trim_start_push(base, '.');
        let u = trim_start(base).push('.');
        assert(trim_end(u) == u);
        assert(ends_with(u, sentence_endings()[0])) by {
            assert(u.subrange(u.len() - 1, u.len() as int) =~= seq!['.']);
        }
    }
}

/// Appends `word` to a sentence in progress (see `joined`).
pub fn append_word(output: &mut String, word: &str, first: bool)
    ensures
        final(output)@ == ({
            let out = old(output)@;
            let w = word@;
            let cap = first || ends_sentence(out);
            let w2 = if cap && w.len() > 0 {
                capitalize(w)
            } else {
                w
            };
            if out.len() > 0 && space_before(w2) && space_after(out) {
                out + seq![' '] + w2
            } else {
                out + w2
            }
        }),
{
    let cap = first || is_ending(output.as_str());
    let w2 = if cap && char_len(word) > 0 {
        capitalized(word)
    } else {
        word.to_owned()
    };
    if char_len(output.as_str()) > 0 && whitespace_before_word(w2.as_str()) && whitespace_after_output(
        output.as_str(),
    ) {
        push_char(output, ' ');
    }
    push_str(output, w2.as_str());
}

/// Ends a sentence in progress (see `finished`).
pub fn finish_sentence(output: String) -> (r: String)
    ensures
        r@ == finished(output@),
{
    if is_ending(output.as_str()) {
        return output;
    }
    let cs = chars_of(output.as_str());
    let mut out = if cs.len() > 0 && ascii_punctuation(cs[cs.len() - 1]) {
        string_of_range(cs.as_slice(), 0, cs.len() - 1)
    } else {
        output
    };
    proof {
        if cs@.len() > 0 && is_ascii_punct(cs@.last()) {
            assert(cs@.subrange(0, cs@.len() - 1) =~= cs@.drop_last());
        }
    }
    push_char(&mut out, '.');
    out
}

} // verus!
