//! Listing the words that follow pairs in a corpus, sorted and without
//! repeats.
use vstd::prelude::*;
use super::generator::Corpus;
use crate::chars::{chars_range, string_of};
use crate::reading::{ParseState, Substring};

verus! {

/// Whether `a` comes before `b` in the order of `str`: character by
/// character by code point (which is the order of their UTF-8 bytes), a
/// proper prefix first.
pub open spec fn lex_lt(a: Seq<char>, b: Seq<char>) -> bool
    decreases a.len(),
{
    if b.len() == 0 {
        false
    } else if a.len() == 0 {
        true
    } else if a[0] != b[0] {
        a[0] < b[0]
    } else {
        lex_lt(a.drop_first(), b.drop_first())
    }
}

/// No text comes before itself, and of two different texts one comes first.
pub proof fn lemma_lex_total(a: Seq<char>, b: Seq<char>)
    ensures
        !lex_lt(a, a),
        a != b ==> (lex_lt(a, b) || lex_lt(b, a)),
        !(lex_lt(a, b) && lex_lt(b, a)),
    decreases a.len(),
{
    if a.len() > 0 {
        lemma_lex_total(a.drop_first(), a.drop_first());
        if b.len() > 0 {
            lemma_lex_total(a.drop_first(), b.drop_first());
            if a[0] == b[0] && a.drop_first() == b.drop_first() {
                assert(a =~= seq![a[0]] + a.drop_first());
                assert(b =~= seq![b[0]] + b.drop_first());
            }
        }
    } else if b.len() == 0 {
        assert(a =~= b);
    }
}

/// The order is transitive.
pub proof fn lemma_lex_transitive(a: Seq<char>, b: Seq<char>, c: Seq<char>)
    requires
        lex_lt(a, b),
        lex_lt(b, c),
    ensures
        lex_lt(a, c),
    decreases a.len(),
{
    if a.len() > 0 && b.len() > 0 && c.len() > 0 {
        if a[0] == b[0] && b[0] == c[0] {
            lemma_lex_transitive(a.drop_first(), b.drop_first(), c.drop_first());
        }
    }
}

/// Whether each text comes before every later one.
pub open spec fn lex_sorted(s: Seq<Seq<char>>) -> bool {
    forall|i: int, j: int| 0 <= i < j < s.len() ==> lex_lt(#[trigger] s[i], #[trigger] s[j])
}

/// Whether `a` comes before `b`.
pub fn lex_less(a: &Vec<char>, b: &Vec<char>) -> (r: bool)
    ensures
        r == lex_lt(a@, b@),
{
    let mut i: usize = 0;
    assert(a@.skip(0) =~= a@);
    assert(b@.skip(0) =~= b@);
    while i < a.len() && i < b.len()
        invariant
            i <= a@.len(),
            i <= b@.len(),
            lex_lt(a@, b@) == lex_lt(a@.skip(i as int), b@.skip(i as int)),
        decreases a@.len() - i,
    {
        assert(a@.skip(i as int).drop_first() =~= a@.skip(i as int + 1));
        assert(b@.skip(i as int).drop_first() =~= b@.skip(i as int + 1));
        if a[i] != b[i] {
            return a[i] < b[i];
        }
        i += 1;
    }
    i < b.len()
}

/// Whether two texts are equal.
fn chars_eq(a: &Vec<char>, b: &Vec<char>) -> (r: bool)
    ensures
        r == (a@ == b@),
{
    if a.len() != b.len() {
        return false;
    }
    let mut i: usize = 0;
    while i < a.len()
        invariant
            i <= a@.len() == b@.len(),
            forall|j: int| 0 <= j < i ==> a@[j] == b@[j],
        decreases a@.len() - i,
    {
        if a[i] != b[i] {
            return false;
        }
        i += 1;
    }
    assert(a@ =~= b@);
    true
}

/// Adds a text to sorted texts, keeping them sorted and without repeats.
pub fn insert_sorted(v: &mut Vec<Vec<char>>, x: Vec<char>)
    requires
        lex_sorted(old(v).deep_view()),
    ensures
        lex_sorted(final(v).deep_view()),
        final(v).deep_view().to_set() == old(v).deep_view().to_set().insert(x@),
{
    let ghost s = v.deep_view();
    assert(forall|j: int| 0 <= j < v@.len() ==> #[trigger] s[j] == v@[j]@);
    let mut k: usize = 0;
    while k < v.len() && lex_less(&v[k], &x)
        invariant
            k <= v@.len(),
            s == v.deep_view(),
            forall|j: int| 0 <= j < v@.len() ==> #[trigger] s[j] == v@[j]@,
            forall|j: int| 0 <= j < k ==> lex_lt(#[trigger] s[j], x@),
        decreases v@.len() - k,
    {
        k += 1;
    }
    if k < v.len() && chars_eq(&v[k], &x) {
        assert(s[k as int] == x@);
        assert(s.to_set().insert(x@) =~= s.to_set());
        return;
    }
    let ghost xv = x@;
    let ghost before = v@;
    v.insert(k, x);
    proof {
        assert(v@ == before.insert(k as int, x));
        assert forall|j: int| 0 <= j < v@.len() implies #[trigger] v.deep_view()[j] == s.insert(k as int, xv)[j] by {
            if j < k {
                assert(v@[j] == before[j]);
            } else if j > k {
                assert(v@[j] == before[j - 1]);
            }
        }
        assert(v.deep_view() =~= s.insert(k as int, xv));
        let t = v.deep_view();
        if k < s.len() {
            lemma_lex_total(s[k as int], xv);
            assert(lex_lt(xv, s[k as int]));
        }
        assert forall|i: int, j: int| 0 <= i < j < t.len() implies lex_lt(#[trigger] t[i], #[trigger] t[j]) by {
            if j < k {
                assert(t[i] == s[i] && t[j] == s[j]);
            } else if j == k {
                assert(t[i] == s[i]);
            } else if i < k {
                assert(t[i] == s[i] && t[j] == s[j - 1]);
                lemma_lex_transitive(s[i], xv, s[k as int]);
                if j - 1 > k {
                    lemma_lex_transitive(s[i], s[k as int], s[j - 1]);
                }
            } else if i == k {
                assert(t[j] == s[j - 1]);
                if j - 1 > k {
                    lemma_lex_transitive(xv, s[k as int], s[j - 1]);
                }
            } else {
                assert(t[i] == s[i - 1] && t[j] == s[j - 1]);
            }
        }
        assert(t.to_set() =~= s.to_set().insert(xv)) by {
            assert forall|w: Seq<char>| #[trigger] t.to_set().contains(w) <==> s.to_set().insert(xv).contains(w) by {
                if t.to_set().contains(w) {
                    let q = choose|q: int| 0 <= q < t.len() && t[q] == w;
                    if q < k {
                        assert(s[q] == w);
                    } else if q > k {
                        assert(s[q - 1] == w);
                    }
                }
                if s.to_set().contains(w) {
                    let q = choose|q: int| 0 <= q < s.len() && s[q] == w;
                    if q < k {
                        assert(t[q] == w);
                    } else {
                        assert(t[q + 1] == w);
                    }
                }
                if w == xv {
                    assert(t[k as int] == w);
                }
            }
        }
    }
}

impl Corpus {
    /// The texts of the words that follow pairs in the corpus.
    pub open spec fn follower_texts(self) -> Set<Seq<char>> {
        Set::new(
            |w: Seq<char>|
                exists|j: int, k: int|
                    0 <= j < self.table.map@.len() && 0 <= k < self.table.map@[j].1@.len() && w == self.word_text(
                        #[trigger] self.table.map@[j].1@[k],
                    ),
        )
    }

    /// The texts of the words that follow pairs, in the order of `str`,
    /// each once.
    pub fn dump_lines(&self) -> (r: Vec<String>)
        requires
            self.wf(),
        ensures
            lex_sorted(r.deep_view()),
            r.deep_view().to_set() == self.follower_texts(),
    {
        let mut out: Vec<Vec<char>> = Vec::new();
        let ghost mut seen: Set<Seq<char>> = Set::empty();
        assert(out.deep_view().to_set() =~= seen);
        let mut j: usize = 0;
        while j < self.table.map.len()
            invariant
                self.wf(),
                j <= self.table.map@.len(),
                lex_sorted(out.deep_view()),
                out.deep_view().to_set() == seen,
                seen == Set::new(
                    |w: Seq<char>|
                        exists|a: int, k: int|
                            0 <= a < j && 0 <= k < self.table.map@[a].1@.len() && w == self.word_text(
                                #[trigger] self.table.map@[a].1@[k],
                            ),
                ),
            decreases self.table.map@.len() - j,
        {
            let followers = &self.table.map[j].1;
            let mut k: usize = 0;
            while k < followers.len()
                invariant
                    self.wf(),
                    j < self.table.map@.len(),
                    followers == self.table.map@[j as int].1,
                    k <= followers@.len(),
                    lex_sorted(out.deep_view()),
                    out.deep_view().to_set() == seen,
                    seen == Set::new(
                        |w: Seq<char>|
                            (exists|a: int, q: int|
                                0 <= a < j && 0 <= q < self.table.map@[a].1@.len() && w == self.word_text(
                                    #[trigger] self.table.map@[a].1@[q],
                                )) || (exists|q: int| 0 <= q < k && w == self.word_text(#[trigger] followers@[q])),
                    ),
                decreases followers@.len() - k,
            {
                let s: Substring = followers[k];
                proof {
                    reveal(ParseState::entries_ok);
                    assert(self.table.is_word(self.table.map@[j as int].1@[k as int]));
                    self.lemma_word(s);
                }
                let w = chars_range(&self.table.compressed, s.0, s.1);
                assert(w@ == self.word_text(s));
                let ghost old_seen = seen;
                insert_sorted(&mut out, w);
                proof {
                    seen = seen.insert(self.word_text(s));
                    let target = Set::new(
                        |x: Seq<char>|
                            (exists|a: int, q: int|
                                0 <= a < j && 0 <= q < self.table.map@[a].1@.len() && x == self.word_text(
                                    #[trigger] self.table.map@[a].1@[q],
                                )) || (exists|q: int| 0 <= q < k + 1 && x == self.word_text(#[trigger] followers@[q])),
                    );
                    assert(seen =~= target) by {
                        assert forall|x: Seq<char>| #[trigger] seen.contains(x) <==> target.contains(x) by {
                            if x == self.word_text(s) {
                                assert(followers@[k as int] == s);
                            }
                            if target.contains(x) && !old_seen.contains(x) {
                                let q = choose|q: int| 0 <= q < k + 1 && x == self.word_text(#[trigger] followers@[q]);
                                assert(q == k);
                            }
                        }
                    }
                }
                k += 1;
            }
            proof {
                let target = Set::new(
                    |x: Seq<char>|
                        exists|a: int, q: int|
                            0 <= a < j + 1 && 0 <= q < self.table.map@[a].1@.len() && x == self.word_text(
                                #[trigger] self.table.map@[a].1@[q],
                            ),
                );
                assert(seen =~= target) by {
                    assert forall|x: Seq<char>| #[trigger] seen.contains(x) <==> target.contains(x) by {
                        if target.contains(x) {
                            let (a, q) = choose|a: int, q: int|
                                0 <= a < j + 1 && 0 <= q < self.table.map@[a].1@.len() && x == self.word_text(
                                    #[trigger] self.table.map@[a].1@[q],
                                );
                            if a == j {
                                assert(followers@[q] == self.table.map@[a].1@[q]);
                            }
                        }
                        if seen.contains(x) {
                            if exists|q: int| 0 <= q < k && x == self.word_text(#[trigger] followers@[q]) {
                                let q = choose|q: int| 0 <= q < k && x == self.word_text(#[trigger] followers@[q]);
                                assert(self.table.map@[j as int].1@[q] == followers@[q]);
                            }
                        }
                    }
                }
            }
            j += 1;
        }
        assert(seen =~= self.follower_texts());
        let mut lines: Vec<String> = Vec::new();
        let mut i: usize = 0;
        while i < out.len()
            invariant
                i <= out@.len(),
                lines.deep_view() == out.deep_view().take(i as int),
            decreases out@.len() - i,
        {
            let ghost before = lines.deep_view();
            lines.push(string_of(out[i].as_slice()));
            assert(lines.deep_view() =~= before.push(out@[i as int]@));
            assert(out.deep_view()[i as int] == out@[i as int]@);
            i += 1;
            assert(lines.deep_view() =~= out.deep_view().take(i as int));
        }
        assert(out.deep_view().take(i as int) =~= out.deep_view());
        lines
    }
}

} // verus!
