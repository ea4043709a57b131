//! Pages of generated text, with links that lead further in, rendered with
//! a template of the `upon` crate.
use vstd::prelude::*;
use std::ops::RangeInclusive;
use rand_seeder::SipRng;
use super::generator::{Corpus, is_corpus_sentence};
use super::template::{PageTemplate, rendered, template_error};
use crate::chars::{chars_of, push_char, push_str};
use crate::classifier::classifier::{copy_strings, occurs_in};
use crate::classifier::matcher::occurs;
use crate::config::settings::Config;
use crate::config::values::copy_string;
use crate::random::{SeedMark, random_between, random_index, sample_indices, seeded_rng};

verus! {

/// A link of a page: where it leads, and its text.
pub struct Link {
    pub path: String,
    pub text: String,
}

/// The title of every generated page.
pub open spec fn page_title() -> Seq<char> {
    "garbage"@
}

/// The title, paragraphs and links of a page, and the seed of the random
/// number generator they were drawn from.
pub struct Page {
    pub seed: SeedMark,
    pub title: String,
    pub paragraphs: Vec<String>,
    pub links: Option<Vec<Link>>,
}

/// The links of a page as pairs of characters.
pub open spec fn links_view(links: Option<Vec<Link>>) -> Option<Seq<(Seq<char>, Seq<char>)>> {
    match links {
        Some(v) => Some(v@.map_values(|l: Link| (l.path@, l.text@))),
        None => None,
    }
}

/// Why pages cannot be served.
#[derive(Debug)]
pub enum GarbageError {
    /// A file could not be read: the error's message.
    Io(String),
    /// The corpus holds no words.
    CorpusEmpty,
    /// No words file is configured.
    WordsFileMissing,
    /// The words file has fewer lines than a link may have words: its path
    /// and the number of lines needed.
    WordsListTooShort(String, usize),
    /// No template file is configured.
    TemplateFileMissing,
    /// The template could not be compiled or rendered: the error's message.
    Template(String),
}

impl From<super::read_text::ParseError> for GarbageError {
    fn from(e: super::read_text::ParseError) -> (r: GarbageError) {
        match e {
            super::read_text::ParseError::Io(m) => GarbageError::Io(m),
            super::read_text::ParseError::NoContent => GarbageError::CorpusEmpty,
        }
    }
}

impl vstd::std_specs::convert::FromSpecImpl<super::read_text::ParseError> for GarbageError {
    open spec fn obeys_from_spec() -> bool {
        true
    }

    /// A corpus that could not be read is an I/O error or an empty corpus.
    open spec fn from_spec(e: super::read_text::ParseError) -> GarbageError {
        match e {
            super::read_text::ParseError::Io(m) => GarbageError::Io(m),
            super::read_text::ParseError::NoContent => GarbageError::CorpusEmpty,
        }
    }
}

/// A line without its trailing carriage return.
pub open spec fn strip_cr(line: Seq<char>) -> Seq<char> {
    if line.len() > 0 && line.last() == '\r' {
        line.drop_last()
    } else {
        line
    }
}

/// The finished lines and the line being read after the first `n`
/// characters of `s`.
pub open spec fn lines_state(s: Seq<char>, n: int) -> (Seq<Seq<char>>, Seq<char>)
    decreases n,
{
    if n <= 0 {
        (Seq::empty(), Seq::empty())
    } else {
        let (ls, cur) = lines_state(s, n - 1);
        if s[n - 1] == '\n' {
            (ls.push(strip_cr(cur)), Seq::empty())
        } else {
            (ls, cur.push(s[n - 1]))
        }
    }
}

/// The lines of a text, as `str::lines` gives them: split at each newline,
/// a carriage return before a newline dropped, and no empty line after a
/// final newline.
pub open spec fn lines_of(s: Seq<char>) -> Seq<Seq<char>> {
    let (ls, cur) = lines_state(s, s.len() as int);
    if cur.len() > 0 {
        ls.push(cur)
    } else {
        ls
    }
}

/// The lines of a text.
pub fn lines(text: &str) -> (r: Vec<String>)
    ensures
        r.deep_view() == lines_of(text@),
{
    let cs = chars_of(text);
    let mut out: Vec<String> = Vec::new();
    let mut cur: Vec<char> = Vec::new();
    let mut i: usize = 0;
    while i < cs.len()
        invariant
            i <= cs@.len(),
            cs@ == text@,
            (out.deep_view(), cur@) == lines_state(text@, i as int),
        decreases cs@.len() - i,
    {
        if cs[i] == '\n' {
            let n = cur.len();
            let end = if n > 0 && cur[n - 1] == '\r' {
                n - 1
            } else {
                n
            };
            let line = crate::chars::string_of_range(cur.as_slice(), 0, end);
            assert(line@ =~= strip_cr(cur@));
            let ghost before = out.deep_view();
            out.push(line);
            proof {
                assert(out.deep_view() =~= before.push(strip_cr(cur@)));
            }
            cur = Vec::new();
        } else {
            cur.push(cs[i]);
        }
        i += 1;
    }
    if cur.len() > 0 {
        let ghost before = out.deep_view();
        out.push(crate::chars::string_of(cur.as_slice()));
        assert(out.deep_view() =~= before.push(cur@));
    }
    out
}

/// Whether `s` ends with a slash.
pub open spec fn ends_with_slash(s: Seq<char>) -> bool {
    s.len() > 0 && s.last() == '/'
}

/// The path that links of a page at `path` start with: the path, with a
/// slash added where it has none at its end.
pub open spec fn link_base(path: Seq<char>) -> Seq<char> {
    if ends_with_slash(path) {
        path
    } else {
        path.push('/')
    }
}

/// Each word preceded by the separator.
pub open spec fn separated(ws: Seq<Seq<char>>, sep: char) -> Seq<char>
    decreases ws.len(),
{
    if ws.len() == 0 {
        Seq::empty()
    } else {
        separated(ws.drop_last(), sep).push(sep) + ws.last()
    }
}

/// The words joined by single spaces.
pub open spec fn spaced(ws: Seq<Seq<char>>) -> Seq<char>
    decreases ws.len(),
{
    if ws.len() == 0 {
        Seq::empty()
    } else if ws.len() == 1 {
        ws[0]
    } else {
        spaced(ws.drop_last()).push(' ') + ws.last()
    }
}

/// Whether `ws` are words of `words` at distinct positions.
pub open spec fn drawn_from(ws: Seq<Seq<char>>, words: Seq<Seq<char>>) -> bool {
    exists|idx: Seq<int>| #![trigger idx.len()]
        idx.len() == ws.len() && idx.no_duplicates() && forall|i: int|
            0 <= i < idx.len() ==> 0 <= #[trigger] idx[i] < words.len() && ws[i] == words[idx[i]]
}

/// A page of generated text: its paragraphs and its links.
pub struct Garbage {
    corpus: Corpus,
    words: Vec<String>,
    template: PageTemplate,
    num_paragraphs: (usize, usize),
    num_words: (usize, usize),
    num_links: (usize, usize),
    num_link_words: (usize, usize),
    link_separator: char,
    poisons: Vec<String>,
}

impl Garbage {
    /// The corpus the paragraphs are drawn from.
    pub closed spec fn corpus(&self) -> Corpus {
        self.corpus
    }

    /// The words the links are made of.
    pub closed spec fn words(&self) -> Seq<Seq<char>> {
        self.words.deep_view()
    }

    /// The text of the template.
    pub closed spec fn template_source(&self) -> Seq<char> {
        self.template.source()
    }

    /// The range of the number of paragraphs.
    pub closed spec fn num_paragraphs(&self) -> (usize, usize) {
        self.num_paragraphs
    }

    /// The range of the number of words of a paragraph.
    pub closed spec fn num_words(&self) -> (usize, usize) {
        self.num_words
    }

    /// The range of the number of links.
    pub closed spec fn num_links(&self) -> (usize, usize) {
        self.num_links
    }

    /// The range of the number of words of a link.
    pub closed spec fn num_link_words(&self) -> (usize, usize) {
        self.num_link_words
    }

    /// What joins the words of a link.
    pub closed spec fn link_separator(&self) -> char {
        self.link_separator
    }

    /// The poisons that links carry.
    pub closed spec fn poisons(&self) -> Seq<Seq<char>> {
        self.poisons.deep_view()
    }

    /// The corpus is well formed and there are enough words for any link.
    pub closed spec fn wf(&self) -> bool {
        &&& self.corpus.wf()
        &&& self.num_link_words.1 <= self.words@.len()
    }

    /// Whether no random draw for a page at `path` is from an empty range:
    /// the number of paragraphs, and of their words where there may be
    /// paragraphs; where the page has links, the number of links, and of
    /// their words where there may be links.
    pub open spec fn draws_ok(&self, path: Seq<char>) -> bool {
        &&& self.num_paragraphs().0 <= self.num_paragraphs().1
        &&& (self.num_paragraphs().1 > 0 ==> self.num_words().0 <= self.num_words().1)
        &&& (self.has_links(path) ==> self.num_links().0 <= self.num_links().1 && (self.num_links().1 > 0
            ==> self.num_link_words().0 <= self.num_link_words().1))
    }

    /// Whether a page at `path` has links: there are poisons, and none of
    /// them occurs in the path.
    pub open spec fn has_links(&self, path: Seq<char>) -> bool {
        self.poisons().len() > 0 && forall|k: int| 0 <= k < self.poisons().len() ==> !occurs(path, #[trigger] self.poisons()[k])
    }

    /// Whether `l` is a link of a page at `path`: its path is the page's
    /// path with a slash, a poison, and the separator before each of its
    /// words; its text is its words joined by spaces; its words are drawn
    /// from the words list at distinct positions, as many as the range of
    /// the number of words of a link allows.
    pub open spec fn is_link(&self, path: Seq<char>, l: (Seq<char>, Seq<char>)) -> bool {
        exists|p: int, ws: Seq<Seq<char>>| #![trigger self.poisons()[p], spaced(ws)]
            0 <= p < self.poisons().len() && self.num_link_words().0 <= ws.len() <= self.num_link_words().1
                && drawn_from(ws, self.words()) && l.0 == link_base(path) + self.poisons()[p] + separated(
                ws,
                self.link_separator(),
            ) && l.1 == spaced(ws)
    }

    /// Whether `page` is a page of the generator at `path`: as many
    /// paragraphs as the range allows, each a sentence of corpus words; and
    /// links where the page has them, as many as the range allows.
    pub open spec fn is_page(&self, path: Seq<char>, paragraphs: Seq<Seq<char>>, links: Option<Seq<(Seq<char>, Seq<char>)>>) -> bool {
        &&& self.num_paragraphs().0 <= paragraphs.len() <= self.num_paragraphs().1
        &&& forall|i: int|
            0 <= i < paragraphs.len() ==> is_corpus_sentence(
                &self.corpus(),
                #[trigger] paragraphs[i],
                self.num_words().0 as int,
                self.num_words().1 as int,
            )
        &&& (self.has_links(path) <==> links is Some)
        &&& (links matches Some(ls) ==> self.num_links().0 <= ls.len() <= self.num_links().1 && forall|i: int|
            0 <= i < ls.len() ==> self.is_link(path, #[trigger] ls[i]))
    }

    /// A link of a page leads to a page without links: the path of the link
    /// holds one of the poisons.
    pub proof fn lemma_links_lead_to_dead_ends(&self, path: Seq<char>, l: (Seq<char>, Seq<char>))
        requires
            self.is_link(path, l),
        ensures
            !self.has_links(l.0),
    {
        let (p, ws) = choose|p: int, ws: Seq<Seq<char>>| #![trigger self.poisons()[p], spaced(ws)]
            0 <= p < self.poisons().len() && self.num_link_words().0 <= ws.len() <= self.num_link_words().1
                && drawn_from(ws, self.words()) && l.0 == link_base(path) + self.poisons()[p] + separated(
                ws,
                self.link_separator(),
            ) && l.1 == spaced(ws);
        let base = link_base(path);
        let poison = self.poisons()[p];
        assert(l.0.subrange(base.len() as int, base.len() + poison.len() as int) =~= poison);
        assert(occurs(l.0, poison));
    }

    /// Builds the page generator from the settings, a corpus, the text of
    /// the words file and the text of the template file.
    pub fn new(config: &Config, corpus: Corpus, words_text: &str, template_text: &str) -> (r: Result<Garbage, GarbageError>)
        requires
            corpus.wf(),
        ensures
            match r {
                Ok(g) => {
                    &&& g.wf()
                    &&& g.corpus() == corpus
                    &&& g.words() == lines_of(words_text@)
                    &&& g.template_source() == template_text@
                    &&& template_error(template_text@) is None
                    &&& lines_of(words_text@).len() >= config.garbage.links.max_words
                    &&& g.num_paragraphs() == (config.garbage.paragraphs.min_count, config.garbage.paragraphs.max_count)
                    &&& g.num_words() == (config.garbage.paragraphs.min_words, config.garbage.paragraphs.max_words)
                    &&& g.num_links() == (config.garbage.links.min_count, config.garbage.links.max_count)
                    &&& g.num_link_words() == (config.garbage.links.min_words, config.garbage.links.max_words)
                    &&& g.link_separator() == config.garbage.links.separator
                    &&& g.poisons() == config.garbage.poisons.deep_view()
                    &&& config.garbage.words_file is Some
                    &&& config.garbage.template_file is Some
                },
                Err(GarbageError::WordsFileMissing) => config.garbage.words_file is None,
                Err(GarbageError::WordsListTooShort(p, n)) => config.garbage.words_file matches Some(f) && p@
                    == f@ && n == config.garbage.links.max_words && lines_of(words_text@).len()
                    < config.garbage.links.max_words,
                Err(GarbageError::TemplateFileMissing) => config.garbage.words_file is Some
                    && lines_of(words_text@).len() >= config.garbage.links.max_words
                    && config.garbage.template_file is None,
                Err(GarbageError::Template(m)) => config.garbage.words_file is Some
                    && lines_of(words_text@).len() >= config.garbage.links.max_words
                    && config.garbage.template_file is Some && template_error(template_text@) == Some(m@),
                Err(_) => false,
            },
    {
        let words_file = match &config.garbage.words_file {
            Some(f) => f,
            None => {
                return Err(GarbageError::WordsFileMissing);
            },
        };
        let words = lines(words_text);
        let min_words_needed = config.garbage.links.max_words;
        if words.len() < min_words_needed {
            return Err(GarbageError::WordsListTooShort(copy_string(words_file), min_words_needed));
        }
        if config.garbage.template_file.is_none() {
            return Err(GarbageError::TemplateFileMissing);
        }
        let template = match PageTemplate::compile(template_text) {
            Ok(t) => t,
            Err(m) => {
                return Err(GarbageError::Template(m));
            },
        };
        let paragraphs = config.garbage.paragraphs;
        let links = config.garbage.links;
        Ok(Garbage {
            corpus,
            words,
            template,
            num_paragraphs: (paragraphs.min_count, paragraphs.max_count),
            num_words: (paragraphs.min_words, paragraphs.max_words),
            num_links: (links.min_count, links.max_count),
            num_link_words: (links.min_words, links.max_words),
            link_separator: links.separator,
            poisons: copy_strings(&config.garbage.poisons),
        })
    }

    /// Whether one of the poisons occurs in `path`.
    fn is_poisoned(&self, path: &str) -> (r: bool)
        ensures
            r == exists|k: int| 0 <= k < self.poisons().len() && occurs(path@, #[trigger] self.poisons()[k]),
    {
        let text = chars_of(path);
        let mut k: usize = 0;
        while k < self.poisons.len()
            invariant
                k <= self.poisons@.len(),
                text@ == path@,
                forall|j: int| 0 <= j < k ==> !occurs(path@, #[trigger] self.poisons()[j]),
            decreases self.poisons@.len() - k,
        {
            let pat = chars_of(self.poisons[k].as_str());
            if occurs_in(&text, &pat) {
                assert(occurs(path@, self.poisons()[k as int]));
                return true;
            }
            k += 1;
        }
        false
    }

    /// Whether no random draw for a page at `path` is from an empty range.
    pub fn draws_ok_for(&self, path: &str) -> (r: bool)
        ensures
            r == self.draws_ok(path@),
    {
        let links = self.poisons.len() > 0 && !self.is_poisoned(path);
        let paragraphs_ok = self.num_paragraphs.0 <= self.num_paragraphs.1 && (self.num_paragraphs.1 == 0
            || self.num_words.0 <= self.num_words.1);
        let links_ok = self.num_links.0 <= self.num_links.1 && (self.num_links.1 == 0 || self.num_link_words.0
            <= self.num_link_words.1);
        paragraphs_ok && (!links || links_ok)
    }

    /// The random links of a page at `path`.
    pub fn generate_links(&self, path: &str, rng: &mut SipRng) -> (r: Vec<Link>)
        requires
            self.wf(),
            self.poisons().len() > 0,
            self.num_links().0 <= self.num_links().1,
            self.num_links().1 > 0 ==> self.num_link_words().0 <= self.num_link_words().1,
        ensures
            self.num_links().0 <= r@.len() <= self.num_links().1,
            forall|i: int| 0 <= i < r@.len() ==> self.is_link(path@, (#[trigger] r@[i].path@, r@[i].text@)),
    {
        let num_links = random_between(rng, self.num_links.0, self.num_links.1);
        let mut links: Vec<Link> = Vec::new();
        let mut base = path.to_owned();
        let cs = chars_of(path);
        if !(cs.len() > 0 && cs[cs.len() - 1] == '/') {
            push_char(&mut base, '/');
        }
        assert(base@ == link_base(path@));
        let mut n: usize = 0;
        while n < num_links
            invariant
                self.wf(),
                self.poisons().len() > 0,
                n <= num_links <= self.num_links().1,
                num_links > 0 ==> self.num_link_words().0 <= self.num_link_words().1,
                base@ == link_base(path@),
                links@.len() == n,
                forall|i: int| 0 <= i < links@.len() ==> self.is_link(path@, (#[trigger] links@[i].path@, links@[i].text@)),
            decreases num_links - n,
        {
            let p = random_index(rng, self.poisons.len());
            let mut link_path = copy_string(&base);
            push_str(&mut link_path, self.poisons[p].as_str());
            let num_words = random_between(rng, self.num_link_words.0, self.num_link_words.1);
            let idx = sample_indices(rng, self.words.len(), num_words);
            let ghost head = link_path@;
            let mut text = String::new();
            let ghost mut ws: Seq<Seq<char>> = Seq::empty();
            let mut k: usize = 0;
            while k < idx.len()
                invariant
                    self.wf(),
                    k <= idx@.len(),
                    idx@.no_duplicates(),
                    forall|j: int| 0 <= j < idx@.len() ==> #[trigger] idx@[j] < self.words@.len(),
                    ws.len() == k,
                    forall|j: int| 0 <= j < k ==> #[trigger] ws[j] == self.words()[idx@[j] as int],
                    link_path@ == head + separated(ws, self.link_separator()),
                    text@ == spaced(ws),
                decreases idx@.len() - k,
            {
                let w = &self.words[idx[k]];
                push_char(&mut link_path, self.link_separator);
                push_str(&mut link_path, w.as_str());
                if k > 0 {
                    push_char(&mut text, ' ');
                }
                push_str(&mut text, w.as_str());
                proof {
                    let nws = ws.push(w@);
                    assert(nws.drop_last() =~= ws);
                    assert(link_path@ =~= head + separated(nws, self.link_separator()));
                    if k == 0 {
                        assert(text@ =~= spaced(nws));
                    } else {
                        assert(text@ =~= spaced(nws));
                    }
                    ws = nws;
                }
                k += 1;
            }
            proof {
                let ix = Seq::new(idx@.len(), |j: int| idx@[j] as int);
                assert(ix.no_duplicates()) by {
                    assert forall|a: int, b: int| 0 <= a < b < ix.len() implies ix[a] != ix[b] by {
                        assert(idx@[a] != idx@[b]);
                    }
                }
                assert(ix.len() == ws.len());
                assert(drawn_from(ws, self.words()));
                assert(self.poisons()[p as int] == self.poisons@[p as int]@);
                assert(link_path@ =~= link_base(path@) + self.poisons()[p as int] + separated(ws, self.link_separator()));
                assert(self.is_link(path@, (link_path@, text@)));
            }
            let ghost before = links@;
            links.push(Link { path: link_path, text });
            proof {
                assert forall|i: int| 0 <= i < links@.len() implies self.is_link(path@, (#[trigger] links@[i].path@, links@[i].text@)) by {
                    if i < before.len() {
                        assert(links@[i] == before[i]);
                    }
                }
            }
            n += 1;
        }
        links
    }

    /// The paragraphs and links of the page at `path`, drawn from a random
    /// number generator seeded with the path.
    pub fn page(&self, path: &str) -> (r: Page)
        requires
            self.wf(),
            self.draws_ok(path@),
        ensures
            r.seed.seed() == path@,
            r.title@ == page_title(),
            self.is_page(path@, r.paragraphs.deep_view(), links_view(r.links)),
    {
        let (rng, seed) = seeded_rng(path);
        let mut generator = self.corpus.generator(rng);
        let paragraphs = generator.paragraphs(
            &RangeInclusive::new(self.num_paragraphs.0, self.num_paragraphs.1),
            &RangeInclusive::new(self.num_words.0, self.num_words.1),
        );
        let links = if self.poisons.len() > 0 && !self.is_poisoned(path) {
            Some(self.generate_links(path, generator.rng()))
        } else {
            None
        };
        proof {
            assert forall|i: int| 0 <= i < paragraphs.deep_view().len() implies is_corpus_sentence(
                &self.corpus(),
                #[trigger] paragraphs.deep_view()[i],
                self.num_words().0 as int,
                self.num_words().1 as int,
            ) by {
                assert(paragraphs.deep_view()[i] == paragraphs@[i]@);
            }
            if links is Some {
                let ls = links->0;
                let lv = links_view(links)->0;
                assert forall|i: int| 0 <= i < lv.len() implies self.is_link(path@, #[trigger] lv[i]) by {
                    assert(lv[i] == (ls@[i].path@, ls@[i].text@));
                }
            }
        }
        Page { seed, title: "garbage".to_owned(), paragraphs, links }
    }

    /// The text of a page.
    pub fn render_page(&self, page: &Page) -> (r: Result<String, GarbageError>)
        ensures
            match (r, rendered(self.template_source(), page.title@, page.paragraphs.deep_view(), links_view(page.links))) {
                (Ok(t), Ok(u)) => t@ == u,
                (Err(GarbageError::Template(m)), Err(u)) => m@ == u,
                _ => false,
            },
    {
        match self.template.render(page) {
            Ok(t) => Ok(t),
            Err(m) => Err(GarbageError::Template(m)),
        }
    }

    /// The page at `path`, rendered with the template.
    pub fn render(&self, path: &str) -> (r: Result<String, GarbageError>)
        requires
            self.wf(),
            self.draws_ok(path@),
        ensures
            exists|ps: Seq<Seq<char>>, ls: Option<Seq<(Seq<char>, Seq<char>)>>|
                self.is_page(path@, ps, ls) && match (r, rendered(self.template_source(), page_title(), ps, ls)) {
                    (Ok(t), Ok(u)) => t@ == u,
                    (Err(GarbageError::Template(m)), Err(u)) => m@ == u,
                    _ => false,
                },
    {
        let page = self.page(path);
        let r = self.render_page(&page);
        assert(self.is_page(path@, page.paragraphs.deep_view(), links_view(page.links)));
        r
    }
}

} // verus!
