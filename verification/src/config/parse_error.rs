//! Errors found while reading a configuration, and the text that explains them.
use vstd::prelude::*;
use super::document::{Entry, Node};
use crate::chars::{chars_of, decimal, decimal_string, push_char, push_str, string_of_range};
use crate::config::values::copy_string;
use crate::garbage::garbage::{lines, lines_of, lines_state};

verus! {

/// Why a configuration could not be read.
#[derive(Debug)]
pub enum ParseError {
    /// The file could not be read: its path and the error's message.
    Io(String, String),
    /// The text is not a KDL document: the error's message.
    Kdl(String),
    /// A block is wrong; `span` is the byte range it covers in `source`.
    InvalidBlock { source: Option<String>, span: (usize, usize), message: String },
    /// A name or value is wrong; `span` is the byte range it covers in `source`.
    InvalidSpan { source: Option<String>, span: (usize, usize), message: String },
}

/// A `ParseError` with its strings taken as character sequences.
pub enum ParseErrorView {
    Io(Seq<char>, Seq<char>),
    Kdl(Seq<char>),
    InvalidBlock { source: Option<Seq<char>>, span: (usize, usize), message: Seq<char> },
    InvalidSpan { source: Option<Seq<char>>, span: (usize, usize), message: Seq<char> },
}

/// The characters of an optional string.
pub open spec fn opt_view(s: Option<String>) -> Option<Seq<char>> {
    match s {
        Some(t) => Some(t@),
        None => None,
    }
}

impl View for ParseError {
    type V = ParseErrorView;

    open spec fn view(&self) -> ParseErrorView {
        match self {
            ParseError::Io(p, m) => ParseErrorView::Io(p@, m@),
            ParseError::Kdl(m) => ParseErrorView::Kdl(m@),
            ParseError::InvalidBlock { source, span, message } => ParseErrorView::InvalidBlock {
                source: opt_view(*source),
                span: *span,
                message: message@,
            },
            ParseError::InvalidSpan { source, span, message } => ParseErrorView::InvalidSpan {
                source: opt_view(*source),
                span: *span,
                message: message@,
            },
        }
    }
}

/// `a + b`, or `usize::MAX` where the sum does not fit.
pub open spec fn span_end(a: usize, b: usize) -> usize {
    if a + b <= usize::MAX {
        (a + b) as usize
    } else {
        usize::MAX
    }
}

/// The error that points at the name of `node`.
pub open spec fn node_name_error(node: Node, message: Seq<char>) -> ParseErrorView {
    ParseErrorView::InvalidSpan {
        source: None,
        span: (node.offset, span_end(node.offset, node.name_len)),
        message,
    }
}

/// The error that points at `entry`.
pub open spec fn entry_error(entry: Entry, message: Seq<char>) -> ParseErrorView {
    ParseErrorView::InvalidSpan {
        source: None,
        span: (entry.offset, span_end(entry.offset, entry.len)),
        message,
    }
}

/// The error with the configuration text attached, where it points into it.
pub open spec fn with_source(e: ParseErrorView, text: Seq<char>) -> ParseErrorView {
    match e {
        ParseErrorView::InvalidBlock { span, message, .. } => ParseErrorView::InvalidBlock {
            source: Some(text),
            span,
            message,
        },
        ParseErrorView::InvalidSpan { span, message, .. } => ParseErrorView::InvalidSpan {
            source: Some(text),
            span,
            message,
        },
        other => other,
    }
}

impl ParseError {
    /// The error that points at the name of `node`.
    pub fn from_node_name(node: &Node, message: String) -> (e: ParseError)
        ensures
            e@ == node_name_error(*node, message@),
    {
        ParseError::InvalidSpan {
            source: None,
            span: (node.offset, node.offset.saturating_add(node.name_len)),
            message,
        }
    }

    /// The error that points at `entry`.
    pub fn from_entry(entry: &Entry, message: String) -> (e: ParseError)
        ensures
            e@ == entry_error(*entry, message@),
    {
        ParseError::InvalidSpan {
            source: None,
            span: (entry.offset, entry.offset.saturating_add(entry.len)),
            message,
        }
    }

    /// Attaches the configuration text to an error that points into it.
    pub fn set_source_code(&mut self, new_source: String)
        ensures
            final(self)@ == with_source(old(self)@, new_source@),
    {
        match self {
            ParseError::InvalidSpan { source, .. } => {
                *source = Some(new_source);
            },
            ParseError::InvalidBlock { source, .. } => {
                *source = Some(new_source);
            },
            _ => {},
        }
    }
}

// ---------------------------------------------------------------------------
// Positions: byte offsets in the UTF-8 encoding, and character indices.

/// The number of bytes of the UTF-8 encoding of a character.
pub open spec fn utf8_len(c: char) -> int {
    if (c as u32) < 0x80 {
        1
    } else if (c as u32) < 0x800 {
        2
    } else if (c as u32) < 0x10000 {
        3
    } else {
        4
    }
}

/// The byte offset of the character at index `k` of `s`.
pub open spec fn byte_offset(s: Seq<char>, k: int) -> int
    decreases k,
{
    if k <= 0 {
        0
    } else {
        byte_offset(s, k - 1) + utf8_len(s[k - 1])
    }
}

/// Byte offsets grow with the character index.
pub proof fn lemma_byte_offset_grows(s: Seq<char>, j: int, k: int)
    requires
        0 <= j <= k,
    ensures
        byte_offset(s, j) + (k - j) <= byte_offset(s, k),
    decreases k - j,
{
    if j < k {
        lemma_byte_offset_grows(s, j, k - 1);
    }
}

/// Whether byte offset `b` starts a character of `s` (or is its end).
pub open spec fn is_boundary(s: Seq<char>, b: int) -> bool {
    exists|k: int| 0 <= k <= s.len() && byte_offset(s, k) == b
}

/// The index of the character that starts at byte offset `b`.
pub open spec fn char_at_byte(s: Seq<char>, b: int) -> int {
    choose|k: int| 0 <= k <= s.len() && byte_offset(s, k) == b
}

/// The character index at a byte offset, where one starts there.
fn char_index(s: &Vec<char>, b: usize) -> (r: Option<usize>)
    ensures
        r is Some <==> is_boundary(s@, b as int),
        r matches Some(k) ==> k == char_at_byte(s@, b as int) && k <= s@.len(),
{
    let mut k: usize = 0;
    let mut acc: u128 = 0;
    while k < s.len() && acc < b as u128
        invariant
            k <= s@.len(),
            acc == byte_offset(s@, k as int),
            forall|j: int| 0 <= j < k ==> byte_offset(s@, j) < b,
        decreases s@.len() - k,
    {
        let c = s[k];
        let n: u128 = if (c as u32) < 0x80 {
            1
        } else if (c as u32) < 0x800 {
            2
        } else if (c as u32) < 0x10000 {
            3
        } else {
            4
        };
        acc = acc + n;
        k += 1;
    }
    proof {
        assert forall|j: int| 0 <= j <= s@.len() && j != k implies byte_offset(s@, j) != b by {
            if j > k {
                lemma_byte_offset_grows(s@, k as int, j);
            }
            if j > k && acc >= b {
                lemma_byte_offset_grows(s@, k as int + 1, j);
                lemma_byte_offset_grows(s@, k as int, k as int + 1);
            }
        }
    }
    if acc == b as u128 {
        proof {
            assert(is_boundary(s@, b as int));
            let c = char_at_byte(s@, b as int);
            assert(0 <= c <= s@.len() && byte_offset(s@, c) == b);
        }
        Some(k)
    } else {
        None
    }
}

/// The byte offset of the character at index `k`.
fn byte_offset_of(s: &Vec<char>, k: usize) -> (r: usize)
    requires
        k <= s@.len(),
        byte_offset(s@, s@.len() as int) <= usize::MAX,
    ensures
        r == byte_offset(s@, k as int),
{
    let mut i: usize = 0;
    let mut acc: usize = 0;
    while i < k
        invariant
            i <= k <= s@.len(),
            byte_offset(s@, s@.len() as int) <= usize::MAX,
            acc == byte_offset(s@, i as int),
        decreases k - i,
    {
        proof {
            lemma_byte_offset_grows(s@, i as int + 1, s@.len() as int);
        }
        let c = s[i];
        let n: usize = if (c as u32) < 0x80 {
            1
        } else if (c as u32) < 0x800 {
            2
        } else if (c as u32) < 0x10000 {
            3
        } else {
            4
        };
        acc = acc + n;
        i += 1;
    }
    acc
}

// ---------------------------------------------------------------------------
// Lines around a position.

/// The index of the last newline before index `idx`.
pub open spec fn last_newline_before(s: Seq<char>, idx: int) -> Option<int>
    decreases idx,
{
    if idx <= 0 {
        None
    } else if s[idx - 1] == '\n' {
        Some(idx - 1)
    } else {
        last_newline_before(s, idx - 1)
    }
}

/// The index of the first newline at or after index `idx`.
pub open spec fn first_newline_from(s: Seq<char>, idx: int) -> Option<int>
    decreases s.len() - idx,
{
    if idx >= s.len() || idx < 0 {
        None
    } else if s[idx] == '\n' {
        Some(idx)
    } else {
        first_newline_from(s, idx + 1)
    }
}

/// Where a search back over `count` newlines from `idx` ends: just after the
/// last newline reached, or the start where fewer newlines are there.
pub open spec fn back_spec(count: nat, s: Seq<char>, idx: int) -> int
    decreases count,
{
    if count == 0 {
        idx + 1
    } else {
        match last_newline_before(s, idx) {
            None => 0,
            Some(i) => back_spec((count - 1) as nat, s, i),
        }
    }
}

/// Where a search forward over `count` newlines from `idx` ends: at the
/// last newline reached, or the end where fewer newlines are there.
pub open spec fn forward_spec(count: nat, s: Seq<char>, idx: int) -> int
    decreases count,
{
    if count == 0 {
        idx - 1
    } else {
        match first_newline_from(s, idx) {
            None => s.len() as int,
            Some(j) => forward_spec((count - 1) as nat, s, j + 1),
        }
    }
}

proof fn lemma_last_newline(s: Seq<char>, idx: int)
    requires
        0 <= idx <= s.len(),
    ensures
        last_newline_before(s, idx) matches Some(i) ==> 0 <= i < idx,
    decreases idx,
{
    if idx > 0 {
        lemma_last_newline(s, idx - 1);
    }
}

proof fn lemma_first_newline(s: Seq<char>, idx: int)
    requires
        0 <= idx <= s.len(),
    ensures
        first_newline_from(s, idx) matches Some(j) ==> idx <= j < s.len(),
    decreases s.len() - idx,
{
    if idx < s.len() {
        lemma_first_newline(s, idx + 1);
    }
}

/// The index of the last newline before `idx`.
fn find_newline_back(s: &[char], idx: usize) -> (r: Option<usize>)
    requires
        idx <= s@.len(),
    ensures
        match r {
            Some(i) => last_newline_before(s@, idx as int) == Some(i as int) && i < idx,
            None => last_newline_before(s@, idx as int) is None,
        },
{
    let mut i = idx;
    while i > 0
        invariant
            i <= idx <= s@.len(),
            last_newline_before(s@, idx as int) == last_newline_before(s@, i as int),
        decreases i,
    {
        if s[i - 1] == '\n' {
            return Some(i - 1);
        }
        i -= 1;
    }
    None
}

/// The index of the first newline at or after `idx`.
fn find_newline_forward(s: &[char], idx: usize) -> (r: Option<usize>)
    requires
        idx <= s@.len(),
    ensures
        match r {
            Some(j) => first_newline_from(s@, idx as int) == Some(j as int) && idx <= j < s@.len(),
            None => first_newline_from(s@, idx as int) is None,
        },
{
    let mut j = idx;
    while j < s.len()
        invariant
            idx <= j <= s@.len(),
            first_newline_from(s@, idx as int) == first_newline_from(s@, j as int),
        decreases s@.len() - j,
    {
        if s[j] == '\n' {
            return Some(j);
        }
        j += 1;
    }
    None
}

/// Goes back over `count` newlines from index `from`: the index just after
/// the last newline reached, or 0 where there are fewer.
pub fn back_n_newlines(count: usize, source: &[char], from: usize) -> (r: usize)
    requires
        from <= source@.len(),
        count > 0 || from < usize::MAX,
    ensures
        r == back_spec(count as nat, source@, from as int),
        r <= from || count == 0,
{
    let mut idx = from;
    let mut n: usize = 0;
    while n < count
        invariant
            n <= count,
            idx <= from <= source@.len(),
            n > 0 ==> idx < from,
            back_spec(count as nat, source@, from as int) == back_spec((count - n) as nat, source@, idx as int),
        decreases count - n,
    {
        match find_newline_back(source, idx) {
            Some(i) => {
                idx = i;
            },
            None => {
                return 0;
            },
        }
        n += 1;
    }
    idx + 1
}

/// Goes forward over `count` newlines from index `from`: the index of the
/// last newline reached, or the length where there are fewer.
pub fn forward_n_newlines(count: usize, source: &[char], from: usize) -> (r: usize)
    requires
        from <= source@.len(),
        count > 0 || from > 0,
    ensures
        r == forward_spec(count as nat, source@, from as int),
{
    let len = source.len();
    let mut idx = from;
    let mut n: usize = 0;
    while n < count
        invariant
            n <= count,
            len == source@.len(),
            idx <= source@.len(),
            n > 0 ==> idx > 0,
            count > 0 || idx > 0,
            forward_spec(count as nat, source@, from as int) == forward_spec((count - n) as nat, source@, idx as int),
        decreases count - n,
    {
        match find_newline_forward(source, idx) {
            Some(j) => {
                idx = j + 1;
            },
            None => {
                return source.len();
            },
        }
        n += 1;
    }
    idx - 1
}

/// The lines around a span: from the start of the line two lines above the
/// span's line, through the newline that ends the line two lines below the
/// span's last line.
pub open spec fn expanded(s: Seq<char>, start: int, end: int) -> Seq<char> {
    s.subrange(back_spec(3, s, start), forward_spec(3, s, end) + 1)
}

/// The lines around the span from index `start` to index `end`.
pub fn expand_source(source: &[char], span: (usize, usize)) -> (r: Vec<char>)
    requires
        span.0 <= span.1 <= source@.len(),
        forward_spec(3, source@, span.1 as int) < source@.len(),
    ensures
        r@ == expanded(source@, span.0 as int, span.1 as int),
        r@.len() <= source@.len(),
{
    let source_start = back_n_newlines(3, source, span.0);
    let source_end = forward_n_newlines(3, source, span.1);
    let len = source.len();
    assert(source_end < len);
    proof {
        lemma_forward_at_least(3, source@, span.1 as int);
    }
    let mut out: Vec<char> = Vec::new();
    let stop = source_end + 1;
    let mut i = source_start;
    while i < stop
        invariant
            stop == source_end + 1,
            source_start <= i <= stop <= source@.len(),
            out@ == source@.subrange(source_start as int, i as int),
        decreases stop - i,
    {
        out.push(source[i]);
        i += 1;
        assert(out@ =~= source@.subrange(source_start as int, i as int));
    }
    out
}

/// A forward search does not end before where it started, less one.
proof fn lemma_forward_at_least(count: nat, s: Seq<char>, idx: int)
    requires
        0 <= idx <= s.len(),
    ensures
        forward_spec(count, s, idx) >= idx - 1,
    decreases count,
{
    if count > 0 {
        lemma_first_newline(s, idx);
        if let Some(j) = first_newline_from(s, idx) {
            lemma_forward_at_least((count - 1) as nat, s, j + 1);
        }
    }
}

// ---------------------------------------------------------------------------
// Explaining an error.

/// A text of `n` spaces.
pub open spec fn spaces(n: int) -> Seq<char> {
    Seq::new(if n < 0 { 0 } else { n as nat }, |i: int| ' ')
}

/// A text of `n` carets.
pub open spec fn carets(n: int) -> Seq<char> {
    Seq::new(if n < 0 { 0 } else { n as nat }, |i: int| '^')
}

/// The decimal text of `n`, right-aligned in `width` columns.
pub open spec fn padded(n: nat, width: int) -> Seq<char> {
    spaces(width - decimal(n).len()) + decimal(n)
}

/// The number of the line that index `k` of `s` is on: the number of lines
/// before it, at least 1.
pub open spec fn line_of(s: Seq<char>, k: int) -> int {
    let n = lines_of(s.take(k)).len() as int;
    if n < 1 {
        1
    } else {
        n
    }
}

/// One line of a snippet, numbered `no`: see `annotated_lines`.
pub open spec fn annotated_line(no: int, text: Seq<char>, line: int, col: int, width: int, cols: int) -> Seq<char> {
    padded(no as nat, cols) + "  "@ + text + "\n"@ + if no == line {
        spaces(cols + 2) + spaces(col) + carets(width) + "\n"@
    } else {
        Seq::empty()
    }
}

/// The first `k` lines of a snippet, each with its number right-aligned in
/// `cols` columns, two spaces and the line; below the line numbered `line`,
/// carets under the span that starts `col` bytes into it and is `width`
/// bytes wide.
pub open spec fn annotated_lines(ls: Seq<Seq<char>>, first: int, line: int, col: int, width: int, cols: int, k: int) -> Seq<char>
    decreases k,
{
    if k <= 0 {
        Seq::empty()
    } else {
        annotated_lines(ls, first, line, col, width, cols, k - 1) + annotated_line(k - 1 + first, ls[k - 1], line, col, width, cols)
    }
}

/// The annotated snippet: a newline, then its lines, numbered from `first`.
pub open spec fn annotation(snippet: Seq<char>, first: int, line: int, col: int, width: int) -> Seq<char> {
    let ls = lines_of(snippet);
    "\n"@ + annotated_lines(ls, first, line, col, width, decimal((line + 2) as nat).len() as int, ls.len() as int)
}

/// The explanation of an error at bytes `start..end` of `source`: the
/// message, the text of the span and its line number, then the lines
/// around it with the span underlined.
pub open spec fn explain_text(message: Seq<char>, source: Seq<char>, start: int, end: int) -> Seq<char> {
    let a = char_at_byte(source, start);
    let b = char_at_byte(source, end);
    let line = line_of(source, a);
    let col = start - byte_offset(source, back_spec(1, source, a));
    message + " at "@ + source.subrange(a, b) + " on line "@ + decimal(line as nat) + ":\n"@ + annotation(
        expanded(source, a, b),
        if line - 2 < 1 {
            1
        } else {
            line - 2
        },
        line,
        col,
        end - start,
    )
}

/// Whether an error at bytes `start..end` of `source` can be explained: both
/// ends start characters, the span is not reversed, two more lines follow
/// the span's last line, and the text's length fits in an `isize`.
pub open spec fn explainable(source: Seq<char>, start: int, end: int) -> bool {
    &&& is_boundary(source, start)
    &&& is_boundary(source, end)
    &&& start <= end
    &&& forward_spec(3, source, char_at_byte(source, end)) < source.len()
    &&& byte_offset(source, source.len() as int) <= isize::MAX
}

/// An explanation of an error: where it is, and what is wrong.
pub struct Explain {
    location: Option<(String, (usize, usize))>,
    message: String,
}

impl Explain {
    /// The text and the byte span that the error points at, where known.
    pub closed spec fn location(&self) -> Option<(Seq<char>, (usize, usize))> {
        match self.location {
            Some((s, span)) => Some((s@, span)),
            None => None,
        }
    }

    /// What is wrong.
    pub closed spec fn message(&self) -> Seq<char> {
        self.message@
    }

    /// Whether the explanation can be written out.
    pub open spec fn can_describe(&self) -> bool {
        match self.location() {
            Some((s, (a, b))) => explainable(s, a as int, b as int),
            None => true,
        }
    }

    /// The explanation as text.
    pub open spec fn text(&self) -> Seq<char> {
        match self.location() {
            Some((s, (a, b))) => explain_text(self.message(), s, a as int, b as int),
            None => self.message(),
        }
    }

    /// Whether the explanation can be written out.
    pub fn is_describable(&self) -> (r: bool)
        ensures
            r == self.can_describe(),
    {
        match &self.location {
            None => true,
            Some((source, span)) => explainable_exec(source, span.0, span.1),
        }
    }

    /// The explanation written out.
    pub fn describe(&self) -> (r: String)
        requires
            self.can_describe(),
        ensures
            r@ == self.text(),
    {
        match &self.location {
            None => copy_string(&self.message),
            Some((source, span)) => describe_location(&self.message, source, span.0, span.1),
        }
    }
}

/// Whether an error at bytes `start..end` of `source` can be explained.
fn explainable_exec(source: &String, start: usize, end: usize) -> (r: bool)
    ensures
        r == explainable(source@, start as int, end as int),
{
    let s = chars_of(source.as_str());
    let a = match char_index(&s, start) {
        Some(a) => a,
        None => {
            return false;
        },
    };
    let b = match char_index(&s, end) {
        Some(b) => b,
        None => {
            return false;
        },
    };
    if start > end {
        return false;
    }
    let total = match char_index_total(&s) {
        Some(t) => t,
        None => {
            return false;
        },
    };
    if total > isize::MAX as usize {
        return false;
    }
    proof {
        assert(byte_offset(s@, a as int) == start);
        assert(byte_offset(s@, b as int) == end);
        lemma_char_order(s@, a as int, b as int);
    }
    let last = forward_n_newlines(3, s.as_slice(), b);
    last < s.len()
}

/// The byte length of the text, where it fits in a `usize`.
fn char_index_total(s: &Vec<char>) -> (r: Option<usize>)
    ensures
        match r {
            Some(t) => t == byte_offset(s@, s@.len() as int),
            None => byte_offset(s@, s@.len() as int) > usize::MAX,
        },
{
    let mut i: usize = 0;
    let mut acc: u128 = 0;
    while i < s.len()
        invariant
            i <= s@.len(),
            acc == byte_offset(s@, i as int),
            acc <= usize::MAX,
        decreases s@.len() - i,
    {
        let c = s[i];
        let n: u128 = if (c as u32) < 0x80 {
            1
        } else if (c as u32) < 0x800 {
            2
        } else if (c as u32) < 0x10000 {
            3
        } else {
            4
        };
        acc = acc + n;
        i += 1;
        if acc > usize::MAX as u128 {
            proof {
                lemma_byte_offset_grows(s@, i as int, s@.len() as int);
            }
            return None;
        }
    }
    Some(acc as usize)
}

/// A byte offset of a character is past those of the characters before it.
proof fn lemma_char_order(s: Seq<char>, j: int, k: int)
    requires
        0 <= j <= s.len(),
        0 <= k <= s.len(),
        byte_offset(s, j) <= byte_offset(s, k),
    ensures
        j <= k,
{
    if k < j {
        lemma_byte_offset_grows(s, k + 1, j);
        lemma_byte_offset_grows(s, k, k + 1);
    }
}

/// The lines of a text are no more than its characters.
proof fn lemma_lines_count(s: Seq<char>, n: int)
    requires
        0 <= n <= s.len(),
    ensures
        lines_state(s, n).0.len() + lines_state(s, n).1.len() <= n,
    decreases n,
{
    if n > 0 {
        lemma_lines_count(s, n - 1);
    }
}

/// The explanation of an error at bytes `start..end` of `source`.
fn describe_location(message: &String, source: &String, start: usize, end: usize) -> (r: String)
    requires
        explainable(source@, start as int, end as int),
    ensures
        r@ == explain_text(message@, source@, start as int, end as int),
{
    let s = chars_of(source.as_str());
    let a = match char_index(&s, start) {
        Some(a) => a,
        None => vstd::pervasive::unreached(),
    };
    let b = match char_index(&s, end) {
        Some(b) => b,
        None => vstd::pervasive::unreached(),
    };
    proof {
        lemma_char_order(s@, a as int, b as int);
        lemma_byte_offset_grows(s@, 0, s@.len() as int);
    }
    let prefix = string_of_range(s.as_slice(), 0, a);
    let before = lines(prefix.as_str());
    proof {
        assert(prefix@ =~= s@.take(a as int));
        lemma_lines_count(s@.take(a as int), a as int);
    }
    let line = if before.len() < 1 {
        1
    } else {
        before.len()
    };
    assert(line == line_of(s@, a as int));
    let line_start = back_n_newlines(1, s.as_slice(), a);
    proof {
        assert(byte_offset(s@, a as int) == start);
        lemma_byte_offset_grows(s@, line_start as int, a as int);
    }
    let col = start - byte_offset_of(&s, line_start);
    let highlighted = string_of_range(s.as_slice(), a, b);
    let snippet = expand_source(s.as_slice(), (a, b));
    assert(snippet@.len() <= s@.len());
    let mut out = copy_string(message);
    push_str(&mut out, " at ");
    push_str(&mut out, highlighted.as_str());
    push_str(&mut out, " on line ");
    let number = decimal_string(line as u64);
    push_str(&mut out, number.as_str());
    push_str(&mut out, ":\n");
    let first = if line < 3 {
        1
    } else {
        line - 2
    };
    let ghost head = out@;
    annotate_span(&mut out, &snippet, first, line, col, end - start);
    proof {
        lemma_byte_offset_grows(s@, line_start as int, a as int);
        assert(out@ =~= explain_text(message@, source@, start as int, end as int));
    }
    out
}

/// Appends `n` copies of a character.
fn push_repeated(out: &mut String, c: char, n: usize)
    ensures
        final(out)@ == old(out)@ + Seq::new(n as nat, |i: int| c),
{
    let mut i: usize = 0;
    while i < n
        invariant
            i <= n,
            out@ == old(out)@ + Seq::new(i as nat, |j: int| c),
        decreases n - i,
    {
        push_char(out, c);
        i += 1;
        assert(out@ =~= old(out)@ + Seq::new(i as nat, |j: int| c));
    }
}

/// Appends one line of a snippet with its number (see `annotated_line`).
fn annotate_line(out: &mut String, line_no: usize, text: &str, line: usize, col: usize, width: usize, num_cols: usize)
    ensures
        final(out)@ == old(out)@ + annotated_line(line_no as int, text@, line as int, col as int, width as int, num_cols as int),
{
    let number = decimal_string(line_no as u64);
    let len = crate::chars::char_len(number.as_str());
    if len < num_cols {
        push_repeated(out, ' ', num_cols - len);
    }
    let ghost padded_start = old(out)@;
    push_str(out, number.as_str());
    push_str(out, "  ");
    push_str(out, text);
    push_char(out, '\n');
    let ghost mid = out@;
    if line_no == line {
        push_repeated(out, ' ', num_cols);
        push_repeated(out, ' ', 2);
        push_repeated(out, ' ', col);
        push_repeated(out, '^', width);
        push_char(out, '\n');
    }
    proof {
        reveal_strlit("  ");
        reveal_strlit("\n");
        assert(Seq::new(num_cols as nat, |i: int| ' ') + Seq::new(2, |i: int| ' ') =~= spaces(num_cols + 2));
        if len < num_cols {
            assert(spaces(num_cols - len) =~= Seq::new((num_cols - len) as nat, |i: int| ' '));
        } else {
            assert(spaces(num_cols - len) =~= Seq::<char>::empty());
        }
        assert(out@ =~= old(out)@ + annotated_line(line_no as int, text@, line as int, col as int, width as int, num_cols as int));
    }
}

/// Appends the lines of a snippet with their numbers, from `starting_line`
/// on, and carets under the span on the line numbered `line`, which starts
/// `col` bytes into it and is `width` bytes wide.
pub fn annotate_span(out: &mut String, source: &Vec<char>, starting_line: usize, line: usize, col: usize, width: usize)
    requires
        line <= isize::MAX,
        starting_line <= isize::MAX,
        source@.len() <= isize::MAX,
    ensures
        final(out)@ == old(out)@ + annotation(source@, starting_line as int, line as int, col as int, width as int),
{
    let max_line = line + 2;
    let digits = decimal_string(max_line as u64);
    let num_cols = crate::chars::char_len(digits.as_str());
    push_char(out, '\n');
    let text = crate::chars::string_of(source.as_slice());
    let ls = lines(text.as_str());
    let ghost start = out@;
    let ghost lv = lines_of(source@);
    proof {
        lemma_lines_count(source@, source@.len() as int);
    }
    let mut n: usize = 0;
    while n < ls.len()
        invariant
            n <= ls@.len(),
            ls.deep_view() == lv,
            lv.len() <= source@.len() <= isize::MAX,
            starting_line <= isize::MAX,
            num_cols == decimal((line + 2) as nat).len(),
            out@ == start + annotated_lines(lv, starting_line as int, line as int, col as int, width as int, num_cols as int, n as int),
        decreases ls@.len() - n,
    {
        let line_no = n + starting_line;
        annotate_line(out, line_no, ls[n].as_str(), line, col, width, num_cols);
        proof {
            assert(ls.deep_view()[n as int] == ls@[n as int]@);
            assert(out@ =~= start + annotated_lines(lv, starting_line as int, line as int, col as int, width as int, num_cols as int, n as int + 1));
        }
        n += 1;
    }
    proof {
        reveal_strlit("\n");
        assert(out@ =~= old(out)@ + annotation(source@, starting_line as int, line as int, col as int, width as int));
    }
}

// ---------------------------------------------------------------------------
// Describing an error.

/// The text of an error: where a file could not be opened, the KDL error's
/// message, or the message and the text of the span it points at.
pub open spec fn error_text(e: ParseErrorView) -> Seq<char> {
    match e {
        ParseErrorView::Io(p, m) => "Could not open file "@ + p + ": "@ + m,
        ParseErrorView::Kdl(m) => m,
        ParseErrorView::InvalidBlock { source, span, message } => spanned_text(message, source, span),
        ParseErrorView::InvalidSpan { source, span, message } => spanned_text(message, source, span),
    }
}

/// The message, and the text of the span where the text is known.
pub open spec fn spanned_text(message: Seq<char>, source: Option<Seq<char>>, span: (usize, usize)) -> Seq<char> {
    match source {
        Some(s) => message + " at "@ + s.subrange(char_at_byte(s, span.0 as int), char_at_byte(s, span.1 as int)),
        None => message,
    }
}

/// Whether the span of an error can be cut out of its text: both ends
/// start characters and the span is not reversed.
pub open spec fn span_ok(source: Option<Seq<char>>, span: (usize, usize)) -> bool {
    source matches Some(s) ==> is_boundary(s, span.0 as int) && is_boundary(s, span.1 as int) && span.0 <= span.1
}

/// Whether an error can be written out.
pub open spec fn describable(e: ParseErrorView) -> bool {
    match e {
        ParseErrorView::InvalidBlock { source, span, .. } => span_ok(source, span),
        ParseErrorView::InvalidSpan { source, span, .. } => span_ok(source, span),
        _ => true,
    }
}

/// The message, and the text of the span where the text is known.
fn describe_span(message: &String, source: &Option<String>, span: (usize, usize)) -> (r: String)
    requires
        span_ok(opt_view(*source), span),
    ensures
        r@ == spanned_text(message@, opt_view(*source), span),
{
    match source {
        None => copy_string(message),
        Some(text) => {
            let s = chars_of(text.as_str());
            let a = match char_index(&s, span.0) {
                Some(a) => a,
                None => vstd::pervasive::unreached(),
            };
            let b = match char_index(&s, span.1) {
                Some(b) => b,
                None => vstd::pervasive::unreached(),
            };
            proof {
                assert(byte_offset(s@, a as int) == span.0);
                assert(byte_offset(s@, b as int) == span.1);
                lemma_char_order(s@, a as int, b as int);
            }
            let mut out = copy_string(message);
            push_str(&mut out, " at ");
            let part = string_of_range(s.as_slice(), a, b);
            push_str(&mut out, part.as_str());
            out
        },
    }
}

/// Whether the span of an error can be cut out of its text.
fn span_ok_exec(source: &Option<String>, span: (usize, usize)) -> (r: bool)
    ensures
        r == span_ok(opt_view(*source), span),
{
    match source {
        None => true,
        Some(text) => {
            let s = chars_of(text.as_str());
            char_index(&s, span.0).is_some() && char_index(&s, span.1).is_some() && span.0 <= span.1
        },
    }
}

impl ParseError {
    /// Whether the error can be written out.
    pub fn is_describable(&self) -> (r: bool)
        ensures
            r == describable(self@),
    {
        match self {
            ParseError::InvalidBlock { source, span, .. } => span_ok_exec(source, *span),
            ParseError::InvalidSpan { source, span, .. } => span_ok_exec(source, *span),
            _ => true,
        }
    }

    /// The error in words.
    pub fn describe(&self) -> (r: String)
        requires
            describable(self@),
        ensures
            r@ == error_text(self@),
    {
        match self {
            ParseError::Io(path, message) => {
                let mut out = "Could not open file ".to_owned();
                push_str(&mut out, path.as_str());
                push_str(&mut out, ": ");
                push_str(&mut out, message.as_str());
                out
            },
            ParseError::Kdl(message) => copy_string(message),
            ParseError::InvalidBlock { source, span, message } => describe_span(message, source, *span),
            ParseError::InvalidSpan { source, span, message } => describe_span(message, source, *span),
        }
    }

    /// The explanation of the error: where it points, if it points into a
    /// known text, and its message (for a file that could not be opened,
    /// the error in words).
    pub fn explain(self) -> (r: Explain)
        ensures
            r.location() == match self@ {
                ParseErrorView::InvalidBlock { source: Some(s), span, .. } => Some((s, span)),
                ParseErrorView::InvalidSpan { source: Some(s), span, .. } => Some((s, span)),
                _ => None,
            },
            r.message() == match self@ {
                ParseErrorView::Io(p, m) => error_text(self@),
                ParseErrorView::Kdl(m) => m,
                ParseErrorView::InvalidBlock { message, .. } => message,
                ParseErrorView::InvalidSpan { message, .. } => message,
            },
    {
        match self {
            ParseError::Io(path, message) => {
                let mut out = "Could not open file ".to_owned();
                push_str(&mut out, path.as_str());
                push_str(&mut out, ": ");
                push_str(&mut out, message.as_str());
                Explain { location: None, message: out }
            },
            ParseError::Kdl(message) => Explain { location: None, message },
            ParseError::InvalidBlock { source, span, message } => Explain {
                location: match source {
                    Some(s) => Some((s, span)),
                    None => None,
                },
                message,
            },
            ParseError::InvalidSpan { source, span, message } => Explain {
                location: match source {
                    Some(s) => Some((s, span)),
                    None => None,
                },
                message,
            },
        }
    }
}

} // verus!
