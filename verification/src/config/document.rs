//! A configuration document as plain values: nodes with arguments,
//! properties and children, read from KDL text by the `kdl` crate.
use vstd::prelude::*;

verus! {

#[verifier::external_type_specification]
#[verifier::external_body]
pub struct ExKdlNode(kdl::KdlNode);

#[verifier::external_type_specification]
#[verifier::external_body]
pub struct ExKdlEntry(kdl::KdlEntry);

/// The value of an entry.
#[derive(Debug)]
pub enum EntryValue {
    String(String),
    Integer(i128),
    Bool(bool),
    /// A floating point number or `null`; no setting takes one.
    Other,
}

/// An argument (no name) or a property (a name) of a node, with the byte
/// span it was read from.
#[derive(Debug)]
pub struct Entry {
    pub name: Option<String>,
    pub value: EntryValue,
    pub offset: usize,
    pub len: usize,
}

/// A node: its name, the byte offset where it starts and the byte length of
/// its name, its entries in order and its children in order.
#[derive(Debug)]
pub struct Node {
    pub name: String,
    pub name_len: usize,
    pub offset: usize,
    pub entries: Vec<Entry>,
    pub children: Vec<Node>,
}

/// A document: its top-level nodes in order.
pub struct Document {
    pub nodes: Vec<Node>,
}

/// What `KdlDocument::from_str` yields for `source`, as plain values: the
/// document, or `None` where the text is not valid KDL.
pub uninterp spec fn kdl_document(source: Seq<char>) -> Option<Document>;

/// What `KdlError`'s `Display` writes for the error of parsing `source`.
pub uninterp spec fn kdl_error_text(source: Seq<char>) -> Seq<char>;

/// Parses `source` with `KdlDocument::from_str` from the `kdl` crate and
/// copies the document into plain values; on failure, the error's message.
#[verifier::external_body]
pub(crate) fn parse_kdl(source: &str) -> (r: Result<Document, String>)
    ensures
        match r {
            Ok(doc) => kdl_document(source@) == Some(doc),
            Err(msg) => kdl_document(source@) is None && msg@ == kdl_error_text(source@),
        },
{
    match source.parse::<kdl::KdlDocument>() {
        Ok(doc) => {
            let mut nodes = Vec::new();
            for node in doc.nodes() {
                nodes.push(node_from_kdl(node));
            }
            Ok(Document { nodes })
        },
        Err(e) => Err(e.to_string()),
    }
}

/// Copies a `kdl::KdlNode` into a `Node`: `name().value()`, its byte length,
/// `span().offset()`, the entries of `iter()` and the nodes of `iter_children()`.
#[verifier::external_body]
fn node_from_kdl(node: &kdl::KdlNode) -> Node {
    let mut entries = Vec::new();
    for entry in node.iter() {
        entries.push(entry_from_kdl(entry));
    }
    let mut children = Vec::new();
    for child in node.iter_children() {
        children.push(node_from_kdl(child));
    }
    let name = node.name().value();
    Node { name: name.to_string(), name_len: name.len(), offset: node.span().offset(), entries, children }
}

/// Copies a `kdl::KdlEntry` into an `Entry`: `name()`, `value()` and `span()`.
#[verifier::external_body]
fn entry_from_kdl(entry: &kdl::KdlEntry) -> Entry {
    let name = match entry.name() { Some(n) => Some(n.value().to_string()), None => None };
    let value = match entry.value() {
        kdl::KdlValue::String(s) => EntryValue::String(s.clone()),
        kdl::KdlValue::Integer(i) => EntryValue::Integer(*i),
        kdl::KdlValue::Bool(b) => EntryValue::Bool(*b),
        kdl::KdlValue::Float(_) => EntryValue::Other,
        kdl::KdlValue::Null => EntryValue::Other,
    };
    Entry { name, value, offset: entry.span().offset(), len: entry.span().len() }
}

/// Whether two strings hold the same characters.
pub fn str_eq(a: &str, b: &str) -> (r: bool)
    ensures
        r == (a@ == b@),
{
    let x: String = a.to_owned();
    let y: String = b.to_owned();
    x == y
}

/// The index of the first element of `s` for which `p` holds.
pub open spec fn find_first<T>(s: Seq<T>, p: spec_fn(T) -> bool) -> Option<int>
    decreases s.len(),
{
    if s.len() == 0 {
        None
    } else {
        match find_first(s.drop_last(), p) {
            Some(i) => Some(i),
            None => if p(s.last()) {
                Some(s.len() - 1)
            } else {
                None
            },
        }
    }
}

pub proof fn lemma_find_first<T>(s: Seq<T>, p: spec_fn(T) -> bool)
    ensures
        match find_first(s, p) {
            Some(i) => 0 <= i < s.len() && p(s[i]) && forall|j: int| 0 <= j < i ==> !p(#[trigger] s[j]),
            None => forall|j: int| 0 <= j < s.len() ==> !p(#[trigger] s[j]),
        },
    decreases s.len(),
{
    if s.len() > 0 {
        lemma_find_first(s.drop_last(), p);
        assert forall|j: int| 0 <= j < s.len() - 1 implies s.drop_last()[j] == s[j] by {}
    }
}

/// `find_first` extends one element at a time.
pub proof fn lemma_find_first_take<T>(s: Seq<T>, p: spec_fn(T) -> bool, i: int)
    requires
        0 <= i < s.len(),
    ensures
        find_first(s.take(i + 1), p) == (match find_first(s.take(i), p) {
            Some(k) => Some(k),
            None => if p(s[i]) {
                Some(i)
            } else {
                None
            },
        }),
{
    assert(s.take(i + 1).drop_last() =~= s.take(i));
}

/// Whether an entry is an argument (it has no name).
pub open spec fn is_argument(e: Entry) -> bool {
    e.name is None
}

/// Whether an entry is the property `name`.
pub open spec fn is_property(e: Entry, name: Seq<char>) -> bool {
    e.name matches Some(n) && n@ == name
}

impl Node {
    /// The index of the node's first argument: what `KdlNode::entry(0)` finds.
    pub open spec fn first_argument(self) -> Option<int> {
        find_first(self.entries@, |e: Entry| is_argument(e))
    }

    /// The index of the node's first property `name`: what a search of
    /// `KdlNode::iter()` for it finds.
    pub open spec fn first_property(self, name: Seq<char>) -> Option<int> {
        find_first(self.entries@, |e: Entry| is_property(e, name))
    }

    /// The index of the first argument.
    pub fn argument_index(&self) -> (r: Option<usize>)
        ensures
            r matches Some(i) ==> self.first_argument() == Some(i as int) && i < self.entries@.len(),
            r is None ==> self.first_argument() is None,
    {
        let ghost p = |e: Entry| is_argument(e);
        let mut i: usize = 0;
        while i < self.entries.len()
            invariant
                i <= self.entries@.len(),
                p == (|e: Entry| is_argument(e)),
                find_first(self.entries@.take(i as int), p) is None,
            decreases self.entries@.len() - i,
        {
            proof {
                lemma_find_first_take(self.entries@, p, i as int);
            }
            if self.entries[i].name.is_none() {
                proof {
                    lemma_find_first_prefix(self.entries@, p, i as int + 1);
                }
                return Some(i);
            }
            i += 1;
        }
        assert(self.entries@.take(i as int) =~= self.entries@);
        None
    }

    /// The index of the first property `name`.
    pub fn property_index(&self, name: &str) -> (r: Option<usize>)
        ensures
            r matches Some(i) ==> self.first_property(name@) == Some(i as int) && i < self.entries@.len(),
            r is None ==> self.first_property(name@) is None,
    {
        let ghost p = |e: Entry| is_property(e, name@);
        let mut i: usize = 0;
        while i < self.entries.len()
            invariant
                i <= self.entries@.len(),
                p == (|e: Entry| is_property(e, name@)),
                find_first(self.entries@.take(i as int), p) is None,
            decreases self.entries@.len() - i,
        {
            proof {
                lemma_find_first_take(self.entries@, p, i as int);
            }
            let found = match &self.entries[i].name {
                Some(n) => str_eq(n.as_str(), name),
                None => false,
            };
            if found {
                proof {
                    lemma_find_first_prefix(self.entries@, p, i as int + 1);
                }
                return Some(i);
            }
            i += 1;
        }
        assert(self.entries@.take(i as int) =~= self.entries@);
        None
    }
}

/// A match in a prefix is the match in the whole sequence.
pub proof fn lemma_find_first_prefix<T>(s: Seq<T>, p: spec_fn(T) -> bool, n: int)
    requires
        0 <= n <= s.len(),
        find_first(s.take(n), p) is Some,
    ensures
        find_first(s, p) == find_first(s.take(n), p),
    decreases s.len() - n,
{
    if n < s.len() {
        lemma_find_first_take(s, p, n);
        lemma_find_first_prefix(s, p, n + 1);
    } else {
        assert(s.take(n) =~= s);
    }
}

} // verus!
