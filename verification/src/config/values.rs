//! Reading the arguments and properties of a configuration node: one string,
//! one boolean, a list of strings or integers, an integer property.
use vstd::prelude::*;
use super::document::{Entry, Node, EntryValue, str_eq};
use super::parse_error::{ParseError, ParseErrorView, entry_error, node_name_error};
use crate::chars::push_str;

verus! {

/// An unsigned integer type that a setting may be read into.
pub trait ConfigInteger: Sized + Copy {
    /// The smallest value of the type.
    spec fn low() -> int;

    /// The largest value of the type.
    spec fn high() -> int;

    /// The value as an integer.
    spec fn int_of(self) -> int;

    /// The type's name.
    spec fn label_spec() -> Seq<char>;

    /// `n` as a value of the type, where it fits.
    fn from_i128(n: i128) -> (r: Option<Self>)
        ensures
            r is Some <==> Self::low() <= n <= Self::high(),
            r matches Some(v) ==> v.int_of() == n,
    ;

    /// The type's name.
    fn label() -> (s: &'static str)
        ensures
            s@ == Self::label_spec(),
    ;
}

impl ConfigInteger for u8 {
    open spec fn low() -> int {
        0
    }

    open spec fn high() -> int {
        u8::MAX as int
    }

    open spec fn int_of(self) -> int {
        self as int
    }

    open spec fn label_spec() -> Seq<char> {
        "u8"@
    }

    fn from_i128(n: i128) -> (r: Option<u8>) {
        if 0 <= n && n <= 255 {
            Some(n as u8)
        } else {
            None
        }
    }

    fn label() -> (s: &'static str) {
        "u8"
    }
}

impl ConfigInteger for u16 {
    open spec fn low() -> int {
        0
    }

    open spec fn high() -> int {
        u16::MAX as int
    }

    open spec fn int_of(self) -> int {
        self as int
    }

    open spec fn label_spec() -> Seq<char> {
        "u16"@
    }

    fn from_i128(n: i128) -> (r: Option<u16>) {
        if 0 <= n && n <= 65535 {
            Some(n as u16)
        } else {
            None
        }
    }

    fn label() -> (s: &'static str) {
        "u16"
    }
}

impl ConfigInteger for u32 {
    open spec fn low() -> int {
        0
    }

    open spec fn high() -> int {
        u32::MAX as int
    }

    open spec fn int_of(self) -> int {
        self as int
    }

    open spec fn label_spec() -> Seq<char> {
        "u32"@
    }

    fn from_i128(n: i128) -> (r: Option<u32>) {
        if 0 <= n && n <= 4294967295 {
            Some(n as u32)
        } else {
            None
        }
    }

    fn label() -> (s: &'static str) {
        "u32"
    }
}

impl ConfigInteger for usize {
    open spec fn low() -> int {
        0
    }

    open spec fn high() -> int {
        usize::MAX as int
    }

    open spec fn int_of(self) -> int {
        self as int
    }

    open spec fn label_spec() -> Seq<char> {
        "usize"@
    }

    fn from_i128(n: i128) -> (r: Option<usize>) {
        if 0 <= n && n as u128 <= usize::MAX as u128 {
            Some(n as usize)
        } else {
            None
        }
    }

    fn label() -> (s: &'static str) {
        "usize"
    }
}

/// The characters of a string value (empty for any other value).
pub open spec fn text_of(v: EntryValue) -> Seq<char> {
    match v {
        EntryValue::String(s) => s@,
        _ => Seq::empty(),
    }
}

/// The integer that a value holds where it is one in the range of `I`.
pub open spec fn int_in<I: ConfigInteger>(v: EntryValue) -> Option<int> {
    match v {
        EntryValue::Integer(n) => if I::low() <= n <= I::high() {
            Some(n as int)
        } else {
            None
        },
        _ => None,
    }
}

/// The message for a value that is not an integer of type `I`.
pub open spec fn integer_message<I: ConfigInteger>() -> Seq<char> {
    "must be a "@ + I::label_spec() + " integer"@
}

/// The error for an entry that is not an integer of type `I`.
pub open spec fn not_integer<I: ConfigInteger>(e: Entry) -> ParseErrorView {
    entry_error(e, integer_message::<I>())
}

/// The strings of the first `n` entries, or the error for the first entry
/// among them that is a property or not a string.
pub open spec fn strings_upto(es: Seq<Entry>, n: int) -> Result<Seq<Seq<char>>, ParseErrorView>
    decreases n,
{
    if n <= 0 {
        Ok(Seq::empty())
    } else {
        match strings_upto(es, n - 1) {
            Err(e) => Err(e),
            Ok(s) => {
                let e = es[n - 1];
                if e.name is Some {
                    Err(entry_error(e, "must not be a named property"@))
                } else if e.value is String {
                    Ok(s.push(text_of(e.value)))
                } else {
                    Err(entry_error(e, "must be a string"@))
                }
            },
        }
    }
}

/// The integers of the first `n` entries, or the error for the first entry
/// among them that is a property or not an integer of type `I`.
pub open spec fn ints_upto<I: ConfigInteger>(es: Seq<Entry>, n: int) -> Result<Seq<int>, ParseErrorView>
    decreases n,
{
    if n <= 0 {
        Ok(Seq::empty())
    } else {
        match ints_upto::<I>(es, n - 1) {
            Err(e) => Err(e),
            Ok(s) => {
                let e = es[n - 1];
                if e.name is Some {
                    Err(entry_error(e, "must not be a named property"@))
                } else {
                    match int_in::<I>(e.value) {
                        Some(k) => Ok(s.push(k)),
                        None => Err(not_integer::<I>(e)),
                    }
                }
            },
        }
    }
}

/// Once an error is found among the first entries, it is the outcome for
/// every longer prefix.
pub proof fn lemma_strings_error(es: Seq<Entry>, k: int, n: int)
    requires
        k <= n,
        strings_upto(es, k) is Err,
    ensures
        strings_upto(es, n) == strings_upto(es, k),
    decreases n - k,
{
    if k < n {
        lemma_strings_error(es, k, n - 1);
    }
}

/// Once an error is found among the first entries, it is the outcome for
/// every longer prefix.
pub proof fn lemma_ints_error<I: ConfigInteger>(es: Seq<Entry>, k: int, n: int)
    requires
        k <= n,
        ints_upto::<I>(es, k) is Err,
    ensures
        ints_upto::<I>(es, n) == ints_upto::<I>(es, k),
    decreases n - k,
{
    if k < n {
        lemma_ints_error::<I>(es, k, n - 1);
    }
}

/// The integers of a sequence of values of type `I`.
pub open spec fn ints_of<I: ConfigInteger>(v: Seq<I>) -> Seq<int> {
    v.map_values(|x: I| x.int_of())
}

/// The view of an outcome.
pub open spec fn result_view<T>(r: Result<T, ParseError>) -> Result<T, ParseErrorView> {
    match r {
        Ok(t) => Ok(t),
        Err(e) => Err(e@),
    }
}

/// A copy of a string.
pub fn copy_string(s: &String) -> (r: String)
    ensures
        r@ == s@,
{
    s.clone()
}

/// The characters of a string entry.
pub fn text(e: &Entry) -> (r: &String)
    requires
        e.value is String,
    ensures
        r@ == text_of(e.value),
{
    match &e.value {
        EntryValue::String(s) => s,
        _ => vstd::pervasive::unreached(),
    }
}

impl Node {
    /// The node's first argument as a string, or the error for it.
    pub open spec fn string_entry_spec(self) -> Result<int, ParseErrorView> {
        match self.first_argument() {
            None => Err(node_name_error(self, "missing argument"@)),
            Some(i) => if self.entries@[i].value is String {
                Ok(i)
            } else {
                Err(entry_error(self.entries@[i], self.name@ + " block must have one string argument"@))
            },
        }
    }

    /// The node's first argument as a non-empty string, or the error for it.
    pub open spec fn string_arg_spec(self) -> Result<Seq<char>, ParseErrorView> {
        match self.string_entry_spec() {
            Err(e) => Err(e),
            Ok(i) => if text_of(self.entries@[i].value).len() == 0 {
                Err(entry_error(self.entries@[i], "must not be empty"@))
            } else {
                Ok(text_of(self.entries@[i].value))
            },
        }
    }

    /// The node's first argument as a boolean, or the error for it: a
    /// boolean, or one of the strings `on`, `true`, `off` and `false`.
    pub open spec fn booleanish_spec(self) -> Result<bool, ParseErrorView> {
        match self.first_argument() {
            None => Err(node_name_error(self, "missing argument"@)),
            Some(i) => {
                let e = self.entries@[i];
                match e.value {
                    EntryValue::Bool(b) => Ok(b),
                    EntryValue::String(s) => if s@ == "on"@ || s@ == "true"@ {
                        Ok(true)
                    } else if s@ == "off"@ || s@ == "false"@ {
                        Ok(false)
                    } else {
                        Err(entry_error(e, "must have one boolean(ish) argument"@))
                    },
                    _ => Err(entry_error(e, "must have one boolean(ish) argument"@)),
                }
            },
        }
    }

    /// The property `name` of the node: absent, or its index and its value
    /// as an integer of type `I`, or the error for it.
    pub open spec fn int_prop_spec<I: ConfigInteger>(self, name: Seq<char>) -> Result<Option<(int, int)>, ParseErrorView> {
        match self.first_property(name) {
            None => Ok(None),
            Some(i) => match int_in::<I>(self.entries@[i].value) {
                Some(k) => Ok(Some((i, k))),
                None => Err(not_integer::<I>(self.entries@[i])),
            },
        }
    }

    /// The property `name` of the node as an integer of type `I`.
    pub open spec fn int_value_spec<I: ConfigInteger>(self, name: Seq<char>) -> Result<Option<int>, ParseErrorView> {
        match self.int_prop_spec::<I>(name) {
            Err(e) => Err(e),
            Ok(None) => Ok(None),
            Ok(Some((_, k))) => Ok(Some(k)),
        }
    }

    /// The first argument, which must be a string.
    pub fn one_string_entry(&self) -> (r: Result<&Entry, ParseError>)
        ensures
            match (r, self.string_entry_spec()) {
                (Ok(e), Ok(i)) => *e == self.entries@[i] && e.value is String,
                (Err(e), Err(f)) => e@ == f,
                _ => false,
            },
    {
        match self.argument_index() {
            None => Err(ParseError::from_node_name(self, "missing argument".to_owned())),
            Some(i) => {
                let entry = &self.entries[i];
                match &entry.value {
                    EntryValue::String(_) => Ok(entry),
                    _ => {
                        let mut message = copy_string(&self.name);
                        push_str(&mut message, " block must have one string argument");
                        Err(ParseError::from_entry(entry, message))
                    },
                }
            },
        }
    }

    /// The first argument, which must be a non-empty string.
    pub fn one_string_arg(&self) -> (r: Result<String, ParseError>)
        ensures
            match (r, self.string_arg_spec()) {
                (Ok(s), Ok(t)) => s@ == t,
                (Err(e), Err(f)) => e@ == f,
                _ => false,
            },
    {
        let entry = self.one_string_entry()?;
        let s = text(entry);
        if s.as_str().is_empty() {
            proof {
                assert(s@ =~= Seq::<char>::empty());
            }
            Err(ParseError::from_entry(entry, "must not be empty".to_owned()))
        } else {
            proof {
                if s@.len() == 0 {
                    assert(s@ =~= Seq::<char>::empty());
                }
            }
            Ok(copy_string(s))
        }
    }

    /// The first argument as a boolean: a boolean, or one of the strings
    /// `on`, `true`, `off` and `false`.
    pub fn one_booleanish_entry(&self) -> (r: Result<bool, ParseError>)
        ensures
            result_view(r) == self.booleanish_spec(),
    {
        match self.argument_index() {
            None => Err(ParseError::from_node_name(self, "missing argument".to_owned())),
            Some(i) => {
                let entry = &self.entries[i];
                match &entry.value {
                    EntryValue::Bool(b) => Ok(*b),
                    EntryValue::String(s) => {
                        if str_eq(s.as_str(), "on") || str_eq(s.as_str(), "true") {
                            Ok(true)
                        } else if str_eq(s.as_str(), "off") || str_eq(s.as_str(), "false") {
                            Ok(false)
                        } else {
                            Err(ParseError::from_entry(entry, "must have one boolean(ish) argument".to_owned()))
                        }
                    },
                    _ => Err(ParseError::from_entry(entry, "must have one boolean(ish) argument".to_owned())),
                }
            },
        }
    }

    /// The property `name` with its entry index, as an integer of type `I`.
    pub fn int_prop_with_entry<I: ConfigInteger>(&self, name: &str) -> (r: Result<Option<(usize, I)>, ParseError>)
        ensures
            match (r, self.int_prop_spec::<I>(name@)) {
                (Ok(None), Ok(None)) => true,
                (Ok(Some((i, v))), Ok(Some((j, k)))) => i == j && v.int_of() == k && i < self.entries@.len(),
                (Err(e), Err(f)) => e@ == f,
                _ => false,
            },
    {
        match self.property_index(name) {
            None => Ok(None),
            Some(i) => {
                let entry = &self.entries[i];
                let found = match &entry.value {
                    EntryValue::Integer(n) => I::from_i128(*n),
                    _ => None,
                };
                match found {
                    Some(v) => Ok(Some((i, v))),
                    None => {
                        let mut message = "must be a ".to_owned();
                        push_str(&mut message, I::label());
                        push_str(&mut message, " integer");
                        Err(ParseError::from_entry(entry, message))
                    },
                }
            },
        }
    }

    /// The property `name` as an integer of type `I`.
    pub fn int_prop<I: ConfigInteger>(&self, name: &str) -> (r: Result<Option<I>, ParseError>)
        ensures
            match (r, self.int_value_spec::<I>(name@)) {
                (Ok(None), Ok(None)) => true,
                (Ok(Some(v)), Ok(Some(k))) => v.int_of() == k,
                (Err(e), Err(f)) => e@ == f,
                _ => false,
            },
    {
        match self.int_prop_with_entry::<I>(name)? {
            Some((_, v)) => Ok(Some(v)),
            None => Ok(None),
        }
    }

    /// All the entries as strings; none may be a property.
    pub fn string_seq(&self) -> (r: Result<Vec<String>, ParseError>)
        ensures
            match (r, strings_upto(self.entries@, self.entries@.len() as int)) {
                (Ok(v), Ok(s)) => v.deep_view() == s,
                (Err(e), Err(f)) => e@ == f,
                _ => false,
            },
    {
        let mut seq: Vec<String> = Vec::new();
        let mut i: usize = 0;
        assert(seq.deep_view() =~= Seq::<Seq<char>>::empty());
        while i < self.entries.len()
            invariant
                i <= self.entries@.len(),
                strings_upto(self.entries@, i as int) == Ok::<Seq<Seq<char>>, ParseErrorView>(seq.deep_view()),
            decreases self.entries@.len() - i,
        {
            let entry = &self.entries[i];
            if entry.name.is_some() {
                proof {
                    lemma_strings_error(self.entries@, i as int + 1, self.entries@.len() as int);
                }
                return Err(ParseError::from_entry(entry, "must not be a named property".to_owned()));
            }
            match &entry.value {
                EntryValue::String(s) => {
                    let ghost before = seq.deep_view();
                    seq.push(copy_string(s));
                    assert(seq.deep_view() =~= before.push(s@));
                },
                _ => {
                    proof {
                        lemma_strings_error(self.entries@, i as int + 1, self.entries@.len() as int);
                    }
                    return Err(ParseError::from_entry(entry, "must be a string".to_owned()));
                },
            }
            i += 1;
        }
        Ok(seq)
    }

    /// All the entries as integers of type `I`; none may be a property.
    pub fn int_seq<I: ConfigInteger>(&self) -> (r: Result<Vec<I>, ParseError>)
        ensures
            match (r, ints_upto::<I>(self.entries@, self.entries@.len() as int)) {
                (Ok(v), Ok(s)) => ints_of(v@) == s,
                (Err(e), Err(f)) => e@ == f,
                _ => false,
            },
    {
        let mut seq: Vec<I> = Vec::new();
        let mut i: usize = 0;
        assert(ints_of(seq@) =~= Seq::<int>::empty());
        while i < self.entries.len()
            invariant
                i <= self.entries@.len(),
                ints_upto::<I>(self.entries@, i as int) == Ok::<Seq<int>, ParseErrorView>(ints_of(seq@)),
            decreases self.entries@.len() - i,
        {
            let entry = &self.entries[i];
            if entry.name.is_some() {
                proof {
                    lemma_ints_error::<I>(self.entries@, i as int + 1, self.entries@.len() as int);
                }
                return Err(ParseError::from_entry(entry, "must not be a named property".to_owned()));
            }
            let found = match &entry.value {
                EntryValue::Integer(n) => I::from_i128(*n),
                _ => None,
            };
            match found {
                Some(v) => {
                    let ghost before = seq@;
                    seq.push(v);
                    assert(ints_of(seq@) =~= ints_of(before).push(v.int_of()));
                },
                None => {
                    let mut message = "must be a ".to_owned();
                    push_str(&mut message, I::label());
                    push_str(&mut message, " integer");
                    proof {
                        lemma_ints_error::<I>(self.entries@, i as int + 1, self.entries@.len() as int);
                    }
                    return Err(ParseError::from_entry(entry, message));
                },
            }
            i += 1;
        }
        Ok(seq)
    }
}

} // verus!
