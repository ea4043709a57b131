//! Reading the settings from a configuration document.
use vstd::prelude::*;
use vstd::utf8::encode_utf8;
use super::document::{
    Document, Entry, Node, find_first, is_property, kdl_document, kdl_error_text, lemma_find_first, parse_kdl, str_eq,
};
use super::parse_error::{ParseError, ParseErrorView, entry_error, with_source};
use super::settings::{
    Address, AddressView, Classifier, ClassifierView, Config, ConfigView, Garbage, GarbageView,
    LevelFilter, Links, LogTarget, Logging, Metrics, MetricsView, Paragraphs, Server, ServerMode,
    ServerView, address_of, default_classifier, default_config, default_garbage, default_metrics,
    default_server,
};
use super::values::{int_in, ints_of, ints_upto, strings_upto, text, text_of};

verus! {

// ---------------------------------------------------------------------------
// Outside checks: status codes, header names and log levels.

/// What `http::StatusCode::from_u16` accepts: the codes from 100 to 999.
#[verifier::external_body]
fn status_code(n: u16) -> (r: Option<u16>)
    ensures
        r is Some <==> 100 <= n <= 999,
        r matches Some(c) ==> c == n,
{
    match http::StatusCode::from_u16(n) {
        Ok(c) => Some(c.as_u16()),
        Err(_) => None,
    }
}

/// Whether a byte may stand in an HTTP header name.
pub open spec fn is_token_byte(b: u8) -> bool {
    b == 33 || (35 <= b <= 39) || b == 42 || b == 43 || b == 45 || b == 46 || (48 <= b <= 57) || (65
        <= b <= 90) || (94 <= b <= 122) || b == 124 || b == 126
}

/// A byte with ASCII upper case letters taken to lower case.
pub open spec fn lower_byte(b: u8) -> u8 {
    if 65 <= b <= 90 {
        (b + 32) as u8
    } else {
        b
    }
}

/// The header name that `bytes` spell, in lower case; `None` where they are
/// empty, longer than 65535 bytes, or hold a byte that no name may hold.
pub open spec fn header_name_of(bytes: Seq<u8>) -> Option<Seq<char>> {
    if 1 <= bytes.len() <= 65535 && forall|i: int| 0 <= i < bytes.len() ==> is_token_byte(#[trigger] bytes[i]) {
        Some(Seq::new(bytes.len(), |i: int| lower_byte(bytes[i]) as char))
    } else {
        None
    }
}

/// `http::HeaderName::from_bytes`: the name in lower case, or the error's
/// message.
#[verifier::external_body]
pub(crate) fn header_name(bytes: &[u8]) -> (r: Result<String, String>)
    ensures
        match r {
            Ok(n) => header_name_of(bytes@) == Some(n@),
            Err(m) => header_name_of(bytes@) is None && m@ == "invalid HTTP header name"@,
        },
{
    match http::header::HeaderName::from_bytes(bytes) {
        Ok(h) => Ok(h.as_str().to_owned()),
        Err(e) => Err(e.to_string()),
    }
}

/// A character with ASCII upper case letters taken to lower case.
pub open spec fn lower_char(c: char) -> char {
    if 'A' <= c <= 'Z' {
        ((c as u32) + 32) as char
    } else {
        c
    }
}

/// Whether two strings are equal when ASCII letters are compared without case.
pub open spec fn same_ignoring_case(a: Seq<char>, b: Seq<char>) -> bool {
    a.len() == b.len() && forall|i: int| 0 <= i < a.len() ==> lower_char(#[trigger] a[i]) == lower_char(b[i])
}

/// The level that `text` names, in any case: `OFF`, `ERROR`, `WARN`, `INFO`,
/// `DEBUG` or `TRACE`.
pub open spec fn level_named(text: Seq<char>) -> Option<LevelFilter> {
    if same_ignoring_case(text, "OFF"@) {
        Some(LevelFilter::Off)
    } else if same_ignoring_case(text, "ERROR"@) {
        Some(LevelFilter::Error)
    } else if same_ignoring_case(text, "WARN"@) {
        Some(LevelFilter::Warn)
    } else if same_ignoring_case(text, "INFO"@) {
        Some(LevelFilter::Info)
    } else if same_ignoring_case(text, "DEBUG"@) {
        Some(LevelFilter::Debug)
    } else if same_ignoring_case(text, "TRACE"@) {
        Some(LevelFilter::Trace)
    } else {
        None
    }
}

/// `log::LevelFilter::from_str`, which compares the text with the level
/// names without regard to ASCII case.
#[verifier::external_body]
fn level_filter(s: &str) -> (r: Option<LevelFilter>)
    ensures
        r == level_named(s@),
{
    match s.parse::<log::LevelFilter>() {
        Ok(log::LevelFilter::Off) => Some(LevelFilter::Off),
        Ok(log::LevelFilter::Error) => Some(LevelFilter::Error),
        Ok(log::LevelFilter::Warn) => Some(LevelFilter::Warn),
        Ok(log::LevelFilter::Info) => Some(LevelFilter::Info),
        Ok(log::LevelFilter::Debug) => Some(LevelFilter::Debug),
        Ok(log::LevelFilter::Trace) => Some(LevelFilter::Trace),
        Err(_) => None,
    }
}

// ---------------------------------------------------------------------------
// Walking the nodes of a block.

/// The outcome of applying `step` to the first `n` nodes in turn, starting
/// from `init` and stopping at the first error.
pub open spec fn fold_nodes<S>(
    nodes: Seq<Node>,
    n: int,
    init: S,
    step: spec_fn(S, Node) -> Result<S, ParseErrorView>,
) -> Result<S, ParseErrorView>
    decreases n,
{
    if n <= 0 {
        Ok(init)
    } else {
        match fold_nodes(nodes, n - 1, init, step) {
            Err(e) => Err(e),
            Ok(s) => step(s, nodes[n - 1]),
        }
    }
}

/// Once a node fails, the walk's outcome is that failure.
pub proof fn lemma_fold_error<S>(
    nodes: Seq<Node>,
    k: int,
    n: int,
    init: S,
    step: spec_fn(S, Node) -> Result<S, ParseErrorView>,
)
    requires
        k <= n,
        fold_nodes(nodes, k, init, step) is Err,
    ensures
        fold_nodes(nodes, n, init, step) == fold_nodes(nodes, k, init, step),
    decreases n - k,
{
    if k < n {
        lemma_fold_error(nodes, k, n - 1, init, step);
    }
}

/// The whole walk over a block's nodes.
pub open spec fn fold_all<S>(nodes: Seq<Node>, init: S, step: spec_fn(S, Node) -> Result<S, ParseErrorView>) -> Result<S, ParseErrorView> {
    fold_nodes(nodes, nodes.len() as int, init, step)
}

/// Whether an outcome matches its view.
pub open spec fn outcome_is<T: View>(r: Result<T, ParseError>, s: Result<T::V, ParseErrorView>) -> bool {
    match (r, s) {
        (Ok(t), Ok(v)) => t@ == v,
        (Err(e), Err(f)) => e@ == f,
        _ => false,
    }
}

/// Whether a step that changed a value in place matches its view.
pub open spec fn step_is<T: View>(r: Result<(), ParseError>, after: T, s: Result<T::V, ParseErrorView>) -> bool {
    match (r, s) {
        (Ok(_), Ok(v)) => after@ == v,
        (Err(e), Err(f)) => e@ == f,
        _ => false,
    }
}

/// Whether a step on a plain value matches its outcome.
pub open spec fn plain_step_is<T>(r: Result<(), ParseError>, after: T, s: Result<T, ParseErrorView>) -> bool {
    match (r, s) {
        (Ok(_), Ok(v)) => after == v,
        (Err(e), Err(f)) => e@ == f,
        _ => false,
    }
}

// ---------------------------------------------------------------------------
// The server block.

/// The server mode, the block's first argument.
pub open spec fn mode_spec(node: Node) -> Result<ServerMode, ParseErrorView> {
    match node.string_entry_spec() {
        Err(e) => Err(e),
        Ok(i) => {
            let t = text_of(node.entries@[i].value);
            if t == "proxy"@ {
                Ok(ServerMode::Proxy)
            } else if t == "preflight"@ {
                Ok(ServerMode::Preflight)
            } else {
                Err(entry_error(node.entries@[i], "unsupported server mode"@))
            }
        },
    }
}

/// The address of a `listen` node.
pub open spec fn listen_spec(node: Node) -> Result<AddressView, ParseErrorView> {
    match node.string_entry_spec() {
        Err(e) => Err(e),
        Ok(i) => match address_of(text_of(node.entries@[i].value)) {
            Some(a) => Ok(a),
            None => Err(entry_error(node.entries@[i], "invalid socket address"@)),
        },
    }
}

/// The status code in the property `name`, or `current` where it is absent.
pub open spec fn status_spec(node: Node, name: Seq<char>, current: u16) -> Result<u16, ParseErrorView> {
    match node.int_prop_spec::<u16>(name) {
        Err(e) => Err(e),
        Ok(None) => Ok(current),
        Ok(Some((i, k))) => if 100 <= k <= 999 {
            Ok(k as u16)
        } else {
            Err(entry_error(node.entries@[i], "invalid HTTP status code"@))
        },
    }
}

/// What a child of the server block changes.
pub open spec fn server_step(s: ServerView, child: Node) -> Result<ServerView, ParseErrorView> {
    if child.name@ == "listen"@ {
        match listen_spec(child) {
            Err(e) => Err(e),
            Ok(a) => Ok(ServerView { listen: a, ..s }),
        }
    } else if child.name@ == "status-codes"@ {
        match status_spec(child, "valid"@, s.status_code_valid) {
            Err(e) => Err(e),
            Ok(v) => match status_spec(child, "spam"@, s.status_code_spam) {
                Err(e) => Err(e),
                Ok(p) => Ok(ServerView { status_code_valid: v, status_code_spam: p, ..s }),
            },
        }
    } else {
        Ok(s)
    }
}

/// The server settings a block gives: its mode, then its children in turn.
pub open spec fn server_spec(node: Node) -> Result<ServerView, ParseErrorView> {
    match mode_spec(node) {
        Err(e) => Err(e),
        Ok(m) => fold_all(node.children@, ServerView { mode: m, ..default_server() }, |s: ServerView, c: Node| server_step(s, c)),
    }
}

/// Reads the address of a `listen` node.
fn parse_listen(node: &Node) -> (r: Result<Address, ParseError>)
    ensures
        outcome_is(r, listen_spec(*node)),
{
    let entry = node.one_string_entry()?;
    match Address::from_str(text(entry).as_str()) {
        Some(a) => Ok(a),
        None => Err(ParseError::from_entry(entry, "invalid socket address".to_owned())),
    }
}

/// Reads the status code in the property `name`, keeping `current` where it
/// is absent.
fn parse_status(node: &Node, name: &str, current: u16) -> (r: Result<u16, ParseError>)
    ensures
        match (r, status_spec(*node, name@, current)) {
            (Ok(c), Ok(d)) => c == d,
            (Err(e), Err(f)) => e@ == f,
            _ => false,
        },
{
    match node.int_prop_with_entry::<u16>(name)? {
        None => Ok(current),
        Some((i, n)) => match status_code(n) {
            Some(c) => Ok(c),
            None => Err(ParseError::from_entry(&node.entries[i], "invalid HTTP status code".to_owned())),
        },
    }
}

/// Applies a child of the server block.
fn server_child(server: &mut Server, child: &Node) -> (r: Result<(), ParseError>)
    ensures
        step_is(r, *final(server), server_step(old(server)@, *child)),
{
    if str_eq(child.name.as_str(), "listen") {
        server.listen = parse_listen(child)?;
    } else if str_eq(child.name.as_str(), "status-codes") {
        let valid = parse_status(child, "valid", server.status_code_valid)?;
        let spam = parse_status(child, "spam", server.status_code_spam)?;
        server.status_code_valid = valid;
        server.status_code_spam = spam;
    }
    Ok(())
}

/// Reads a server block.
pub fn parse_server(node: &Node) -> (r: Result<Server, ParseError>)
    ensures
        outcome_is(r, server_spec(*node)),
{
    let mut server = Server::default();
    let entry = node.one_string_entry()?;
    let mode = text(entry);
    if str_eq(mode.as_str(), "proxy") {
        server.mode = ServerMode::Proxy;
    } else if str_eq(mode.as_str(), "preflight") {
        server.mode = ServerMode::Preflight;
    } else {
        return Err(ParseError::from_entry(entry, "unsupported server mode".to_owned()));
    }
    let ghost step = |s: ServerView, c: Node| server_step(s, c);
    let ghost init = server@;
    let mut i: usize = 0;
    while i < node.children.len()
        invariant
            i <= node.children@.len(),
            step == (|s: ServerView, c: Node| server_step(s, c)),
            server_spec(*node) == fold_all(node.children@, init, step),
            fold_nodes(node.children@, i as int, init, step) == Ok::<ServerView, ParseErrorView>(server@),
        decreases node.children@.len() - i,
    {
        let ghost before = server@;
        let r = server_child(&mut server, &node.children[i]);
        assert(fold_nodes(node.children@, i as int + 1, init, step) == server_step(before, node.children@[i as int]));
        if let Err(e) = r {
            proof {
                lemma_fold_error(node.children@, i as int + 1, node.children@.len() as int, init, step);
            }
            return Err(e);
        }
        i += 1;
    }
    Ok(server)
}

// ---------------------------------------------------------------------------
// The classifier block.

/// What a child of `user-agents` changes.
pub open spec fn user_agents_step(c: ClassifierView, g: Node) -> Result<ClassifierView, ParseErrorView> {
    if g.name@ == "robots-json-path"@ {
        match g.string_arg_spec() {
            Err(e) => Err(e),
            Ok(t) => Ok(ClassifierView { robots_json_path: Some(t), ..c }),
        }
    } else if g.name@ == "unwanted"@ {
        match strings_upto(g.entries@, g.entries@.len() as int) {
            Err(e) => Err(e),
            Ok(v) => Ok(ClassifierView { unwanted_agents: v, ..c }),
        }
    } else if g.name@ == "trusted"@ {
        match strings_upto(g.entries@, g.entries@.len() as int) {
            Err(e) => Err(e),
            Ok(v) => Ok(ClassifierView { trusted_agents: v, ..c }),
        }
    } else {
        Ok(c)
    }
}

/// The numbers of a sequence of integers, as `u32`.
pub open spec fn as_u32s(s: Seq<int>) -> Seq<u32> {
    s.map_values(|k: int| k as u32)
}

/// What a child of `asns` changes.
pub open spec fn asns_step(c: ClassifierView, g: Node) -> Result<ClassifierView, ParseErrorView> {
    if g.name@ == "database"@ {
        match g.string_arg_spec() {
            Err(e) => Err(e),
            Ok(t) => Ok(ClassifierView { asns_db_path: Some(t), ..c }),
        }
    } else if g.name@ == "unwanted"@ {
        match ints_upto::<u32>(g.entries@, g.entries@.len() as int) {
            Err(e) => Err(e),
            Ok(v) => Ok(ClassifierView { unwanted_asns: as_u32s(v), ..c }),
        }
    } else {
        Ok(c)
    }
}

/// The header named by the first argument of a `trusted-decision-header` node.
pub open spec fn header_spec(node: Node) -> Result<Seq<char>, ParseErrorView> {
    match node.string_entry_spec() {
        Err(e) => Err(e),
        Ok(i) => match header_name_of(encode_utf8(text_of(node.entries@[i].value))) {
            Some(h) => Ok(h),
            None => Err(entry_error(node.entries@[i], "invalid HTTP header name"@)),
        },
    }
}

/// What a child of the classifier block changes.
pub open spec fn classifier_step(c: ClassifierView, child: Node) -> Result<ClassifierView, ParseErrorView> {
    if child.name@ == "trusted-decision-header"@ {
        match header_spec(child) {
            Err(e) => Err(e),
            Ok(h) => Ok(ClassifierView { trusted_decision_header: Some(h), ..c }),
        }
    } else if child.name@ == "user-agents"@ {
        fold_all(child.children@, c, |c: ClassifierView, g: Node| user_agents_step(c, g))
    } else if child.name@ == "trusted-paths"@ {
        match strings_upto(child.entries@, child.entries@.len() as int) {
            Err(e) => Err(e),
            Ok(v) => Ok(ClassifierView { trusted_paths: v, ..c }),
        }
    } else if child.name@ == "asns"@ {
        fold_all(child.children@, c, |c: ClassifierView, g: Node| asns_step(c, g))
    } else {
        Ok(c)
    }
}

/// The classifier settings a block gives.
pub open spec fn classifier_spec(node: Node) -> Result<ClassifierView, ParseErrorView> {
    fold_all(node.children@, default_classifier(), |c: ClassifierView, child: Node| classifier_step(c, child))
}

/// Applies a child of `user-agents`.
fn user_agents_child(c: &mut Classifier, g: &Node) -> (r: Result<(), ParseError>)
    ensures
        step_is(r, *final(c), user_agents_step(old(c)@, *g)),
{
    if str_eq(g.name.as_str(), "robots-json-path") {
        c.robots_json_path = Some(g.one_string_arg()?);
    } else if str_eq(g.name.as_str(), "unwanted") {
        c.unwanted_agents = g.string_seq()?;
    } else if str_eq(g.name.as_str(), "trusted") {
        c.trusted_agents = g.string_seq()?;
    }
    Ok(())
}

/// Applies a child of `asns`.
fn asns_child(c: &mut Classifier, g: &Node) -> (r: Result<(), ParseError>)
    ensures
        step_is(r, *final(c), asns_step(old(c)@, *g)),
{
    if str_eq(g.name.as_str(), "database") {
        c.asns_db_path = Some(g.one_string_arg()?);
    } else if str_eq(g.name.as_str(), "unwanted") {
        let v = g.int_seq::<u32>()?;
        assert(v@ =~= as_u32s(ints_of(v@)));
        c.unwanted_asns = v;
    }
    Ok(())
}

/// Applies the children of a `user-agents` node in turn.
fn user_agents(c: &mut Classifier, node: &Node) -> (r: Result<(), ParseError>)
    ensures
        step_is(r, *final(c), fold_all(node.children@, old(c)@, |c: ClassifierView, g: Node| user_agents_step(c, g))),
{
    let ghost step = |c: ClassifierView, g: Node| user_agents_step(c, g);
    let ghost init = c@;
    let mut i: usize = 0;
    while i < node.children.len()
        invariant
            i <= node.children@.len(),
            step == (|c: ClassifierView, g: Node| user_agents_step(c, g)),
            init == old(c)@,
            fold_nodes(node.children@, i as int, init, step) == Ok::<ClassifierView, ParseErrorView>(c@),
        decreases node.children@.len() - i,
    {
        let ghost before = c@;
        let r = user_agents_child(c, &node.children[i]);
        assert(fold_nodes(node.children@, i as int + 1, init, step) == user_agents_step(before, node.children@[i as int]));
        if let Err(e) = r {
            proof {
                lemma_fold_error(node.children@, i as int + 1, node.children@.len() as int, init, step);
            }
            return Err(e);
        }
        i += 1;
    }
    Ok(())
}

/// Applies the children of an `asns` node in turn.
fn asns(c: &mut Classifier, node: &Node) -> (r: Result<(), ParseError>)
    ensures
        step_is(r, *final(c), fold_all(node.children@, old(c)@, |c: ClassifierView, g: Node| asns_step(c, g))),
{
    let ghost step = |c: ClassifierView, g: Node| asns_step(c, g);
    let ghost init = c@;
    let mut i: usize = 0;
    while i < node.children.len()
        invariant
            i <= node.children@.len(),
            step == (|c: ClassifierView, g: Node| asns_step(c, g)),
            init == old(c)@,
            fold_nodes(node.children@, i as int, init, step) == Ok::<ClassifierView, ParseErrorView>(c@),
        decreases node.children@.len() - i,
    {
        let ghost before = c@;
        let r = asns_child(c, &node.children[i]);
        assert(fold_nodes(node.children@, i as int + 1, init, step) == asns_step(before, node.children@[i as int]));
        if let Err(e) = r {
            proof {
                lemma_fold_error(node.children@, i as int + 1, node.children@.len() as int, init, step);
            }
            return Err(e);
        }
        i += 1;
    }
    Ok(())
}

/// Reads the header name of a `trusted-decision-header` node.
fn parse_header(node: &Node) -> (r: Result<String, ParseError>)
    ensures
        match (r, header_spec(*node)) {
            (Ok(h), Ok(g)) => h@ == g,
            (Err(e), Err(f)) => e@ == f,
            _ => false,
        },
{
    let entry = node.one_string_entry()?;
    match header_name(text(entry).as_str().as_bytes()) {
        Ok(h) => Ok(h),
        Err(message) => Err(ParseError::from_entry(entry, message)),
    }
}

/// Applies a child of the classifier block.
fn classifier_child(c: &mut Classifier, child: &Node) -> (r: Result<(), ParseError>)
    ensures
        step_is(r, *final(c), classifier_step(old(c)@, *child)),
{
    if str_eq(child.name.as_str(), "trusted-decision-header") {
        c.trusted_decision_header = Some(parse_header(child)?);
    } else if str_eq(child.name.as_str(), "user-agents") {
        user_agents(c, child)?;
    } else if str_eq(child.name.as_str(), "trusted-paths") {
        c.trusted_paths = child.string_seq()?;
    } else if str_eq(child.name.as_str(), "asns") {
        asns(c, child)?;
    }
    Ok(())
}

/// Reads a classifier block.
pub fn parse_classifier(node: &Node) -> (r: Result<Classifier, ParseError>)
    ensures
        outcome_is(r, classifier_spec(*node)),
{
    let mut classifier = Classifier::default();
    let ghost step = |c: ClassifierView, child: Node| classifier_step(c, child);
    let ghost init = classifier@;
    let mut i: usize = 0;
    while i < node.children.len()
        invariant
            i <= node.children@.len(),
            step == (|c: ClassifierView, child: Node| classifier_step(c, child)),
            classifier_spec(*node) == fold_all(node.children@, init, step),
            fold_nodes(node.children@, i as int, init, step) == Ok::<ClassifierView, ParseErrorView>(classifier@),
        decreases node.children@.len() - i,
    {
        let ghost before = classifier@;
        let r = classifier_child(&mut classifier, &node.children[i]);
        assert(fold_nodes(node.children@, i as int + 1, init, step) == classifier_step(before, node.children@[i as int]));
        if let Err(e) = r {
            proof {
                lemma_fold_error(node.children@, i as int + 1, node.children@.len() as int, init, step);
            }
            return Err(e);
        }
        i += 1;
    }
    Ok(classifier)
}

// ---------------------------------------------------------------------------
// The garbage block.

/// The `min` and `max` properties of a node as `usize` integers, kept as
/// `lo` and `hi` where absent.
pub open spec fn bounds_spec(node: Node, lo: usize, hi: usize) -> Result<(usize, usize), ParseErrorView> {
    match node.int_value_spec::<usize>("min"@) {
        Err(e) => Err(e),
        Ok(a) => {
            let lo2 = match a {
                Some(k) => k as usize,
                None => lo,
            };
            match node.int_value_spec::<usize>("max"@) {
                Err(e) => Err(e),
                Ok(b) => Ok(
                    (
                        lo2,
                        match b {
                            Some(k) => k as usize,
                            None => hi,
                        },
                    ),
                ),
            }
        },
    }
}

/// The bounds of a node read each from its own property: the lower one
/// from `min` and the upper one from `max`, each the value of the first
/// property of that name, and each kept as given where its property is
/// absent, whatever the other property holds.
pub proof fn lemma_bounds_read_own_properties(node: Node, lo: usize, hi: usize)
    ensures
        bounds_spec(node, lo, hi) matches Ok((a, b)) ==> {
            &&& (forall|i: int| 0 <= i < node.entries@.len() ==> !is_property(#[trigger] node.entries@[i], "max"@))
                ==> b == hi
            &&& (forall|i: int| 0 <= i < node.entries@.len() ==> !is_property(#[trigger] node.entries@[i], "min"@))
                ==> a == lo
            &&& forall|i: int|
                0 <= i < node.entries@.len() && is_property(#[trigger] node.entries@[i], "max"@) && (forall|j: int|
                    0 <= j < i ==> !is_property(#[trigger] node.entries@[j], "max"@)) ==> int_in::<usize>(
                    node.entries@[i].value,
                ) == Some(b as int)
            &&& forall|i: int|
                0 <= i < node.entries@.len() && is_property(#[trigger] node.entries@[i], "min"@) && (forall|j: int|
                    0 <= j < i ==> !is_property(#[trigger] node.entries@[j], "min"@)) ==> int_in::<usize>(
                    node.entries@[i].value,
                ) == Some(a as int)
        },
{
    let pmax = |e: Entry| is_property(e, "max"@);
    let pmin = |e: Entry| is_property(e, "min"@);
    lemma_find_first(node.entries@, pmax);
    lemma_find_first(node.entries@, pmin);
    assert(node.first_property("max"@) == find_first(node.entries@, pmax));
    assert(node.first_property("min"@) == find_first(node.entries@, pmin));
    if let Ok((a, b)) = bounds_spec(node, lo, hi) {
        assert forall|i: int|
            0 <= i < node.entries@.len() && is_property(#[trigger] node.entries@[i], "max"@) && (forall|j: int|
                0 <= j < i ==> !is_property(#[trigger] node.entries@[j], "max"@)) implies int_in::<usize>(
                node.entries@[i].value,
            ) == Some(b as int) by {
            let f = find_first(node.entries@, pmax)->0;
            assert(pmax(node.entries@[i]));
            if f < i {
                assert(pmax(node.entries@[f]));
            }
            if i < f {
                assert(!pmax(node.entries@[i]));
            }
        }
        assert forall|i: int|
            0 <= i < node.entries@.len() && is_property(#[trigger] node.entries@[i], "min"@) && (forall|j: int|
                0 <= j < i ==> !is_property(#[trigger] node.entries@[j], "min"@)) implies int_in::<usize>(
                node.entries@[i].value,
            ) == Some(a as int) by {
            let f = find_first(node.entries@, pmin)->0;
            assert(pmin(node.entries@[i]));
            if f < i {
                assert(pmin(node.entries@[f]));
            }
            if i < f {
                assert(!pmin(node.entries@[i]));
            }
        }
        if forall|i: int| 0 <= i < node.entries@.len() ==> !is_property(#[trigger] node.entries@[i], "max"@) {
            if find_first(node.entries@, pmax) is Some {
                let f = find_first(node.entries@, pmax)->0;
                assert(!is_property(node.entries@[f], "max"@));
            }
        }
        if forall|i: int| 0 <= i < node.entries@.len() ==> !is_property(#[trigger] node.entries@[i], "min"@) {
            if find_first(node.entries@, pmin) is Some {
                let f = find_first(node.entries@, pmin)->0;
                assert(!is_property(node.entries@[f], "min"@));
            }
        }
    }
}

/// What a child of a `paragraphs` node changes.
pub open spec fn paragraph_words_step(p: Paragraphs, g: Node) -> Result<Paragraphs, ParseErrorView> {
    if g.name@ == "words"@ {
        match bounds_spec(g, p.min_words, p.max_words) {
            Err(e) => Err(e),
            Ok((a, b)) => Ok(Paragraphs { min_words: a, max_words: b, ..p }),
        }
    } else {
        Ok(p)
    }
}

/// The paragraph settings that a `paragraphs` node makes of `p`.
pub open spec fn paragraphs_spec(node: Node, p: Paragraphs) -> Result<Paragraphs, ParseErrorView> {
    match bounds_spec(node, p.min_count, p.max_count) {
        Err(e) => Err(e),
        Ok((a, b)) => fold_all(node.children@, Paragraphs { min_count: a, max_count: b, ..p }, |p: Paragraphs, g: Node| paragraph_words_step(p, g)),
    }
}

/// What a child of a `links` node changes.
pub open spec fn links_step(l: Links, g: Node) -> Result<Links, ParseErrorView> {
    if g.name@ == "words"@ {
        match bounds_spec(g, l.min_words, l.max_words) {
            Err(e) => Err(e),
            Ok((a, b)) => Ok(Links { min_words: a, max_words: b, ..l }),
        }
    } else if g.name@ == "separator"@ {
        match g.string_arg_spec() {
            Err(e) => Err(e),
            Ok(t) => Ok(Links { separator: t[0], ..l }),
        }
    } else if g.name@ == "trailing-slash"@ {
        match g.booleanish_spec() {
            Err(e) => Err(e),
            Ok(b) => Ok(Links { trailing_slash: b, ..l }),
        }
    } else {
        Ok(l)
    }
}

/// The link settings a `links` node gives, starting from the defaults.
pub open spec fn links_spec(node: Node) -> Result<Links, ParseErrorView> {
    match bounds_spec(node, 2, 5) {
        Err(e) => Err(e),
        Ok((a, b)) => fold_all(
            node.children@,
            Links { min_words: 2, max_words: 4, min_count: a, max_count: b, separator: '-', trailing_slash: false },
            |l: Links, g: Node| links_step(l, g),
        ),
    }
}

/// What a child of the garbage block changes.
pub open spec fn garbage_step(g: GarbageView, child: Node) -> Result<GarbageView, ParseErrorView> {
    if child.name@ == "corpus-files"@ {
        match strings_upto(child.entries@, child.entries@.len() as int) {
            Err(e) => Err(e),
            Ok(v) => Ok(GarbageView { source_files: v, ..g }),
        }
    } else if child.name@ == "words-file"@ {
        match child.string_arg_spec() {
            Err(e) => Err(e),
            Ok(t) => Ok(GarbageView { words_file: Some(t), ..g }),
        }
    } else if child.name@ == "template-file"@ {
        match child.string_arg_spec() {
            Err(e) => Err(e),
            Ok(t) => Ok(GarbageView { template_file: Some(t), ..g }),
        }
    } else if child.name@ == "poisons"@ {
        match strings_upto(child.entries@, child.entries@.len() as int) {
            Err(e) => Err(e),
            Ok(v) => Ok(GarbageView { poisons: v, ..g }),
        }
    } else if child.name@ == "paragraphs"@ {
        match paragraphs_spec(child, g.paragraphs) {
            Err(e) => Err(e),
            Ok(p) => Ok(GarbageView { paragraphs: p, ..g }),
        }
    } else if child.name@ == "links"@ {
        match links_spec(child) {
            Err(e) => Err(e),
            Ok(l) => Ok(GarbageView { links: l, ..g }),
        }
    } else {
        Ok(g)
    }
}

/// The page settings a block gives.
pub open spec fn garbage_spec(node: Node) -> Result<GarbageView, ParseErrorView> {
    fold_all(node.children@, default_garbage(), |g: GarbageView, child: Node| garbage_step(g, child))
}

/// Reads the `min` and `max` properties, keeping `lo` and `hi` where absent.
fn parse_bounds(node: &Node, lo: usize, hi: usize) -> (r: Result<(usize, usize), ParseError>)
    ensures
        match (r, bounds_spec(*node, lo, hi)) {
            (Ok(x), Ok(y)) => x == y,
            (Err(e), Err(f)) => e@ == f,
            _ => false,
        },
{
    let a = match node.int_prop::<usize>("min")? {
        Some(n) => n,
        None => lo,
    };
    let b = match node.int_prop::<usize>("max")? {
        Some(n) => n,
        None => hi,
    };
    Ok((a, b))
}

/// Applies a child of a `paragraphs` node.
fn paragraph_words_child(p: &mut Paragraphs, g: &Node) -> (r: Result<(), ParseError>)
    ensures
        plain_step_is(r, *final(p), paragraph_words_step(*old(p), *g)),
{
    if str_eq(g.name.as_str(), "words") {
        let (a, b) = parse_bounds(g, p.min_words, p.max_words)?;
        p.min_words = a;
        p.max_words = b;
    }
    Ok(())
}

/// Applies a `paragraphs` node.
fn parse_paragraphs(p: &mut Paragraphs, node: &Node) -> (r: Result<(), ParseError>)
    ensures
        plain_step_is(r, *final(p), paragraphs_spec(*node, *old(p))),
{
    let (a, b) = parse_bounds(node, p.min_count, p.max_count)?;
    p.min_count = a;
    p.max_count = b;
    let ghost step = |p: Paragraphs, g: Node| paragraph_words_step(p, g);
    let ghost init = *p;
    let mut i: usize = 0;
    while i < node.children.len()
        invariant
            i <= node.children@.len(),
            step == (|p: Paragraphs, g: Node| paragraph_words_step(p, g)),
            paragraphs_spec(*node, *old(p)) == fold_all(node.children@, init, step),
            fold_nodes(node.children@, i as int, init, step) == Ok::<Paragraphs, ParseErrorView>(*p),
        decreases node.children@.len() - i,
    {
        let ghost before = *p;
        let r = paragraph_words_child(p, &node.children[i]);
        assert(fold_nodes(node.children@, i as int + 1, init, step) == paragraph_words_step(before, node.children@[i as int]));
        if let Err(e) = r {
            proof {
                lemma_fold_error(node.children@, i as int + 1, node.children@.len() as int, init, step);
            }
            return Err(e);
        }
        i += 1;
    }
    Ok(())
}

/// The first character of a string.
fn first_char(s: &String) -> (c: char)
    requires
        s@.len() > 0,
    ensures
        c == s@[0],
{
    let cs = crate::chars::chars_of(s.as_str());
    cs[0]
}

/// Applies a child of a `links` node.
fn links_child(l: &mut Links, g: &Node) -> (r: Result<(), ParseError>)
    ensures
        plain_step_is(r, *final(l), links_step(*old(l), *g)),
{
    if str_eq(g.name.as_str(), "words") {
        let (a, b) = parse_bounds(g, l.min_words, l.max_words)?;
        l.min_words = a;
        l.max_words = b;
    } else if str_eq(g.name.as_str(), "separator") {
        let s = g.one_string_arg()?;
        l.separator = first_char(&s);
    } else if str_eq(g.name.as_str(), "trailing-slash") {
        l.trailing_slash = g.one_booleanish_entry()?;
    }
    Ok(())
}

/// Reads a `links` node, starting from the default link settings.
pub fn parse_garbage_links(node: &Node) -> (r: Result<Links, ParseError>)
    ensures
        match (r, links_spec(*node)) {
            (Ok(x), Ok(y)) => x == y,
            (Err(e), Err(f)) => e@ == f,
            _ => false,
        },
{
    let mut links = Links::default();
    let (a, b) = parse_bounds(node, links.min_count, links.max_count)?;
    links.min_count = a;
    links.max_count = b;
    let ghost step = |l: Links, g: Node| links_step(l, g);
    let ghost init = links;
    let mut i: usize = 0;
    while i < node.children.len()
        invariant
            i <= node.children@.len(),
            step == (|l: Links, g: Node| links_step(l, g)),
            links_spec(*node) == fold_all(node.children@, init, step),
            fold_nodes(node.children@, i as int, init, step) == Ok::<Links, ParseErrorView>(links),
        decreases node.children@.len() - i,
    {
        let ghost before = links;
        let r = links_child(&mut links, &node.children[i]);
        assert(fold_nodes(node.children@, i as int + 1, init, step) == links_step(before, node.children@[i as int]));
        if let Err(e) = r {
            proof {
                lemma_fold_error(node.children@, i as int + 1, node.children@.len() as int, init, step);
            }
            return Err(e);
        }
        i += 1;
    }
    Ok(links)
}

/// Applies a child of the garbage block.
fn garbage_child(g: &mut Garbage, child: &Node) -> (r: Result<(), ParseError>)
    ensures
        step_is(r, *final(g), garbage_step(old(g)@, *child)),
{
    if str_eq(child.name.as_str(), "corpus-files") {
        g.source_files = child.string_seq()?;
    } else if str_eq(child.name.as_str(), "words-file") {
        g.words_file = Some(child.one_string_arg()?);
    } else if str_eq(child.name.as_str(), "template-file") {
        g.template_file = Some(child.one_string_arg()?);
    } else if str_eq(child.name.as_str(), "poisons") {
        g.poisons = child.string_seq()?;
    } else if str_eq(child.name.as_str(), "paragraphs") {
        parse_paragraphs(&mut g.paragraphs, child)?;
    } else if str_eq(child.name.as_str(), "links") {
        g.links = parse_garbage_links(child)?;
    }
    Ok(())
}

/// Reads a garbage block.
pub fn parse_garbage(node: &Node) -> (r: Result<Garbage, ParseError>)
    ensures
        outcome_is(r, garbage_spec(*node)),
{
    let mut garbage = Garbage::default();
    let ghost step = |g: GarbageView, child: Node| garbage_step(g, child);
    let ghost init = garbage@;
    let mut i: usize = 0;
    while i < node.children.len()
        invariant
            i <= node.children@.len(),
            step == (|g: GarbageView, child: Node| garbage_step(g, child)),
            garbage_spec(*node) == fold_all(node.children@, init, step),
            fold_nodes(node.children@, i as int, init, step) == Ok::<GarbageView, ParseErrorView>(garbage@),
        decreases node.children@.len() - i,
    {
        let ghost before = garbage@;
        let r = garbage_child(&mut garbage, &node.children[i]);
        assert(fold_nodes(node.children@, i as int + 1, init, step) == garbage_step(before, node.children@[i as int]));
        if let Err(e) = r {
            proof {
                lemma_fold_error(node.children@, i as int + 1, node.children@.len() as int, init, step);
            }
            return Err(e);
        }
        i += 1;
    }
    Ok(garbage)
}

// ---------------------------------------------------------------------------
// The logging and metrics blocks.

/// What a child of the logging block changes.
pub open spec fn logging_step(l: Logging, child: Node) -> Result<Logging, ParseErrorView> {
    if child.name@ == "level"@ {
        match child.string_entry_spec() {
            Err(e) => Err(e),
            Ok(i) => match level_named(text_of(child.entries@[i].value)) {
                Some(v) => Ok(Logging { level: v, ..l }),
                None => Err(entry_error(child.entries@[i], "invalid log level"@)),
            },
        }
    } else if child.name@ == "target"@ {
        match child.string_entry_spec() {
            Err(e) => Err(e),
            Ok(i) => {
                let t = text_of(child.entries@[i].value);
                if t == "stdout"@ {
                    Ok(Logging { target: LogTarget::Stdout, ..l })
                } else if t == "stderr"@ {
                    Ok(Logging { target: LogTarget::Stderr, ..l })
                } else {
                    Err(entry_error(child.entries@[i], "invalid log target"@))
                }
            },
        }
    } else if child.name@ == "color"@ {
        match child.booleanish_spec() {
            Err(e) => Err(e),
            Ok(b) => Ok(Logging { color: b, ..l }),
        }
    } else if child.name@ == "request-handler"@ {
        match child.booleanish_spec() {
            Err(e) => Err(e),
            Ok(b) => Ok(Logging { request_handler: b, ..l }),
        }
    } else {
        Ok(l)
    }
}

/// The logging settings a block gives.
pub open spec fn logging_spec(node: Node) -> Result<Logging, ParseErrorView> {
    fold_all(node.children@, default_config().logging, |l: Logging, child: Node| logging_step(l, child))
}

/// Applies a child of the logging block.
fn logging_child(l: &mut Logging, child: &Node) -> (r: Result<(), ParseError>)
    ensures
        plain_step_is(r, *final(l), logging_step(*old(l), *child)),
{
    if str_eq(child.name.as_str(), "level") {
        let entry = child.one_string_entry()?;
        match level_filter(text(entry).as_str()) {
            Some(v) => {
                l.level = v;
            },
            None => {
                return Err(ParseError::from_entry(entry, "invalid log level".to_owned()));
            },
        }
    } else if str_eq(child.name.as_str(), "target") {
        let entry = child.one_string_entry()?;
        let t = text(entry);
        if str_eq(t.as_str(), "stdout") {
            l.target = LogTarget::Stdout;
        } else if str_eq(t.as_str(), "stderr") {
            l.target = LogTarget::Stderr;
        } else {
            return Err(ParseError::from_entry(entry, "invalid log target".to_owned()));
        }
    } else if str_eq(child.name.as_str(), "color") {
        l.color = child.one_booleanish_entry()?;
    } else if str_eq(child.name.as_str(), "request-handler") {
        l.request_handler = child.one_booleanish_entry()?;
    }
    Ok(())
}

/// Reads a logging block.
pub fn parse_logging(node: &Node) -> (r: Result<Logging, ParseError>)
    ensures
        match (r, logging_spec(*node)) {
            (Ok(x), Ok(y)) => x == y,
            (Err(e), Err(f)) => e@ == f,
            _ => false,
        },
{
    let mut logging = Logging::default();
    let ghost step = |l: Logging, child: Node| logging_step(l, child);
    let ghost init = logging;
    let mut i: usize = 0;
    while i < node.children.len()
        invariant
            i <= node.children@.len(),
            step == (|l: Logging, child: Node| logging_step(l, child)),
            logging_spec(*node) == fold_all(node.children@, init, step),
            fold_nodes(node.children@, i as int, init, step) == Ok::<Logging, ParseErrorView>(logging),
        decreases node.children@.len() - i,
    {
        let ghost before = logging;
        let r = logging_child(&mut logging, &node.children[i]);
        assert(fold_nodes(node.children@, i as int + 1, init, step) == logging_step(before, node.children@[i as int]));
        if let Err(e) = r {
            proof {
                lemma_fold_error(node.children@, i as int + 1, node.children@.len() as int, init, step);
            }
            return Err(e);
        }
        i += 1;
    }
    Ok(logging)
}

/// What a child of the metrics block changes.
pub open spec fn metrics_step(m: MetricsView, child: Node) -> Result<MetricsView, ParseErrorView> {
    if child.name@ == "listen"@ {
        match listen_spec(child) {
            Err(e) => Err(e),
            Ok(a) => Ok(MetricsView { listen: a, ..m }),
        }
    } else if child.name@ == "persist-path"@ {
        match child.string_arg_spec() {
            Err(e) => Err(e),
            Ok(t) => Ok(MetricsView { persist_path: Some(t), ..m }),
        }
    } else {
        Ok(m)
    }
}

/// The metrics settings a block gives.
pub open spec fn metrics_spec(node: Node) -> Result<MetricsView, ParseErrorView> {
    fold_all(node.children@, default_metrics(), |m: MetricsView, child: Node| metrics_step(m, child))
}

/// Applies a child of the metrics block.
fn metrics_child(m: &mut Metrics, child: &Node) -> (r: Result<(), ParseError>)
    ensures
        step_is(r, *final(m), metrics_step(old(m)@, *child)),
{
    if str_eq(child.name.as_str(), "listen") {
        m.listen = parse_listen(child)?;
    } else if str_eq(child.name.as_str(), "persist-path") {
        m.persist_path = Some(child.one_string_arg()?);
    }
    Ok(())
}

/// Reads a metrics block.
pub fn parse_metrics(node: &Node) -> (r: Result<Metrics, ParseError>)
    ensures
        outcome_is(r, metrics_spec(*node)),
{
    let mut metrics = Metrics::default();
    let ghost step = |m: MetricsView, child: Node| metrics_step(m, child);
    let ghost init = metrics@;
    let mut i: usize = 0;
    while i < node.children.len()
        invariant
            i <= node.children@.len(),
            step == (|m: MetricsView, child: Node| metrics_step(m, child)),
            metrics_spec(*node) == fold_all(node.children@, init, step),
            fold_nodes(node.children@, i as int, init, step) == Ok::<MetricsView, ParseErrorView>(metrics@),
        decreases node.children@.len() - i,
    {
        let ghost before = metrics@;
        let r = metrics_child(&mut metrics, &node.children[i]);
        assert(fold_nodes(node.children@, i as int + 1, init, step) == metrics_step(before, node.children@[i as int]));
        if let Err(e) = r {
            proof {
                lemma_fold_error(node.children@, i as int + 1, node.children@.len() as int, init, step);
            }
            return Err(e);
        }
        i += 1;
    }
    Ok(metrics)
}

// ---------------------------------------------------------------------------
// The document.

/// What a top-level block changes.
pub open spec fn doc_step(c: ConfigView, node: Node) -> Result<ConfigView, ParseErrorView> {
    if node.name@ == "server"@ {
        match server_spec(node) {
            Err(e) => Err(e),
            Ok(v) => Ok(ConfigView { server: v, ..c }),
        }
    } else if node.name@ == "classifier"@ {
        match classifier_spec(node) {
            Err(e) => Err(e),
            Ok(v) => Ok(ConfigView { classifier: v, ..c }),
        }
    } else if node.name@ == "garbage"@ {
        match garbage_spec(node) {
            Err(e) => Err(e),
            Ok(v) => Ok(ConfigView { garbage: v, ..c }),
        }
    } else if node.name@ == "logging"@ {
        match logging_spec(node) {
            Err(e) => Err(e),
            Ok(v) => Ok(ConfigView { logging: v, ..c }),
        }
    } else if node.name@ == "metrics"@ {
        match metrics_spec(node) {
            Err(e) => Err(e),
            Ok(v) => Ok(ConfigView { metrics: Some(v), ..c }),
        }
    } else {
        Ok(c)
    }
}

/// The settings a document gives: the defaults, changed by each known
/// top-level block in turn; a later block of a kind replaces an earlier one.
pub open spec fn doc_spec(doc: Document) -> Result<ConfigView, ParseErrorView> {
    fold_all(doc.nodes@, default_config(), |c: ConfigView, node: Node| doc_step(c, node))
}

/// Applies a top-level block.
fn doc_child(config: &mut Config, node: &Node) -> (r: Result<(), ParseError>)
    ensures
        step_is(r, *final(config), doc_step(old(config)@, *node)),
{
    if str_eq(node.name.as_str(), "server") {
        config.server = parse_server(node)?;
    } else if str_eq(node.name.as_str(), "classifier") {
        config.classifier = parse_classifier(node)?;
    } else if str_eq(node.name.as_str(), "garbage") {
        config.garbage = parse_garbage(node)?;
    } else if str_eq(node.name.as_str(), "logging") {
        config.logging = parse_logging(node)?;
    } else if str_eq(node.name.as_str(), "metrics") {
        config.metrics = Some(parse_metrics(node)?);
    }
    Ok(())
}

/// Reads the settings from a document.
pub fn parse_doc(doc: &Document) -> (r: Result<Config, ParseError>)
    ensures
        outcome_is(r, doc_spec(*doc)),
{
    let mut config = Config::default();
    let ghost step = |c: ConfigView, node: Node| doc_step(c, node);
    let ghost init = config@;
    let mut i: usize = 0;
    while i < doc.nodes.len()
        invariant
            i <= doc.nodes@.len(),
            step == (|c: ConfigView, node: Node| doc_step(c, node)),
            doc_spec(*doc) == fold_all(doc.nodes@, init, step),
            fold_nodes(doc.nodes@, i as int, init, step) == Ok::<ConfigView, ParseErrorView>(config@),
        decreases doc.nodes@.len() - i,
    {
        let ghost before = config@;
        let r = doc_child(&mut config, &doc.nodes[i]);
        assert(fold_nodes(doc.nodes@, i as int + 1, init, step) == doc_step(before, doc.nodes@[i as int]));
        if let Err(e) = r {
            proof {
                lemma_fold_error(doc.nodes@, i as int + 1, doc.nodes@.len() as int, init, step);
            }
            return Err(e);
        }
        i += 1;
    }
    Ok(config)
}

/// The settings that a configuration text gives: the KDL error where it is
/// not a document, else the document's settings or its error with the text
/// attached.
pub open spec fn config_spec(source: Seq<char>) -> Result<ConfigView, ParseErrorView> {
    match kdl_document(source) {
        None => Err(ParseErrorView::Kdl(kdl_error_text(source))),
        Some(doc) => match doc_spec(doc) {
            Ok(c) => Ok(c),
            Err(e) => Err(with_source(e, source)),
        },
    }
}

/// Reads the settings from a configuration text.
pub fn parse_config(source: &str) -> (r: Result<Config, ParseError>)
    ensures
        outcome_is(r, config_spec(source@)),
{
    match parse_kdl(source) {
        Err(message) => Err(ParseError::Kdl(message)),
        Ok(doc) => match parse_doc(&doc) {
            Ok(config) => Ok(config),
            Err(e) => {
                let mut e = e;
                e.set_source_code(source.to_owned());
                Err(e)
            },
        },
    }
}

} // verus!
