//! Deciding whether a request is valid or spam.
use vstd::prelude::*;
use vstd::utf8::encode_utf8;
use aho_corasick::BuildError;
use super::asn::{AsnDatabase, asn_found, database_error};
use super::matcher::{Matcher, any_occurs, automaton_fails, occurs};
use crate::chars::{chars_of, decimal, decimal_string, push_char, push_str};
use crate::config::document::{find_first, lemma_find_first, lemma_find_first_prefix, lemma_find_first_take, str_eq};
use crate::config::parse::{header_name, header_name_of};
use crate::config::settings::{Config, IpAddress};
use crate::config::values::copy_string;

verus! {

/// The network that a lookup found: its number where the database has a
/// record with one; `None` where it has none or the lookup failed.
pub fn asn_of_lookup(found: Result<Option<u32>, String>) -> (r: Option<u32>)
    ensures
        r == match found {
            Ok(Some(n)) => Some(n),
            _ => None::<u32>,
        },
{
    match found {
        Ok(Some(n)) => Some(n),
        _ => None,
    }
}

// ---------------------------------------------------------------------------
// Requests.

/// The parts of an HTTP request that classification reads: the path of its
/// URI, its path and query, the address of the client, and its headers as
/// lower-case names and raw values, in order.
pub struct Request {
    pub path: String,
    pub path_and_query: Option<String>,
    pub remote_ip: Option<IpAddress>,
    pub headers: Vec<(String, Vec<u8>)>,
}

/// Whether a byte is visible ASCII or a tab, as `HeaderValue::to_str` asks.
pub open spec fn is_visible_byte(b: u8) -> bool {
    (32 <= b < 127) || b == 9
}

/// The text of a header value where all its bytes are visible ASCII.
pub open spec fn visible_text(b: Seq<u8>) -> Option<Seq<char>> {
    if forall|i: int| 0 <= i < b.len() ==> is_visible_byte(#[trigger] b[i]) {
        Some(Seq::new(b.len(), |i: int| b[i] as char))
    } else {
        None
    }
}

/// The value of the first header called `name`.
pub open spec fn header_value(headers: Seq<(String, Vec<u8>)>, name: Seq<char>) -> Option<Seq<u8>> {
    match find_first(headers, |h: (String, Vec<u8>)| h.0@ == name) {
        Some(i) => Some(headers[i].1@),
        None => None,
    }
}

/// The value of the first header called `name` as text, where it is one.
pub open spec fn header_text(headers: Seq<(String, Vec<u8>)>, name: Seq<char>) -> Option<Seq<char>> {
    match header_value(headers, name) {
        Some(b) => visible_text(b),
        None => None,
    }
}

impl Request {
    /// The value of the first header called `name`.
    pub fn header(&self, name: &str) -> (r: Option<&Vec<u8>>)
        ensures
            match (r, header_value(self.headers@, name@)) {
                (Some(v), Some(w)) => v@ == w,
                (None, None) => true,
                _ => false,
            },
    {
        let ghost p = |h: (String, Vec<u8>)| h.0@ == name@;
        let mut i: usize = 0;
        while i < self.headers.len()
            invariant
                i <= self.headers@.len(),
                p == (|h: (String, Vec<u8>)| h.0@ == name@),
                find_first(self.headers@.take(i as int), p) is None,
            decreases self.headers@.len() - i,
        {
            proof {
                lemma_find_first_take(self.headers@, p, i as int);
            }
            if str_eq(self.headers[i].0.as_str(), name) {
                proof {
                    lemma_find_first_prefix(self.headers@, p, i as int + 1);
                }
                return Some(&self.headers[i].1);
            }
            i += 1;
        }
        assert(self.headers@.take(i as int) =~= self.headers@);
        None
    }

    /// The value of the first header called `name` as text, where all its
    /// bytes are visible ASCII.
    pub fn header_text(&self, name: &str) -> (r: Option<String>)
        ensures
            match r {
                Some(t) => header_text(self.headers@, name@) == Some(t@),
                None => header_text(self.headers@, name@) is None,
            },
    {
        match self.header(name) {
            None => None,
            Some(bytes) => {
                let mut out = String::new();
                let mut i: usize = 0;
                while i < bytes.len()
                    invariant
                        i <= bytes@.len(),
                        header_value(self.headers@, name@) == Some(bytes@),
                        out@ == Seq::new(i as nat, |j: int| bytes@[j] as char),
                        forall|j: int| 0 <= j < i ==> is_visible_byte(#[trigger] bytes@[j]),
                    decreases bytes@.len() - i,
                {
                    let b = bytes[i];
                    if !((32 <= b && b < 127) || b == 9) {
                        assert(!is_visible_byte(bytes@[i as int]));
                        return None;
                    }
                    push_char(&mut out, b as char);
                    i += 1;
                    assert(out@ =~= Seq::new(i as nat, |j: int| bytes@[j] as char));
                }
                Some(out)
            },
        }
    }
}

// ---------------------------------------------------------------------------
// Decisions.

/// Why a request is valid.
#[derive(Debug)]
pub enum ValidReason {
    Default,
    TrustedIP(IpAddress),
    TrustedPath(String),
    TrustedAgent(String),
    TrustedDecision,
}

/// Why a request is spam.
#[derive(Debug)]
pub enum SpamReason {
    Poison(String),
    UnwantedASN(u32),
    UnwantedAgent(String),
    TrustedDecision,
}

/// Whether a request is valid or spam, and why.
#[derive(Debug)]
pub enum Decision {
    Valid(ValidReason),
    Spam(SpamReason),
}

/// A `ValidReason` with its strings taken as characters.
pub enum ValidReasonView {
    Default,
    TrustedIP(IpAddress),
    TrustedPath(Seq<char>),
    TrustedAgent(Seq<char>),
    TrustedDecision,
}

/// A `SpamReason` with its strings taken as characters.
pub enum SpamReasonView {
    Poison(Seq<char>),
    UnwantedASN(u32),
    UnwantedAgent(Seq<char>),
    TrustedDecision,
}

/// A `Decision` with its strings taken as characters.
pub enum DecisionView {
    Valid(ValidReasonView),
    Spam(SpamReasonView),
}

impl View for ValidReason {
    type V = ValidReasonView;

    open spec fn view(&self) -> ValidReasonView {
        match self {
            ValidReason::Default => ValidReasonView::Default,
            ValidReason::TrustedIP(ip) => ValidReasonView::TrustedIP(*ip),
            ValidReason::TrustedPath(p) => ValidReasonView::TrustedPath(p@),
            ValidReason::TrustedAgent(a) => ValidReasonView::TrustedAgent(a@),
            ValidReason::TrustedDecision => ValidReasonView::TrustedDecision,
        }
    }
}

impl View for SpamReason {
    type V = SpamReasonView;

    open spec fn view(&self) -> SpamReasonView {
        match self {
            SpamReason::Poison(p) => SpamReasonView::Poison(p@),
            SpamReason::UnwantedASN(n) => SpamReasonView::UnwantedASN(*n),
            SpamReason::UnwantedAgent(a) => SpamReasonView::UnwantedAgent(a@),
            SpamReason::TrustedDecision => SpamReasonView::TrustedDecision,
        }
    }
}

impl View for Decision {
    type V = DecisionView;

    open spec fn view(&self) -> DecisionView {
        match self {
            Decision::Valid(r) => DecisionView::Valid(r@),
            Decision::Spam(r) => DecisionView::Spam(r@),
        }
    }
}

impl Default for Decision {
    fn default() -> (r: Decision)
        ensures
            r@ == DecisionView::Valid(ValidReasonView::Default),
    {
        Decision::Valid(ValidReason::Default)
    }
}

/// What was learned of a request, and the decision taken on it.
#[derive(Debug)]
pub struct Classification {
    pub ip: Option<IpAddress>,
    pub host: Option<String>,
    pub agent: Option<String>,
    pub asn: Option<u32>,
    pub poison: Option<String>,
    pub decision: Decision,
}

/// The characters of an optional string.
pub open spec fn opt_text(s: Option<String>) -> Option<Seq<char>> {
    match s {
        Some(t) => Some(t@),
        None => None,
    }
}

impl Classification {
    /// Whether nothing was learned of the request and it has `decision`.
    pub open spec fn bare(self, decision: DecisionView) -> bool {
        &&& self.ip is None
        &&& self.host is None
        &&& self.agent is None
        &&& self.asn is None
        &&& self.poison is None
        &&& self.decision@ == decision
    }
}

impl Default for Classification {
    fn default() -> (r: Classification)
        ensures
            r.bare(DecisionView::Valid(ValidReasonView::Default)),
    {
        Classification { ip: None, host: None, agent: None, asn: None, poison: None, decision: Decision::default() }
    }
}

// ---------------------------------------------------------------------------
// Describing decisions.

/// What `Display` of the standard library's `Ipv6Addr` writes for the
/// address with these bits.
pub uninterp spec fn ipv6_text(bits: u128) -> Seq<char>;

/// What `Debug` writes for a string: the string in double quotes, with
/// quotes, backslashes and characters that are not printable escaped.
pub uninterp spec fn debug_text(s: Seq<char>) -> Seq<char>;

/// The dotted decimal form of a version 4 address.
pub open spec fn dotted(bits: u32) -> Seq<char> {
    decimal((bits / 0x100_0000) as nat) + "."@ + decimal(((bits / 0x1_0000) % 256) as nat) + "."@
        + decimal(((bits / 0x100) % 256) as nat) + "."@ + decimal((bits % 256) as nat)
}

/// The text of an IP address, as the standard library writes it.
pub open spec fn ip_display(ip: IpAddress) -> Seq<char> {
    match ip {
        IpAddress::V4(b) => dotted(b),
        IpAddress::V6(b) => ipv6_text(b),
    }
}

/// Writes an IP address with `Display` of `core::net::IpAddr`.
#[verifier::external_body]
pub(crate) fn ip_to_string(ip: IpAddress) -> (r: String)
    ensures
        match ip {
            IpAddress::V4(b) => r@ == dotted(b),
            IpAddress::V6(b) => r@ == ipv6_text(b),
        },
{
    match ip {
        IpAddress::V4(b) => core::net::Ipv4Addr::from_bits(b).to_string(),
        IpAddress::V6(b) => core::net::Ipv6Addr::from_bits(b).to_string(),
    }
}

/// Writes a string with `Debug`.
#[verifier::external_body]
fn debug_string(s: &str) -> (r: String)
    ensures
        r@ == debug_text(s@),
{
    format!("{s:?}")
}

/// The text of a reason for a valid request.
pub open spec fn valid_text(r: ValidReasonView) -> Seq<char> {
    match r {
        ValidReasonView::Default => "default"@,
        ValidReasonView::TrustedIP(ip) => "trusted IP "@ + ip_display(ip),
        ValidReasonView::TrustedPath(p) => "trusted path "@ + debug_text(p),
        ValidReasonView::TrustedAgent(a) => "trusted agent "@ + debug_text(a),
        ValidReasonView::TrustedDecision => "trusted decision header"@,
    }
}

/// The text of a reason for spam.
pub open spec fn spam_text(r: SpamReasonView) -> Seq<char> {
    match r {
        SpamReasonView::Poison(p) => "poison "@ + debug_text(p),
        SpamReasonView::UnwantedASN(n) => "unwanted ASN "@ + decimal(n as nat),
        SpamReasonView::UnwantedAgent(a) => "unwanted agent "@ + debug_text(a),
        SpamReasonView::TrustedDecision => "trusted decision header"@,
    }
}

/// The text of a decision.
pub open spec fn decision_text(d: DecisionView) -> Seq<char> {
    match d {
        DecisionView::Valid(r) => "valid "@ + valid_text(r),
        DecisionView::Spam(r) => "spam "@ + spam_text(r),
    }
}

impl ValidReason {
    /// The reason in words.
    pub fn describe(&self) -> (r: String)
        ensures
            r@ == valid_text(self@),
    {
        match self {
            ValidReason::Default => "default".to_owned(),
            ValidReason::TrustedIP(ip) => {
                let mut s = "trusted IP ".to_owned();
                let t = ip_to_string(*ip);
                push_str(&mut s, t.as_str());
                s
            },
            ValidReason::TrustedPath(p) => {
                let mut s = "trusted path ".to_owned();
                let t = debug_string(p.as_str());
                push_str(&mut s, t.as_str());
                s
            },
            ValidReason::TrustedAgent(a) => {
                let mut s = "trusted agent ".to_owned();
                let t = debug_string(a.as_str());
                push_str(&mut s, t.as_str());
                s
            },
            ValidReason::TrustedDecision => "trusted decision header".to_owned(),
        }
    }
}

impl SpamReason {
    /// The reason in words.
    pub fn describe(&self) -> (r: String)
        ensures
            r@ == spam_text(self@),
    {
        match self {
            SpamReason::Poison(p) => {
                let mut s = "poison ".to_owned();
                let t = debug_string(p.as_str());
                push_str(&mut s, t.as_str());
                s
            },
            SpamReason::UnwantedASN(n) => {
                let mut s = "unwanted ASN ".to_owned();
                let t = decimal_string(*n as u64);
                push_str(&mut s, t.as_str());
                s
            },
            SpamReason::UnwantedAgent(a) => {
                let mut s = "unwanted agent ".to_owned();
                let t = debug_string(a.as_str());
                push_str(&mut s, t.as_str());
                s
            },
            SpamReason::TrustedDecision => "trusted decision header".to_owned(),
        }
    }
}

impl Decision {
    /// The decision in words: `valid` or `spam`, then the reason.
    pub fn describe(&self) -> (r: String)
        ensures
            r@ == decision_text(self@),
    {
        match self {
            Decision::Valid(reason) => {
                let mut s = "valid ".to_owned();
                let t = reason.describe();
                push_str(&mut s, t.as_str());
                s
            },
            Decision::Spam(reason) => {
                let mut s = "spam ".to_owned();
                let t = reason.describe();
                push_str(&mut s, t.as_str());
                s
            },
        }
    }
}

// ---------------------------------------------------------------------------
// Errors.

/// Why a classifier could not be built.
#[derive(Debug)]
pub enum ClassifierError {
    /// A file could not be read: the error's message.
    Io(String),
    /// The trusted decision header is not a header name.
    InvalidHeader(String),
    /// The ASN database could not be read: the error's message.
    MaxMindDb(String),
    /// The robots file is not JSON of the expected shape: the error's message.
    Json(String),
    /// The patterns could not be made into a matcher: the error's message.
    Matcher(String),
}

/// The text of a classifier error.
pub open spec fn classifier_error_text(e: ClassifierError) -> Seq<char> {
    match e {
        ClassifierError::Io(m) => m@,
        ClassifierError::InvalidHeader(h) => "invalid header: "@ + h@,
        ClassifierError::MaxMindDb(m) => m@,
        ClassifierError::Json(m) => m@,
        ClassifierError::Matcher(m) => m@,
    }
}

impl ClassifierError {
    /// The error in words.
    pub fn describe(&self) -> (r: String)
        ensures
            r@ == classifier_error_text(*self),
    {
        match self {
            ClassifierError::InvalidHeader(h) => {
                let mut s = "invalid header: ".to_owned();
                push_str(&mut s, h.as_str());
                s
            },
            ClassifierError::Io(m) => copy_string(m),
            ClassifierError::MaxMindDb(m) => copy_string(m),
            ClassifierError::Json(m) => copy_string(m),
            ClassifierError::Matcher(m) => copy_string(m),
        }
    }
}

/// The message of a `BuildError` of `aho-corasick`, from its `Display`.
#[verifier::external_body]
fn build_error_text(e: &BuildError) -> String {
    e.to_string()
}

// ---------------------------------------------------------------------------
// The classifier.

/// Whether `pat` occurs in `text`.
pub fn occurs_in(text: &Vec<char>, pat: &Vec<char>) -> (r: bool)
    ensures
        r == occurs(text@, pat@),
{
    if pat.len() == 0 {
        assert(text@.subrange(0, 0 + pat@.len() as int) =~= pat@);
        return true;
    }
    if pat.len() > text.len() {
        return false;
    }
    let mut i: usize = 0;
    while pat.len() <= text.len() - i
        invariant
            1 <= pat@.len() <= text@.len(),
            i <= text@.len() - pat@.len() + 1,
            forall|j: int| 0 <= j < i ==> #[trigger] text@.subrange(j, j + pat@.len()) != pat@,
        decreases text@.len() - i,
    {
        if crate::reading::range_eq(text, i, i + pat.len(), pat) {
            return true;
        }
        i += 1;
    }
    false
}

/// Deep copies of strings.
pub fn copy_strings(v: &Vec<String>) -> (r: Vec<String>)
    ensures
        r.deep_view() == v.deep_view(),
{
    let mut out: Vec<String> = Vec::new();
    let mut i: usize = 0;
    while i < v.len()
        invariant
            i <= v@.len(),
            out.deep_view() == v.deep_view().take(i as int),
        decreases v@.len() - i,
    {
        let ghost before = out.deep_view();
        out.push(copy_string(&v[i]));
        assert(out.deep_view() =~= before.push(v@[i as int]@));
        i += 1;
        assert(out.deep_view() =~= v.deep_view().take(i as int));
    }
    assert(v.deep_view().take(i as int) =~= v.deep_view());
    out
}

/// The patterns a matcher is built from: none where there are no patterns.
pub open spec fn matcher_patterns(patterns: Seq<Seq<char>>) -> Option<Seq<Seq<char>>> {
    if patterns.len() > 0 {
        Some(patterns)
    } else {
        None
    }
}

/// Whether one of the patterns occurs in the agent.
pub open spec fn agent_found(patterns: Option<Seq<Seq<char>>>, agent: Option<Seq<char>>) -> bool {
    patterns matches Some(ps) && agent matches Some(a) && any_occurs(a, ps)
}

/// Whether `t` is one of the patterns and occurs in the agent.
pub open spec fn agent_match(patterns: Option<Seq<Seq<char>>>, agent: Option<Seq<char>>, t: Seq<char>) -> bool {
    patterns matches Some(ps) && agent matches Some(a) && occurs(a, t) && ps.contains(t)
}

/// The bytes of `valid`.
pub open spec fn valid_bytes() -> Seq<u8> {
    seq![118u8, 97u8, 108u8, 105u8, 100u8]
}

/// The bytes of `spam`.
pub open spec fn spam_bytes() -> Seq<u8> {
    seq![115u8, 112u8, 97u8, 109u8]
}

/// Whether building a matcher for `patterns` fails: there are patterns, and
/// the automaton for them cannot be built.
pub open spec fn matcher_fails(patterns: Seq<Seq<char>>) -> bool {
    patterns.len() > 0 && automaton_fails(patterns)
}

/// Decides requests on their path, address, user agent and network.
pub struct Classifier {
    poisons: Vec<String>,
    trusted_decision_header: Option<String>,
    asns_db: Option<AsnDatabase>,
    unwanted_asns: Vec<u32>,
    unwanted_agents: Option<Matcher>,
    trusted_paths: Vec<String>,
    trusted_ips: Vec<IpAddress>,
    trusted_agents: Option<Matcher>,
}

impl Classifier {
    /// Text that marks a request as spam wherever it occurs in its path.
    pub closed spec fn poisons(&self) -> Seq<Seq<char>> {
        self.poisons.deep_view()
    }

    /// The header that carries a trusted decision.
    pub closed spec fn trusted_decision_header(&self) -> Option<Seq<char>> {
        opt_text(self.trusted_decision_header)
    }

    /// Whether there is an ASN database to look addresses up in.
    pub closed spec fn has_asns_db(&self) -> bool {
        self.asns_db is Some
    }

    /// The bytes of the ASN database, where there is one.
    pub closed spec fn asns_source(&self) -> Option<Seq<u8>> {
        match self.asns_db {
            Some(db) => Some(db.bytes()),
            None => None,
        }
    }

    /// The network of the address: what a lookup in the database finds,
    /// where there are both a database and an address.
    pub open spec fn asn_of(&self, ip: Option<IpAddress>) -> Option<u32> {
        match (self.asns_source(), ip) {
            (Some(bytes), Some(a)) => asn_found(bytes, a),
            _ => None,
        }
    }

    /// The networks whose requests are spam.
    pub closed spec fn unwanted_asns(&self) -> Seq<u32> {
        self.unwanted_asns@
    }

    /// The patterns of unwanted user agents, where there are any.
    pub closed spec fn unwanted_agent_patterns(&self) -> Option<Seq<Seq<char>>> {
        match self.unwanted_agents {
            Some(m) => Some(m.patterns()),
            None => None,
        }
    }

    /// The paths whose requests are valid.
    pub closed spec fn trusted_paths(&self) -> Seq<Seq<char>> {
        self.trusted_paths.deep_view()
    }

    /// The addresses whose requests are valid.
    pub closed spec fn trusted_ips(&self) -> Seq<IpAddress> {
        self.trusted_ips@
    }

    /// The patterns of trusted user agents, where there are any.
    pub closed spec fn trusted_agent_patterns(&self) -> Option<Seq<Seq<char>>> {
        match self.trusted_agents {
            Some(m) => Some(m.patterns()),
            None => None,
        }
    }

    /// The first poison, in order, that occurs in `path`.
    pub open spec fn poison_of(&self, path: Seq<char>) -> Option<Seq<char>> {
        match find_first(self.poisons(), |p: Seq<char>| occurs(path, p)) {
            Some(i) => Some(self.poisons()[i]),
            None => None,
        }
    }

    /// Whether `d` is the decision on a request with this path, address,
    /// agent, poison and network: a trusted path, address or agent makes it
    /// valid, in that order; then a poison, an unwanted agent or an
    /// unwanted network makes it spam, in that order; else it is valid.
    pub open spec fn decision_holds(
        &self,
        path: Seq<char>,
        ip: Option<IpAddress>,
        agent: Option<Seq<char>>,
        poison: Option<Seq<char>>,
        asn: Option<u32>,
        d: DecisionView,
    ) -> bool {
        if self.trusted_paths().contains(path) {
            d == DecisionView::Valid(ValidReasonView::TrustedPath(path))
        } else if ip matches Some(a) && self.trusted_ips().contains(a) {
            d == DecisionView::Valid(ValidReasonView::TrustedIP(ip->0))
        } else if agent_found(self.trusted_agent_patterns(), agent) {
            d matches DecisionView::Valid(ValidReasonView::TrustedAgent(t)) && agent_match(
                self.trusted_agent_patterns(),
                agent,
                t,
            )
        } else if poison matches Some(p) {
            d == DecisionView::Spam(SpamReasonView::Poison(poison->0))
        } else if agent_found(self.unwanted_agent_patterns(), agent) {
            d matches DecisionView::Spam(SpamReasonView::UnwantedAgent(t)) && agent_match(
                self.unwanted_agent_patterns(),
                agent,
                t,
            )
        } else if asn matches Some(n) && self.unwanted_asns().contains(n) {
            d == DecisionView::Spam(SpamReasonView::UnwantedASN(asn->0))
        } else {
            d == DecisionView::Valid(ValidReasonView::Default)
        }
    }

    /// Reads an ASN database from its bytes.
    pub fn load_asns(bytes: Vec<u8>) -> (r: Result<AsnDatabase, ClassifierError>)
        ensures
            match r {
                Ok(db) => database_error(bytes@) is None && db.bytes() == bytes@,
                Err(ClassifierError::MaxMindDb(m)) => database_error(bytes@) == Some(m@),
                Err(_) => false,
            },
    {
        match AsnDatabase::from_bytes(bytes) {
            Ok(db) => Ok(db),
            Err(message) => Err(ClassifierError::MaxMindDb(message)),
        }
    }

    /// The name of the trusted decision header, in lower case, where one is
    /// configured; the configured text where it is no header name. This is
    /// the first thing that building a classifier checks.
    pub fn decision_header(config: &Config) -> (r: Result<Option<String>, ClassifierError>)
        ensures
            match config.classifier.trusted_decision_header {
                None => r matches Ok(None),
                Some(h) => match header_name_of(encode_utf8(h@)) {
                    Some(n) => r matches Ok(Some(x)) && x@ == n,
                    None => r matches Err(ClassifierError::InvalidHeader(m)) && m@ == h@,
                },
            },
    {
        match &config.classifier.trusted_decision_header {
            Some(h) => match header_name(h.as_str().as_bytes()) {
                Ok(name) => Ok(Some(name)),
                Err(_) => Err(ClassifierError::InvalidHeader(copy_string(h))),
            },
            None => Ok(None),
        }
    }

    /// A matcher for the patterns, where there are any.
    fn matcher_for(patterns: Vec<String>) -> (r: Result<Option<Matcher>, ClassifierError>)
        ensures
            match r {
                Ok(Some(m)) => patterns@.len() > 0 && m.patterns() == patterns.deep_view(),
                Ok(None) => patterns@.len() == 0,
                Err(e) => e is Matcher,
            },
            r is Err <==> matcher_fails(patterns.deep_view()),
    {
        if patterns.len() == 0 {
            return Ok(None);
        }
        match Matcher::new(patterns) {
            Ok(m) => Ok(Some(m)),
            Err(e) => Err(ClassifierError::Matcher(build_error_text(&e))),
        }
    }

    /// Builds a classifier from the settings, the ASN database where one is
    /// configured, and the user agents of the robots file where one is
    /// configured, which join the unwanted agents.
    pub fn new(config: &Config, asns_db: Option<AsnDatabase>, robots: Option<Vec<String>>) -> (r: Result<Classifier, ClassifierError>)
        ensures
            match r {
                Ok(c) => {
                    &&& c.poisons() == config.garbage.poisons.deep_view()
                    &&& (match config.classifier.trusted_decision_header {
                        Some(h) => c.trusted_decision_header() == header_name_of(encode_utf8(h@))
                            && c.trusted_decision_header() is Some,
                        None => c.trusted_decision_header() is None,
                    })
                    &&& c.has_asns_db() == asns_db is Some
                    &&& c.asns_source() == match asns_db {
                        Some(db) => Some(db.bytes()),
                        None => None,
                    }
                    &&& c.unwanted_asns() == config.classifier.unwanted_asns@
                    &&& c.unwanted_agent_patterns() == matcher_patterns(
                        config.classifier.unwanted_agents.deep_view() + match robots {
                            Some(v) => v.deep_view(),
                            None => Seq::empty(),
                        },
                    )
                    &&& c.trusted_paths() == config.classifier.trusted_paths.deep_view()
                    &&& c.trusted_ips() == config.classifier.trusted_ips@
                    &&& c.trusted_agent_patterns() == matcher_patterns(config.classifier.trusted_agents.deep_view())
                },
                Err(ClassifierError::InvalidHeader(n)) => config.classifier.trusted_decision_header
                    matches Some(h) && header_name_of(encode_utf8(h@)) is None && n@ == h@,
                Err(ClassifierError::Matcher(_)) => !(config.classifier.trusted_decision_header
                    matches Some(h) && header_name_of(encode_utf8(h@)) is None),
                Err(_) => false,
            },
            r is Ok <==> !(config.classifier.trusted_decision_header matches Some(h) && header_name_of(
                encode_utf8(h@),
            ) is None) && !matcher_fails(
                config.classifier.unwanted_agents.deep_view() + match robots {
                    Some(v) => v.deep_view(),
                    None => Seq::empty(),
                },
            ) && !matcher_fails(config.classifier.trusted_agents.deep_view()),
    {
        let trusted_decision_header = Classifier::decision_header(config)?;
        let mut unwanted = copy_strings(&config.classifier.unwanted_agents);
        let ghost first = unwanted.deep_view();
        if let Some(robots) = robots {
            let mut i: usize = 0;
            while i < robots.len()
                invariant
                    i <= robots@.len(),
                    unwanted.deep_view() == first + robots.deep_view().take(i as int),
                decreases robots@.len() - i,
            {
                let ghost before = unwanted.deep_view();
                unwanted.push(copy_string(&robots[i]));
                assert(unwanted.deep_view() =~= before.push(robots@[i as int]@));
                i += 1;
                assert(unwanted.deep_view() =~= first + robots.deep_view().take(i as int));
            }
            assert(robots.deep_view().take(i as int) =~= robots.deep_view());
        } else {
            assert(first + Seq::<Seq<char>>::empty() =~= first);
        }
        let unwanted_agents = Classifier::matcher_for(unwanted)?;
        let trusted_agents = Classifier::matcher_for(copy_strings(&config.classifier.trusted_agents))?;
        let mut trusted_ips: Vec<IpAddress> = Vec::new();
        let mut i: usize = 0;
        while i < config.classifier.trusted_ips.len()
            invariant
                i <= config.classifier.trusted_ips@.len(),
                trusted_ips@ == config.classifier.trusted_ips@.take(i as int),
            decreases config.classifier.trusted_ips@.len() - i,
        {
            trusted_ips.push(config.classifier.trusted_ips[i]);
            i += 1;
            assert(trusted_ips@ =~= config.classifier.trusted_ips@.take(i as int));
        }
        assert(config.classifier.trusted_ips@.take(i as int) =~= config.classifier.trusted_ips@);
        let mut unwanted_asns: Vec<u32> = Vec::new();
        let mut i: usize = 0;
        while i < config.classifier.unwanted_asns.len()
            invariant
                i <= config.classifier.unwanted_asns@.len(),
                unwanted_asns@ == config.classifier.unwanted_asns@.take(i as int),
            decreases config.classifier.unwanted_asns@.len() - i,
        {
            unwanted_asns.push(config.classifier.unwanted_asns[i]);
            i += 1;
            assert(unwanted_asns@ =~= config.classifier.unwanted_asns@.take(i as int));
        }
        assert(config.classifier.unwanted_asns@.take(i as int) =~= config.classifier.unwanted_asns@);
        Ok(Classifier {
            poisons: copy_strings(&config.garbage.poisons),
            trusted_decision_header,
            asns_db,
            unwanted_asns,
            unwanted_agents,
            trusted_paths: copy_strings(&config.classifier.trusted_paths),
            trusted_ips,
            trusted_agents,
        })
    }

    /// The decision that the trusted decision header of the request
    /// carries: `valid` or `spam`; `None` where there is no such header, or
    /// it carries another value.
    pub fn trusted_decision(&self, req: &Request) -> (r: Option<Classification>)
        ensures
            match self.trusted_decision_header() {
                None => r is None,
                Some(h) => match header_value(req.headers@, h) {
                    None => r is None,
                    Some(v) => if v == valid_bytes() {
                        r matches Some(c) && c.bare(DecisionView::Valid(ValidReasonView::TrustedDecision))
                    } else if v == spam_bytes() {
                        r matches Some(c) && c.bare(DecisionView::Spam(SpamReasonView::TrustedDecision))
                    } else {
                        r is None
                    },
                },
            },
    {
        let name = match &self.trusted_decision_header {
            Some(n) => n,
            None => {
                return None;
            },
        };
        let value = match req.header(name.as_str()) {
            Some(v) => v,
            None => {
                return None;
            },
        };
        let decision = if value.len() == 5 && value[0] == 118 && value[1] == 97 && value[2] == 108
            && value[3] == 105 && value[4] == 100 {
            assert(value@ =~= valid_bytes());
            Decision::Valid(ValidReason::TrustedDecision)
        } else if value.len() == 4 && value[0] == 115 && value[1] == 112 && value[2] == 97 && value[3]
            == 109 {
            assert(value@ =~= spam_bytes());
            Decision::Spam(SpamReason::TrustedDecision)
        } else {
            assert(value@ != valid_bytes());
            assert(value@ != spam_bytes());
            return None;
        };
        let mut classification = Classification::default();
        classification.decision = decision;
        Some(classification)
    }

    /// The request's path, where it is a trusted path.
    fn trusted_path(&self, path: &String) -> (r: bool)
        ensures
            r == self.trusted_paths().contains(path@),
    {
        let mut i: usize = 0;
        while i < self.trusted_paths.len()
            invariant
                i <= self.trusted_paths@.len(),
                forall|j: int| 0 <= j < i ==> self.trusted_paths()[j] != path@,
            decreases self.trusted_paths@.len() - i,
        {
            if str_eq(self.trusted_paths[i].as_str(), path.as_str()) {
                assert(self.trusted_paths()[i as int] == path@);
                return true;
            }
            i += 1;
        }
        false
    }

    /// Whether the address is a trusted one.
    fn trusted_ip(&self, ip: IpAddress) -> (r: bool)
        ensures
            r == self.trusted_ips().contains(ip),
    {
        let mut i: usize = 0;
        while i < self.trusted_ips.len()
            invariant
                i <= self.trusted_ips@.len(),
                forall|j: int| 0 <= j < i ==> self.trusted_ips()[j] != ip,
            decreases self.trusted_ips@.len() - i,
        {
            if self.trusted_ips[i] == ip {
                assert(self.trusted_ips()[i as int] == ip);
                return true;
            }
            i += 1;
        }
        false
    }

    /// Whether the network is an unwanted one.
    fn unwanted_asn(&self, asn: u32) -> (r: bool)
        ensures
            r == self.unwanted_asns().contains(asn),
    {
        let mut i: usize = 0;
        while i < self.unwanted_asns.len()
            invariant
                i <= self.unwanted_asns@.len(),
                forall|j: int| 0 <= j < i ==> self.unwanted_asns()[j] != asn,
            decreases self.unwanted_asns@.len() - i,
        {
            if self.unwanted_asns[i] == asn {
                assert(self.unwanted_asns()[i as int] == asn);
                return true;
            }
            i += 1;
        }
        false
    }

    /// The first poison, in order, that occurs in the path.
    fn poisoned_path(&self, path: &String) -> (r: Option<String>)
        ensures
            opt_text(r) == self.poison_of(path@),
    {
        let text = chars_of(path.as_str());
        let ghost p = |q: Seq<char>| occurs(path@, q);
        let mut i: usize = 0;
        while i < self.poisons.len()
            invariant
                i <= self.poisons@.len(),
                text@ == path@,
                p == (|q: Seq<char>| occurs(path@, q)),
                find_first(self.poisons().take(i as int), p) is None,
            decreases self.poisons@.len() - i,
        {
            proof {
                lemma_find_first_take(self.poisons(), p, i as int);
            }
            let pat = chars_of(self.poisons[i].as_str());
            if occurs_in(&text, &pat) {
                proof {
                    lemma_find_first_prefix(self.poisons(), p, i as int + 1);
                }
                return Some(copy_string(&self.poisons[i]));
            }
            i += 1;
        }
        assert(self.poisons().take(i as int) =~= self.poisons());
        None
    }

    /// The network of the address, where there is a database and it knows
    /// one; lookup failures count as unknown. Without a database or an
    /// address there is no lookup and no network; with both, the lookup's
    /// result decides (see `asn_of_lookup`).
    fn asn(&self, ip: Option<IpAddress>) -> (r: Option<u32>)
        ensures
            r is Some ==> self.has_asns_db() && ip is Some,
            r == self.asn_of(ip),
    {
        match (&self.asns_db, ip) {
            (Some(db), Some(ip)) => asn_of_lookup(db.lookup(ip)),
            _ => None,
        }
    }

    /// Decides on a request.
    pub fn classify(&self, req: &Request) -> (c: Classification)
        ensures
            c.ip == req.remote_ip,
            opt_text(c.poison) == self.poison_of(req.path@),
            opt_text(c.agent) == header_text(req.headers@, "user-agent"@),
            opt_text(c.host) == header_text(req.headers@, "host"@),
            c.asn is Some ==> self.has_asns_db() && req.remote_ip is Some,
            c.asn == self.asn_of(req.remote_ip),
            self.decision_holds(req.path@, c.ip, opt_text(c.agent), opt_text(c.poison), c.asn, c.decision@),
    {
        let mut info = Classification {
            ip: req.remote_ip,
            host: req.header_text("host"),
            agent: req.header_text("user-agent"),
            asn: self.asn(req.remote_ip),
            poison: self.poisoned_path(&req.path),
            decision: Decision::Valid(ValidReason::Default),
        };
        if self.trusted_path(&req.path) {
            info.decision = Decision::Valid(ValidReason::TrustedPath(copy_string(&req.path)));
            return info;
        }
        if let Some(ip) = info.ip {
            if self.trusted_ip(ip) {
                info.decision = Decision::Valid(ValidReason::TrustedIP(ip));
                return info;
            }
        }
        if let Some(agent) = match_agent(&self.trusted_agents, &info.agent) {
            info.decision = Decision::Valid(ValidReason::TrustedAgent(agent));
            return info;
        }
        if let Some(poison) = &info.poison {
            info.decision = Decision::Spam(SpamReason::Poison(copy_string(poison)));
            return info;
        }
        if let Some(agent) = match_agent(&self.unwanted_agents, &info.agent) {
            info.decision = Decision::Spam(SpamReason::UnwantedAgent(agent));
            return info;
        }
        if let Some(asn) = info.asn {
            if self.unwanted_asn(asn) {
                info.decision = Decision::Spam(SpamReason::UnwantedASN(asn));
                return info;
            }
        }
        info
    }
}

/// The text of a pattern of the matcher found in the user agent, where
/// there are both.
pub fn match_agent(matcher: &Option<Matcher>, agent: &Option<String>) -> (r: Option<String>)
    ensures
        match r {
            Some(t) => agent_match(
                match matcher {
                    Some(m) => Some(m.patterns()),
                    None => None,
                },
                opt_text(*agent),
                t@,
            ),
            None => !agent_found(
                match matcher {
                    Some(m) => Some(m.patterns()),
                    None => None,
                },
                opt_text(*agent),
            ),
        },
{
    match (matcher, agent) {
        (Some(m), Some(a)) => {
            let r = m.find(a.as_str());
            proof {
                if r is Some {
                    let t = r->0;
                    let k = choose|k: int| 0 <= k < m.patterns().len() && #[trigger] m.patterns()[k] == t@;
                    assert(m.patterns().contains(t@));
                }
            }
            r
        },
        _ => None,
    }
}

} // verus!
