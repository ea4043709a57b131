//! The settings of the program, with their defaults.
use vstd::prelude::*;
use std::ops::RangeInclusive;
use super::document::str_eq;
use super::values::copy_string;

verus! {

/// An IP address, as the number whose big-endian bytes are its octets.
#[derive(Clone, Copy, Debug, PartialEq, Eq, Structural)]
pub enum IpAddress {
    V4(u32),
    V6(u128),
}

/// A socket address: an IP address and a port (and, for version 6, the flow
/// information and the scope identifier).
#[derive(Clone, Copy, Debug, PartialEq, Eq, Structural)]
pub enum SocketAddress {
    V4 { ip: u32, port: u16 },
    V6 { ip: u128, port: u16, flowinfo: u32, scope_id: u32 },
}

/// Where a server listens: a TCP socket, or a Unix socket at a path.
#[derive(Debug, PartialEq, Eq)]
pub enum Address {
    TcpSocket(SocketAddress),
    UnixSocket(String),
}

/// An `Address` with its path taken as characters.
pub enum AddressView {
    TcpSocket(SocketAddress),
    UnixSocket(Seq<char>),
}

impl View for Address {
    type V = AddressView;

    open spec fn view(&self) -> AddressView {
        match self {
            Address::TcpSocket(a) => AddressView::TcpSocket(*a),
            Address::UnixSocket(p) => AddressView::UnixSocket(p@),
        }
    }
}

/// What `SocketAddr::from_str` from the standard library yields for `text`:
/// the address, or `None` where the text is not one.
pub uninterp spec fn socket_address_of(text: Seq<char>) -> Option<SocketAddress>;

/// Parses a socket address with `core::net::SocketAddr::from_str` (the type
/// that `std::net` re-exports) and copies it into plain values.
#[verifier::external_body]
pub(crate) fn parse_socket_address(s: &str) -> (r: Option<SocketAddress>)
    ensures
        r == socket_address_of(s@),
{
    match s.parse::<core::net::SocketAddr>() {
        Ok(core::net::SocketAddr::V4(a)) => Some(SocketAddress::V4 { ip: a.ip().to_bits(), port: a.port() }),
        Ok(core::net::SocketAddr::V6(a)) => Some(SocketAddress::V6 {
            ip: a.ip().to_bits(),
            port: a.port(),
            flowinfo: a.flowinfo(),
            scope_id: a.scope_id(),
        }),
        Err(_) => None,
    }
}

/// What `Display` of the standard library's `SocketAddrV6` writes for a
/// version 6 socket address.
pub uninterp spec fn socket_v6_text(ip: u128, port: u16, flowinfo: u32, scope_id: u32) -> Seq<char>;

/// The text of a socket address: for version 4 the dotted address, a colon
/// and the port.
pub open spec fn socket_display(a: SocketAddress) -> Seq<char> {
    match a {
        SocketAddress::V4 { ip, port } => crate::classifier::classifier::dotted(ip) + ":"@ + crate::chars::decimal(port as nat),
        SocketAddress::V6 { ip, port, flowinfo, scope_id } => socket_v6_text(ip, port, flowinfo, scope_id),
    }
}

/// Writes a socket address with `Display` of `core::net::SocketAddr`.
#[verifier::external_body]
fn socket_to_string(a: SocketAddress) -> (r: String)
    ensures
        match a {
            SocketAddress::V4 { ip, port } => r@ == crate::classifier::classifier::dotted(ip) + ":"@
                + crate::chars::decimal(port as nat),
            SocketAddress::V6 { ip, port, flowinfo, scope_id } => r@ == socket_v6_text(ip, port, flowinfo, scope_id),
        },
{
    match a {
        SocketAddress::V4 { ip, port } => core::net::SocketAddrV4::new(core::net::Ipv4Addr::from_bits(ip), port).to_string(),
        SocketAddress::V6 { ip, port, flowinfo, scope_id } => {
            core::net::SocketAddrV6::new(core::net::Ipv6Addr::from_bits(ip), port, flowinfo, scope_id).to_string()
        },
    }
}

/// The prefix that marks a Unix socket path.
pub open spec fn unix_prefix() -> Seq<char> {
    "unix:"@
}

/// The address that `text` names: a Unix socket where it starts with
/// `unix:`, else a TCP socket address.
pub open spec fn address_of(text: Seq<char>) -> Option<AddressView> {
    if text.len() >= 5 && text.take(5) == unix_prefix() {
        Some(AddressView::UnixSocket(text.skip(5)))
    } else {
        match socket_address_of(text) {
            Some(a) => Some(AddressView::TcpSocket(a)),
            None => None,
        }
    }
}

impl Address {
    /// Reads an address: `unix:` and a path, or a socket address.
    pub fn from_str(s: &str) -> (r: Option<Address>)
        ensures
            match (r, address_of(s@)) {
                (Some(a), Some(v)) => a@ == v,
                (None, None) => true,
                _ => false,
            },
    {
        let cs = crate::chars::chars_of(s);
        if cs.len() >= 5 {
            let head = crate::chars::string_of_range(cs.as_slice(), 0, 5);
            if str_eq(head.as_str(), "unix:") {
                let path = crate::chars::string_of_range(cs.as_slice(), 5, cs.len());
                assert(s@.take(5) =~= cs@.subrange(0, 5));
                assert(s@.skip(5) =~= cs@.subrange(5, cs@.len() as int));
                return Some(Address::UnixSocket(path));
            }
            assert(s@.take(5) =~= cs@.subrange(0, 5));
        }
        match parse_socket_address(s) {
            Some(a) => Some(Address::TcpSocket(a)),
            None => None,
        }
    }

    /// The address in words: the socket address, or the socket path.
    pub fn describe(&self) -> (r: String)
        ensures
            r@ == match self@ {
                AddressView::TcpSocket(a) => socket_display(a),
                AddressView::UnixSocket(p) => p,
            },
    {
        match self {
            Address::TcpSocket(a) => socket_to_string(*a),
            Address::UnixSocket(p) => copy_string(p),
        }
    }

    /// A copy of the address.
    pub fn duplicate(&self) -> (r: Address)
        ensures
            r@ == self@,
    {
        match self {
            Address::TcpSocket(a) => Address::TcpSocket(*a),
            Address::UnixSocket(p) => Address::UnixSocket(copy_string(p)),
        }
    }
}

/// How the server answers: as a proxy that serves the requests it lets
/// through, or as a preflight check that only says yes or no.
#[derive(Clone, Copy, Debug, PartialEq, Eq, Structural)]
pub enum ServerMode {
    Proxy,
    Preflight,
}

/// The most verbose level of log messages that are written.
#[derive(Clone, Copy, Debug, PartialEq, Eq, Structural)]
pub enum LevelFilter {
    Off,
    Error,
    Warn,
    Info,
    Debug,
    Trace,
}

/// Where log messages go.
#[derive(Clone, Copy, Debug, PartialEq, Eq, Structural)]
pub enum LogTarget {
    Stdout,
    Stderr,
}

/// How many paragraphs a page has, and how many words each paragraph has.
#[derive(Clone, Copy, Debug, PartialEq, Eq, Structural)]
pub struct Paragraphs {
    pub min_words: usize,
    pub max_words: usize,
    pub min_count: usize,
    pub max_count: usize,
}

impl Paragraphs {
    /// The range of the number of words of a paragraph.
    pub fn num_words(&self) -> (r: RangeInclusive<usize>)
        ensures
            r@.start == self.min_words,
            r@.end == self.max_words,
            !r@.exhausted,
    {
        RangeInclusive::new(self.min_words, self.max_words)
    }

    /// The range of the number of paragraphs of a page.
    pub fn count(&self) -> (r: RangeInclusive<usize>)
        ensures
            r@.start == self.min_count,
            r@.end == self.max_count,
            !r@.exhausted,
    {
        RangeInclusive::new(self.min_count, self.max_count)
    }
}

impl Default for Paragraphs {
    fn default() -> (r: Paragraphs)
        ensures
            r == (Paragraphs { min_words: 16, max_words: 32, min_count: 4, max_count: 6 }),
    {
        Paragraphs { min_words: 16, max_words: 32, min_count: 4, max_count: 6 }
    }
}

/// How many links a page has, how many words each link has, what joins the
/// words of a link, and whether a link ends with a slash.
#[derive(Clone, Copy, Debug, PartialEq, Eq, Structural)]
pub struct Links {
    pub min_words: usize,
    pub max_words: usize,
    pub min_count: usize,
    pub max_count: usize,
    pub separator: char,
    pub trailing_slash: bool,
}

impl Links {
    /// The range of the number of words of a link.
    pub fn num_words(&self) -> (r: RangeInclusive<usize>)
        ensures
            r@.start == self.min_words,
            r@.end == self.max_words,
            !r@.exhausted,
    {
        RangeInclusive::new(self.min_words, self.max_words)
    }

    /// The range of the number of links of a page.
    pub fn count(&self) -> (r: RangeInclusive<usize>)
        ensures
            r@.start == self.min_count,
            r@.end == self.max_count,
            !r@.exhausted,
    {
        RangeInclusive::new(self.min_count, self.max_count)
    }
}

impl Default for Links {
    fn default() -> (r: Links)
        ensures
            r == (Links {
                min_words: 2,
                max_words: 4,
                min_count: 2,
                max_count: 5,
                separator: '-',
                trailing_slash: false,
            }),
    {
        Links { min_words: 2, max_words: 4, min_count: 2, max_count: 5, separator: '-', trailing_slash: false }
    }
}

/// The settings of the request handler.
#[derive(Debug, PartialEq, Eq)]
pub struct Server {
    pub listen: Address,
    pub mode: ServerMode,
    pub status_code_valid: u16,
    pub status_code_spam: u16,
}

/// A `Server` with its strings taken as characters.
pub struct ServerView {
    pub listen: AddressView,
    pub mode: ServerMode,
    pub status_code_valid: u16,
    pub status_code_spam: u16,
}

impl View for Server {
    type V = ServerView;

    open spec fn view(&self) -> ServerView {
        ServerView {
            listen: self.listen@,
            mode: self.mode,
            status_code_valid: self.status_code_valid,
            status_code_spam: self.status_code_spam,
        }
    }
}

/// The address `127.0.0.1:port`.
pub open spec fn local_address(port: u16) -> AddressView {
    AddressView::TcpSocket(SocketAddress::V4 { ip: 0x7f00_0001u32, port })
}

/// The default request handler: a preflight check on `127.0.0.1:4000`
/// that answers 200 to valid requests and 401 to spam.
pub open spec fn default_server() -> ServerView {
    ServerView { listen: local_address(4000), mode: ServerMode::Preflight, status_code_valid: 200, status_code_spam: 401 }
}

impl Default for Server {
    fn default() -> (r: Server)
        ensures
            r@ == default_server(),
    {
        Server {
            listen: Address::TcpSocket(SocketAddress::V4 { ip: 0x7f00_0001u32, port: 4000 }),
            mode: ServerMode::Preflight,
            status_code_valid: 200,
            status_code_spam: 401,
        }
    }
}

/// The settings of the logger.
#[derive(Clone, Copy, Debug, PartialEq, Eq, Structural)]
pub struct Logging {
    pub level: LevelFilter,
    pub target: LogTarget,
    pub color: bool,
    pub timestamps: bool,
    pub request_handler: bool,
}

impl Default for Logging {
    fn default() -> (r: Logging)
        ensures
            r == (Logging {
                level: LevelFilter::Off,
                target: LogTarget::Stderr,
                color: false,
                timestamps: true,
                request_handler: false,
            }),
    {
        Logging { level: LevelFilter::Off, target: LogTarget::Stderr, color: false, timestamps: true, request_handler: false }
    }
}

/// The settings of the metrics endpoint.
#[derive(Debug, PartialEq, Eq)]
pub struct Metrics {
    pub listen: Address,
    pub persist_path: Option<String>,
}

/// A `Metrics` with its strings taken as characters.
pub struct MetricsView {
    pub listen: AddressView,
    pub persist_path: Option<Seq<char>>,
}

/// The characters of an optional string.
pub open spec fn opt_chars(s: Option<String>) -> Option<Seq<char>> {
    match s {
        Some(t) => Some(t@),
        None => None,
    }
}

impl View for Metrics {
    type V = MetricsView;

    open spec fn view(&self) -> MetricsView {
        MetricsView { listen: self.listen@, persist_path: opt_chars(self.persist_path) }
    }
}

/// The default metrics endpoint: `127.0.0.1:4001`, persisting nothing.
pub open spec fn default_metrics() -> MetricsView {
    MetricsView { listen: local_address(4001), persist_path: None }
}

impl Default for Metrics {
    fn default() -> (r: Metrics)
        ensures
            r@ == default_metrics(),
    {
        Metrics {
            listen: Address::TcpSocket(SocketAddress::V4 { ip: 0x7f00_0001u32, port: 4001 }),
            persist_path: None,
        }
    }
}

/// The settings of the request classifier.
#[derive(Debug, PartialEq, Eq)]
pub struct Classifier {
    pub unwanted_asns: Vec<u32>,
    pub asns_db_path: Option<String>,
    pub robots_json_path: Option<String>,
    pub unwanted_agents: Vec<String>,
    pub trusted_ips: Vec<IpAddress>,
    pub trusted_paths: Vec<String>,
    pub trusted_agents: Vec<String>,
    /// The name of the header that carries a trusted decision, in lower case.
    pub trusted_decision_header: Option<String>,
}

/// A `Classifier` with its strings taken as characters.
pub struct ClassifierView {
    pub unwanted_asns: Seq<u32>,
    pub asns_db_path: Option<Seq<char>>,
    pub robots_json_path: Option<Seq<char>>,
    pub unwanted_agents: Seq<Seq<char>>,
    pub trusted_ips: Seq<IpAddress>,
    pub trusted_paths: Seq<Seq<char>>,
    pub trusted_agents: Seq<Seq<char>>,
    pub trusted_decision_header: Option<Seq<char>>,
}

impl View for Classifier {
    type V = ClassifierView;

    open spec fn view(&self) -> ClassifierView {
        ClassifierView {
            unwanted_asns: self.unwanted_asns@,
            asns_db_path: opt_chars(self.asns_db_path),
            robots_json_path: opt_chars(self.robots_json_path),
            unwanted_agents: self.unwanted_agents.deep_view(),
            trusted_ips: self.trusted_ips@,
            trusted_paths: self.trusted_paths.deep_view(),
            trusted_agents: self.trusted_agents.deep_view(),
            trusted_decision_header: opt_chars(self.trusted_decision_header),
        }
    }
}

/// The default classifier settings: nothing is trusted or unwanted.
pub open spec fn default_classifier() -> ClassifierView {
    ClassifierView {
        unwanted_asns: Seq::empty(),
        asns_db_path: None,
        robots_json_path: None,
        unwanted_agents: Seq::empty(),
        trusted_ips: Seq::empty(),
        trusted_paths: Seq::empty(),
        trusted_agents: Seq::empty(),
        trusted_decision_header: None,
    }
}

impl Default for Classifier {
    fn default() -> (r: Classifier)
        ensures
            r@ == default_classifier(),
    {
        let r = Classifier {
            unwanted_asns: Vec::new(),
            asns_db_path: None,
            robots_json_path: None,
            unwanted_agents: Vec::new(),
            trusted_ips: Vec::new(),
            trusted_paths: Vec::new(),
            trusted_agents: Vec::new(),
            trusted_decision_header: None,
        };
        assert(r.unwanted_agents.deep_view() =~= Seq::<Seq<char>>::empty());
        assert(r.trusted_paths.deep_view() =~= Seq::<Seq<char>>::empty());
        assert(r.trusted_agents.deep_view() =~= Seq::<Seq<char>>::empty());
        r
    }
}

/// The settings of the generated pages.
#[derive(Debug, PartialEq, Eq)]
pub struct Garbage {
    pub source_files: Vec<String>,
    pub words_file: Option<String>,
    pub paragraphs: Paragraphs,
    pub links: Links,
    pub template_file: Option<String>,
    pub poisons: Vec<String>,
}

/// A `Garbage` with its strings taken as characters.
pub struct GarbageView {
    pub source_files: Seq<Seq<char>>,
    pub words_file: Option<Seq<char>>,
    pub paragraphs: Paragraphs,
    pub links: Links,
    pub template_file: Option<Seq<char>>,
    pub poisons: Seq<Seq<char>>,
}

impl View for Garbage {
    type V = GarbageView;

    open spec fn view(&self) -> GarbageView {
        GarbageView {
            source_files: self.source_files.deep_view(),
            words_file: opt_chars(self.words_file),
            paragraphs: self.paragraphs,
            links: self.links,
            template_file: opt_chars(self.template_file),
            poisons: self.poisons.deep_view(),
        }
    }
}

/// The default page settings: no corpus, template or poison, and the
/// default paragraphs and links.
pub open spec fn default_garbage() -> GarbageView {
    GarbageView {
        source_files: Seq::empty(),
        words_file: None,
        paragraphs: Paragraphs { min_words: 16, max_words: 32, min_count: 4, max_count: 6 },
        links: Links { min_words: 2, max_words: 4, min_count: 2, max_count: 5, separator: '-', trailing_slash: false },
        template_file: None,
        poisons: Seq::empty(),
    }
}

impl Default for Garbage {
    fn default() -> (r: Garbage)
        ensures
            r@ == default_garbage(),
    {
        let r = Garbage {
            source_files: Vec::new(),
            words_file: None,
            paragraphs: Paragraphs::default(),
            links: Links::default(),
            template_file: None,
            poisons: Vec::new(),
        };
        assert(r.source_files.deep_view() =~= Seq::<Seq<char>>::empty());
        assert(r.poisons.deep_view() =~= Seq::<Seq<char>>::empty());
        r
    }
}

/// All the settings.
#[derive(Debug, PartialEq, Eq)]
pub struct Config {
    pub classifier: Classifier,
    pub garbage: Garbage,
    pub server: Server,
    pub logging: Logging,
    pub metrics: Option<Metrics>,
}

/// A `Config` with its strings taken as characters.
pub struct ConfigView {
    pub classifier: ClassifierView,
    pub garbage: GarbageView,
    pub server: ServerView,
    pub logging: Logging,
    pub metrics: Option<MetricsView>,
}

impl View for Config {
    type V = ConfigView;

    open spec fn view(&self) -> ConfigView {
        ConfigView {
            classifier: self.classifier@,
            garbage: self.garbage@,
            server: self.server@,
            logging: self.logging,
            metrics: match self.metrics {
                Some(m) => Some(m@),
                None => None,
            },
        }
    }
}

/// The default settings.
pub open spec fn default_config() -> ConfigView {
    ConfigView {
        classifier: default_classifier(),
        garbage: default_garbage(),
        server: default_server(),
        logging: Logging {
            level: LevelFilter::Off,
            target: LogTarget::Stderr,
            color: false,
            timestamps: true,
            request_handler: false,
        },
        metrics: None,
    }
}

impl Default for Config {
    fn default() -> (r: Config)
        ensures
            r@ == default_config(),
    {
        Config {
            classifier: Classifier::default(),
            garbage: Garbage::default(),
            server: Server::default(),
            logging: Logging::default(),
            metrics: None,
        }
    }
}

} // verus!
