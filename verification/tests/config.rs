use poison_swamp_level::config::document::{Entry, EntryValue, Node};
use poison_swamp_level::config::parse::{parse_config, parse_garbage_links};
use poison_swamp_level::config::parse_error::{ParseError, back_n_newlines, forward_n_newlines};
use poison_swamp_level::config::settings::{
    Address, Config, LevelFilter, Links, LogTarget, Paragraphs, ServerMode, SocketAddress,
};

fn node(name: &str, entries: Vec<Entry>) -> Node {
    Node { name: name.to_string(), name_len: name.len(), offset: 0, entries, children: Vec::new() }
}

fn arg(value: EntryValue, offset: usize, len: usize) -> Entry {
    Entry { name: None, value, offset, len }
}

fn prop(name: &str, value: EntryValue, offset: usize, len: usize) -> Entry {
    Entry { name: Some(name.to_string()), value, offset, len }
}

fn integer(n: i128) -> EntryValue {
    EntryValue::Integer(n)
}

fn text(s: &str) -> EntryValue {
    EntryValue::String(s.to_string())
}

#[test]
fn int_seq() {
    // numbers 1 2 3 4
    let numbers = node(
        "numbers",
        vec![arg(integer(1), 8, 1), arg(integer(2), 10, 1), arg(integer(3), 12, 1), arg(integer(4), 14, 1)],
    );
    assert!(matches!(numbers.int_seq::<u8>().as_deref(), Ok(&[1u8, 2, 3, 4])));
}

#[test]
fn int_seq_parses_empty_node() {
    // numbers
    let numbers = node("numbers", vec![]);
    assert!(matches!(numbers.int_seq::<u8>().as_deref(), Ok(&[])));
}

#[test]
fn int_seq_rejects_named_props() {
    // numbers 1 2 3 four=4
    let numbers = node(
        "numbers",
        vec![arg(integer(1), 8, 1), arg(integer(2), 10, 1), arg(integer(3), 12, 1), prop("four", integer(4), 14, 6)],
    );
    assert!(matches!(numbers.int_seq::<u8>(), Err(ParseError::InvalidSpan { .. })));
}

#[test]
fn int_seq_rejects_string_props() {
    // numbers 1 two three 4
    let numbers = node(
        "numbers",
        vec![arg(integer(1), 8, 1), arg(text("two"), 10, 3), arg(text("three"), 14, 5), arg(integer(4), 20, 1)],
    );
    assert!(matches!(numbers.int_seq::<u8>(), Err(ParseError::InvalidSpan { .. })));
}

#[test]
fn int_seq_rejects_incompatible_numbers() {
    // numbers 254 255 256 257
    let numbers = node(
        "numbers",
        vec![arg(integer(254), 8, 3), arg(integer(255), 12, 3), arg(integer(256), 16, 3), arg(integer(257), 20, 3)],
    );
    assert!(matches!(numbers.int_seq::<u8>(), Err(ParseError::InvalidSpan { .. })));
}

fn slice(chars: &[char], start: usize, end: usize) -> String {
    chars[start..end].iter().collect()
}

#[test]
fn test_back_and_forward_newlines() {
    let haystack = "Line 1
Line 2
Line 3
Line 4
Line 5
Line 6
Line 7
Line 8
Line 9
Line 10";
    let chars: Vec<char> = haystack.chars().collect();
    {
        let needle = "5";
        let span_start = haystack.find(needle).unwrap();
        let span_end = span_start + needle.len();

        let start = back_n_newlines(3, &chars, span_start);
        let end = forward_n_newlines(3, &chars, span_end);

        let expected_result = "Line 3
Line 4
Line 5
Line 6
Line 7";
        assert_eq!(expected_result, slice(&chars, start, end));
    }

    {
        let needle = "2";
        let span_start = haystack.find(needle).unwrap();
        let span_end = span_start + needle.len();

        let start = back_n_newlines(3, &chars, span_start);
        let end = forward_n_newlines(3, &chars, span_end);

        let expected_result = "Line 1
Line 2
Line 3
Line 4";
        assert_eq!(expected_result, slice(&chars, start, end));
    }

    {
        let needle = "9";
        let span_start = haystack.find(needle).unwrap();
        let span_end = span_start + needle.len();

        let start = back_n_newlines(3, &chars, span_start);
        let end = forward_n_newlines(3, &chars, span_end);

        let expected_result = "Line 7
Line 8
Line 9
Line 10";
        assert_eq!(expected_result, slice(&chars, start, end));
    }
}

const FULL: &str = r#"
server "proxy" {
    listen "127.0.0.1:8080"
    status-codes valid=204 spam=403
}
classifier {
    trusted-decision-header "X-Decision"
    user-agents {
        robots-json-path "robots.json"
        unwanted "GPTBot" "CCBot"
        trusted "Mozilla"
    }
    trusted-paths "/robots.txt" "/favicon.ico"
    asns {
        database "asn.mmdb"
        unwanted 13335 15169
    }
}
garbage {
    corpus-files "a.txt" "b.txt"
    words-file "words.txt"
    template-file "page.html"
    poisons "tarpit"
    paragraphs min=2 max=3 {
        words min=5 max=9
    }
    links min=1 max=2 {
        words min=1 max=3
        separator "_"
        trailing-slash on
    }
}
logging {
    level "Debug"
    target "stdout"
    color #true
    request-handler "off"
}
metrics {
    listen "unix:/tmp/psl.sock"
    persist-path "/tmp/metrics.json"
}
"#;

#[test]
fn parse_config_reads_every_block() {
    let config = parse_config(FULL).unwrap();
    assert_eq!(config.server.mode, ServerMode::Proxy);
    assert_eq!(config.server.listen, Address::TcpSocket(SocketAddress::V4 { ip: 0x7f00_0001, port: 8080 }));
    assert_eq!(config.server.status_code_valid, 204);
    assert_eq!(config.server.status_code_spam, 403);

    assert_eq!(config.classifier.trusted_decision_header.as_deref(), Some("x-decision"));
    assert_eq!(config.classifier.robots_json_path.as_deref(), Some("robots.json"));
    assert_eq!(config.classifier.unwanted_agents, vec!["GPTBot", "CCBot"]);
    assert_eq!(config.classifier.trusted_agents, vec!["Mozilla"]);
    assert_eq!(config.classifier.trusted_paths, vec!["/robots.txt", "/favicon.ico"]);
    assert_eq!(config.classifier.asns_db_path.as_deref(), Some("asn.mmdb"));
    assert_eq!(config.classifier.unwanted_asns, vec![13335u32, 15169]);

    assert_eq!(config.garbage.source_files, vec!["a.txt", "b.txt"]);
    assert_eq!(config.garbage.words_file.as_deref(), Some("words.txt"));
    assert_eq!(config.garbage.template_file.as_deref(), Some("page.html"));
    assert_eq!(config.garbage.poisons, vec!["tarpit"]);
    assert_eq!(
        config.garbage.paragraphs,
        Paragraphs { min_words: 5, max_words: 9, min_count: 2, max_count: 3 }
    );
    assert_eq!(
        config.garbage.links,
        Links { min_words: 1, max_words: 3, min_count: 1, max_count: 2, separator: '_', trailing_slash: true }
    );
    assert_eq!(*config.garbage.paragraphs.count().start(), 2);
    assert_eq!(*config.garbage.paragraphs.num_words().end(), 9);
    assert_eq!(*config.garbage.links.count().end(), 2);
    assert_eq!(*config.garbage.links.num_words().start(), 1);

    assert_eq!(config.logging.level, LevelFilter::Debug);
    assert_eq!(config.logging.target, LogTarget::Stdout);
    assert!(config.logging.color);
    assert!(!config.logging.request_handler);
    assert!(config.logging.timestamps);

    let metrics = config.metrics.unwrap();
    assert_eq!(metrics.listen, Address::UnixSocket("/tmp/psl.sock".to_string()));
    assert_eq!(metrics.persist_path.as_deref(), Some("/tmp/metrics.json"));
}

#[test]
fn parse_config_of_empty_text_is_the_default() {
    let config = parse_config("").unwrap();
    assert_eq!(config, Config::default());
    assert_eq!(config.server.mode, ServerMode::Preflight);
    assert_eq!(config.server.listen, Address::TcpSocket(SocketAddress::V4 { ip: 0x7f00_0001, port: 4000 }));
    assert_eq!(config.server.status_code_valid, 200);
    assert_eq!(config.server.status_code_spam, 401);
    assert_eq!(config.logging.level, LevelFilter::Off);
    assert_eq!(config.logging.target, LogTarget::Stderr);
    assert!(config.metrics.is_none());
    assert_eq!(config.garbage.paragraphs, Paragraphs { min_words: 16, max_words: 32, min_count: 4, max_count: 6 });
    assert_eq!(
        config.garbage.links,
        Links { min_words: 2, max_words: 4, min_count: 2, max_count: 5, separator: '-', trailing_slash: false }
    );
}

#[test]
fn metrics_block_has_its_defaults() {
    let config = parse_config("metrics {\n}\n").unwrap();
    let metrics = config.metrics.unwrap();
    assert_eq!(metrics.listen, Address::TcpSocket(SocketAddress::V4 { ip: 0x7f00_0001, port: 4001 }));
    assert!(metrics.persist_path.is_none());
}

#[test]
fn unknown_blocks_are_ignored() {
    let config = parse_config("whatever 1 2 3\nserver \"preflight\"\n").unwrap();
    assert_eq!(config.server.mode, ServerMode::Preflight);
}

fn message_of(source: &str) -> (String, bool) {
    match parse_config(source) {
        Err(ParseError::InvalidSpan { source: s, message, .. }) => (message, s.as_deref() == Some(source)),
        other => panic!("unexpected outcome {other:?}"),
    }
}

#[test]
fn parse_config_reports_bad_values() {
    assert_eq!(message_of("server \"weird\"\n"), ("unsupported server mode".to_string(), true));
    assert_eq!(message_of("server\n"), ("missing argument".to_string(), true));
    assert_eq!(message_of("server 1\n"), ("server block must have one string argument".to_string(), true));
    assert_eq!(
        message_of("server \"proxy\" {\n status-codes valid=99\n}\n"),
        ("invalid HTTP status code".to_string(), true)
    );
    assert_eq!(
        message_of("server \"proxy\" {\n status-codes spam=70000\n}\n"),
        ("must be a u16 integer".to_string(), true)
    );
    assert_eq!(
        message_of("server \"proxy\" {\n listen \"nowhere\"\n}\n"),
        ("invalid socket address".to_string(), true)
    );
    assert_eq!(
        message_of("classifier {\n trusted-decision-header \"bad header\"\n}\n"),
        ("invalid HTTP header name".to_string(), true)
    );
    assert_eq!(
        message_of("classifier {\n asns {\n unwanted 1 -2\n }\n}\n"),
        ("must be a u32 integer".to_string(), true)
    );
    assert_eq!(
        message_of("classifier {\n trusted-paths \"/a\" x=\"/b\"\n}\n"),
        ("must not be a named property".to_string(), true)
    );
    assert_eq!(message_of("classifier {\n trusted-paths 1\n}\n"), ("must be a string".to_string(), true));
    assert_eq!(message_of("garbage {\n words-file \"\"\n}\n"), ("must not be empty".to_string(), true));
    assert_eq!(
        message_of("garbage {\n links {\n trailing-slash maybe\n }\n}\n"),
        ("must have one boolean(ish) argument".to_string(), true)
    );
    assert_eq!(message_of("logging {\n level \"loud\"\n}\n"), ("invalid log level".to_string(), true));
    assert_eq!(message_of("logging {\n target \"file\"\n}\n"), ("invalid log target".to_string(), true));
}

#[test]
fn parse_config_reports_kdl_errors() {
    match parse_config("server \"proxy\" {\n") {
        Err(ParseError::Kdl(message)) => assert_eq!(message, "Failed to parse KDL document"),
        other => panic!("unexpected outcome {other:?}"),
    }
}

#[test]
fn log_levels_ignore_case() {
    for (name, level) in [
        ("off", LevelFilter::Off),
        ("ERROR", LevelFilter::Error),
        ("Warn", LevelFilter::Warn),
        ("info", LevelFilter::Info),
        ("tRaCe", LevelFilter::Trace),
    ] {
        let config = parse_config(&format!("logging {{\n level \"{name}\"\n}}\n")).unwrap();
        assert_eq!(config.logging.level, level);
    }
}

#[test]
fn links_block_starts_from_the_defaults() {
    // links max=7 { separator "~" }
    let mut links = node("links", vec![prop("max", integer(7), 6, 5)]);
    links.children.push(node("separator", vec![arg(text("~"), 10, 3)]));
    let parsed = parse_garbage_links(&links).unwrap();
    assert_eq!(
        parsed,
        Links { min_words: 2, max_words: 4, min_count: 2, max_count: 7, separator: '~', trailing_slash: false }
    );
}

#[test]
fn first_property_wins() {
    // paragraphs min=1 min=2
    let mut garbage = node("garbage", vec![]);
    garbage.children.push(node("paragraphs", vec![prop("min", integer(1), 11, 5), prop("min", integer(2), 17, 5)]));
    let doc = poison_swamp_level::config::document::Document { nodes: vec![garbage] };
    let config = poison_swamp_level::config::parse::parse_doc(&doc).unwrap();
    assert_eq!(config.garbage.paragraphs.min_count, 1);
}

#[test]
fn errors_point_at_the_name_of_a_node_without_argument() {
    let server = Node { name: "server".to_string(), name_len: 6, offset: 10, entries: vec![], children: vec![] };
    let doc = poison_swamp_level::config::document::Document { nodes: vec![server] };
    match poison_swamp_level::config::parse::parse_doc(&doc) {
        Err(ParseError::InvalidSpan { source: None, span, message }) => {
            assert_eq!(span, (10, 16));
            assert_eq!(message, "missing argument");
        },
        other => panic!("unexpected outcome {other:?}"),
    }
}

#[test]
fn describe_and_explain_an_error() {
    let source = "one\ntwo\nthree x\nfour\nfive\nsix\n".to_string();
    let error = ParseError::InvalidSpan { source: Some(source), span: (14, 15), message: "bad thing".to_string() };
    assert_eq!(error.describe(), "bad thing at x");
    let explained = error.explain().describe();
    assert_eq!(
        explained,
        "bad thing at x on line 3:\n\n1  one\n2  two\n3  three x\n         ^\n4  four\n5  five\n"
    );
}

#[test]
fn explain_numbers_lines_in_wide_columns() {
    let mut source = String::new();
    for n in 1..=12 {
        source.push_str(&format!("line {n}\n"));
    }
    let start = source.find("line 9").unwrap();
    let error = ParseError::InvalidBlock { source: Some(source), span: (start, start + 4), message: "here".to_string() };
    assert_eq!(
        error.explain().describe(),
        "here at line on line 8:\n\n 6  line 7\n 7  line 8\n 8  line 9\n    ^^^^\n 9  line 10\n10  line 11\n"
    );
}

#[test]
fn describe_errors_without_source() {
    assert_eq!(
        ParseError::Io("config.kdl".to_string(), "No such file".to_string()).describe(),
        "Could not open file config.kdl: No such file"
    );
    assert_eq!(ParseError::Kdl("Failed to parse KDL document".to_string()).describe(), "Failed to parse KDL document");
    let error = ParseError::InvalidSpan { source: None, span: (1, 2), message: "plain".to_string() };
    assert_eq!(error.describe(), "plain");
    assert_eq!(error.explain().describe(), "plain");
    assert_eq!(
        ParseError::Io("c".to_string(), "gone".to_string()).explain().describe(),
        "Could not open file c: gone"
    );
}

#[test]
fn address_from_str() {
    assert_eq!(Address::from_str("unix:/run/psl"), Some(Address::UnixSocket("/run/psl".to_string())));
    assert_eq!(
        Address::from_str("[::1]:80"),
        Some(Address::TcpSocket(SocketAddress::V6 { ip: 1, port: 80, flowinfo: 0, scope_id: 0 }))
    );
    assert_eq!(Address::from_str("10.1.2.3:9"), Some(Address::TcpSocket(SocketAddress::V4 { ip: 0x0a01_0203, port: 9 })));
    assert_eq!(Address::from_str("unix"), None);
}

#[test]
fn addresses_in_words() {
    assert_eq!(Address::TcpSocket(SocketAddress::V4 { ip: 0x7f00_0001, port: 4000 }).describe(), "127.0.0.1:4000");
    assert_eq!(
        Address::TcpSocket(SocketAddress::V6 { ip: 1, port: 80, flowinfo: 0, scope_id: 0 }).describe(),
        "[::1]:80"
    );
    assert_eq!(Address::UnixSocket("/run/psl".to_string()).describe(), "/run/psl");
}

#[test]
fn header_names_may_have_up_to_65535_bytes() {
    let longest = "x".repeat(65535);
    let text = format!("classifier {{\n    trusted-decision-header \"{longest}\"\n}}\n");
    let config = parse_config(&text).ok().unwrap();
    assert_eq!(config.classifier.trusted_decision_header.as_deref(), Some(longest.as_str()));
    let too_long = "x".repeat(65536);
    let text = format!("classifier {{\n    trusted-decision-header \"{too_long}\"\n}}\n");
    assert!(parse_config(&text).is_err());
}
