use poison_swamp_level::classifier::classifier::{
    Classification, Classifier, ClassifierError, Decision, Request, SpamReason, ValidReason, asn_of_lookup,
    match_agent,
};
use poison_swamp_level::classifier::matcher::Matcher;
use poison_swamp_level::config::parse::parse_config;
use poison_swamp_level::config::settings::{Config, IpAddress};

const CONFIG: &str = r#"
classifier {
    trusted-decision-header "X-Decision"
    user-agents {
        unwanted "GPTBot" "CCBot"
        trusted "FriendlyBot"
    }
    trusted-paths "/robots.txt"
    asns {
        unwanted 13335
    }
}
garbage {
    poisons "tarpit" "swamp"
}
"#;

fn classifier() -> Classifier {
    let mut config = parse_config(CONFIG).unwrap();
    config.classifier.trusted_ips.push(IpAddress::V4(0x0a00_0001));
    Classifier::new(&config, None, Some(vec!["Bytespider".to_string()])).unwrap()
}

fn request(path: &str, agent: Option<&str>, ip: Option<IpAddress>) -> Request {
    let mut headers = Vec::new();
    if let Some(a) = agent {
        headers.push(("user-agent".to_string(), a.as_bytes().to_vec()));
    }
    headers.push(("host".to_string(), b"example.com".to_vec()));
    Request { path: path.to_string(), path_and_query: Some(path.to_string()), remote_ip: ip, headers }
}

fn describe(c: &Classification) -> String {
    c.decision.describe()
}

#[test]
fn ordinary_requests_are_valid() {
    let c = classifier().classify(&request("/index.html", Some("Mozilla/5.0"), None));
    assert!(matches!(c.decision, Decision::Valid(ValidReason::Default)));
    assert_eq!(describe(&c), "valid default");
    assert_eq!(c.agent.as_deref(), Some("Mozilla/5.0"));
    assert_eq!(c.host.as_deref(), Some("example.com"));
    assert_eq!(c.poison, None);
    assert_eq!(c.asn, None);
}

#[test]
fn poisoned_paths_are_spam() {
    let c = classifier().classify(&request("/a/swamp/tarpit", Some("Mozilla/5.0"), None));
    assert_eq!(describe(&c), "spam poison \"tarpit\"");
    assert_eq!(c.poison.as_deref(), Some("tarpit"));
}

#[test]
fn unwanted_agents_are_spam() {
    let c = classifier().classify(&request("/", Some("Mozilla/5.0 (compatible; GPTBot/1.0)"), None));
    assert_eq!(describe(&c), "spam unwanted agent \"GPTBot\"");
    let c = classifier().classify(&request("/", Some("Bytespider"), None));
    assert_eq!(describe(&c), "spam unwanted agent \"Bytespider\"");
}

#[test]
fn trusted_paths_win_over_everything() {
    let c = classifier().classify(&request("/robots.txt", Some("GPTBot"), None));
    assert!(matches!(c.decision, Decision::Valid(ValidReason::TrustedPath(ref p)) if p == "/robots.txt"));
    assert_eq!(describe(&c), "valid trusted path \"/robots.txt\"");
}

#[test]
fn trusted_addresses_win_over_poisons() {
    let c = classifier().classify(&request("/tarpit", Some("GPTBot"), Some(IpAddress::V4(0x0a00_0001))));
    assert_eq!(describe(&c), "valid trusted IP 10.0.0.1");
    assert_eq!(c.ip, Some(IpAddress::V4(0x0a00_0001)));
}

#[test]
fn trusted_agents_win_over_poisons() {
    let c = classifier().classify(&request("/tarpit", Some("FriendlyBot CCBot"), None));
    assert_eq!(describe(&c), "valid trusted agent \"FriendlyBot\"");
}

#[test]
fn agents_that_are_not_visible_ascii_are_ignored() {
    let mut req = request("/", None, None);
    req.headers.push(("user-agent".to_string(), vec![b'G', b'P', b'T', b'B', b'o', b't', 0x80]));
    let c = classifier().classify(&req);
    assert_eq!(c.agent, None);
    assert!(matches!(c.decision, Decision::Valid(ValidReason::Default)));
}

#[test]
fn trusted_decision_header() {
    let classifier = classifier();
    let mut req = request("/", None, None);
    assert!(classifier.trusted_decision(&req).is_none());
    req.headers.push(("x-decision".to_string(), b"spam".to_vec()));
    let c = classifier.trusted_decision(&req).unwrap();
    assert!(matches!(c.decision, Decision::Spam(SpamReason::TrustedDecision)));
    assert_eq!(describe(&c), "spam trusted decision header");
    assert_eq!(c.host, None);
    let mut req = request("/", None, None);
    req.headers.push(("x-decision".to_string(), b"valid".to_vec()));
    let c = classifier.trusted_decision(&req).unwrap();
    assert_eq!(describe(&c), "valid trusted decision header");
    let mut req = request("/", None, None);
    req.headers.push(("x-decision".to_string(), b"maybe".to_vec()));
    assert!(classifier.trusted_decision(&req).is_none());
}

#[test]
fn reasons_in_words() {
    assert_eq!(SpamReason::UnwantedASN(13335).describe(), "unwanted ASN 13335");
    assert_eq!(ValidReason::TrustedIP(IpAddress::V6(1)).describe(), "trusted IP ::1");
    assert_eq!(SpamReason::Poison("a\"b".to_string()).describe(), "poison \"a\\\"b\"");
    assert_eq!(Decision::Valid(ValidReason::Default).describe(), "valid default");
}

#[test]
fn invalid_header_names_are_refused() {
    let mut config = Config::default();
    config.classifier.trusted_decision_header = Some("bad header".to_string());
    match Classifier::new(&config, None, None) {
        Err(ClassifierError::InvalidHeader(h)) => {
            assert_eq!(h, "bad header");
            assert_eq!(ClassifierError::InvalidHeader(h).describe(), "invalid header: bad header");
        },
        _ => panic!("the header should be refused"),
    }
}

#[test]
fn matcher_finds_one_of_its_patterns() {
    let m = Matcher::new(vec!["abc".to_string(), "xyz".to_string()]).unwrap();
    assert_eq!(m.find("--xyz--"), Some("xyz".to_string()));
    assert_eq!(m.find("ab-c"), None);
    assert_eq!(match_agent(&Some(m), &Some("zzabczz".to_string())), Some("abc".to_string()));
    assert_eq!(match_agent(&None, &Some("abc".to_string())), None);
}

#[test]
fn a_broken_asn_database_is_refused() {
    assert!(matches!(Classifier::load_asns(vec![1, 2, 3]), Err(ClassifierError::MaxMindDb(_))));
}

#[test]
fn lookups_give_a_network_only_where_one_was_found() {
    assert_eq!(asn_of_lookup(Ok(Some(64496))), Some(64496));
    assert_eq!(asn_of_lookup(Ok(None)), None);
    assert_eq!(asn_of_lookup(Err(String::from("corrupt database"))), None);
}

/// A database of one search-tree node over IPv4: addresses below 128.0.0.0
/// belong to network 13335, the others to none.
fn tiny_asn_database() -> Vec<u8> {
    let mut db: Vec<u8> = Vec::new();
    // Node 0: left record 17 (data at offset 0), right record 1 (no data).
    db.extend_from_slice(&[0x00, 0x00, 0x11, 0x00, 0x00, 0x01]);
    db.extend_from_slice(&[0u8; 16]);
    db.push(0xE1);
    db.push(0x58);
    db.extend_from_slice(b"autonomous_system_number");
    db.extend_from_slice(&[0xC2, 0x34, 0x17]);
    db.extend_from_slice(b"\xab\xcd\xefMaxMind.com");
    db.push(0xE9);
    let mut key = |db: &mut Vec<u8>, k: &str| {
        db.push(0x40 | k.len() as u8);
        db.extend_from_slice(k.as_bytes());
    };
    key(&mut db, "binary_format_major_version");
    db.extend_from_slice(&[0xA1, 0x02]);
    key(&mut db, "binary_format_minor_version");
    db.push(0xA0);
    key(&mut db, "build_epoch");
    db.extend_from_slice(&[0x00, 0x02]);
    key(&mut db, "database_type");
    db.push(0x44);
    db.extend_from_slice(b"Test");
    key(&mut db, "description");
    db.push(0xE0);
    key(&mut db, "ip_version");
    db.extend_from_slice(&[0xA1, 0x04]);
    key(&mut db, "languages");
    db.extend_from_slice(&[0x00, 0x04]);
    key(&mut db, "node_count");
    db.extend_from_slice(&[0xC1, 0x01]);
    key(&mut db, "record_size");
    db.extend_from_slice(&[0xA1, 0x18]);
    db
}

#[test]
fn networks_come_from_the_database() {
    let config = parse_config(CONFIG).unwrap();
    let db = Classifier::load_asns(tiny_asn_database()).ok().unwrap();
    let c = Classifier::new(&config, Some(db), None).ok().unwrap();
    let inside = c.classify(&request("/a", None, Some(IpAddress::V4(0x0a00_0001))));
    assert_eq!(inside.asn, Some(13335));
    assert_eq!(describe(&inside), "spam unwanted ASN 13335");
    let outside = c.classify(&request("/a", None, Some(IpAddress::V4(0xc800_0001))));
    assert_eq!(outside.asn, None);
    assert_eq!(describe(&outside), "valid default");
    let nowhere = c.classify(&request("/a", None, None));
    assert_eq!(nowhere.asn, None);
}

#[test]
fn the_decision_header_is_checked_first() {
    let mut config = parse_config(CONFIG).unwrap();
    assert_eq!(Classifier::decision_header(&config).ok().unwrap(), Some("x-decision".to_string()));
    config.classifier.trusted_decision_header = Some("bad header".to_string());
    assert!(matches!(Classifier::decision_header(&config), Err(ClassifierError::InvalidHeader(h)) if h == "bad header"));
    config.classifier.trusted_decision_header = None;
    assert_eq!(Classifier::decision_header(&config).ok().unwrap(), None);
}
