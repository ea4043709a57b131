use poison_swamp_level::classifier::classifier::{Classifier, Decision, Request};
use poison_swamp_level::config::parse::parse_config;
use poison_swamp_level::config::settings::{Config, IpAddress, ServerMode};
use poison_swamp_level::garbage::garbage::{Garbage, GarbageError, lines};
use poison_swamp_level::garbage::generator::Corpus;
use poison_swamp_level::generator::generator::Corpus as SequenceCorpus;
use rand_seeder::Seeder;
use poison_swamp_level::service::handler::{PslHandler, client_ip, empty_response, request_path};
use poison_swamp_level::text::{finish_sentence, is_ending};

const CORPUS: &str = "The swamp is deep and the water is dark. Nobody knows how deep the swamp is. \
    The frogs sing at night, and the herons wait. A path leads into the reeds, and it never ends.";

const WORDS: &str = "alpha\nbeta\r\ngamma\ndelta\nepsilon\n";

const TEMPLATE: &str = "{{ title }}|{% for p in paragraphs %}<p>{{ p }}</p>{% endfor %}|\
    {% if links %}{% for l in links %}[{{ l.path }} {{ l.text }}]{% endfor %}{% endif %}";

const CONFIG: &str = r#"
garbage {
    words-file "words.txt"
    template-file "page.html"
    poisons "tarpit"
    paragraphs min=1 max=2 {
        words min=3 max=5
    }
    links min=2 max=3 {
        words min=1 max=2
        separator "_"
    }
}
classifier {
    trusted-paths "/ok"
}
"#;

fn garbage(config: &Config) -> Result<Garbage, GarbageError> {
    let corpus = Corpus::from_strings(&[CORPUS]).unwrap();
    Garbage::new(config, corpus, WORDS, TEMPLATE)
}

#[test]
fn lines_of_a_text() {
    assert_eq!(lines("a\nb\r\n\nc"), vec!["a", "b", "", "c"]);
    assert_eq!(lines("a\n"), vec!["a"]);
    assert_eq!(lines("a\r"), vec!["a\r"]);
    assert!(lines("").is_empty());
}

#[test]
fn pages_are_the_same_for_the_same_path() {
    let config = parse_config(CONFIG).unwrap();
    let g = garbage(&config).ok().unwrap();
    assert!(g.draws_ok_for("/deep/page"));
    let first = g.render("/deep/page").ok().unwrap();
    let second = g.render("/deep/page").ok().unwrap();
    assert_eq!(first, second);
    assert!(first.starts_with("garbage|<p>"));
}

#[test]
fn pages_have_links_into_the_tarpit() {
    let config = parse_config(CONFIG).unwrap();
    let g = garbage(&config).ok().unwrap();
    let page = g.page("/deep/page");
    assert!(!page.paragraphs.is_empty() && page.paragraphs.len() <= 2);
    let links = page.links.unwrap();
    assert!(links.len() >= 2 && links.len() <= 3);
    for link in &links {
        assert!(link.path.starts_with("/deep/page/tarpit_"));
        let words: Vec<&str> = link.text.split(' ').collect();
        assert!(!words.is_empty() && words.len() <= 2);
        for w in &words {
            assert!(["alpha", "beta", "gamma", "delta", "epsilon"].contains(w));
        }
        // A page reached through a link has no links.
        assert!(g.page(&link.path).links.is_none());
    }
    let with_slash = g.page("/deep/");
    for link in with_slash.links.unwrap() {
        assert!(link.path.starts_with("/deep/tarpit_"));
    }
}

#[test]
fn poisoned_pages_have_no_links() {
    let config = parse_config(CONFIG).unwrap();
    let g = garbage(&config).ok().unwrap();
    let page = g.page("/x/tarpit/y");
    assert!(page.links.is_none());
    let rendered = g.render("/x/tarpit/y").ok().unwrap();
    assert!(rendered.ends_with("|"));
}

#[test]
fn missing_files_and_short_word_lists_are_refused() {
    let mut config = parse_config(CONFIG).unwrap();
    config.garbage.links.max_words = 6;
    assert!(matches!(garbage(&config), Err(GarbageError::WordsListTooShort(ref p, 6)) if p == "words.txt"));
    config.garbage.links.max_words = 5;
    assert!(garbage(&config).is_ok());
    config.garbage.template_file = None;
    assert!(matches!(garbage(&config), Err(GarbageError::TemplateFileMissing)));
    config.garbage.words_file = None;
    assert!(matches!(garbage(&config), Err(GarbageError::WordsFileMissing)));
}

#[test]
fn broken_templates_are_refused() {
    let config = parse_config(CONFIG).unwrap();
    let corpus = Corpus::from_strings(&[CORPUS]).unwrap();
    assert!(matches!(Garbage::new(&config, corpus, WORDS, "{% if %}"), Err(GarbageError::Template(_))));
}

fn request(path: &str, headers: Vec<(&str, &str)>) -> Request {
    Request {
        path: path.to_string(),
        path_and_query: Some(path.to_string()),
        remote_ip: None,
        headers: headers.into_iter().map(|(n, v)| (n.to_string(), v.as_bytes().to_vec())).collect(),
    }
}

#[test]
fn request_paths_and_client_addresses() {
    let mut req = request("/a?b=c", vec![("x-forwarded-for", "192.0.2.7")]);
    assert_eq!(request_path(&req), "/a?b=c");
    assert_eq!(client_ip(&req, Some(IpAddress::V4(1))), Some(IpAddress::V4(0xc000_0207)));
    req.headers.clear();
    assert_eq!(client_ip(&req, Some(IpAddress::V4(1))), Some(IpAddress::V4(1)));
    req.headers.push(("x-forwarded-for".to_string(), b"not an address".to_vec()));
    assert_eq!(client_ip(&req, None), None);
    req.path_and_query = None;
    assert_eq!(request_path(&req), "/");
    let resp = empty_response(418);
    assert_eq!(resp.status, 418);
    assert!(resp.body.is_empty());
}

#[test]
fn proxy_and_preflight_answers() {
    let config = parse_config(CONFIG).unwrap();
    let g = garbage(&config).ok().unwrap();
    let mut cconfig = parse_config(CONFIG).unwrap();
    cconfig.classifier.trusted_decision_header = Some("x-decision".to_string());
    let classifier = Classifier::new(&cconfig, None, None).ok().unwrap();
    let handler = PslHandler { client_ip: None, classifier: &classifier, garbage: &g, status_code_valid: 204, status_code_spam: 403 };

    let (c, resp) = handler.proxy(&request("/home", vec![]));
    assert!(matches!(c.decision, Decision::Valid(_)));
    let resp = resp.ok().unwrap();
    assert_eq!((resp.status, resp.body.as_str()), (204, ""));

    let (c, resp) = handler.proxy(&request("/tarpit", vec![]));
    assert!(matches!(c.decision, Decision::Spam(_)));
    let resp = resp.ok().unwrap();
    assert_eq!(resp.status, 200);
    assert!(resp.body.starts_with("garbage|"));

    let (_, resp) = handler.preflight(&request("/tarpit", vec![]));
    let resp = resp.ok().unwrap();
    assert_eq!((resp.status, resp.body.as_str()), (403, ""));

    let (c, resp) = handler.preflight(&request("/home", vec![("x-decision", "spam")]));
    assert_eq!(c.decision.describe(), "spam trusted decision header");
    assert_eq!(resp.ok().unwrap().status, 200);

    let (c, resp) = handler.preflight(&request("/ok", vec![("x-decision", "valid")]));
    assert_eq!(c.decision.describe(), "valid trusted path \"/ok\"");
    assert_eq!(resp.ok().unwrap().status, 204);
}

#[test]
fn followers_are_listed_sorted_and_once() {
    let corpus = Corpus::from_strings(&["b a b a c."]).unwrap();
    let lines = corpus.dump_lines();
    let mut sorted = lines.clone();
    sorted.sort();
    sorted.dedup();
    assert_eq!(lines, sorted);
    assert!(!lines.is_empty());
    for w in &lines {
        assert!(["a", "b", "c", "."].contains(&w.as_str()));
    }
}

#[test]
fn generated_paragraphs_end_sentences() {
    let config = parse_config(CONFIG).unwrap();
    let g = garbage(&config).ok().unwrap();
    for path in ["/a", "/deep/page", "/reeds/and/herons"] {
        let page = g.page(path);
        for p in &page.paragraphs {
            assert!(is_ending(p.as_str()), "{p:?}");
        }
    }
}

#[test]
fn finishing_a_sentence() {
    assert_eq!(finish_sentence(String::from("It never ends")), "It never ends.");
    assert_eq!(finish_sentence(String::from("It never ends,")), "It never ends.");
    assert_eq!(finish_sentence(String::from("Does it end?")), "Does it end?");
    assert_eq!(finish_sentence(String::from("\"It ends.\"")), "\"It ends.\"");
    assert_eq!(finish_sentence(String::new()), "");
}

#[test]
fn garbage_responses_carry_the_rendered_page() {
    let config = parse_config(CONFIG).unwrap();
    let g = garbage(&config).ok().unwrap();
    let classifier = Classifier::new(&config, None, None).ok().unwrap();
    let handler = PslHandler { client_ip: None, classifier: &classifier, garbage: &g, status_code_valid: 204, status_code_spam: 403 };
    let resp = handler.garbage_response(&request("/deep/page", vec![])).ok().unwrap();
    assert_eq!(resp.status, 200);
    assert_eq!(resp.body, g.render("/deep/page").ok().unwrap());
}

#[test]
fn the_forwarded_client_address_is_classified() {
    let config = parse_config(CONFIG).unwrap();
    let g = garbage(&config).ok().unwrap();
    let mut cconfig = parse_config(CONFIG).unwrap();
    cconfig.classifier.trusted_ips = vec![IpAddress::V4(0xc000_0207)];
    let classifier = Classifier::new(&cconfig, None, None).ok().unwrap();
    let handler = PslHandler {
        client_ip: Some(IpAddress::V4(1)),
        classifier: &classifier,
        garbage: &g,
        status_code_valid: 204,
        status_code_spam: 403,
    };
    let mut req = request("/tarpit", vec![("x-forwarded-for", "192.0.2.7")]);
    let (c, resp) = handler.handle(ServerMode::Proxy, &mut req);
    assert_eq!(req.remote_ip, Some(IpAddress::V4(0xc000_0207)));
    assert_eq!(c.decision.describe(), "valid trusted IP 192.0.2.7");
    assert_eq!(resp.ok().unwrap().status, 204);

    let mut req = request("/tarpit", vec![]);
    let (c, _) = handler.handle(ServerMode::Proxy, &mut req);
    assert_eq!(req.remote_ip, Some(IpAddress::V4(1)));
    assert!(matches!(c.decision, Decision::Spam(_)));
}

#[test]
fn sentence_walks_move_on_through_the_corpus() {
    let corpus = SequenceCorpus::from_strings(&[CORPUS]).unwrap();
    let mut g = corpus.generate(Seeder::from("/walk").into_rng());
    let sentence = g.sentence(12);
    let body = sentence.strip_suffix('.').unwrap_or(&sentence);
    let words: Vec<&str> = body.split(' ').collect();
    assert_eq!(words.len(), 12);
    let lower = CORPUS.to_lowercase();
    for w in &words {
        assert!(lower.contains(&w.to_lowercase()), "{w:?}");
    }
    assert!(words.iter().any(|w| w.to_lowercase() != words[0].to_lowercase()));
}
