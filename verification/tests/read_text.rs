use poison_swamp_level::garbage::read_text as current;
use poison_swamp_level::generator::read_text as first;
use poison_swamp_level::reading::Substring;
use poison_swamp_level::garbage::generator::Next;

fn first_tokens(text: &str) -> Vec<String> {
    first::Substrings::new(text)
        .collect_all()
        .iter()
        .map(|c| c.as_str().to_string())
        .collect()
}

fn current_downcased(text: &str) -> Vec<String> {
    current::Substrings::new(text)
        .collect_all()
        .iter()
        .map(|c| c.downcase())
        .collect()
}

#[test]
fn read_text_substrings_parses_words() {
    assert_eq!(first_tokens("this is some text"), vec!["this", "is", "some", "text"]);
}

#[test]
fn read_text_substrings_splits_on_period() {
    assert_eq!(
        first_tokens("this is. truly. text"),
        vec!["this", "is", ".", "truly", ".", "text"]
    );
}

#[test]
fn read_text_substrings_splits_on_comma() {
    assert_eq!(
        first_tokens("this is, truly, text"),
        vec!["this", "is", ",", "truly", ",", "text"]
    );
}

#[test]
fn read_text_substrings_splits_on_semicolon() {
    assert_eq!(
        first_tokens("this is; truly; text"),
        vec!["this", "is", ";", "truly", ";", "text"]
    );
}

#[test]
fn read_text_substrings_splits_on_parens() {
    assert_eq!(
        first_tokens("this is (truly) text"),
        vec!["this", "is", "(", "truly", ")", "text"]
    );
}

#[test]
fn read_text_substrings_preserves_infix_hyphens() {
    assert_eq!(
        first_tokens("this is very-cool text"),
        vec!["this", "is", "very-cool", "text"]
    );
}

fn window_text(
    w: Option<(
        poison_swamp_level::tokens::Capitalized,
        poison_swamp_level::tokens::Capitalized,
        poison_swamp_level::tokens::Capitalized,
    )>,
) -> Option<(String, String, String)> {
    w.map(|(a, b, c)| (a.as_str().to_string(), b.as_str().to_string(), c.as_str().to_string()))
}

fn triple(a: &str, b: &str, c: &str) -> Option<(String, String, String)> {
    Some((a.to_string(), b.to_string(), c.to_string()))
}

#[test]
fn read_text_substrings_windows() {
    let mut windows = first::Substrings::new("this is some text").windows();
    assert_eq!(window_text(windows.next()), triple("this", "is", "some"));
    assert_eq!(window_text(windows.next()), triple("is", "some", "text"));
    assert_eq!(window_text(windows.next()), None);
}

#[test]
fn read_text_substrings_windows_returns_none() {
    let mut windows = first::Substrings::new("this is").windows();
    assert_eq!(window_text(windows.next()), None);
}

#[test]
fn read_text_read() {
    let texts = &["this is a string", "this is so cool", "cool beans babe"];
    let corpus = first::read_from_strings(texts).unwrap();
    assert_eq!(corpus.text, "thisisastringsocoolbeansbabe");
    let entry = |k: (Substring, Substring)| -> Vec<Substring> {
        corpus
            .table
            .map
            .iter()
            .find(|(key, _)| *key == k)
            .map(|(_, v)| v.clone())
            .unwrap()
    };
    assert_eq!(corpus.table.map.len(), 4);
    // this is => [a, so]
    assert_eq!(
        entry((Substring(0, 4), Substring(4, 6))),
        vec![Substring(6, 7), Substring(13, 15)]
    );
    // is a => [string]
    assert_eq!(entry((Substring(4, 6), Substring(6, 7))), vec![Substring(7, 13)]);
    // is so => [cool]
    assert_eq!(entry((Substring(4, 6), Substring(13, 15))), vec![Substring(15, 19)]);
    // cool beans => [babe]
    assert_eq!(entry((Substring(15, 19), Substring(19, 24))), vec![Substring(24, 28)]);
    assert_eq!(
        corpus.states,
        vec![
            (Substring(0, 4), Substring(4, 6)),
            (Substring(4, 6), Substring(6, 7)),
            (Substring(4, 6), Substring(13, 15)),
            (Substring(15, 19), Substring(19, 24)),
        ]
    );
}

#[test]
fn substrings_downcases_ordinary_words() {
    assert_eq!(
        current_downcased("This is cool. Truly it is."),
        vec!["", "", "this", "is", "cool", ".", "truly", "it", "is", "."]
    );
}

#[test]
fn substrings_preserves_capitalization_of_proper_nouns() {
    assert_eq!(
        current_downcased("Test-Runner, Steve, is a good man. “Great.”"),
        vec![
            "",
            "",
            "Test-Runner",
            ",",
            "Steve",
            ",",
            "is",
            "a",
            "good",
            "man",
            ".",
            "“",
            "great",
            ".”"
        ]
    );
}

#[test]
fn current_substrings_start_with_two_empty_tokens() {
    assert_eq!(current_downcased("this is some text"), vec!["", "", "this", "is", "some", "text"]);
    assert_eq!(
        current_downcased("this is (truly) text"),
        vec!["", "", "this", "is", "(", "truly", ")", "text"]
    );
    assert!(current_downcased("").is_empty());
}

#[test]
fn current_windows_start_with_empty_pair() {
    let mut windows = current::Substrings::new("this is some text").windows();
    assert_eq!(window_text(windows.next()), triple("", "", "this"));
    assert_eq!(window_text(windows.next()), triple("", "this", "is"));
    assert_eq!(window_text(windows.next()), triple("this", "is", "some"));
    assert_eq!(window_text(windows.next()), triple("is", "some", "text"));
    assert_eq!(window_text(windows.next()), None);
    let mut none = current::Substrings::new("").windows();
    assert_eq!(window_text(none.next()), None);
}

#[test]
fn current_read_builds_word_graph() {
    let texts = &["this is a string", "this is so cool", "cool beans babe"];
    let corpus = current::read_from_strings(texts).unwrap();
    assert_eq!(corpus.text, "thisisastringsocoolbeansbabe");
    const START: Substring = Substring(0, 0);
    const THIS: Substring = Substring(0, 4);
    const IS: Substring = Substring(4, 6);
    const A: Substring = Substring(6, 7);
    const STRING: Substring = Substring(7, 13);
    const SO: Substring = Substring(13, 15);
    const COOL: Substring = Substring(15, 19);
    const BEANS: Substring = Substring(19, 24);
    const BABE: Substring = Substring(24, 28);
    assert_eq!(
        corpus.states,
        vec![
            (START, START),
            (START, THIS),
            (START, COOL),
            (THIS, IS),
            (IS, A),
            (IS, SO),
            (COOL, BEANS),
        ]
    );
    let choices: Vec<Vec<Next>> = corpus.nodes.iter().map(|n| n.choices.clone()).collect();
    let n = |word, next| Next { word, next };
    assert_eq!(
        choices,
        vec![
            vec![n(THIS, Some(1)), n(THIS, Some(1)), n(COOL, Some(2))],
            vec![n(IS, Some(3)), n(IS, Some(3))],
            vec![n(BEANS, Some(6))],
            vec![n(A, Some(4)), n(SO, Some(5))],
            vec![n(STRING, None)],
            vec![n(COOL, None)],
            vec![n(BABE, None)],
        ]
    );
}

#[test]
fn reading_blank_text_finds_no_content() {
    assert!(matches!(current::read("   \n "), Err(current::ParseError::NoContent)));
    assert!(matches!(first::read("two words"), Err(current::ParseError::NoContent)));
}

#[test]
fn substring_positions_count_characters() {
    assert_eq!(Substring(0, 1).of("éa"), "é");
    assert_eq!(Substring(0, 2).of("éa"), "éa");
    assert_eq!(Substring(1, 2).of("éa"), "a");
    assert_eq!(Substring(2, 5).of("naïve"), "ïve");
}

#[test]
fn tokens_are_the_text_without_its_white_space() {
    let text = "  A path (into the reeds), and \u{a0}it never\tends...\n“Really?” ";
    let tokens = first_tokens(text);
    for t in &tokens {
        assert!(!t.is_empty());
        assert!(!t.chars().any(char::is_whitespace));
    }
    let joined: String = tokens.concat();
    let expected: String = text.chars().filter(|c| !c.is_whitespace()).collect();
    assert_eq!(joined, expected);
}

#[test]
fn reading_one_text_is_reading_a_list_of_one() {
    let text = "The swamp is deep. The swamp is dark.";
    let one = current::read(text).unwrap();
    let list = current::read_from_strings(&[text]).unwrap();
    assert_eq!(one.text, list.text);
    assert_eq!(one.states, list.states);
    assert!(current::read("  ").is_err() && current::read_from_strings(&["  "]).is_err());
}

#[test]
fn white_space_is_the_unicode_white_space_property() {
    for c in (0u32..0x3100).chain(0xfe00..0x10000).filter_map(char::from_u32) {
        assert_eq!(poison_swamp_level::chars::is_whitespace(c), c.is_whitespace(), "{c:?}");
    }
}
