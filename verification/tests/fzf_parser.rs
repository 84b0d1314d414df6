use norm::fzf::{conditions, parse, word_pattern, words, MatchType, Pattern, SearchMode};

fn patterns(s: &str) -> std::vec::IntoIter<Vec<Pattern>> {
    conditions(s)
        .into_iter()
        .map(|condition| condition.or_patterns)
        .collect::<Vec<_>>()
        .into_iter()
}

fn pattern(s: &str) -> Pattern {
    word_pattern(&s.chars().collect::<Vec<_>>())
}

fn words_of(s: &str) -> std::vec::IntoIter<String> {
    words(s).into_iter()
}

#[test]
fn parse_query_empty() {
    assert!(parse("").is_empty());
}

#[test]
fn parse_query_single_fuzzy() {
    let query = parse("foo");

    let SearchMode::NotExtended(pattern) = query.search_mode else {
        panic!();
    };

    assert_eq!(pattern.into_string(), "foo");

    assert_eq!(pattern.match_type, MatchType::Fuzzy);
}

#[test]
fn parse_query_upstream_extended() {
    let query = parse(
        "aaa 'bbb ^ccc ddd$ !eee !'fff !^ggg !hhh$ | ^iii$ ^xxx | 'yyy | \
         zzz$ | !ZZZ |",
    );

    let SearchMode::Extended(conditions) = query.search_mode else {
        panic!();
    };

    assert_eq!(conditions.len(), 9);

    let pattern = &conditions[0].or_patterns()[0];
    assert_eq!(pattern.match_type, MatchType::Fuzzy);
    assert!(!pattern.is_inverse);

    let pattern = &conditions[1].or_patterns()[0];
    assert_eq!(pattern.match_type, MatchType::Exact);
    assert!(!pattern.is_inverse);

    let pattern = &conditions[2].or_patterns()[0];
    assert_eq!(pattern.match_type, MatchType::PrefixExact);
    assert!(!pattern.is_inverse);

    let pattern = &conditions[3].or_patterns()[0];
    assert_eq!(pattern.match_type, MatchType::SuffixExact);
    assert!(!pattern.is_inverse);

    let pattern = &conditions[4].or_patterns()[0];
    assert_eq!(pattern.match_type, MatchType::Exact);
    assert!(pattern.is_inverse);

    let pattern = &conditions[5].or_patterns()[0];
    assert_eq!(pattern.match_type, MatchType::Fuzzy);
    assert!(pattern.is_inverse);

    let pattern = &conditions[6].or_patterns()[0];
    assert_eq!(pattern.match_type, MatchType::PrefixExact);
    assert!(pattern.is_inverse);

    let pattern = &conditions[7].or_patterns()[0];
    assert_eq!(pattern.match_type, MatchType::SuffixExact);
    assert!(pattern.is_inverse);

    let pattern = &conditions[7].or_patterns()[1];
    assert_eq!(pattern.match_type, MatchType::EqualExact);
    assert!(!pattern.is_inverse);

    let pattern = &conditions[8].or_patterns()[0];
    assert_eq!(pattern.match_type, MatchType::PrefixExact);
    assert!(!pattern.is_inverse);

    let pattern = &conditions[8].or_patterns()[1];
    assert_eq!(pattern.match_type, MatchType::Exact);
    assert!(!pattern.is_inverse);

    let pattern = &conditions[8].or_patterns()[2];
    assert_eq!(pattern.match_type, MatchType::SuffixExact);
    assert!(!pattern.is_inverse);

    let pattern = &conditions[8].or_patterns()[3];
    assert_eq!(pattern.match_type, MatchType::Exact);
    assert!(pattern.is_inverse);
}

#[test]
fn patterns_empty() {
    let mut blocks = patterns("");
    assert!(blocks.next().is_none());
}

#[test]
fn patterns_single() {
    let mut blocks = patterns("foo");
    assert_eq!(blocks.next().unwrap(), [pattern("foo")]);
    assert_eq!(blocks.next(), None);
}

#[test]
fn patterns_multiple_ors() {
    let mut blocks = patterns("foo | bar | baz");
    assert_eq!(blocks.next().unwrap(), [pattern("foo"), pattern("bar"), pattern("baz")]);
    assert_eq!(blocks.next(), None);
}

#[test]
fn patterns_multiple_ands() {
    let mut blocks = patterns("foo bar baz");
    assert_eq!(blocks.next().unwrap(), [pattern("foo")]);
    assert_eq!(blocks.next().unwrap(), [pattern("bar")]);
    assert_eq!(blocks.next().unwrap(), [pattern("baz")]);
    assert_eq!(blocks.next(), None);
}

#[test]
fn patterns_empty_between_ors() {
    let mut blocks = patterns("foo | | bar");
    assert_eq!(blocks.next().unwrap(), [pattern("foo"), pattern("bar")]);
    assert_eq!(blocks.next(), None);
}

#[test]
fn patterns_multiple_ors_multiple_ands() {
    let mut blocks = patterns("foo | bar baz qux | quux | corge");
    assert_eq!(blocks.next().unwrap(), [pattern("foo"), pattern("bar")]);
    assert_eq!(blocks.next().unwrap(), [pattern("baz")]);
    assert_eq!(blocks.next().unwrap(), [pattern("qux"), pattern("quux"), pattern("corge")]);
    assert_eq!(blocks.next(), None);
}

#[test]
fn words_empty() {
    let mut words = words_of("");
    assert!(words.next().is_none());
}

#[test]
fn words_single() {
    let mut words = words_of("foo");
    assert_eq!(words.next().as_deref(), Some("foo"));
    assert_eq!(words.next(), None);
}

#[test]
fn words_escaped_escape_escaped_space() {
    let mut words = words_of("\\\\ ");
    assert_eq!(words.next().as_deref(), Some("\\ "));
    assert_eq!(words.next(), None);
}

#[test]
fn words_multiple() {
    let mut words = words_of("foo bar");
    assert_eq!(words.next().as_deref(), Some("foo"));
    assert_eq!(words.next().as_deref(), Some("bar"));
    assert_eq!(words.next(), None);
}

#[test]
fn words_multiple_leading_trailing_spaces() {
    let mut words = words_of("   foo bar   ");
    assert_eq!(words.next().as_deref(), Some("foo"));
    assert_eq!(words.next().as_deref(), Some("bar"));
    assert_eq!(words.next(), None);
}

#[test]
fn words_multiple_escaped_spaces() {
    let mut words = words_of("foo\\ bar\\ baz");
    assert_eq!(words.next().as_deref(), Some("foo bar baz"));
    assert_eq!(words.next(), None);
}

#[test]
fn words_multiple_standalone_escaped_spaces() {
    let mut words = words_of(" \\  foo \\ bar \\  ");
    assert_eq!(words.next().as_deref(), Some(" "));
    assert_eq!(words.next().as_deref(), Some("foo"));
    assert_eq!(words.next().as_deref(), Some(" bar"));
    assert_eq!(words.next().as_deref(), Some(" "));
    assert_eq!(words.next(), None);
}

#[test]
fn words_single_escaped_spaces() {
    let mut words = words_of("\\ ");
    assert_eq!(words.next().as_deref(), Some(" "));
    assert_eq!(words.next(), None);
}

#[test]
fn words_consecutive_escaped_spaces() {
    let mut words = words_of(" \\ \\ \\  ");
    assert_eq!(words.next().as_deref(), Some("   "));
    assert_eq!(words.next(), None);
}
