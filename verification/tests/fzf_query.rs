use norm::fzf::{MatchType, Pattern};

#[test]
fn pattern_parse_specials_1() {
    assert!(Pattern::parse(&['\'']).is_none());
    assert!(Pattern::parse(&['^']).is_none());
    assert!(Pattern::parse(&['!']).is_none());

    let pattern = Pattern::parse(&['$']).unwrap();
    assert_eq!(pattern.into_string(), "$");
    assert_eq!(pattern.match_type, MatchType::Fuzzy);
}

#[test]
fn pattern_parse_specials_2() {
    assert!(Pattern::parse(&['!', '\'']).is_none());
    assert!(Pattern::parse(&['!', '^']).is_none());
    assert!(Pattern::parse(&['\'', '$']).is_none());
    assert!(Pattern::parse(&['^', '$']).is_none());

    let pattern = Pattern::parse(&['\'', '^']).unwrap();
    assert_eq!(pattern.into_string(), "^");
    assert_eq!(pattern.match_type, MatchType::Exact);

    let pattern = Pattern::parse(&['!', '$']).unwrap();
    assert_eq!(pattern.into_string(), "$");
    assert_eq!(pattern.match_type, MatchType::Exact);
    assert!(pattern.is_inverse);

    let pattern = Pattern::parse(&['!', '!']).unwrap();
    assert_eq!(pattern.into_string(), "!");
    assert_eq!(pattern.match_type, MatchType::Exact);
    assert!(pattern.is_inverse);

    let pattern = Pattern::parse(&['$', '$']).unwrap();
    assert_eq!(pattern.into_string(), "$");
    assert_eq!(pattern.match_type, MatchType::SuffixExact);
}

#[test]
fn pattern_parse_specials_3() {
    assert!(Pattern::parse(&['!', '^', '$']).is_none());

    let pattern = Pattern::parse(&['\'', '^', '$']).unwrap();
    assert_eq!(pattern.into_string(), "^");
    assert_eq!(pattern.match_type, MatchType::Exact);

    let pattern = Pattern::parse(&['\'', '!', '$']).unwrap();
    assert_eq!(pattern.into_string(), "!");
    assert_eq!(pattern.match_type, MatchType::Exact);
}

#[test]
fn pattern_parse_specials_4() {
    let pattern = Pattern::parse(&['\'', '^', '$', '$']).unwrap();
    assert_eq!(pattern.into_string(), "^$");
    assert_eq!(pattern.match_type, MatchType::Exact);
}
