use norm::candidate::Candidate;
use norm::chars::char_eq;
use norm::fzf::{exact_match, Pattern, Scheme};
use norm::MatchedRanges;

fn candidate(s: &str) -> Candidate<'_> {
    assert!(s.is_ascii());
    Candidate::Ascii(s.as_bytes())
}

#[test]
fn equal_match_1() {
    let pattern = Pattern::parse(&"^AbC$".chars().collect::<Vec<_>>()).unwrap();

    let mut ranges_buf = MatchedRanges::new();

    assert!(exact_match(
        &pattern,
        candidate("ABC"),
        char_eq(true, false),
        &Scheme::default(),
        true,
        &mut ranges_buf
    )
    .is_none());

    {
        let mut ranges_buf = MatchedRanges::new();

        assert!(exact_match(
            &pattern,
            candidate("AbC"),
            char_eq(true, false),
            &Scheme::default(),
            true,
            &mut ranges_buf
        )
        .is_some());

        assert_eq!(ranges_buf.as_slice(), [0..3]);
    }

    {
        let mut ranges_buf = MatchedRanges::new();

        assert!(exact_match(
            &pattern,
            candidate("AbC "),
            char_eq(true, false),
            &Scheme::default(),
            true,
            &mut ranges_buf
        )
        .is_some());

        assert_eq!(ranges_buf.as_slice(), [0..3]);
    }

    {
        let mut ranges_buf = MatchedRanges::new();

        assert!(exact_match(
            &pattern,
            candidate(" AbC "),
            char_eq(true, false),
            &Scheme::default(),
            true,
            &mut ranges_buf
        )
        .is_some());

        assert_eq!(ranges_buf.as_slice(), [1..4]);
    }

    {
        let mut ranges_buf = MatchedRanges::new();

        assert!(exact_match(
            &pattern,
            candidate("  AbC"),
            char_eq(true, false),
            &Scheme::default(),
            true,
            &mut ranges_buf
        )
        .is_some());

        assert_eq!(ranges_buf.as_slice(), [2..5]);
    }
}

#[test]
fn exact_match_1() {
    let pattern = Pattern::parse(&"abc".chars().collect::<Vec<_>>()).unwrap();

    let mut ranges_buf = MatchedRanges::new();

    assert!(exact_match(
        &pattern,
        candidate("aabbcc abc"),
        char_eq(true, false),
        &Scheme::default(),
        true,
        &mut ranges_buf
    )
    .is_some());

    assert_eq!(ranges_buf.as_slice(), [7..10]);
}
