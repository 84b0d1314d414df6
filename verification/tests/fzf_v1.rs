use std::ops::Range;

use norm::fzf::{bonus, penalty, FzfDistance, FzfParser, FzfV1};
use norm::CaseSensitivity::{Insensitive, Sensitive};
use norm::{CaseSensitivity, Metric};

struct FzfMatch {
    distance: FzfDistance,
    matched_ranges: Vec<Range<usize>>,
}

fn fzf(case_sensitivity: CaseSensitivity, query: &str, candidate: &str) -> (FzfV1, Option<FzfMatch>) {
    let mut fzf = FzfV1::new();
    fzf.set_case_sensitivity(case_sensitivity);
    let mut parser = FzfParser::new();
    let mut ranges = Vec::new();
    let query = parser.parse(query);
    let Some(distance) = fzf.distance_and_ranges(&query, candidate, &mut ranges) else {
        return (fzf, None);
    };
    (fzf, Some(FzfMatch { distance, matched_ranges: ranges }))
}

#[test]
fn fzf_v1_upstream_empty() {
    let (_, m) = fzf(Insensitive, "", "foo");

    let m = m.unwrap();

    assert_eq!(m.distance.into_score(), 0);

    assert!(m.matched_ranges.as_slice().is_empty());
}

#[test]
fn fzf_v1_upstream_fuzzy_1() {
    let (_, m) = fzf(Insensitive, "oBZ", "fooBarbaz1");

    let m = m.unwrap();

    assert_eq!(
        m.distance.into_score(),
        3 * bonus::MATCH + bonus::CAMEL_123
            - penalty::GAP_START
            - 3 * penalty::GAP_EXTENSION
    );

    assert_eq!(m.matched_ranges.as_slice(), [2..4, 8..9]);
}

#[test]
fn fzf_v1_upstream_fuzzy_2() {
    let (fzf, m) = fzf(Insensitive, "fbb", "foo bar baz");

    let m = m.unwrap();

    assert_eq!(
        m.distance.into_score(),
        3 * bonus::MATCH
            + (bonus::FIRST_QUERY_CHAR_MULTIPLIER + 2)
                * fzf.scheme().bonus_boundary_white
            - 2 * penalty::GAP_START
            - 4 * penalty::GAP_EXTENSION
    );

    assert_eq!(m.matched_ranges.as_slice(), [0..1, 4..5, 8..9]);
}

#[test]
fn fzf_v1_upstream_fuzzy_3() {
    let (_, m) = fzf(Insensitive, "rdoc", "/AutomatorDocument.icns");

    let m = m.unwrap();

    assert_eq!(
        m.distance.into_score(),
        4 * bonus::MATCH + 2 * bonus::CONSECUTIVE + bonus::CAMEL_123
    );

    assert_eq!(m.matched_ranges.as_slice(), [9..13]);
}

#[test]
fn fzf_v1_upstream_fuzzy_4() {
    let (fzf, m) = fzf(Insensitive, "zshc", "/man1/zshcompctl.1");

    let m = m.unwrap();

    assert_eq!(
        m.distance.into_score(),
        4 * bonus::MATCH
            + (bonus::FIRST_QUERY_CHAR_MULTIPLIER + 3)
                * fzf.scheme().bonus_boundary_delimiter
    );

    assert_eq!(m.matched_ranges.as_slice(), [6..10]);
}

#[test]
fn fzf_v1_upstream_fuzzy_5() {
    let (fzf, m) = fzf(Insensitive, "zshc", "/.oh-my-zsh/cache");

    let m = m.unwrap();

    assert_eq!(
        m.distance.into_score(),
        4 * bonus::MATCH
            + (bonus::FIRST_QUERY_CHAR_MULTIPLIER + 2) * bonus::BOUNDARY
            + fzf.scheme().bonus_boundary_delimiter
            - penalty::GAP_START
    );

    assert_eq!(m.matched_ranges.as_slice(), [8..11, 12..13]);
}

#[test]
fn fzf_v1_upstream_fuzzy_6() {
    let (_, m) = fzf(Insensitive, "12356", "ab0123 456");

    let m = m.unwrap();

    assert_eq!(
        m.distance.into_score(),
        5 * bonus::MATCH + 3 * bonus::CONSECUTIVE
            - penalty::GAP_START
            - penalty::GAP_EXTENSION
    );

    assert_eq!(m.matched_ranges.as_slice(), [3..6, 8..10]);
}

#[test]
fn fzf_v1_upstream_fuzzy_7() {
    let (_, m) = fzf(Insensitive, "12356", "abc123 456");

    let m = m.unwrap();

    assert_eq!(
        m.distance.into_score(),
        5 * bonus::MATCH
            + (bonus::FIRST_QUERY_CHAR_MULTIPLIER + 2) * bonus::CAMEL_123
            + bonus::CONSECUTIVE
            - penalty::GAP_START
            - penalty::GAP_EXTENSION
    );

    assert_eq!(m.matched_ranges.as_slice(), [3..6, 8..10]);
}

#[test]
fn fzf_v1_upstream_fuzzy_8() {
    let (fzf, m) = fzf(Insensitive, "fbb", "foo/bar/baz");

    let m = m.unwrap();

    assert_eq!(
        m.distance.into_score(),
        3 * bonus::MATCH
            + bonus::FIRST_QUERY_CHAR_MULTIPLIER
                * fzf.scheme().bonus_boundary_white
            + 2 * fzf.scheme().bonus_boundary_delimiter
            - 2 * penalty::GAP_START
            - 4 * penalty::GAP_EXTENSION
    );

    assert_eq!(m.matched_ranges.as_slice(), [0..1, 4..5, 8..9]);
}

#[test]
fn fzf_v1_upstream_fuzzy_9() {
    let (fzf, m) = fzf(Insensitive, "fbb", "fooBarBaz");

    let m = m.unwrap();

    assert_eq!(
        m.distance.into_score(),
        3 * bonus::MATCH
            + bonus::FIRST_QUERY_CHAR_MULTIPLIER
                * fzf.scheme().bonus_boundary_white
            + 2 * bonus::CAMEL_123
            - 2 * penalty::GAP_START
            - 2 * penalty::GAP_EXTENSION
    );

    assert_eq!(m.matched_ranges.as_slice(), [0..1, 3..4, 6..7]);
}

#[test]
fn fzf_v1_upstream_fuzzy_10() {
    let (fzf, m) = fzf(Insensitive, "fbb", "foo barbaz");

    let m = m.unwrap();

    assert_eq!(
        m.distance.into_score(),
        3 * bonus::MATCH
            + (bonus::FIRST_QUERY_CHAR_MULTIPLIER + 1)
                * fzf.scheme().bonus_boundary_white
            - 2 * penalty::GAP_START
            - 3 * penalty::GAP_EXTENSION
    );

    assert_eq!(m.matched_ranges.as_slice(), [0..1, 4..5, 7..8]);
}

#[test]
fn fzf_v1_upstream_fuzzy_11() {
    let (fzf, m) = fzf(Insensitive, "foob", "fooBar Baz");

    let m = m.unwrap();

    assert_eq!(
        m.distance.into_score(),
        4 * bonus::MATCH
            + (bonus::FIRST_QUERY_CHAR_MULTIPLIER + 3)
                * fzf.scheme().bonus_boundary_white
    );

    assert_eq!(m.matched_ranges.as_slice(), [0..4]);
}

#[test]
fn fzf_v1_upstream_fuzzy_12() {
    let (_, m) = fzf(Insensitive, "foo-b", "xFoo-Bar Baz");

    let m = m.unwrap();

    assert_eq!(
        m.distance.into_score(),
        5 * bonus::MATCH
            + (bonus::FIRST_QUERY_CHAR_MULTIPLIER + 2) * bonus::CAMEL_123
            + bonus::NON_WORD
            + bonus::BOUNDARY
    );

    assert_eq!(m.matched_ranges.as_slice(), [1..6]);
}

#[test]
fn fzf_v1_upstream_fuzzy_13() {
    let (_, m) = fzf(Sensitive, "oBz", "fooBarbaz");

    let m = m.unwrap();

    assert_eq!(
        m.distance.into_score(),
        3 * bonus::MATCH + bonus::CAMEL_123
            - penalty::GAP_START
            - 3 * penalty::GAP_EXTENSION
    );

    assert_eq!(m.matched_ranges.as_slice(), [2..4, 8..9]);
}

#[test]
fn fzf_v1_upstream_fuzzy_14() {
    let (fzf, m) = fzf(Sensitive, "FBB", "Foo/Bar/Baz");

    let m = m.unwrap();

    assert_eq!(
        m.distance.into_score(),
        3 * bonus::MATCH
            + bonus::FIRST_QUERY_CHAR_MULTIPLIER
                * fzf.scheme().bonus_boundary_white
            + 2 * fzf.scheme().bonus_boundary_delimiter
            - 2 * penalty::GAP_START
            - 4 * penalty::GAP_EXTENSION
    );

    assert_eq!(m.matched_ranges.as_slice(), [0..1, 4..5, 8..9]);
}

#[test]
fn fzf_v1_upstream_fuzzy_15() {
    let (fzf, m) = fzf(Sensitive, "FBB", "FooBarBaz");

    let m = m.unwrap();

    assert_eq!(
        m.distance.into_score(),
        3 * bonus::MATCH
            + bonus::FIRST_QUERY_CHAR_MULTIPLIER
                * fzf.scheme().bonus_boundary_white
            + 2 * bonus::CAMEL_123
            - 2 * penalty::GAP_START
            - 2 * penalty::GAP_EXTENSION
    );

    assert_eq!(m.matched_ranges.as_slice(), [0..1, 3..4, 6..7]);
}

#[test]
fn fzf_v1_upstream_fuzzy_16() {
    let (fzf, m) = fzf(Sensitive, "FooB", "FooBar Baz");

    let m = m.unwrap();

    assert_eq!(
        m.distance.into_score(),
        4 * bonus::MATCH
            + (bonus::FIRST_QUERY_CHAR_MULTIPLIER + 2)
                * fzf.scheme().bonus_boundary_white
            + bonus::CAMEL_123.max(fzf.scheme().bonus_boundary_white)
    );

    assert_eq!(m.matched_ranges.as_slice(), [0..4]);
}

#[test]
fn fzf_v1_upstream_fuzzy_17() {
    let (_, m) = fzf(Sensitive, "o-ba", "foo-bar");

    let m = m.unwrap();

    assert_eq!(
        m.distance.into_score(),
        4 * bonus::MATCH + 3 * bonus::BOUNDARY
    );

    assert_eq!(m.matched_ranges.as_slice(), [2..6]);
}

#[test]
fn fzf_v1_upstream_fuzzy_18() {
    let (_, m) = fzf(Sensitive, "oBZ", "fooBarbaz");
    assert!(m.is_none());
}

#[test]
fn fzf_v1_upstream_fuzzy_19() {
    let (_, m) = fzf(Sensitive, "fbb", "Foo Bar Baz");
    assert!(m.is_none());
}

#[test]
fn fzf_v1_upstream_fuzzy_20() {
    let (_, m) = fzf(Sensitive, "fooBarbazz", "fooBarbaz");
    assert!(m.is_none());
}

#[test]
fn fzf_v1_upstream_exact_1() {
    let (_, m) = fzf(Sensitive, "'oBA", "fooBarbaz");
    assert!(m.is_none());
}

#[test]
fn fzf_v1_upstream_exact_2() {
    let (_, m) = fzf(Sensitive, "'fooBarbazz", "fooBarbaz");
    assert!(m.is_none());
}

#[test]
fn fzf_v1_upstream_exact_3() {
    let (_, m) = fzf(Insensitive, "'oBA", "fooBarbaz");

    let m = m.unwrap();

    assert_eq!(
        m.distance.into_score(),
        3 * bonus::MATCH + bonus::CAMEL_123 + bonus::CONSECUTIVE
    );

    assert_eq!(m.matched_ranges.as_slice(), [2..5]);
}

#[test]
fn fzf_v1_upstream_exact_4() {
    let (_, m) = fzf(Insensitive, "'rdoc", "/AutomatorDocument.icns");

    let m = m.unwrap();

    assert_eq!(
        m.distance.into_score(),
        4 * bonus::MATCH + bonus::CAMEL_123 + 2 * bonus::CONSECUTIVE
    );

    assert_eq!(m.matched_ranges.as_slice(), [9..13]);
}

#[test]
fn fzf_v1_upstream_exact_5() {
    let (fzf, m) = fzf(Insensitive, "'zshc", "/man1/zshcompctl.1");

    let m = m.unwrap();

    assert_eq!(
        m.distance.into_score(),
        4 * bonus::MATCH
            + (bonus::FIRST_QUERY_CHAR_MULTIPLIER + 3)
                * fzf.scheme().bonus_boundary_delimiter
    );

    assert_eq!(m.matched_ranges.as_slice(), [6..10]);
}

#[test]
fn fzf_v1_upstream_exact_6() {
    let (fzf, m) = fzf(Insensitive, "'zsh/c", "/.oh-my-zsh/cache");

    let m = m.unwrap();

    assert_eq!(
        m.distance.into_score(),
        5 * bonus::MATCH
            + (bonus::FIRST_QUERY_CHAR_MULTIPLIER + 3) * bonus::BOUNDARY
            + fzf.scheme().bonus_boundary_delimiter
    );

    assert_eq!(m.matched_ranges.as_slice(), [8..13]);
}

#[test]
fn fzf_v1_upstream_exact_7() {
    let (_, m) = fzf(Insensitive, "'oo", "foobar foo");

    let m = m.unwrap();

    assert_eq!(m.distance.into_score(), 2 * bonus::MATCH + bonus::CONSECUTIVE);

    assert_eq!(m.matched_ranges.as_slice(), [1..3]);
}

#[test]
fn fzf_v1_upstream_prefix_1() {
    let (_, m) = fzf(Sensitive, "^Foo", "fooBarbaz");
    assert!(m.is_none());
}

#[test]
fn fzf_v1_upstream_prefix_2() {
    let (_, m) = fzf(Sensitive, "^baz", "fooBarBaz");
    assert!(m.is_none());
}

#[test]
fn fzf_v1_upstream_prefix_3() {
    let (fzf, m) = fzf(Insensitive, "^Foo", "fooBarbaz");

    let m = m.unwrap();

    assert_eq!(
        m.distance.into_score(),
        3 * bonus::MATCH
            + (bonus::FIRST_QUERY_CHAR_MULTIPLIER + 2)
                * fzf.scheme().bonus_boundary_white
    );

    assert_eq!(m.matched_ranges.as_slice(), [0..3]);
}

#[test]
fn fzf_v1_upstream_prefix_4() {
    let (fzf, m) = fzf(Insensitive, "^foo", "foOBarBaZ");

    let m = m.unwrap();

    assert_eq!(
        m.distance.into_score(),
        3 * bonus::MATCH
            + (bonus::FIRST_QUERY_CHAR_MULTIPLIER + 2)
                * fzf.scheme().bonus_boundary_white
    );

    assert_eq!(m.matched_ranges.as_slice(), [0..3]);
}

#[test]
fn fzf_v1_upstream_prefix_5() {
    let (fzf, m) = fzf(Insensitive, "^f-o", "f-oBarbaz");

    let m = m.unwrap();

    assert_eq!(
        m.distance.into_score(),
        3 * bonus::MATCH
            + (bonus::FIRST_QUERY_CHAR_MULTIPLIER + 2)
                * fzf.scheme().bonus_boundary_white
    );

    assert_eq!(m.matched_ranges.as_slice(), [0..3]);
}

#[test]
fn fzf_v1_upstream_prefix_6() {
    let (fzf, m) = fzf(Insensitive, "^foo", " fooBar");

    let m = m.unwrap();

    assert_eq!(
        m.distance.into_score(),
        3 * bonus::MATCH
            + (bonus::FIRST_QUERY_CHAR_MULTIPLIER + 2)
                * fzf.scheme().bonus_boundary_white
    );

    assert_eq!(m.matched_ranges.as_slice(), [1..4]);
}

#[test]
fn fzf_v1_upstream_prefix_7() {
    let (fzf, m) = fzf(Insensitive, "\\ fo", " fooBar");

    let m = m.unwrap();

    assert_eq!(
        m.distance.into_score(),
        3 * bonus::MATCH
            + (bonus::FIRST_QUERY_CHAR_MULTIPLIER + 2)
                * fzf.scheme().bonus_boundary_white
    );

    assert_eq!(m.matched_ranges.as_slice(), [0..3]);
}

#[test]
fn fzf_v1_upstream_prefix_8() {
    let (_, m) = fzf(Insensitive, "^foo", "     fo");
    assert!(m.is_none());
}

#[test]
fn fzf_v1_upstream_suffix_1() {
    let (_, m) = fzf(Sensitive, "Baz$", "fooBarbaz");
    assert!(m.is_none());
}

#[test]
fn fzf_v1_upstream_suffix_2() {
    let (_, m) = fzf(Insensitive, "Foo$", "fooBarBaz");
    assert!(m.is_none());
}

#[test]
fn fzf_v1_upstream_suffix_3() {
    let (_, m) = fzf(Insensitive, "baz$", "fooBarbaz");

    let m = m.unwrap();

    assert_eq!(
        m.distance.into_score(),
        3 * bonus::MATCH + 2 * bonus::CONSECUTIVE
    );

    assert_eq!(m.matched_ranges.as_slice(), [6..9]);
}

#[test]
fn fzf_v1_upstream_suffix_4() {
    let (_, m) = fzf(Insensitive, "baz$", "fooBarBaZ");

    let m = m.unwrap();

    assert_eq!(
        m.distance.into_score(),
        3 * bonus::MATCH
            + (bonus::FIRST_QUERY_CHAR_MULTIPLIER + 2) * bonus::CAMEL_123
    );

    assert_eq!(m.matched_ranges.as_slice(), [6..9]);
}

#[test]
fn fzf_v1_upstream_suffix_5() {
    let (_, m) = fzf(Insensitive, "baz$", "fooBarbaz ");

    let m = m.unwrap();

    assert_eq!(
        m.distance.into_score(),
        3 * bonus::MATCH + 2 * bonus::CONSECUTIVE
    );

    assert_eq!(m.matched_ranges.as_slice(), [6..9]);
}

#[test]
fn fzf_v1_upstream_suffix_6() {
    let (fzf, m) = fzf(Insensitive, "baz\\ $", "fooBarbaz ");

    let m = m.unwrap();

    assert_eq!(
        m.distance.into_score(),
        4 * bonus::MATCH
            + 2 * bonus::CONSECUTIVE
            + fzf.scheme().bonus_boundary_white
    );

    assert_eq!(m.matched_ranges.as_slice(), [6..10]);
}

#[test]
fn fzf_v1_score_1() {
    let mut fzf = FzfV1::new();

    let mut parser = FzfParser::new();

    let mut ranges = Vec::new();

    let _ = fzf
        .set_case_sensitivity(CaseSensitivity::Sensitive)
        .distance_and_ranges(&parser.parse("ZZ"), "ӥZZZ", &mut ranges)
        .unwrap();

    assert_eq!(ranges, [2..4]);
}

#[test]
fn fzf_v1_score_2() {
    let mut fzf = FzfV1::new();

    let mut parser = FzfParser::new();

    let query = parser.parse("^\\$ ]]%]]'\0\0\0\0\0\0");

    let mach = fzf
        .set_case_sensitivity(CaseSensitivity::Sensitive)
        .distance(&query, "\0");

    assert!(mach.is_none());
}

#[test]
fn fzf_v1_score_3() {
    let mut fzf = FzfV1::new();

    let mut parser = FzfParser::new();

    let query = parser.parse("^\\$");

    let mach = fzf
        .set_case_sensitivity(CaseSensitivity::Sensitive)
        .distance(&query, " ");

    assert!(mach.is_none());
}

#[test]
fn fzf_v1_score_4() {
    let mut fzf = FzfV1::new();

    let mut parser = FzfParser::new();

    let mut ranges = Vec::new();

    let query = parser.parse("z\n");

    let candidate = "ZZ\0\0\0\0\0\0\0\0\0\0\0\0\0\0\0\0\0\u{65e}\nZ\u{65e}";

    let _ = fzf
        .set_case_sensitivity(CaseSensitivity::Insensitive)
        .distance_and_ranges(&query, candidate, &mut ranges)
        .unwrap();

    assert_eq!(ranges, [1..2, 21..22]);
}

#[test]
fn fzf_v1_score_5() {
    let mut fzf = FzfV1::new();

    let mut parser = FzfParser::new();

    let mut ranges = Vec::new();

    let _ = fzf
        .set_case_sensitivity(CaseSensitivity::Sensitive)
        .set_candidate_normalization(true)
        .distance_and_ranges(
            &parser.parse("e !"),
            " !I\\hh+\u{364}",
            &mut ranges,
        )
        .unwrap();

    assert_eq!(ranges, [1..2, 7..9]);
}

#[test]
fn fzf_v1_score_6() {
    let mut fzf = FzfV1::new();

    let mut parser = FzfParser::new();

    let mut ranges = Vec::new();

    let query = parser.parse("^e");

    let _ = fzf
        .set_case_sensitivity(CaseSensitivity::Insensitive)
        .set_candidate_normalization(true)
        .distance_and_ranges(&query, "\u{364}", &mut ranges);

    assert_eq!(ranges, [0..2]);
}
