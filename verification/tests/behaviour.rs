use std::cmp::Ordering;

use norm::candidate::Candidate;
use norm::chars::{char_eq, strip_leading_spaces};
use norm::fzf::{
    char_class, parse, CharClass, FzfDistance, FzfParser, FzfV1, FzfV2, MatrixSlab, Pattern, Scheme,
    SearchMode,
};
use norm::tiny_vec::TinyVec;
use norm::{CaseSensitivity, Metric};

fn score_v1(query: &str, candidate: &str) -> Option<i64> {
    let mut fzf = FzfV1::new();
    let query = FzfParser::new().parse(query);
    fzf.distance(&query, candidate).map(FzfDistance::into_score)
}

fn score_v2(query: &str, candidate: &str) -> Option<i64> {
    let mut fzf = FzfV2::new();
    let query = FzfParser::new().parse(query);
    fzf.distance(&query, candidate).map(FzfDistance::into_score)
}

#[test]
fn fuzzy_matches_exactly_subsequences() {
    for (query, candidate, is_match) in [
        ("abc", "xaybzc", true),
        ("abc", "xacbzx", false),
        ("a", "bab", true),
        ("a", "bbb", false),
        ("ab", "ba", false),
        ("ab", "ab", true),
    ] {
        assert_eq!(score_v1(query, candidate).is_some(), is_match, "{query} {candidate}");
        assert_eq!(score_v2(query, candidate).is_some(), is_match, "{query} {candidate}");
    }
}

#[test]
fn inverse_pattern_matches_what_the_pattern_does_not() {
    let mut fzf = FzfV2::new();
    let query = FzfParser::new().parse("!foo");
    let mut ranges = Vec::new();
    let distance = fzf.distance_and_ranges(&query, "bar", &mut ranges).unwrap();
    assert_eq!(distance.into_score(), 0);
    assert!(ranges.is_empty());
    assert!(fzf.distance(&query, "a foo b").is_none());
}

#[test]
fn or_condition_matches_when_one_pattern_does() {
    assert!(score_v1("foo | bar", "xbarx").is_some());
    assert!(score_v1("foo | bar", "xbazx").is_none());
    assert_eq!(score_v2("'zzz | bar", "bar"), score_v2("bar", "bar"));
}

#[test]
fn and_conditions_add_their_scores() {
    let both = score_v1("foo bar", "foo_bar").unwrap();
    let foo = score_v1("foo", "foo_bar").unwrap();
    let bar = score_v1("bar", "foo_bar").unwrap();
    assert_eq!(both, foo + bar);
    assert!(score_v1("foo qux", "foo_bar").is_none());
}

#[test]
fn empty_query_matches_everything_with_score_zero() {
    assert_eq!(score_v1("", "anything"), Some(0));
    assert_eq!(score_v2("   ", ""), Some(0));
}

#[test]
fn lower_distance_means_higher_score() {
    let mut fzf = FzfV2::new();
    let query = FzfParser::new().parse("foo");
    let good = fzf.distance(&query, "foo").unwrap();
    let bad = fzf.distance(&query, "f_o_o").unwrap();
    assert!(good.into_score() > bad.into_score());
    assert!(good < bad);
    assert_eq!(good.partial_cmp(&bad), Some(Ordering::Less));
    assert_eq!(good.cmp(&bad), Ordering::Less);
    assert_eq!(FzfDistance::default().into_score(), 0);
}

#[test]
fn v2_finds_the_best_alignment() {
    let mut v1 = FzfV1::new();
    let mut v2 = FzfV2::new();
    let query = FzfParser::new().parse("foo");
    let mut ranges = Vec::new();
    let d1 = v1.distance_and_ranges(&query, "f_o_o_foo", &mut ranges).unwrap();
    assert_eq!(ranges, [0..1, 2..3, 4..5]);
    ranges.clear();
    let d2 = v2.distance_and_ranges(&query, "f_o_o_foo", &mut ranges).unwrap();
    assert_eq!(ranges, [6..9]);
    assert!(d2 < d1);
}

#[test]
fn readme_cities() {
    let mut fzf = FzfV2::new();
    let query = FzfParser::new().parse("aa");
    let cities = ["Geneva", "Ulaanbaatar", "New York City", "Adelaide"];
    let mut results = cities
        .iter()
        .copied()
        .filter_map(|city| fzf.distance(&query, city).map(|dist| (city, dist)))
        .collect::<Vec<_>>();
    results.sort_by_key(|(_city, dist)| *dist);
    assert_eq!(results.len(), 2);
    assert_eq!(results[0].0, "Adelaide");
    assert_eq!(results[1].0, "Ulaanbaatar");

    let mut ranges = Vec::new();
    let _ = fzf.distance_and_ranges(&query, results[0].0, &mut ranges);
    assert_eq!(ranges, [0..1, 4..5]);
    ranges.clear();
    let _ = fzf.distance_and_ranges(&query, results[1].0, &mut ranges);
    assert_eq!(ranges, [2..4]);
}

#[test]
fn failed_match_leaves_ranges_untouched() {
    let mut fzf = FzfV1::new();
    let query = FzfParser::new().parse("xyz");
    let mut ranges = vec![3..4];
    assert!(fzf.distance_and_ranges(&query, "abc", &mut ranges).is_none());
    assert_eq!(ranges, [3..4]);
}

#[test]
fn smart_case_follows_uppercase_in_query() {
    let mut fzf = FzfV2::new();
    let mut parser = FzfParser::new();
    assert!(fzf.distance(&parser.parse("abc"), "ABC").is_some());
    assert!(fzf.distance(&parser.parse("Abc"), "abc").is_none());
    fzf.set_case_sensitivity(CaseSensitivity::Insensitive);
    assert!(fzf.distance(&parser.parse("Abc"), "abc").is_some());
    fzf.set_case_sensitivity(CaseSensitivity::Sensitive);
    assert!(fzf.distance(&parser.parse("abc"), "ABC").is_none());
}

#[test]
fn normalization_applies_to_the_candidate_only() {
    let mut fzf = FzfV2::new();
    let mut parser = FzfParser::new();
    assert!(fzf.distance(&parser.parse("foo"), "ƒöö").is_none());
    fzf.set_candidate_normalization(true);
    assert!(fzf.distance(&parser.parse("foo"), "ƒöö").is_some());
    assert!(fzf.distance(&parser.parse("ƒöö"), "foo").is_none());
}

#[test]
fn parse_splits_words_into_conditions() {
    let query = parse("a b c");
    let SearchMode::Extended(conditions) = query.search_mode else {
        panic!();
    };
    assert_eq!(conditions.len(), 3);
    assert!(conditions.iter().all(|c| c.or_patterns().len() == 1));
}

#[test]
fn memchr_finds_ascii_characters() {
    let candidate = Candidate::Ascii(b"hello World");
    let eq = char_eq(true, false);
    assert_eq!(candidate.find_first_from(0, 'o', true, eq), Some(4));
    assert_eq!(candidate.find_first_from(5, 'o', true, eq), Some(7));
    assert_eq!(candidate.find_last_from(11, 'o', true, eq), Some(7));
    assert_eq!(candidate.find_first_from(0, 'z', true, eq), None);
    let eq = char_eq(false, false);
    assert_eq!(candidate.find_first_from(0, 'w', false, eq), Some(6));
    assert_eq!(candidate.find_last_from(11, 'L', false, eq), Some(9));
}

#[test]
fn unicode_character_classes() {
    let scheme = Scheme::default();
    assert_eq!(char_class('é', &scheme), CharClass::Lower);
    assert_eq!(char_class('É', &scheme), CharClass::Upper);
    assert_eq!(char_class('٣', &scheme), CharClass::Number);
    assert_eq!(char_class('\u{2003}', &scheme), CharClass::WhiteSpace);
    assert!(Pattern::raw(&['x', 'É']).has_uppercase);
    assert!(!Pattern::raw(&['x', 'é']).has_uppercase);
}

#[test]
fn strip_leading_spaces_removes_only_spaces() {
    assert_eq!(strip_leading_spaces("   foo "), "foo ");
    assert_eq!(strip_leading_spaces("foo"), "foo");
    assert_eq!(strip_leading_spaces("    "), "");
    assert_eq!(strip_leading_spaces(" \tx"), "\tx");
}

#[test]
fn tiny_vec_operations() {
    let mut vec = TinyVec::<2, u32>::default();
    vec.push(10);
    vec.push(30);
    vec.insert(1, 20);
    assert_eq!(vec.as_slice(), [10, 20, 30]);
    assert!(!vec.is_inline());
    assert_eq!(vec.binary_search_by(|x| x.cmp(&20)), Ok(1));
    assert_eq!(vec.binary_search_by(|x| x.cmp(&25)), Err(2));
    assert_eq!(vec.binary_search_by(|x| x.cmp(&5)), Err(0));
    *vec.get_mut(0).unwrap() = 11;
    assert!(vec.get_mut(3).is_none());
    {
        let (a, b) = vec.split_at_mut(1);
        a[0] += 1;
        b[1] += 1;
    }
    assert_eq!(vec.as_slice(), [12, 20, 31]);
    vec.as_mut_slice()[1] = 21;
    vec.remove(0);
    assert_eq!(vec.as_slice(), [21, 31]);
    vec.clear();
    assert_eq!(vec.len(), 0);
    assert!(!vec.is_inline());
}

#[test]
fn matrix_rows_are_changed_in_place() {
    let mut slab = MatrixSlab::<usize>::new();
    let mut matrix = slab.allocate(3, 2);
    matrix.row_mut(1)[2] = 7;
    {
        let (a, b) = matrix.two_rows_mut(0, 1);
        a[0] = 1;
        b[0] = 2;
    }
    assert_eq!(matrix.get_at(0, 0), 1);
    assert_eq!(matrix.get_at(1, 0), 2);
    assert_eq!(matrix.get_at(1, 2), 7);
    assert_eq!(matrix.get_at(0, 2), 0);
}

#[test]
fn matrix_text_aligns_columns() {
    let mut slab = MatrixSlab::<usize>::new();
    let mut matrix = slab.allocate(3, 2);
    for (row, col, value) in [(0, 0, 1), (0, 1, 23), (0, 2, 4), (1, 0, 5), (1, 1, 6), (1, 2, 789)] {
        matrix.set_at(row, col, value);
    }
    assert_eq!(
        matrix.to_text(),
        "┌           ┐\n│1   23  4  │\n│5   6   789│\n└           ┘"
    );

    let mut slab = MatrixSlab::<i64>::new();
    let mut matrix = slab.allocate(2, 1);
    matrix.set_at(0, 1, 10);
    assert_eq!(matrix.to_text(), "[0  10]\n");
}

#[test]
fn matched_ranges_text() {
    let mut ranges = norm::MatchedRanges::from_vec(vec![0..3, 5..6]);
    assert_eq!(ranges.to_text(), "[0..3, 5..6]");
    ranges.insert(10..12);
    assert_eq!(ranges.to_text(), "[0..3, 5..6 | 10..12, ]");
    assert_eq!(norm::MatchedRanges::new().to_text(), "[]");
}

#[test]
fn query_text() {
    assert_eq!(parse("foo").to_text(), "FzfQuery(\"foo\")");
    assert_eq!(
        parse("foo | ^bar baz").to_text(),
        "FzfQuery(\"(\\\"foo\\\" || \\\"bar\\\") && \\\"baz\\\"\")"
    );
    let conditions = norm::fzf::conditions("a | b");
    assert_eq!(conditions[0].to_text(), "(\"a\" || \"b\")");
}

#[test]
fn reported_ranges_slice_the_candidate() {
    let pairs = [
        ("e !", " !I\\hh+\u{364}"),
        ("ƒo | 'öb", "ƒöö bar ƒoo"),
        ("^Ab !zz", "Abç d"),
        ("ӥz", "ӥZZZ ӥz"),
        ("a b c", "çaçbçc"),
    ];
    for (query, candidate) in pairs {
        let query = FzfParser::new().parse(query);
        for case_sensitivity in
            [CaseSensitivity::Sensitive, CaseSensitivity::Insensitive, CaseSensitivity::Smart]
        {
            for normalization in [true, false] {
                for scheme in [
                    norm::fzf::FzfScheme::Default,
                    norm::fzf::FzfScheme::Path,
                    norm::fzf::FzfScheme::History,
                ] {
                    let mut ranges = Vec::new();
                    let mut v1 = FzfV1::new();
                    v1.with_case_sensitivity(case_sensitivity)
                        .with_normalization(normalization)
                        .with_scoring_scheme(scheme);
                    let _ = v1.distance_and_ranges(&query, candidate, &mut ranges);
                    let mut v2 = FzfV2::new();
                    v2.with_case_sensitivity(case_sensitivity)
                        .with_normalization(normalization)
                        .with_scoring_scheme(scheme);
                    let _ = v2.distance_and_ranges(&query, candidate, &mut ranges);
                    for range in ranges {
                        assert!(!candidate[range].is_empty());
                    }
                }
            }
        }
    }
}

#[test]
fn both_algorithms_filter_alike() {
    let queries = ["abc", "^ab c$", "!x | y", "'bc a", "ӥ z", ""];
    let candidates = ["abc", "a_b_c", "xyz", "cab", "ӥZ", "b a c"];
    for query in queries {
        let query = FzfParser::new().parse(query);
        for candidate in candidates {
            let mut v1 = FzfV1::new();
            let mut v2 = FzfV2::new();
            let d1 = v1.distance(&query, candidate);
            let d2 = v2.distance(&query, candidate);
            assert_eq!(d1.is_some(), d2.is_some());
            let mut ranges = Vec::new();
            assert_eq!(v2.distance_and_ranges(&query, candidate, &mut ranges), d2);
        }
    }
}

#[test]
fn metric_text() {
    assert_eq!(
        FzfV1::new().to_text(),
        "FzfV1 { candidate_normalization: false, case_sensitivity: Smart, scoring_scheme: Default, .. }"
    );
    let mut fzf = FzfV2::new();
    fzf.set_scoring_scheme(norm::fzf::FzfScheme::Path)
        .set_case_sensitivity(CaseSensitivity::Insensitive)
        .set_candidate_normalization(true);
    assert_eq!(
        fzf.to_text(),
        "FzfV2 { candidate_normalization: true, case_sensitivity: Insensitive, scoring_scheme: Path, .. }"
    );
}

#[test]
fn words_are_read_one_at_a_time() {
    let chars = " foo\\ bar  baz ".chars().collect::<Vec<_>>();
    let mut words = norm::fzf::Words::new(&chars);
    assert_eq!(words.next(), Some("foo bar".chars().collect::<Vec<_>>()));
    assert_eq!(words.next(), Some("baz".chars().collect::<Vec<_>>()));
    assert_eq!(words.next(), None);
    assert_eq!(words.next(), None);
}

#[test]
fn ranges_of_overlapping_conditions_cover_every_matched_byte() {
    let query = FzfParser::new().parse("'oo 'foob");
    let mut ranges = Vec::new();
    assert!(FzfV1::new().distance_and_ranges(&query, "foobar", &mut ranges).is_some());
    assert_eq!(ranges, [0..4]);
    let mut ranges = Vec::new();
    assert!(FzfV2::new().distance_and_ranges(&query, "foobar", &mut ranges).is_some());
    assert_eq!(ranges, [0..4]);
}

#[test]
fn distance_round_trips_every_score() {
    for score in [i64::MIN, i64::MIN + 1, -1, 0, 1, i64::MAX] {
        assert_eq!(FzfDistance::from_score(score).into_score(), score);
    }
    assert!(FzfDistance::from_score(i64::MAX) < FzfDistance::from_score(i64::MIN));
}

#[test]
fn fuzzy_match_lowercases_only_the_candidate() {
    let fzf = FzfV1::new();
    assert_eq!(fzf.fuzzy_match("abc", "a_b_abcd"), Some(4..7));
    assert_eq!(fzf.fuzzy_match("abc", "A_B_ABCD"), Some(4..7));
    assert_eq!(fzf.fuzzy_match("A", "A"), None);
    assert_eq!(fzf.fuzzy_match("abc", "xyz"), None);
    let mut fzf = FzfV1::new();
    fzf.set_case_sensitivity(CaseSensitivity::Sensitive);
    assert_eq!(fzf.fuzzy_match("A", "A"), Some(0..1));
    assert_eq!(fzf.fuzzy_match("a", "A"), None);
}

#[test]
fn smart_case_reads_ascii_letters() {
    let mut parser = FzfParser::new();
    let mut v1 = FzfV1::new();
    let mut v2 = FzfV2::new();
    assert!(v1.distance(&parser.parse("abc"), "ABC").is_some());
    assert!(v2.distance(&parser.parse("abc"), "ABC").is_some());
    assert!(v1.distance(&parser.parse("aBc"), "abc").is_none());
    v1.set_case_sensitivity(CaseSensitivity::Sensitive);
    v2.set_case_sensitivity(CaseSensitivity::Sensitive);
    assert!(v1.distance(&parser.parse("abc"), "ABC").is_none());
    assert!(v2.distance(&parser.parse("abc"), "ABC").is_none());
}

#[test]
fn exact_match_bonus_follows_the_scan() {
    let query = FzfParser::new().parse("'aab");
    let mut ranges = Vec::new();
    assert!(FzfV1::new().distance_and_ranges(&query, "aAabxAab", &mut ranges).is_some());
    assert_eq!(ranges, [5..8]);
}
