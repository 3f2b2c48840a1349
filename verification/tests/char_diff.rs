use lantern::sanitize::diff::{char_diff, reassemble, DiffSpan, DiffTag, MAX_DIFF_INPUT};

fn tags(spans: &[DiffSpan]) -> Vec<DiffTag> {
    spans.iter().map(|s| s.tag).collect()
}

fn texts(spans: &[DiffSpan]) -> Vec<&str> {
    spans.iter().map(|s| s.text.as_str()).collect()
}

#[test]
fn identical_strings_produce_single_equal_span() {
    let (b, a) = char_diff("hello", "hello");
    assert_eq!(b.len(), 1);
    assert_eq!(a.len(), 1);
    assert_eq!(b[0].tag, DiffTag::Equal);
    assert_eq!(a[0].tag, DiffTag::Equal);
    assert_eq!(b[0].text, "hello");
}

#[test]
fn both_empty_strings_produce_empty_spans() {
    let (b, a) = char_diff("", "");
    assert!(b.is_empty());
    assert!(a.is_empty());
}

#[test]
fn empty_before_produces_single_added_span() {
    let (b, a) = char_diff("", "new");
    assert!(b.is_empty());
    assert_eq!(tags(&a), vec![DiffTag::Added]);
    assert_eq!(texts(&a), vec!["new"]);
}

#[test]
fn empty_after_produces_single_removed_span() {
    let (b, a) = char_diff("old", "");
    assert_eq!(tags(&b), vec![DiffTag::Removed]);
    assert_eq!(texts(&b), vec!["old"]);
    assert!(a.is_empty());
}

#[test]
fn trailing_whitespace_trimmed() {
    let (b, a) = char_diff("hello   ", "hello");
    assert_eq!(tags(&b), vec![DiffTag::Equal, DiffTag::Removed]);
    assert_eq!(texts(&b), vec!["hello", "   "]);
    assert_eq!(tags(&a), vec![DiffTag::Equal]);
    assert_eq!(texts(&a), vec!["hello"]);
}

#[test]
fn query_param_removed_from_middle() {
    let before = "https://e.com/?a=1&utm_source=x&b=2";
    let after = "https://e.com/?a=1&b=2";
    let (b, a) = char_diff(before, after);
    assert_eq!(reassemble(&b, DiffTag::Removed), before);
    assert_eq!(reassemble(&a, DiffTag::Added), after);
    assert!(b.iter().any(|s| s.tag == DiffTag::Removed));
    assert!(!b.iter().any(|s| s.tag == DiffTag::Added));
    assert!(!a.iter().any(|s| s.tag == DiffTag::Removed));
}

#[test]
fn scheme_upgrade_is_single_added_letter() {
    let (b, a) = char_diff("http://example.com/", "https://example.com/");
    assert!(!b.iter().any(|s| s.tag == DiffTag::Added));
    let added: Vec<_> = a.iter().filter(|s| s.tag == DiffTag::Added).collect();
    assert_eq!(added.len(), 1);
    assert_eq!(added[0].text, "s");
}

#[test]
fn reassembly_round_trips_both_sides() {
    let cases = [
        ("abc", "abd"),
        ("lorem ipsum dolor", "lorem DOLOR"),
        ("a", "b"),
        ("", "full"),
        ("full", ""),
        ("\u{1F680} rocket title", "rocket \u{1F680}"),
    ];
    for (before, after) in cases {
        let (b, a) = char_diff(before, after);
        assert_eq!(reassemble(&b, DiffTag::Removed), before, "before mismatch");
        assert_eq!(reassemble(&a, DiffTag::Added), after, "after mismatch");
    }
}

#[test]
fn pathological_size_falls_back_to_whole_string_spans() {
    let big = "a".repeat(MAX_DIFF_INPUT + 1);
    let (b, a) = char_diff(&big, "short");
    assert_eq!(b.len(), 1);
    assert_eq!(b[0].tag, DiffTag::Removed);
    assert_eq!(a.len(), 1);
    assert_eq!(a[0].tag, DiffTag::Added);
}

#[test]
fn unicode_characters_treated_as_single_units() {
    let (b, a) = char_diff("\u{1F680}a", "\u{1F680}b");
    assert_eq!(reassemble(&b, DiffTag::Removed), "\u{1F680}a");
    assert_eq!(reassemble(&a, DiffTag::Added), "\u{1F680}b");
    assert!(b
        .iter()
        .any(|s| s.tag == DiffTag::Equal && s.text.contains('\u{1F680}')));
    assert!(a
        .iter()
        .any(|s| s.tag == DiffTag::Equal && s.text.contains('\u{1F680}')));
}

#[test]
fn equal_text_is_a_longest_common_subsequence() {
    // "abcbdab" / "bdcaba": the longest common subsequences have 4 letters.
    let (b, a) = char_diff("abcbdab", "bdcaba");
    let kept = |spans: &[DiffSpan]| -> String {
        spans
            .iter()
            .filter(|s| s.tag == DiffTag::Equal)
            .map(|s| s.text.as_str())
            .collect()
    };
    assert_eq!(kept(&b), kept(&a));
    assert_eq!(kept(&b).chars().count(), 4);
    // Neighbouring spans never share a tag.
    for w in b.windows(2) {
        assert_ne!(w[0].tag, w[1].tag);
    }
}

#[test]
fn reassemble_equal_side_keeps_everything() {
    let (b, _) = char_diff("ab", "b");
    assert_eq!(reassemble(&b, DiffTag::Equal), "ab");
}
