use lantern::sanitize::treatments::text::{decode_html_entities, normalize_whitespace, remove_all, trim_dangling_punct};

#[test]
fn decodes_known_entities_and_keeps_everything_else() {
    let cases = [
        ("Tom &amp; Jerry", "Tom & Jerry"),
        ("A &lt; B &gt; C", "A < B > C"),
        (
            "Say &quot;hi&quot; &amp; it&apos;s done",
            "Say \"hi\" & it's done",
        ),
        ("Rust &mdash; fast &ndash; safe", "Rust — fast – safe"),
        ("&#169; 2024", "© 2024"),
        ("A &#x26; B &#X26; C", "A & B & C"),
        (
            "&unknown; &AMP; &#xZZ; &#; &#99999999;",
            "&unknown; &AMP; &#xZZ; &#; &#99999999;",
        ),
        ("Tom & Jerry &amp", "Tom & Jerry &amp"),
        ("&&amp;", "&&"),
        ("R&D&amp;Co", "R&D&Co"),
        ("no entities", "no entities"),
    ];
    for (input, expected) in cases {
        assert_eq!(decode_html_entities(input), expected, "input: {input:?}");
    }
}

#[test]
fn whitespace_runs_collapse_and_edges_trim() {
    assert_eq!(normalize_whitespace("  Hello \t\n  World  "), "Hello World");
    assert_eq!(normalize_whitespace("clean"), "clean");
    assert_eq!(normalize_whitespace("   "), "");
}

#[test]
fn unicode_whitespace_counts_as_whitespace() {
    assert_eq!(normalize_whitespace("a\u{00A0}\u{2003}b\u{3000}"), "a b");
}

#[test]
fn numeric_entities_reject_surrogates_and_overflow() {
    assert_eq!(decode_html_entities("&#xD800;"), "&#xD800;");
    assert_eq!(decode_html_entities("&#4294967296;"), "&#4294967296;");
    assert_eq!(decode_html_entities("&#0000065;"), "A");
    assert_eq!(decode_html_entities("&#x1F680;"), "\u{1F680}");
}

#[test]
fn removing_brackets_and_trimming_dangling_punctuation() {
    assert_eq!(remove_all("a()b()", "()"), "ab");
    assert_eq!(remove_all("((x", "(("), "x");
    assert_eq!(trim_dangling_punct(" - Title () ,"), "Title");
    assert_eq!(trim_dangling_punct("a [ ] b"), "a  b");
}

#[test]
fn dangling_punctuation_trimming_is_idempotent() {
    assert_eq!(trim_dangling_punct("(())"), "");
    assert_eq!(trim_dangling_punct("Title ([ ]) , "), "Title");
    for s in ["(())", "a (()) b", "- [()] -", "x{ () }y", ", plain ;", "", "<<>>"] {
        let once = trim_dangling_punct(s);
        assert_eq!(trim_dangling_punct(&once), once, "{s:?}");
    }
}

#[test]
fn decoding_undoes_the_emitters_escaping() {
    // `A & "B" <C>` as the emitter writes it in an attribute and in text.
    assert_eq!(decode_html_entities("A &amp; &quot;B&quot; &lt;C&gt;"), "A & \"B\" <C>");
    assert_eq!(decode_html_entities("A &amp; \"B\" &lt;C&gt;"), "A & \"B\" <C>");
    assert_eq!(decode_html_entities("&amp;amp;"), "&amp;");
}
