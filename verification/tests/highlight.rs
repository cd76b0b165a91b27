use git_navigator::highlight::{highlighted_segments, highlighted_spans, Segment};

fn piece(text: &str, matched: bool) -> Segment {
    Segment { text: text.into(), matched }
}

#[test]
fn diff_search_highlights_all_case_insensitive_matches() {
    let spans = highlighted_spans("Error error ERROR", "error").expect("lowercase keeps the length");
    assert_eq!(spans.iter().filter(|span| span.matched).count(), 3);
}

#[test]
fn highlights_keep_the_text_between_matches() {
    assert_eq!(
        highlighted_spans("Error error ERROR", "error").unwrap(),
        vec![
            piece("Error", true),
            piece(" ", false),
            piece("error", true),
            piece(" ", false),
            piece("ERROR", true),
        ]
    );
    assert_eq!(highlighted_spans("abc", "").unwrap(), vec![piece("abc", false)]);
    assert_eq!(highlighted_spans("", "").unwrap(), vec![piece("", false)]);
    assert_eq!(highlighted_spans("", "x").unwrap(), vec![]);
    assert_eq!(highlighted_spans("abc", "x").unwrap(), vec![piece("abc", false)]);
}

#[test]
fn matches_do_not_overlap() {
    assert_eq!(
        highlighted_segments("aaaa", "aaaa", "aa"),
        vec![piece("aa", true), piece("aa", true)]
    );
    assert_eq!(
        highlighted_segments("xAAAy", "xaaay", "aa"),
        vec![piece("x", false), piece("AA", true), piece("Ay", false)]
    );
}

#[test]
fn lowercase_that_changes_the_length_is_not_highlighted() {
    assert_eq!(highlighted_spans("İx", "x"), None);
}
