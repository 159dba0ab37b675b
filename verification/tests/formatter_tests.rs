use twitter2obsidian::formatter::Formatter;

#[test]
fn mentions_become_internal_links() {
    let f = Formatter::new();
    assert_eq!(f.format_text("@hoge tweet3"), "[[@hoge]] tweet3");
    assert_eq!(f.format_text("RT @hoge: tweet2"), "RT [[@hoge]]: tweet2");
    assert_eq!(f.format_text("a@b_c9 d"), "a[[@b_c9]] d");
    assert_eq!(f.format_text("@ alone"), "@ alone");
}

#[test]
fn newlines_gain_indentation() {
    let f = Formatter::new();
    assert_eq!(f.format_text("a\nb"), "a\n  b");
    assert_eq!(f.format_text("a\n\nb"), "a\n  \n  b");
}

#[test]
fn numeric_hashtags_are_split_from_punctuation() {
    let f = Formatter::new();
    assert_eq!(f.format_text("#123\u{300C}x"), "#123 \u{300C}x");
    assert_eq!(f.format_text("#7:00"), "#7 :00");
    assert_eq!(f.format_text("#12|x"), "#12 |x");
    // A hashtag followed by a space is already fine.
    assert_eq!(f.format_text("#123 ok"), "#123 ok");
    // A non-numeric hashtag is left alone.
    assert_eq!(f.format_text("#abc:"), "#abc:");
}

#[test]
fn numeric_hashtags_are_split_from_urls() {
    let f = Formatter::new();
    assert_eq!(f.format_text("#12http://x"), "#12 http://x");
    assert_eq!(f.format_text("#12https://x"), "#12 https://x");
    assert_eq!(f.format_text("#12htt"), "#12htt");
}

#[test]
fn formatting_is_idempotent_without_raw_patterns() {
    let f = Formatter::new();
    // No newline, no raw mention, no glued numeric hashtag: formatting is the
    // identity, so re-applying it changes nothing.
    let s = "plain text, tag #1 : done, link #2 http://x";
    let once = f.format_text(s);
    assert_eq!(once, s);
    assert_eq!(f.format_text(&once), once);
}

#[test]
fn newline_indentation_is_not_idempotent() {
    let f = Formatter::new();
    let once = f.format_text("a\nb");
    let twice = f.format_text(&once);
    assert_eq!(once, "a\n  b");
    assert_eq!(twice, "a\n    b");
    assert_ne!(twice, once);
}
