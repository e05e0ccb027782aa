use rsvp::session::DisplayMode;
use rsvp::text::{build_units, join_all, join_range, read_file_content, read_file_sentences};

#[test]
fn words_are_split_on_white_space() {
    let w = read_file_content("  hello \t world\nagain\u{a0}now ");
    assert_eq!(w, vec!["hello", "world", "again", "now"]);
}

#[test]
fn empty_text_has_no_words() {
    assert!(read_file_content("").is_empty());
    assert!(read_file_content(" \n\t ").is_empty());
}

#[test]
fn sentences_follow_unicode_bounds() {
    let s = read_file_sentences("Mr. Fox jumped. [...] The dog was too lazy.");
    assert_eq!(s, vec!["Mr. ", "Fox jumped. ", "The dog was too lazy."]);
}

#[test]
fn units_follow_the_display_mode() {
    let text = "One two. Three four five.";
    assert_eq!(build_units(text, DisplayMode::WordChunk(3)).len(), 5);
    assert_eq!(build_units(text, DisplayMode::WordChunk(1)), build_units(text, DisplayMode::WordChunk(3)));
    assert_eq!(build_units(text, DisplayMode::Sentence).len(), 2);
}

#[test]
fn units_are_rebuilt_the_same_every_time() {
    let text = "Alpha beta. Gamma delta epsilon. Zeta.";
    let first = build_units(text, DisplayMode::WordChunk(3));
    let sentences = build_units(text, DisplayMode::Sentence);
    let again = build_units(text, DisplayMode::WordChunk(3));
    assert_eq!(first, again);
    assert_eq!(sentences.len(), build_units(text, DisplayMode::Sentence).len());
    assert_eq!(sentences.len(), 3);
}

#[test]
fn join_puts_separator_between_units() {
    let parts: Vec<String> = vec!["a".into(), "bc".into(), "d".into()];
    assert_eq!(join_all(&parts, " "), "a bc d");
    assert_eq!(join_range(&parts, 1, 3, "-"), "bc-d");
    assert_eq!(join_range(&parts, 2, 2, " "), "");
}
