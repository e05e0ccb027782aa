//! Turning extracted text into display units, and joining units back into
//! text.

use vstd::prelude::*;
use crate::session::DisplayMode;
use crate::sizer::units_view;
use unicode_segmentation::UnicodeSegmentation;

verus! {

/// `parts` joined, with `sep` between each two.
pub open spec fn joined(parts: Seq<Seq<char>>, sep: Seq<char>) -> Seq<char>
    decreases parts.len(),
{
    if parts.len() == 0 {
        Seq::empty()
    } else if parts.len() == 1 {
        parts[0]
    } else {
        joined(parts.drop_last(), sep) + sep + parts.last()
    }
}

/// The units `from..to` of `parts`, joined with `sep` between each two.
pub fn join_range(parts: &[String], from: usize, to: usize, sep: &str) -> (r: String)
    requires
        from <= to <= parts@.len(),
    ensures
        r@ == joined(units_view(parts@).subrange(from as int, to as int), sep@),
{
    let ghost u = units_view(parts@);
    let mut r = String::new();
    let mut i: usize = from;
    while i < to
        invariant
            u == units_view(parts@),
            from <= i <= to,
            to <= parts@.len(),
            r@ == joined(u.subrange(from as int, i as int), sep@),
        decreases to - i,
    {
        let ghost prev = u.subrange(from as int, i as int);
        let ghost next = u.subrange(from as int, i + 1);
        assert(next.drop_last() =~= prev);
        assert(next.last() == parts@[i as int]@);
        if i == from {
            r = parts[i].clone();
        } else {
            r.append(sep);
            r.append(parts[i].as_str());
        }
        i = i + 1;
    }
    r
}

/// `parts` joined with `sep` between each two.
pub fn join_all(parts: &[String], sep: &str) -> (r: String)
    ensures
        r@ == joined(units_view(parts@), sep@),
{
    let r = join_range(parts, 0, parts.len(), sep);
    assert(units_view(parts@).subrange(0, parts@.len() as int) =~= units_view(parts@));
    r
}

/// Characters that have Unicode's White_Space property.
pub open spec fn is_white(c: char) -> bool {
    ('\u{9}' <= c && c <= '\u{d}') || c == ' ' || c == '\u{85}' || c == '\u{a0}' || c == '\u{1680}' || (
    '\u{2000}' <= c && c <= '\u{200a}') || c == '\u{2028}' || c == '\u{2029}' || c == '\u{202f}' || c
        == '\u{205f}' || c == '\u{3000}'
}

/// The words of `s`: its maximal runs of characters that are not white space.
pub open spec fn words_of(s: Seq<char>) -> Seq<Seq<char>>
    decreases s.len(),
{
    if s.len() == 0 {
        Seq::empty()
    } else {
        let rest = words_of(s.drop_last());
        let c = s.last();
        if is_white(c) {
            rest
        } else if s.len() >= 2 && !is_white(s[s.len() - 2]) && rest.len() > 0 {
            rest.update(rest.len() - 1, rest.last().push(c))
        } else {
            rest.push(seq![c])
        }
    }
}

/// Relies on str::split_whitespace: the pieces of the text between runs of
/// characters with the White_Space property, empty pieces left out.
#[verifier::external_body]
fn split_words(s: &str) -> (r: Vec<String>)
    ensures
        units_view(r@) == words_of(s@),
{
    s.split_whitespace().map(String::from).collect()
}

/// The pieces of a text between its UAX #29 sentence boundaries, in order.
pub uninterp spec fn sentence_bounds_of(s: Seq<char>) -> Seq<Seq<char>>;

/// Characters with Unicode's Alphabetic property or of general category
/// Number.
pub uninterp spec fn is_alphanumeric(c: char) -> bool;

/// A piece holds at least one alphanumeric character.
pub open spec fn has_alphanumeric(p: Seq<char>) -> bool {
    exists|i: int| 0 <= i < p.len() && is_alphanumeric(p[i])
}

/// The pieces between a text's sentence boundaries, which together make up
/// the text.
pub open spec fn sentence_pieces(s: Seq<char>) -> Seq<Seq<char>> {
    pieces_of_text(sentence_bounds_of(s), s)
}

/// `bounds` when they make up `s`, which the boundaries of a text do.
pub open spec fn pieces_of_text(bounds: Seq<Seq<char>>, s: Seq<char>) -> Seq<Seq<char>> {
    if bounds.flatten() == s {
        bounds
    } else {
        seq![s]
    }
}

/// The pieces that hold a letter or a digit, in order.
pub open spec fn keep_sentences(pieces: Seq<Seq<char>>) -> Seq<Seq<char>> {
    pieces.filter(|p: Seq<char>| has_alphanumeric(p))
}

/// The sentence pieces of a text, in order, make up the text.
pub proof fn lemma_pieces_make_up_text(s: Seq<char>)
    ensures
        sentence_pieces(s).flatten() == s,
{
    if sentence_bounds_of(s).flatten() != s {
        let one = seq![s];
        assert(one.drop_first() =~= Seq::<Seq<char>>::empty());
        assert(one.drop_first().flatten() == Seq::<char>::empty());
        assert(one.first() + Seq::<char>::empty() =~= s);
    }
}

/// Each sentence of a text is one of its sentence pieces, which make up the
/// text in order, and holds a letter or a digit, so it is not empty.
pub proof fn lemma_sentences_are_pieces(s: Seq<char>, i: int)
    requires
        0 <= i < sentences_of(s).len(),
    ensures
        sentence_pieces(s).flatten() == s,
        sentence_pieces(s).contains(sentences_of(s)[i]),
        has_alphanumeric(sentences_of(s)[i]),
        sentences_of(s)[i].len() > 0,
{
    lemma_pieces_make_up_text(s);
    let pred = |p: Seq<char>| has_alphanumeric(p);
    let kept = sentence_pieces(s).filter(pred);
    assert(kept == sentences_of(s));
    sentence_pieces(s).lemma_filter_pred(pred, i);
    assert(kept.contains(kept[i]));
    sentence_pieces(s).lemma_filter_contains_rev(pred, kept[i]);
}

/// The sentences of a text: its sentence pieces that hold a letter or a
/// digit, in order.
pub open spec fn sentences_of(s: Seq<char>) -> Seq<Seq<char>> {
    keep_sentences(sentence_pieces(s))
}

/// Relies on unicode_segmentation's unicode_sentences: it walks the pieces
/// of split_sentence_bounds, which together make up the text (so they are
/// `sentence_pieces`), and keeps those that hold an alphanumeric character.
#[verifier::external_body]
fn split_sentences(s: &str) -> (r: Vec<String>)
    ensures
        units_view(r@) == keep_sentences(pieces_of_text(sentence_bounds_of(s@), s@)),
        forall|i: int| 0 <= i < r@.len() ==> has_alphanumeric(#[trigger] r@[i]@) && exists|j: int| 0 <= j < r@[i]@.len() && is_alphanumeric(r@[i]@[j]),
{
    s.unicode_sentences().map(String::from).collect()
}

/// The words of an extracted text, in order.
pub fn read_file_content(text: &str) -> (r: Vec<String>)
    ensures
        units_view(r@) == words_of(text@),
{
    split_words(text)
}

/// The sentences of an extracted text, in order.
pub fn read_file_sentences(text: &str) -> (r: Vec<String>)
    ensures
        units_view(r@) == sentences_of(text@),
{
    split_sentences(text)
}

/// The display units a text gives in a display mode: sentences in sentence
/// mode, words otherwise, whatever the chunk size.
pub open spec fn units_for(text: Seq<char>, mode: DisplayMode) -> Seq<Seq<char>> {
    match mode {
        DisplayMode::Sentence => sentences_of(text),
        DisplayMode::WordChunk(_) => words_of(text),
    }
}

/// Builds the display units of a text for a display mode.
pub fn build_units(text: &str, mode: DisplayMode) -> (r: Vec<String>)
    ensures
        units_view(r@) == units_for(text@, mode),
{
    match mode {
        DisplayMode::Sentence => read_file_sentences(text),
        DisplayMode::WordChunk(_) => read_file_content(text),
    }
}

/// Rebuilding the units of one text gives the same units every time for a
/// given granularity: any two word-chunk sizes give the same words, so
/// leaving word chunks for sentences and coming back restores them.
pub proof fn lemma_units_depend_on_granularity(text: Seq<char>, a: usize, b: usize)
    ensures
        units_for(text, DisplayMode::WordChunk(a)) == units_for(text, DisplayMode::WordChunk(b)),
        units_for(text, DisplayMode::WordChunk(a)).len() == words_of(text).len(),
        units_for(text, DisplayMode::Sentence) == sentences_of(text),
{
}

} // verus!
