use rsvp::sizer::get_adaptive_chunk_size;

fn units(words: &[&str]) -> Vec<String> {
    words.iter().map(|w| w.to_string()).collect()
}

#[test]
fn short_units_fill_the_scan() {
    let u = units(&["a", "b", "c", "d"]);
    assert_eq!(get_adaptive_chunk_size(&u, 0, 2), 4);
}

#[test]
fn short_units_stop_at_what_is_left() {
    let u = units(&["a", "b", "c", "d"]);
    assert_eq!(get_adaptive_chunk_size(&u, 2, 5), 2);
}

#[test]
fn long_unit_is_shown_alone() {
    let u = units(&["supercalifragilisticexpialidocious", "a", "b"]);
    assert_eq!(get_adaptive_chunk_size(&u, 0, 1), 1);
}

#[test]
fn size_is_positive_for_positive_base() {
    let u = units(&["", "", "x", "longer words here"]);
    for start in 0..u.len() {
        for base in 1..4 {
            assert!(get_adaptive_chunk_size(&u, start, base) >= 1);
        }
    }
}

#[test]
fn past_the_end_the_size_is_one() {
    let u = units(&["one", "two"]);
    assert_eq!(get_adaptive_chunk_size(&u, 2, 3), 1);
    assert_eq!(get_adaptive_chunk_size(&u, 7, 4), 1);
    assert_eq!(get_adaptive_chunk_size(&[], 0, 2), 1);
}

#[test]
fn scan_stops_once_budget_is_exceeded() {
    let u = units(&["hello", "world", "foo", "bar"]);
    assert_eq!(get_adaptive_chunk_size(&u, 0, 2), 3);
}

#[test]
fn lengths_are_counted_in_characters() {
    let u = units(&["\u{e9}\u{e9}\u{e9}", "ab", "c"]);
    assert_eq!(get_adaptive_chunk_size(&u, 0, 1), 2);
}
