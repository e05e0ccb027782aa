use rsvp::session::{delay_ms, DisplayMode, Effect, Key, Menu, Session, Tick};
use rsvp::store::{BookRecord, Bookmark};

fn session_on(text: &str, chunk: usize, speed: u64) -> Session {
    let record = BookRecord::fresh(speed, chunk);
    Session::new("doc.txt".to_string(), text, &record, None, None)
}

#[test]
fn new_session_restores_the_record() {
    let mut record = BookRecord::fresh(250, 2);
    record.last_position = 3;
    record.bookmarks.push(Bookmark::new(1, "b c".to_string()));
    let s = Session::new("k".to_string(), "a b c d e", &record, None, None);
    assert_eq!(s.units.len(), 5);
    assert_eq!(s.position, 3);
    assert_eq!(s.speed, 250);
    assert_eq!(s.display_mode, DisplayMode::WordChunk(2));
    assert_eq!(s.bookmarks.len(), 1);
    assert_eq!(s.document_key, "k");
}

#[test]
fn command_line_overrides_take_precedence() {
    let record = BookRecord::fresh(250, 2);
    let s = Session::new("k".to_string(), "a b", &record, Some(600), Some(4));
    assert_eq!(s.speed, 600);
    assert_eq!(s.display_mode, DisplayMode::WordChunk(4));
    let z = Session::new("k".to_string(), "a b", &record, Some(0), Some(0));
    assert_eq!(z.speed, 1);
    assert_eq!(z.display_mode, DisplayMode::WordChunk(1));
}

#[test]
fn saved_position_past_the_end_is_clamped() {
    let mut record = BookRecord::fresh(300, 1);
    record.last_position = 99;
    let s = Session::new("k".to_string(), "a b c", &record, None, None);
    assert_eq!(s.position, 3);
}

#[test]
fn speed_never_drops_below_one() {
    let mut s = session_on("a b c", 1, 50);
    for _ in 0..5 {
        assert_eq!(s.route(Key::PageDown), Effect::Nothing);
        assert_eq!(s.speed, 1);
    }
    s.route(Key::Down);
    assert_eq!(s.speed, 1);
    assert_eq!(delay_ms(s.speed), 60000);
}

#[test]
fn speed_keys_change_by_ten_and_a_hundred() {
    let mut s = session_on("a b c", 1, 300);
    s.route(Key::Up);
    assert_eq!(s.speed, 310);
    s.route(Key::PageUp);
    assert_eq!(s.speed, 410);
    s.route(Key::Down);
    assert_eq!(s.speed, 400);
    assert_eq!(delay_ms(400), 150);
}

#[test]
fn speed_saturates_at_the_top() {
    let mut s = session_on("a", 1, u64::MAX - 5);
    s.route(Key::PageUp);
    assert_eq!(s.speed, u64::MAX);
}

#[test]
fn advancing_past_the_end_stays_at_the_end() {
    let mut s = session_on("a b c d e", 2, 600);
    assert_eq!(s.tick(100), Tick::Advanced);
    assert_eq!(s.position, 2);
    assert_eq!(s.tick(100), Tick::Advanced);
    assert_eq!(s.tick(100), Tick::Advanced);
    assert_eq!(s.position, 5);
    for _ in 0..3 {
        assert_eq!(s.tick(100), Tick::EndOfText);
        assert_eq!(s.position, 5);
    }
    assert_eq!(s.words_read, 5);
    assert_eq!(s.reading_time_ms, 300);
    s.route(Key::Right);
    assert_eq!(s.position, 5);
    assert_eq!(s.chunk_text(), "End of text");
}

#[test]
fn tick_waits_for_the_delay() {
    let mut s = session_on("a b c", 1, 600);
    assert_eq!(s.tick(99), Tick::NotDue);
    assert_eq!(s.position, 0);
    assert_eq!(s.tick(100), Tick::Advanced);
    assert_eq!(s.position, 1);
}

#[test]
fn pause_and_menus_suspend_advancing() {
    let mut s = session_on("a b c", 1, 600);
    assert_eq!(s.route(Key::Char(' ')), Effect::StopSpeech);
    assert_eq!(s.tick(1000), Tick::NotDue);
    assert_eq!(s.route(Key::Char(' ')), Effect::Nothing);
    s.route(Key::Char('p'));
    assert_eq!(s.menu, Menu::Preferences);
    assert_eq!(s.tick(1000), Tick::NotDue);
    s.route(Key::Esc);
    s.route(Key::Char('b'));
    assert_eq!(s.menu, Menu::Bookmarks);
    assert_eq!(s.tick(1000), Tick::NotDue);
    assert_eq!(s.position, 0);
}

#[test]
fn pause_survives_opening_a_menu() {
    let mut s = session_on("a b c", 1, 600);
    s.route(Key::Char(' '));
    s.route(Key::Char('p'));
    s.route(Key::Esc);
    assert!(s.paused);
    assert_eq!(s.menu, Menu::Normal);
}

#[test]
fn speech_is_requested_after_an_advance() {
    let mut s = session_on("a b c", 1, 600);
    s.route(Key::Char('t'));
    assert_eq!(s.tick(100), Tick::AdvancedAndSpeak);
    assert_eq!(s.chunk_text(), "b");
    s.tick(100);
    assert_eq!(s.tick(100), Tick::Advanced);
}

#[test]
fn arrows_move_by_one_chunk_and_saturate() {
    let mut s = session_on("a b c d e", 2, 300);
    s.route(Key::Right);
    assert_eq!(s.position, 2);
    s.route(Key::Right);
    s.route(Key::Right);
    assert_eq!(s.position, 5);
    s.route(Key::Left);
    assert_eq!(s.position, 3);
    s.route(Key::Left);
    s.route(Key::Left);
    assert_eq!(s.position, 0);
}

#[test]
fn smart_mode_moves_by_the_adaptive_size() {
    let mut s = session_on("a b c d e f", 2, 300);
    s.route(Key::Char('m'));
    assert!(s.smart_mode);
    assert_eq!(s.chunk_text(), "a b c d");
    s.route(Key::Right);
    assert_eq!(s.position, 4);
}

#[test]
fn bookmark_is_created_with_a_preview() {
    let mut s = session_on("one two three four five six seven", 1, 300);
    s.route(Key::Right);
    s.route(Key::Char('b'));
    assert_eq!(s.route(Key::Enter), Effect::SaveBookmark);
    assert_eq!(s.menu, Menu::Normal);
    assert_eq!(s.bookmarks.len(), 1);
    assert_eq!(s.bookmarks[0].position, 1);
    assert_eq!(s.bookmarks[0].preview, "two three four five six");
}

#[test]
fn bookmark_preview_is_short_near_the_end() {
    let mut s = session_on("one two three", 1, 300);
    s.route(Key::Right);
    s.route(Key::Char('b'));
    s.route(Key::Enter);
    assert_eq!(s.bookmarks[0].preview, "two three");
}

#[test]
fn choosing_a_bookmark_jumps_to_it() {
    let mut record = BookRecord::fresh(300, 1);
    record.bookmarks.push(Bookmark::new(2, "c".to_string()));
    record.bookmarks.push(Bookmark::new(40, "far".to_string()));
    let mut s = Session::new("k".to_string(), "a b c d", &record, None, None);
    s.route(Key::Char('b'));
    s.route(Key::Up);
    assert_eq!(s.selected, 0);
    s.route(Key::Down);
    assert_eq!(s.selected, 1);
    assert_eq!(s.route(Key::Enter), Effect::Nothing);
    assert_eq!(s.position, 2);
    s.route(Key::Char('b'));
    s.route(Key::Down);
    s.route(Key::Down);
    s.route(Key::Down);
    assert_eq!(s.selected, 2);
    s.route(Key::Enter);
    assert_eq!(s.position, 4);
}

#[test]
fn escape_leaves_the_bookmark_menu_unchanged() {
    let mut s = session_on("a b", 1, 300);
    s.route(Key::Char('b'));
    assert_eq!(s.route(Key::Esc), Effect::Nothing);
    assert_eq!(s.menu, Menu::Normal);
    assert!(s.bookmarks.is_empty());
}

#[test]
fn preferences_adjust_speed_and_chunk_size() {
    let mut s = session_on("a b c", 2, 300);
    s.route(Key::Char('p'));
    s.route(Key::Up);
    assert_eq!(s.speed, 310);
    s.route(Key::Right);
    assert_eq!(s.display_mode, DisplayMode::WordChunk(3));
    s.route(Key::Left);
    s.route(Key::Left);
    s.route(Key::Left);
    assert_eq!(s.display_mode, DisplayMode::WordChunk(1));
    assert_eq!(s.route(Key::Enter), Effect::SavePreferences);
    assert_eq!(s.menu, Menu::Normal);
}

#[test]
fn digit_keys_set_the_chunk_size() {
    let mut s = session_on("a b c", 1, 300);
    assert_eq!(s.route(Key::Char('7')), Effect::Nothing);
    assert_eq!(s.display_mode, DisplayMode::WordChunk(7));
    s.route(Key::Char('0'));
    assert_eq!(s.display_mode, DisplayMode::WordChunk(7));
}

#[test]
fn mode_switch_round_trip_rebuilds_the_same_units() {
    let text = "First one here. Second sentence now. Third.";
    let mut s = session_on(text, 3, 300);
    let words = s.units.clone();
    s.route(Key::Right);
    assert_eq!(s.route(Key::Char('s')), Effect::Retokenize);
    assert_eq!(s.display_mode, DisplayMode::Sentence);
    assert_eq!(s.position, 0);
    s.retokenize(text);
    assert_eq!(s.units.len(), 3);
    assert_eq!(s.route(Key::Char('3')), Effect::Retokenize);
    assert_eq!(s.display_mode, DisplayMode::WordChunk(3));
    s.retokenize(text);
    assert_eq!(s.units, words);
    assert_eq!(s.units.len(), 7);
}

#[test]
fn s_key_toggles_back_to_single_words() {
    let mut s = session_on("a. b.", 4, 300);
    s.route(Key::Char('s'));
    s.route(Key::Char('s'));
    assert_eq!(s.display_mode, DisplayMode::WordChunk(1));
}

#[test]
fn other_keys_ask_the_driver() {
    let mut s = session_on("a", 1, 300);
    assert_eq!(s.route(Key::Char('q')), Effect::Quit);
    assert_eq!(s.route(Key::Char('l')), Effect::ChooseDocument);
    assert_eq!(s.route(Key::Char('w')), Effect::ChooseUrl);
    assert_eq!(s.route(Key::Char('z')), Effect::Nothing);
}

#[test]
fn a_skipped_key_is_dropped() {
    let mut s = session_on("a b", 1, 300);
    s.skip_next_key = true;
    assert_eq!(s.route(Key::Char('q')), Effect::Nothing);
    assert!(!s.skip_next_key);
    assert_eq!(s.route(Key::Char('q')), Effect::Quit);
}

#[test]
fn pause_context_surrounds_the_chunk() {
    let text: Vec<String> = (0..30).map(|i| format!("w{}", i)).collect();
    let mut s = session_on(&text.join(" "), 2, 300);
    s.position = 25;
    let (before, chunk, after) = s.pause_context();
    assert_eq!(before, text[5..25].join(" "));
    assert_eq!(chunk, "w25 w26");
    assert_eq!(after, text[27..30].join(" "));
}

#[test]
fn bookmark_window_follows_the_cursor() {
    let mut record = BookRecord::fresh(300, 1);
    for i in 0..20 {
        record.bookmarks.push(Bookmark::new(i, format!("p{}", i)));
    }
    let mut s = Session::new("k".to_string(), "a", &record, None, None);
    assert_eq!(s.bookmark_window(), (0, 10));
    s.selected = 12;
    assert_eq!(s.bookmark_window(), (7, 17));
    s.selected = 20;
    assert_eq!(s.bookmark_window(), (15, 20));
}

#[test]
fn open_document_keeps_the_counters() {
    let mut s = session_on("a b c", 1, 600);
    s.tick(100);
    let mut record = BookRecord::fresh(200, 2);
    record.last_position = 1;
    s.open_document("other".to_string(), "x y z w", &record);
    assert_eq!(s.document_key, "other");
    assert_eq!(s.units.len(), 4);
    assert_eq!(s.position, 1);
    assert_eq!(s.speed, 200);
    assert_eq!(s.words_read, 1);
}

#[test]
fn page_down_after_a_skipped_key_still_floors_at_one() {
    let mut s = session_on("a b c", 1, 250);
    s.skip_next_key = true;
    s.route(Key::PageDown);
    assert_eq!(s.speed, 250);
    s.route(Key::PageDown);
    assert_eq!(s.speed, 150);
    s.route(Key::PageDown);
    s.route(Key::PageDown);
    assert_eq!(s.speed, 1);
}

#[test]
fn toggling_sentences_twice_restores_the_words() {
    let text = "One two. Three four five.";
    let mut s = session_on(text, 3, 300);
    let words = s.units.clone();
    s.route(Key::Char('s'));
    s.retokenize(text);
    assert_eq!(s.units.len(), 2);
    s.route(Key::Char('s'));
    s.retokenize(text);
    assert_eq!(s.display_mode, DisplayMode::WordChunk(1));
    assert_eq!(s.units, words);
    assert_eq!(s.position, 0);
}
