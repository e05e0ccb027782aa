use rsvp::session::{DisplayMode, Key, Session};
use rsvp::store::{merge_for_save, BookRecord, Bookmark, GlobalSettings, Store};

fn settings(speed: u64, chunk: usize) -> GlobalSettings {
    GlobalSettings { speed, chunk_size: chunk, max_saved_books: 10, max_bookmarks_per_book: 10 }
}

fn marks(record: &BookRecord) -> Vec<(usize, String)> {
    record.bookmarks.iter().map(|b| (b.position, b.preview.clone())).collect()
}

fn record_of(store: &Store, key: &str) -> BookRecord {
    store.record_or_default(&key.to_string())
}

#[test]
fn persistence_round_trip() {
    let mut mem = Store::new(settings(400, 3));
    let mut record = BookRecord::fresh(400, 3);
    record.bookmarks.push(Bookmark::new(10, "preview".to_string()));
    mem.set_record("/books/d.txt".to_string(), record);
    let saved = merge_for_save(&mem, None, None, None);
    let global = GlobalSettings::with_defaults(
        Some(saved.global.speed),
        Some(saved.global.chunk_size),
        Some(saved.global.max_saved_books),
        Some(saved.global.max_bookmarks_per_book),
    );
    assert_eq!(global, mem.global);
    assert_eq!(global.speed, 400);
    assert_eq!(global.chunk_size, 3);
    let stored = record_of(&saved, "/books/d.txt");
    let loaded = BookRecord::with_defaults(
        Some(stored.bookmarks.iter().map(|b| b.duplicate()).collect()),
        Some(stored.speed),
        Some(stored.chunk_size),
        Some(stored.last_position),
        Some(stored.display_mode == DisplayMode::Sentence),
        &global,
    );
    assert_eq!(marks(&loaded), vec![(10, "preview".to_string())]);
    assert_eq!(loaded.speed, 400);
    assert_eq!(loaded.chunk_size, 3);
    assert_eq!(loaded.last_position, 0);
    assert_eq!(loaded.display_mode, DisplayMode::WordChunk(3));
    assert_eq!(saved.books.len(), 1);
}

#[test]
fn merge_keeps_bookmarks_of_a_concurrent_session() {
    let start = Store::new(settings(300, 1));
    let key = "D".to_string();
    let mut first = merge_for_save(&start, None, None, None);
    let mut second = merge_for_save(&start, None, None, None);
    second.add_bookmark(&key, Bookmark::new(50, "x".to_string()), 300, 1);
    let on_disk = merge_for_save(&second, Some(&start), None, None);
    first.add_bookmark(&key, Bookmark::new(80, "y".to_string()), 300, 1);
    let last = merge_for_save(&first, Some(&on_disk), None, None);
    let got = marks(&record_of(&last, "D"));
    assert!(got.contains(&(50, "x".to_string())));
    assert!(got.contains(&(80, "y".to_string())));
    assert_eq!(got.len(), 2);
}

#[test]
fn merge_does_not_repeat_equal_bookmarks() {
    let mut mem = Store::new(settings(300, 1));
    let key = "D".to_string();
    mem.add_bookmark(&key, Bookmark::new(5, "a".to_string()), 300, 1);
    mem.add_bookmark(&key, Bookmark::new(6, "b".to_string()), 300, 1);
    let mut disk = Store::new(settings(300, 1));
    disk.add_bookmark(&key, Bookmark::new(6, "b".to_string()), 300, 1);
    disk.add_bookmark(&key, Bookmark::new(7, "c".to_string()), 300, 1);
    disk.add_bookmark(&key, Bookmark::new(7, "c".to_string()), 300, 1);
    let saved = merge_for_save(&mem, Some(&disk), None, None);
    assert_eq!(
        marks(&record_of(&saved, "D")),
        vec![(5, "a".to_string()), (6, "b".to_string()), (7, "c".to_string())]
    );
}

#[test]
fn records_only_on_disk_pass_through() {
    let mut mem = Store::new(settings(300, 1));
    mem.set_record("mine".to_string(), BookRecord::fresh(300, 1));
    let mut disk = Store::new(settings(200, 2));
    let mut theirs = BookRecord::fresh(500, 4);
    theirs.last_position = 33;
    theirs.display_mode = DisplayMode::Sentence;
    disk.set_record("theirs".to_string(), theirs);
    let saved = merge_for_save(&mem, Some(&disk), None, None);
    assert_eq!(saved.books.len(), 2);
    assert_eq!(saved.books[0].key, "mine");
    assert_eq!(saved.books[1].key, "theirs");
    let r = &saved.books[1].record;
    assert_eq!((r.speed, r.chunk_size, r.last_position), (500, 4, 33));
    assert_eq!(r.display_mode, DisplayMode::Sentence);
    assert_eq!(saved.global.speed, 300);
}

#[test]
fn caps_keep_the_newest_entries() {
    let mut mem = Store::new(settings(300, 1));
    for name in ["a", "b", "c"] {
        let key = name.to_string();
        for p in 0..4 {
            mem.add_bookmark(&key, Bookmark::new(p, format!("{}{}", name, p)), 300, 1);
        }
    }
    let saved = merge_for_save(&mem, None, Some(2), Some(3));
    assert_eq!(saved.global.max_saved_books, 2);
    assert_eq!(saved.global.max_bookmarks_per_book, 3);
    assert_eq!(saved.books.len(), 2);
    assert_eq!(saved.books[0].key, "b");
    let kept: Vec<usize> = saved.books[1].record.bookmarks.iter().map(|b| b.position).collect();
    assert_eq!(kept, vec![1, 2, 3]);
}

#[test]
fn caps_not_given_are_kept_as_stored() {
    let mem = Store::new(settings(300, 1));
    let mut on_disk = settings(100, 1);
    on_disk.max_saved_books = 4;
    on_disk.max_bookmarks_per_book = 7;
    let disk = Store::new(on_disk);
    let saved = merge_for_save(&mem, Some(&disk), None, Some(9));
    assert_eq!(saved.global.max_saved_books, 4);
    assert_eq!(saved.global.max_bookmarks_per_book, 9);
    assert_eq!(saved.global.speed, 300);
}

#[test]
fn absent_fields_take_defaults() {
    let g = GlobalSettings::with_defaults(None, None, None, None);
    assert_eq!(g, GlobalSettings::default());
    assert_eq!((g.speed, g.chunk_size, g.max_saved_books, g.max_bookmarks_per_book), (300, 1, 10, 10));
    let z = GlobalSettings::with_defaults(Some(0), Some(0), Some(0), Some(2));
    assert_eq!((z.speed, z.chunk_size, z.max_saved_books, z.max_bookmarks_per_book), (1, 1, 0, 2));
    let r = BookRecord::with_defaults(None, None, None, None, None, &settings(250, 4));
    assert!(r.bookmarks.is_empty());
    assert_eq!((r.speed, r.chunk_size, r.last_position), (250, 4, 0));
    assert_eq!(r.display_mode, DisplayMode::WordChunk(4));
}

#[test]
fn set_record_replaces_by_key() {
    let mut s = Store::new(settings(300, 1));
    s.set_record("k".to_string(), BookRecord::fresh(100, 1));
    s.set_record("k".to_string(), BookRecord::fresh(200, 1));
    assert_eq!(s.books.len(), 1);
    assert_eq!(s.find(&"k".to_string()), Some(0));
    assert_eq!(s.find(&"other".to_string()), None);
    assert_eq!(record_of(&s, "k").speed, 200);
    assert_eq!(record_of(&s, "missing").speed, 300);
}

#[test]
fn session_flushes_progress_and_preferences() {
    let mut store = Store::new(settings(300, 1));
    let record = store.record_or_default(&"doc".to_string());
    let mut s = Session::new("doc".to_string(), "a b c d e f", &record, None, None);
    s.route(Key::Char('4'));
    s.route(Key::Right);
    s.route(Key::Char('b'));
    s.route(Key::Enter);
    s.save_last_bookmark(&mut store);
    s.route(Key::Up);
    s.save_preferences(&mut store);
    s.save_progress(&mut store);
    assert_eq!(store.global.speed, 310);
    assert_eq!(store.global.chunk_size, 4);
    let saved = record_of(&store, "doc");
    assert_eq!(saved.last_position, 4);
    assert_eq!(saved.speed, 310);
    assert_eq!(saved.chunk_size, 4);
    assert_eq!(marks(&saved), vec![(4, "e f".to_string())]);
}

#[test]
fn merge_removes_repeats_already_in_the_session() {
    let mut mem = Store::new(settings(300, 1));
    let key = "D".to_string();
    mem.add_bookmark(&key, Bookmark::new(5, "a".to_string()), 300, 1);
    mem.add_bookmark(&key, Bookmark::new(5, "a".to_string()), 300, 1);
    mem.add_bookmark(&key, Bookmark::new(6, "b".to_string()), 300, 1);
    let saved = merge_for_save(&mem, None, None, None);
    assert_eq!(marks(&record_of(&saved, "D")), vec![(5, "a".to_string()), (6, "b".to_string())]);
    let mut disk = Store::new(settings(300, 1));
    disk.add_bookmark(&key, Bookmark::new(6, "b".to_string()), 300, 1);
    let again = merge_for_save(&mem, Some(&disk), None, None);
    assert_eq!(marks(&record_of(&again, "D")), vec![(5, "a".to_string()), (6, "b".to_string())]);
}

#[test]
fn same_place_bookmarked_twice_is_saved_once() {
    let mut store = Store::new(settings(300, 1));
    let record = store.record_or_default(&"doc".to_string());
    let mut s = Session::new("doc".to_string(), "a b c", &record, None, None);
    for _ in 0..2 {
        s.route(Key::Char('b'));
        s.route(Key::Enter);
        s.save_last_bookmark(&mut store);
    }
    assert_eq!(record_of(&store, "doc").bookmarks.len(), 2);
    let saved = merge_for_save(&store, None, None, None);
    assert_eq!(marks(&record_of(&saved, "doc")), vec![(0, "a b c".to_string())]);
}
