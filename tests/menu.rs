use rsvp::menu::{is_listed, BrowseChoice, Browser, LoadChoice, LoadMenu, UrlChoice, UrlInput};
use rsvp::session::Key;
use rsvp::store::{BookRecord, GlobalSettings, Store};

#[test]
fn load_menu_lists_recent_documents_sorted() {
    let mut store = Store::new(GlobalSettings::default());
    for k in ["/b.txt", "/a.md", "/c.pdf"] {
        store.set_record(k.to_string(), BookRecord::fresh(300, 1));
    }
    let mut m = LoadMenu::new(&store);
    assert_eq!(m.recent, vec!["/a.md", "/b.txt", "/c.pdf"]);
    assert_eq!(m.press(Key::Down), LoadChoice::Pending);
    assert_eq!(m.press(Key::Down), LoadChoice::Pending);
    assert_eq!(m.selected, 1);
    assert_eq!(m.press(Key::Enter), LoadChoice::Pending);
    assert!(m.in_recent);
    m.press(Key::Down);
    assert_eq!(m.press(Key::Enter), LoadChoice::Open(1));
    assert_eq!(m.press(Key::Esc), LoadChoice::Pending);
    m.press(Key::Up);
    assert_eq!(m.press(Key::Enter), LoadChoice::Browse);
    assert_eq!(m.press(Key::Esc), LoadChoice::Cancel);
}

#[test]
fn load_menu_without_recent_documents() {
    let store = Store::new(GlobalSettings::default());
    let mut m = LoadMenu::new(&store);
    m.press(Key::Down);
    assert_eq!(m.selected, 0);
    assert_eq!(m.press(Key::Enter), LoadChoice::Browse);
}

#[test]
fn browser_moves_and_picks() {
    let entries = vec!["..".to_string(), "notes".to_string(), "book.pdf".to_string()];
    let mut b = Browser::new(entries);
    assert_eq!(b.press(Key::Enter), BrowseChoice::Parent);
    b.press(Key::Down);
    b.press(Key::Down);
    b.press(Key::Down);
    assert_eq!(b.selected, 2);
    assert_eq!(b.press(Key::Enter), BrowseChoice::Pick(2));
    assert_eq!(b.press(Key::Esc), BrowseChoice::Cancel);
}

#[test]
fn empty_browser_does_nothing() {
    let mut b = Browser::new(Vec::new());
    b.press(Key::Down);
    assert_eq!(b.selected, 0);
    assert_eq!(b.press(Key::Enter), BrowseChoice::Pending);
    assert_eq!(b.window(), (0, 0));
}

#[test]
fn browser_window_keeps_the_cursor_in_view() {
    let entries: Vec<String> = (0..100).map(|i| format!("f{}.txt", i)).collect();
    let mut b = Browser::new(entries);
    assert_eq!(b.window(), (0, 45));
    for _ in 0..50 {
        b.press(Key::Down);
    }
    assert_eq!(b.window(), (6, 51));
    for _ in 0..10 {
        b.press(Key::Up);
    }
    assert_eq!(b.window(), (6, 51));
    b.selected = 2;
    assert_eq!(b.window(), (2, 47));
}

#[test]
fn listed_entries_are_directories_and_documents() {
    assert!(is_listed(true, None));
    assert!(is_listed(false, Some("pdf")));
    assert!(is_listed(false, Some("md")));
    assert!(is_listed(false, Some("htm")));
    assert!(!is_listed(false, Some("epub")));
    assert!(!is_listed(false, Some("PDF")));
    assert!(!is_listed(false, None));
}

#[test]
fn url_input_edits_the_address() {
    let mut u = UrlInput::new();
    for c in "http://x.yz".chars() {
        assert_eq!(u.press(Key::Char(c)), UrlChoice::Pending);
    }
    u.press(Key::Backspace);
    u.press(Key::Backspace);
    assert_eq!(u.text, "http://x.");
    assert_eq!(u.press(Key::Enter), UrlChoice::Done);
    let mut e = UrlInput::new();
    e.press(Key::Backspace);
    assert_eq!(e.text, "");
    assert_eq!(e.press(Key::Esc), UrlChoice::Cancel);
}
