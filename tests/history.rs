use rsvp::history::ReadingSession;
use rsvp::session::Session;
use rsvp::store::BookRecord;

#[test]
fn summary_computes_average_speed() {
    let record = BookRecord::fresh(600, 1);
    let mut s = Session::new("doc".to_string(), "a b c d", &record, None, None);
    for _ in 0..3 {
        s.tick(100);
    }
    let r = ReadingSession::summarize(&s, 1_700_000_000);
    assert_eq!(r.date_unix_secs, 1_700_000_000);
    assert_eq!(r.file_path, "doc");
    assert_eq!(r.words_read, 3);
    assert_eq!(r.reading_time_ms, 300);
    assert_eq!(r.avg_speed, 600);
}

#[test]
fn summary_without_time_has_zero_speed() {
    let record = BookRecord::fresh(600, 1);
    let s = Session::new("doc".to_string(), "a", &record, None, None);
    assert_eq!(ReadingSession::summarize(&s, 0).avg_speed, 0);
}
