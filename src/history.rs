//! A summary of one sitting of reading.

use vstd::prelude::*;
use crate::session::{Session, MS_PER_MINUTE};

verus! {

/// One sitting: when it was, on which document, how much was read and how
/// fast.
pub struct ReadingSession {
    /// Seconds since the Unix epoch, in UTC.
    pub date_unix_secs: i64,
    pub file_path: String,
    pub words_read: u64,
    pub reading_time_ms: u64,
    /// Words per minute over the sitting.
    pub avg_speed: u64,
}

/// Words per minute for `words` read in `ms` milliseconds; zero when no time
/// passed, and at most the largest speed.
pub open spec fn average_speed(words: int, ms: int) -> int {
    if ms == 0 {
        0
    } else if words * (MS_PER_MINUTE as int) / ms > u64::MAX {
        u64::MAX as int
    } else {
        words * (MS_PER_MINUTE as int) / ms
    }
}

impl ReadingSession {
    /// The summary of a session at `date_unix_secs`.
    pub fn summarize(session: &Session, date_unix_secs: i64) -> (r: ReadingSession)
        ensures
            r.date_unix_secs == date_unix_secs,
            r.file_path@ == session.document_key@,
            r.words_read == session.words_read,
            r.reading_time_ms == session.reading_time_ms,
            r.avg_speed as int == average_speed(session.words_read as int, session.reading_time_ms as int),
    {
        let avg: u64 = if session.reading_time_ms == 0 {
            0
        } else {
            let words = session.words_read as u128;
            assert(words * 60000 <= u64::MAX as u128 * 60000) by (nonlinear_arith)
                requires
                    words <= u64::MAX,
            ;
            let v = words * (MS_PER_MINUTE as u128) / (session.reading_time_ms as u128);
            if v > u64::MAX as u128 {
                u64::MAX
            } else {
                v as u64
            }
        };
        ReadingSession {
            date_unix_secs,
            file_path: session.document_key.clone(),
            words_read: session.words_read,
            reading_time_ms: session.reading_time_ms,
            avg_speed: avg,
        }
    }
}

} // verus!
