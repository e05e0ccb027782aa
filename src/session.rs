//! The reading session: position, pace, display mode and modal state, and how
//! a key press or the passing of time changes them.

use vstd::prelude::*;
use crate::sizer::{adaptive_chunk_size, get_adaptive_chunk_size, lemma_adaptive_size_positive, units_view};
use crate::store::{
    chunk_or, fresh_record, has_key, marks_view, record_of, speed_or, union_bookmark_lists,
    union_bookmarks, upsert, with_bookmark, BookRecord, Bookmark, RecordView, Store, StoreView,
};
use crate::text::{build_units, join_range, joined, sentences_of, units_for};

verus! {

/// How display units are grouped into a shown chunk.
#[derive(Clone, Copy, Debug, PartialEq, Eq, Structural)]
pub enum DisplayMode {
    /// Words, shown this many at a time.
    WordChunk(usize),
    /// Whole sentences, one at a time.
    Sentence,
}

/// Which key mappings apply.
#[derive(Clone, Copy, Debug, PartialEq, Eq, Structural)]
pub enum Menu {
    Normal,
    Preferences,
    Bookmarks,
}

/// A key press, as far as the session tells keys apart.
#[derive(Clone, Copy, Debug, PartialEq, Eq, Structural)]
pub enum Key {
    Char(char),
    Up,
    Down,
    Left,
    Right,
    PageUp,
    PageDown,
    Enter,
    Esc,
    Backspace,
    Other,
}

/// What the driver of the session is asked to do after a key press.
#[derive(Clone, Copy, Debug, PartialEq, Eq, Structural)]
pub enum Effect {
    Nothing,
    /// Stop any speech in progress.
    StopSpeech,
    /// Save the speed and chunk size as the global settings.
    SavePreferences,
    /// Save the bookmark just added (the last one) for the document.
    SaveBookmark,
    /// Extract the document again and rebuild its units for the new mode.
    Retokenize,
    /// Let the reader pick a document to load.
    ChooseDocument,
    /// Let the reader enter an address to fetch.
    ChooseUrl,
    /// Save progress and end the session.
    Quit,
}

/// What the passing of time did.
#[derive(Clone, Copy, Debug, PartialEq, Eq, Structural)]
pub enum Tick {
    /// Not yet time to advance, or advancing is suspended.
    NotDue,
    /// Time to advance, but the text is at its end.
    EndOfText,
    /// The position advanced.
    Advanced,
    /// The position advanced and the new chunk should be spoken.
    AdvancedAndSpeak,
}

/// Units joined into a bookmark's preview.
pub const PREVIEW_UNITS: usize = 5;

/// Units of context shown on each side of the chunk while paused.
pub const CONTEXT_UNITS: usize = 20;

/// Bookmarks listed at a time in the bookmark menu.
pub const BOOKMARK_ROWS: usize = 10;

/// Speed change of an arrow key, in words per minute.
pub const SPEED_STEP: u64 = 10;

/// Speed change of a page key, in words per minute.
pub const SPEED_PAGE_STEP: u64 = 100;

/// A reading session: the units of the loaded document and everything the
/// reader can change while reading.
pub struct Session {
    pub units: Vec<String>,
    pub position: usize,
    pub speed: u64,
    pub display_mode: DisplayMode,
    pub smart_mode: bool,
    pub menu: Menu,
    pub paused: bool,
    pub bookmarks: Vec<Bookmark>,
    /// Cursor of the bookmark menu: 0 is "create", `i` is bookmark `i - 1`.
    pub selected: usize,
    pub words_read: u64,
    pub reading_time_ms: u64,
    pub speech: bool,
    /// Set when the next key press is to be dropped unprocessed.
    pub skip_next_key: bool,
    pub document_key: String,
}

pub struct SessionView {
    pub units: Seq<Seq<char>>,
    pub position: int,
    pub speed: int,
    pub display_mode: DisplayMode,
    pub smart_mode: bool,
    pub menu: Menu,
    pub paused: bool,
    pub bookmarks: Seq<(usize, Seq<char>)>,
    pub selected: int,
    pub words_read: int,
    pub reading_time_ms: int,
    pub speech: bool,
    pub skip_next_key: bool,
    pub document_key: Seq<char>,
}

impl View for Session {
    type V = SessionView;

    open spec fn view(&self) -> SessionView {
        SessionView {
            units: units_view(self.units@),
            position: self.position as int,
            speed: self.speed as int,
            display_mode: self.display_mode,
            smart_mode: self.smart_mode,
            menu: self.menu,
            paused: self.paused,
            bookmarks: marks_view(self.bookmarks@),
            selected: self.selected as int,
            words_read: self.words_read as int,
            reading_time_ms: self.reading_time_ms as int,
            speech: self.speech,
            skip_next_key: self.skip_next_key,
            document_key: self.document_key@,
        }
    }
}

/// A word-chunk size is at least one.
pub open spec fn mode_wf(mode: DisplayMode) -> bool {
    match mode {
        DisplayMode::WordChunk(k) => k >= 1,
        DisplayMode::Sentence => true,
    }
}

impl SessionView {
    /// The position stays within the units, the speed and chunk size stay
    /// positive, and the bookmark cursor stays on an item of the menu.
    pub open spec fn wf(&self) -> bool {
        &&& 0 <= self.position <= self.units.len()
        &&& 1 <= self.speed <= u64::MAX
        &&& mode_wf(self.display_mode)
        &&& 0 <= self.selected <= self.bookmarks.len()
        &&& 0 <= self.words_read <= u64::MAX
        &&& 0 <= self.reading_time_ms <= u64::MAX
    }
}

/// Units that one step moves over from `position`: the adaptive size in smart
/// word-chunk mode, the chunk size in word-chunk mode, one sentence otherwise.
pub open spec fn step_of(units: Seq<Seq<char>>, position: int, mode: DisplayMode, smart: bool) -> int {
    match mode {
        DisplayMode::WordChunk(k) => if smart {
            adaptive_chunk_size(units, position, k as int)
        } else {
            k as int
        },
        DisplayMode::Sentence => 1,
    }
}

/// `step` units forward, stopping at the end `len`.
pub open spec fn forward(position: int, step: int, len: int) -> int {
    if position + step > len {
        len
    } else {
        position + step
    }
}

/// `step` units back, stopping at the start.
pub open spec fn backward(position: int, step: int) -> int {
    if position - step < 0 {
        0
    } else {
        position - step
    }
}

/// A speed raised by `d`, saturating at the largest speed.
pub open spec fn raised(speed: int, d: int) -> int {
    if speed + d > u64::MAX {
        u64::MAX as int
    } else {
        speed + d
    }
}

/// A speed lowered by `d`, never below one.
pub open spec fn lowered(speed: int, d: int) -> int {
    if speed - d < 1 {
        1
    } else {
        speed - d
    }
}

/// A count raised by `d`, saturating at the largest count.
pub open spec fn counted(n: int, d: int) -> int {
    if n + d > u64::MAX {
        u64::MAX as int
    } else {
        n + d
    }
}

/// Where the units from `position` to `forward(position, n, len)` end.
pub open spec fn span_end(units: Seq<Seq<char>>, position: int, n: int) -> int {
    forward(position, n, units.len() as int)
}

/// The preview of a bookmark at `position`: the next few units, joined.
pub open spec fn preview_of(units: Seq<Seq<char>>, position: int) -> Seq<char> {
    joined(units.subrange(position, span_end(units, position, PREVIEW_UNITS as int)), seq![' '])
}

/// One more word per chunk, as far as sizes go.
pub open spec fn grown(mode: DisplayMode) -> DisplayMode {
    match mode {
        DisplayMode::WordChunk(k) => DisplayMode::WordChunk(
            if k == usize::MAX {
                k
            } else {
                (k + 1) as usize
            },
        ),
        DisplayMode::Sentence => mode,
    }
}

/// One word fewer per chunk, never below one.
pub open spec fn shrunk(mode: DisplayMode) -> DisplayMode {
    match mode {
        DisplayMode::WordChunk(k) => DisplayMode::WordChunk(
            if k > 1 {
                (k - 1) as usize
            } else {
                1
            },
        ),
        DisplayMode::Sentence => mode,
    }
}

/// Keys in the bookmark menu.
pub open spec fn on_bookmark_menu(s: SessionView, key: Key) -> (SessionView, Effect) {
    match key {
        Key::Up => (SessionView {
            selected: if s.selected > 0 {
                s.selected - 1
            } else {
                s.selected
            },
            ..s
        }, Effect::Nothing),
        Key::Down => (SessionView {
            selected: if s.selected < s.bookmarks.len() {
                s.selected + 1
            } else {
                s.selected
            },
            ..s
        }, Effect::Nothing),
        Key::Enter => if s.selected == 0 {
            (SessionView {
                bookmarks: s.bookmarks.push((s.position as usize, preview_of(s.units, s.position))),
                menu: Menu::Normal,
                ..s
            }, Effect::SaveBookmark)
        } else {
            (SessionView {
                position: if s.bookmarks[s.selected - 1].0 > s.units.len() {
                    s.units.len() as int
                } else {
                    s.bookmarks[s.selected - 1].0 as int
                },
                menu: Menu::Normal,
                ..s
            }, Effect::Nothing)
        },
        Key::Esc => (SessionView { menu: Menu::Normal, ..s }, Effect::Nothing),
        _ => (s, Effect::Nothing),
    }
}

/// Keys in the preferences menu.
pub open spec fn on_preferences(s: SessionView, key: Key) -> (SessionView, Effect) {
    match key {
        Key::Up => (SessionView { speed: raised(s.speed, SPEED_STEP as int), ..s }, Effect::Nothing),
        Key::Down => (SessionView { speed: lowered(s.speed, SPEED_STEP as int), ..s }, Effect::Nothing),
        Key::Right => (SessionView { display_mode: grown(s.display_mode), ..s }, Effect::Nothing),
        Key::Left => (SessionView { display_mode: shrunk(s.display_mode), ..s }, Effect::Nothing),
        Key::Enter => (SessionView { menu: Menu::Normal, ..s }, Effect::SavePreferences),
        Key::Esc => (SessionView { menu: Menu::Normal, ..s }, Effect::Nothing),
        _ => (s, Effect::Nothing),
    }
}

/// The digit keys that set a chunk size.
pub open spec fn is_size_digit(c: char) -> bool {
    49 <= c as u32 <= 57
}

/// Keys outside the menus.
pub open spec fn on_normal(s: SessionView, key: Key) -> (SessionView, Effect) {
    match key {
        Key::Char(c) => if c == ' ' {
            (SessionView { paused: !s.paused, ..s }, if !s.paused {
                Effect::StopSpeech
            } else {
                Effect::Nothing
            })
        } else if c == 'p' {
            (SessionView { menu: Menu::Preferences, ..s }, Effect::Nothing)
        } else if c == 'b' {
            (SessionView { menu: Menu::Bookmarks, selected: 0, ..s }, Effect::Nothing)
        } else if c == 'm' {
            (SessionView { smart_mode: !s.smart_mode, ..s }, Effect::Nothing)
        } else if c == 't' {
            (SessionView { speech: !s.speech, ..s }, Effect::Nothing)
        } else if c == 's' {
            (SessionView {
                display_mode: if s.display_mode == DisplayMode::Sentence {
                    DisplayMode::WordChunk(1)
                } else {
                    DisplayMode::Sentence
                },
                position: 0,
                ..s
            }, Effect::Retokenize)
        } else if c == 'w' {
            (s, Effect::ChooseUrl)
        } else if c == 'l' {
            (s, Effect::ChooseDocument)
        } else if c == 'q' {
            (s, Effect::Quit)
        } else if is_size_digit(c) {
            let mode = DisplayMode::WordChunk((c as u32 - 48) as usize);
            if s.display_mode == DisplayMode::Sentence {
                (SessionView { display_mode: mode, position: 0, ..s }, Effect::Retokenize)
            } else {
                (SessionView { display_mode: mode, ..s }, Effect::Nothing)
            }
        } else {
            (s, Effect::Nothing)
        },
        Key::Up => (SessionView { speed: raised(s.speed, SPEED_STEP as int), ..s }, Effect::Nothing),
        Key::Down => (SessionView { speed: lowered(s.speed, SPEED_STEP as int), ..s }, Effect::Nothing),
        Key::PageUp => (SessionView { speed: raised(s.speed, SPEED_PAGE_STEP as int), ..s }, Effect::Nothing),
        Key::PageDown => (SessionView { speed: lowered(s.speed, SPEED_PAGE_STEP as int), ..s }, Effect::Nothing),
        Key::Right => (SessionView {
            position: forward(
                s.position,
                step_of(s.units, s.position, s.display_mode, s.smart_mode),
                s.units.len() as int,
            ),
            ..s
        }, Effect::Nothing),
        Key::Left => (SessionView {
            position: backward(s.position, step_of(s.units, s.position, s.display_mode, s.smart_mode)),
            ..s
        }, Effect::Nothing),
        _ => (s, Effect::Nothing),
    }
}

/// A key press: dropped when the session was told to skip it, otherwise
/// handled by the keys of the open menu.
pub open spec fn transition(s: SessionView, key: Key) -> (SessionView, Effect) {
    if s.skip_next_key {
        (SessionView { skip_next_key: false, ..s }, Effect::Nothing)
    } else {
        match s.menu {
            Menu::Bookmarks => on_bookmark_menu(s, key),
            Menu::Preferences => on_preferences(s, key),
            Menu::Normal => on_normal(s, key),
        }
    }
}

fn raise_speed(speed: u64, d: u64) -> (r: u64)
    ensures
        r == raised(speed as int, d as int),
{
    speed.saturating_add(d)
}

fn lower_speed(speed: u64, d: u64) -> (r: u64)
    ensures
        r == lowered(speed as int, d as int),
{
    if speed > d && speed - d >= 1 {
        speed - d
    } else {
        1
    }
}

impl Session {
    pub open spec fn wf(&self) -> bool {
        self@.wf()
    }

    /// Units one step moves over from the current position.
    pub fn step(&self) -> (r: usize)
        requires
            self.wf(),
        ensures
            r as int == step_of(self@.units, self@.position, self@.display_mode, self@.smart_mode),
    {
        match self.display_mode {
            DisplayMode::WordChunk(k) => if self.smart_mode {
                get_adaptive_chunk_size(self.units.as_slice(), self.position, k)
            } else {
                k
            },
            DisplayMode::Sentence => 1,
        }
    }

    fn preview(&self) -> (r: String)
        requires
            self.wf(),
        ensures
            r@ == preview_of(self@.units, self@.position),
    {
        let len = self.units.len();
        let end = if len - self.position <= PREVIEW_UNITS {
            len
        } else {
            self.position + PREVIEW_UNITS
        };
        proof {
            reveal_strlit(" ");
            assert(" "@ =~= seq![' ']);
        }
        join_range(self.units.as_slice(), self.position, end, " ")
    }

    fn on_bookmark_key(&mut self, key: Key) -> (r: Effect)
        requires
            old(self).wf(),
        ensures
            final(self).wf(),
            (final(self)@, r) == on_bookmark_menu(old(self)@, key),
    {
        match key {
            Key::Up => {
                if self.selected > 0 {
                    self.selected = self.selected - 1;
                }
                Effect::Nothing
            },
            Key::Down => {
                if self.selected < self.bookmarks.len() {
                    self.selected = self.selected + 1;
                }
                Effect::Nothing
            },
            Key::Enter => {
                if self.selected == 0 {
                    let preview = self.preview();
                    let mark = Bookmark::new(self.position, preview);
                    let ghost before = marks_view(self.bookmarks@);
                    let ghost m = mark@;
                    self.bookmarks.push(mark);
                    assert(marks_view(self.bookmarks@) =~= before.push(m));
                    self.menu = Menu::Normal;
                    Effect::SaveBookmark
                } else {
                    let p = self.bookmarks[self.selected - 1].position;
                    let len = self.units.len();
                    self.position = if p > len {
                        len
                    } else {
                        p
                    };
                    self.menu = Menu::Normal;
                    Effect::Nothing
                }
            },
            Key::Esc => {
                self.menu = Menu::Normal;
                Effect::Nothing
            },
            _ => Effect::Nothing,
        }
    }

    fn on_preferences_key(&mut self, key: Key) -> (r: Effect)
        requires
            old(self).wf(),
        ensures
            final(self).wf(),
            (final(self)@, r) == on_preferences(old(self)@, key),
    {
        match key {
            Key::Up => {
                self.speed = raise_speed(self.speed, SPEED_STEP);
                Effect::Nothing
            },
            Key::Down => {
                self.speed = lower_speed(self.speed, SPEED_STEP);
                Effect::Nothing
            },
            Key::Right => {
                if let DisplayMode::WordChunk(k) = self.display_mode {
                    self.display_mode = DisplayMode::WordChunk(k.saturating_add(1));
                }
                Effect::Nothing
            },
            Key::Left => {
                if let DisplayMode::WordChunk(k) = self.display_mode {
                    self.display_mode = DisplayMode::WordChunk(
                        if k > 1 {
                            k - 1
                        } else {
                            1
                        },
                    );
                }
                Effect::Nothing
            },
            Key::Enter => {
                self.menu = Menu::Normal;
                Effect::SavePreferences
            },
            Key::Esc => {
                self.menu = Menu::Normal;
                Effect::Nothing
            },
            _ => Effect::Nothing,
        }
    }

    fn on_char_key(&mut self, c: char) -> (r: Effect)
        requires
            old(self).wf(),
        ensures
            final(self).wf(),
            (final(self)@, r) == on_normal(old(self)@, Key::Char(c)),
    {
        if c == ' ' {
            self.paused = !self.paused;
            if self.paused {
                Effect::StopSpeech
            } else {
                Effect::Nothing
            }
        } else if c == 'p' {
            self.menu = Menu::Preferences;
            Effect::Nothing
        } else if c == 'b' {
            self.menu = Menu::Bookmarks;
            self.selected = 0;
            Effect::Nothing
        } else if c == 'm' {
            self.smart_mode = !self.smart_mode;
            Effect::Nothing
        } else if c == 't' {
            self.speech = !self.speech;
            Effect::Nothing
        } else if c == 's' {
            self.display_mode = if self.display_mode == DisplayMode::Sentence {
                DisplayMode::WordChunk(1)
            } else {
                DisplayMode::Sentence
            };
            self.position = 0;
            Effect::Retokenize
        } else if c == 'w' {
            Effect::ChooseUrl
        } else if c == 'l' {
            Effect::ChooseDocument
        } else if c == 'q' {
            Effect::Quit
        } else {
            let code = c as u32;
            if 49 <= code && code <= 57 {
                let mode = DisplayMode::WordChunk((code - 48) as usize);
                if self.display_mode == DisplayMode::Sentence {
                    self.display_mode = mode;
                    self.position = 0;
                    Effect::Retokenize
                } else {
                    self.display_mode = mode;
                    Effect::Nothing
                }
            } else {
                Effect::Nothing
            }
        }
    }

    fn on_normal_key(&mut self, key: Key) -> (r: Effect)
        requires
            old(self).wf(),
        ensures
            final(self).wf(),
            (final(self)@, r) == on_normal(old(self)@, key),
    {
        match key {
            Key::Char(c) => self.on_char_key(c),
            Key::Up => {
                self.speed = raise_speed(self.speed, SPEED_STEP);
                Effect::Nothing
            },
            Key::Down => {
                self.speed = lower_speed(self.speed, SPEED_STEP);
                Effect::Nothing
            },
            Key::PageUp => {
                self.speed = raise_speed(self.speed, SPEED_PAGE_STEP);
                Effect::Nothing
            },
            Key::PageDown => {
                self.speed = lower_speed(self.speed, SPEED_PAGE_STEP);
                Effect::Nothing
            },
            Key::Right => {
                let step = self.step();
                let len = self.units.len();
                self.position = if step > len - self.position {
                    len
                } else {
                    self.position + step
                };
                Effect::Nothing
            },
            Key::Left => {
                let step = self.step();
                self.position = if step > self.position {
                    0
                } else {
                    self.position - step
                };
                Effect::Nothing
            },
            _ => Effect::Nothing,
        }
    }

    /// Handles a key press: the new state and the effect are those that
    /// `transition` gives.
    pub fn route(&mut self, key: Key) -> (r: Effect)
        requires
            old(self).wf(),
        ensures
            final(self).wf(),
            (final(self)@, r) == transition(old(self)@, key),
    {
        if self.skip_next_key {
            self.skip_next_key = false;
            return Effect::Nothing;
        }
        match self.menu {
            Menu::Bookmarks => self.on_bookmark_key(key),
            Menu::Preferences => self.on_preferences_key(key),
            Menu::Normal => self.on_normal_key(key),
        }
    }

    /// Lets time pass: `elapsed_ms` since the last advance. The state and the
    /// result are those that `tick_of` gives.
    pub fn tick(&mut self, elapsed_ms: u64) -> (r: Tick)
        requires
            old(self).wf(),
        ensures
            final(self).wf(),
            (final(self)@, r) == tick_of(old(self)@, elapsed_ms as int),
    {
        let delay = delay_ms(self.speed);
        if self.paused || self.menu != Menu::Normal || elapsed_ms < delay {
            return Tick::NotDue;
        }
        let len = self.units.len();
        if self.position >= len {
            return Tick::EndOfText;
        }
        let step = self.step();
        let next = if step > len - self.position {
            len
        } else {
            self.position + step
        };
        self.words_read = self.words_read.saturating_add((next - self.position) as u64);
        self.reading_time_ms = self.reading_time_ms.saturating_add(delay);
        self.position = next;
        if self.speech && next < len {
            Tick::AdvancedAndSpeak
        } else {
            Tick::Advanced
        }
    }

    /// Where the chunk on display ends.
    pub fn chunk_end(&self) -> (r: usize)
        requires
            self.wf(),
        ensures
            r as int == chunk_end_of(self@),
    {
        let step = self.step();
        let len = self.units.len();
        if step > len - self.position {
            len
        } else {
            self.position + step
        }
    }

    /// The text on display: the current chunk's units joined by spaces, or
    /// the end-of-text marker once the position reached the end.
    pub fn chunk_text(&self) -> (r: String)
        requires
            self.wf(),
        ensures
            r@ == chunk_text_of(self@),
    {
        if self.position < self.units.len() {
            let end = self.chunk_end();
            proof {
                reveal_strlit(" ");
                assert(" "@ =~= seq![' ']);
            }
            join_range(self.units.as_slice(), self.position, end, " ")
        } else {
            String::from_str(END_OF_TEXT)
        }
    }

    /// The text around the position shown while paused: the units before the
    /// chunk, the chunk, and the units after it.
    pub fn pause_context(&self) -> (r: (String, String, String))
        requires
            self.wf(),
        ensures
            r.0@ == joined(self@.units.subrange(context_start_of(self@), self@.position), seq![' ']),
            r.1@ == joined(self@.units.subrange(self@.position, chunk_end_of(self@)), seq![' ']),
            r.2@ == joined(self@.units.subrange(chunk_end_of(self@), context_end_of(self@)), seq![' ']),
    {
        let len = self.units.len();
        let start = if self.position < CONTEXT_UNITS {
            0
        } else {
            self.position - CONTEXT_UNITS
        };
        let end = self.chunk_end();
        let after = if len - end <= CONTEXT_UNITS {
            len
        } else {
            end + CONTEXT_UNITS
        };
        proof {
            reveal_strlit(" ");
            assert(" "@ =~= seq![' ']);
        }
        let units = self.units.as_slice();
        (join_range(units, start, self.position, " "), join_range(units, self.position, end, " "), join_range(
            units,
            end,
            after,
            " ",
        ))
    }

    /// The bookmarks listed in the bookmark menu: those from the first index
    /// to before the second.
    pub fn bookmark_window(&self) -> (r: (usize, usize))
        requires
            self.wf(),
        ensures
            r.0 as int == backward(self@.selected, (BOOKMARK_ROWS / 2) as int),
            r.1 as int == forward(r.0 as int, BOOKMARK_ROWS as int, self@.bookmarks.len() as int),
            r.0 <= r.1 <= self@.bookmarks.len(),
    {
        let half = BOOKMARK_ROWS / 2;
        let start = if self.selected < half {
            0
        } else {
            self.selected - half
        };
        let len = self.bookmarks.len();
        let end = if len - start <= BOOKMARK_ROWS {
            len
        } else {
            start + BOOKMARK_ROWS
        };
        (start, end)
    }

    /// A session on a document, set up from its saved record; a speed or a
    /// chunk size given on the command line takes precedence.
    pub fn new(
        document_key: String,
        text: &str,
        record: &BookRecord,
        speed_override: Option<u64>,
        chunk_override: Option<usize>,
    ) -> (r: Session)
        ensures
            r.wf(),
            r@ == opened(document_key@, text@, record@, speed_override, chunk_override),
    {
        let chunk = match chunk_override {
            Some(c) => if c == 0 {
                1
            } else {
                c
            },
            None => if record.chunk_size == 0 {
                1
            } else {
                record.chunk_size
            },
        };
        let speed = match speed_override {
            Some(v) => if v == 0 {
                1
            } else {
                v
            },
            None => if record.speed == 0 {
                1
            } else {
                record.speed
            },
        };
        let mode = match record.display_mode {
            DisplayMode::Sentence => DisplayMode::Sentence,
            DisplayMode::WordChunk(_) => DisplayMode::WordChunk(chunk),
        };
        let units = build_units(text, mode);
        let position = if record.last_position > units.len() {
            units.len()
        } else {
            record.last_position
        };
        let r = Session {
            units,
            position,
            speed,
            display_mode: mode,
            smart_mode: false,
            menu: Menu::Normal,
            paused: false,
            bookmarks: crate::store::copy_bookmarks(&record.bookmarks),
            selected: 0,
            words_read: 0,
            reading_time_ms: 0,
            speech: false,
            skip_next_key: false,
            document_key,
        };
        r
    }

    /// Switches to another document, restoring its saved speed, display mode,
    /// position and bookmarks; the session's other settings and counters stay.
    pub fn open_document(&mut self, document_key: String, text: &str, record: &BookRecord)
        requires
            old(self).wf(),
        ensures
            final(self).wf(),
            final(self)@ == reopened(old(self)@, document_key@, text@, record@),
    {
        let fresh = Session::new(document_key, text, record, None, None);
        self.units = fresh.units;
        self.position = fresh.position;
        self.speed = fresh.speed;
        self.display_mode = fresh.display_mode;
        self.menu = Menu::Normal;
        self.bookmarks = fresh.bookmarks;
        self.selected = 0;
        self.document_key = fresh.document_key;
    }

    /// Rebuilds the units from the document's text for the current display
    /// mode, from the start.
    pub fn retokenize(&mut self, text: &str)
        requires
            old(self).wf(),
        ensures
            final(self).wf(),
            final(self)@ == retokenized(old(self)@, text@),
    {
        self.units = build_units(text, self.display_mode);
        self.position = 0;
    }

    /// Saves the session's speed, and its chunk size in word-chunk mode, as
    /// the global settings.
    pub fn save_preferences(&self, store: &mut Store)
        requires
            old(store).wf(),
        ensures
            final(store).wf(),
            final(store)@.books == old(store)@.books,
            final(store)@.global.speed == self.speed,
            final(store)@.global.chunk_size == chunk_of(self.display_mode, old(store)@.global.chunk_size),
            final(store)@.global.max_saved_books == old(store)@.global.max_saved_books,
            final(store)@.global.max_bookmarks_per_book == old(store)@.global.max_bookmarks_per_book,
    {
        store.global.speed = self.speed;
        if let DisplayMode::WordChunk(k) = self.display_mode {
            store.global.chunk_size = k;
        }
    }

    /// Saves the bookmark added last to the document's record.
    pub fn save_last_bookmark(&self, store: &mut Store)
        requires
            old(store).wf(),
            self.bookmarks@.len() > 0,
        ensures
            final(store).wf(),
            final(store)@.global == old(store)@.global,
            final(store)@.books == with_bookmark(
                old(store)@.books,
                self@.document_key,
                self@.bookmarks.last(),
                self.speed,
                chunk_of(self.display_mode, old(store)@.global.chunk_size),
            ),
    {
        let last = self.bookmarks[self.bookmarks.len() - 1].duplicate();
        let chunk = match self.display_mode {
            DisplayMode::WordChunk(k) => k,
            DisplayMode::Sentence => store.global.chunk_size,
        };
        store.add_bookmark(&self.document_key, last, self.speed, chunk);
    }

    /// Saves where the reader is in the document, at what speed and in what
    /// mode; the saved bookmarks gain any of the session's they lack.
    pub fn save_progress(&self, store: &mut Store)
        requires
            old(store).wf(),
        ensures
            final(store).wf(),
            final(store)@.global == old(store)@.global,
            final(store)@.books == upsert(
                old(store)@.books,
                self@.document_key,
                progress_record(self@, old(store)@),
            ),
    {
        let base = store.record_or_default(&self.document_key);
        let record = BookRecord {
            bookmarks: union_bookmark_lists(&base.bookmarks, &self.bookmarks),
            speed: self.speed,
            chunk_size: match self.display_mode {
                DisplayMode::WordChunk(k) => k,
                DisplayMode::Sentence => base.chunk_size,
            },
            last_position: self.position,
            display_mode: self.display_mode,
        };
        store.set_record(self.document_key.clone(), record);
    }
}

pub const MS_PER_MINUTE: u64 = 60000;

/// The marker shown once the text is over.
pub const END_OF_TEXT: &'static str = "End of text";

/// Milliseconds between two advances at a speed in words per minute.
pub open spec fn delay_of(speed: int) -> int {
    MS_PER_MINUTE as int / speed
}

/// Milliseconds between two advances at `speed` words per minute.
pub fn delay_ms(speed: u64) -> (r: u64)
    requires
        speed >= 1,
    ensures
        r as int == delay_of(speed as int),
{
    MS_PER_MINUTE / speed
}

/// Where the chunk on display ends.
pub open spec fn chunk_end_of(s: SessionView) -> int {
    forward(s.position, step_of(s.units, s.position, s.display_mode, s.smart_mode), s.units.len() as int)
}

/// The text on display.
pub open spec fn chunk_text_of(s: SessionView) -> Seq<char> {
    if s.position < s.units.len() {
        joined(s.units.subrange(s.position, chunk_end_of(s)), seq![' '])
    } else {
        END_OF_TEXT@
    }
}

/// Where the context shown before the chunk begins.
pub open spec fn context_start_of(s: SessionView) -> int {
    backward(s.position, CONTEXT_UNITS as int)
}

/// Where the context shown after the chunk ends.
pub open spec fn context_end_of(s: SessionView) -> int {
    forward(chunk_end_of(s), CONTEXT_UNITS as int, s.units.len() as int)
}

/// The passing of `elapsed_ms` since the last advance: nothing while paused,
/// in a menu or before the delay is over; at the end of the text nothing
/// either; otherwise one step forward, counted in the session's totals.
pub open spec fn tick_of(s: SessionView, elapsed_ms: int) -> (SessionView, Tick) {
    if s.paused || s.menu != Menu::Normal || elapsed_ms < delay_of(s.speed) {
        (s, Tick::NotDue)
    } else if s.position >= s.units.len() {
        (s, Tick::EndOfText)
    } else {
        let next = chunk_end_of(s);
        (SessionView {
            position: next,
            words_read: counted(s.words_read, next - s.position),
            reading_time_ms: counted(s.reading_time_ms, delay_of(s.speed)),
            ..s
        }, if s.speech && next < s.units.len() {
            Tick::AdvancedAndSpeak
        } else {
            Tick::Advanced
        })
    }
}

/// The chunk size of a display mode, or `fallback` in sentence mode.
pub open spec fn chunk_of(mode: DisplayMode, fallback: usize) -> usize {
    match mode {
        DisplayMode::WordChunk(k) => k,
        DisplayMode::Sentence => fallback,
    }
}

/// A session freshly opened on a document.
pub open spec fn opened(
    key: Seq<char>,
    text: Seq<char>,
    record: RecordView,
    speed_override: Option<u64>,
    chunk_override: Option<usize>,
) -> SessionView {
    let chunk = chunk_or(chunk_override, record.chunk_size);
    let mode = match record.display_mode {
        DisplayMode::Sentence => DisplayMode::Sentence,
        DisplayMode::WordChunk(_) => DisplayMode::WordChunk(chunk),
    };
    let units = units_for(text, mode);
    SessionView {
        units,
        position: if record.last_position > units.len() {
            units.len() as int
        } else {
            record.last_position as int
        },
        speed: speed_or(speed_override, record.speed) as int,
        display_mode: mode,
        smart_mode: false,
        menu: Menu::Normal,
        paused: false,
        bookmarks: record.bookmarks,
        selected: 0,
        words_read: 0,
        reading_time_ms: 0,
        speech: false,
        skip_next_key: false,
        document_key: key,
    }
}

/// A session switched to another document.
pub open spec fn reopened(s: SessionView, key: Seq<char>, text: Seq<char>, record: RecordView) -> SessionView {
    let o = opened(key, text, record, None, None);
    SessionView {
        units: o.units,
        position: o.position,
        speed: o.speed,
        display_mode: o.display_mode,
        menu: Menu::Normal,
        bookmarks: o.bookmarks,
        selected: 0,
        document_key: key,
        ..s
    }
}

/// The record that saving the session's progress writes for its document.
pub open spec fn progress_record(s: SessionView, store: StoreView) -> RecordView {
    let base = if has_key(store.books, s.document_key) {
        record_of(store.books, s.document_key)
    } else {
        fresh_record(store.global.speed, store.global.chunk_size)
    };
    RecordView {
        bookmarks: union_bookmarks(base.bookmarks, s.bookmarks),
        speed: s.speed as u64,
        chunk_size: chunk_of(s.display_mode, base.chunk_size),
        last_position: s.position as usize,
        display_mode: s.display_mode,
    }
}

/// The session with its units rebuilt from `text` for its display mode.
pub open spec fn retokenized(s: SessionView, text: Seq<char>) -> SessionView {
    SessionView { units: units_for(text, s.display_mode), position: 0, ..s }
}

/// Key presses applied in order.
pub open spec fn run_keys(s: SessionView, keys: Seq<Key>) -> SessionView
    decreases keys.len(),
{
    if keys.len() == 0 {
        s
    } else {
        transition(run_keys(s, keys.drop_last()), keys.last()).0
    }
}

/// Ticks applied in order, each with its elapsed time.
pub open spec fn run_ticks(s: SessionView, elapsed: Seq<int>) -> SessionView
    decreases elapsed.len(),
{
    if elapsed.len() == 0 {
        s
    } else {
        tick_of(run_ticks(s, elapsed.drop_last()), elapsed.last()).0
    }
}

proof fn lemma_step_positive(s: SessionView)
    requires
        s.wf(),
    ensures
        step_of(s.units, s.position, s.display_mode, s.smart_mode) >= 1,
{
    if let DisplayMode::WordChunk(k) = s.display_mode {
        lemma_adaptive_size_positive(s.units, s.position, k as int);
    }
}

/// Every key press keeps the session well formed.
pub proof fn lemma_transition_wf(s: SessionView, key: Key)
    requires
        s.wf(),
    ensures
        transition(s, key).0.wf(),
{
    lemma_step_positive(s);
}

/// Whatever keys are pressed, the session stays well formed: in particular
/// the speed never drops below one, so the delay between advances is always
/// defined, and the position stays within the text.
pub proof fn lemma_keys_keep_wf(s: SessionView, keys: Seq<Key>)
    requires
        s.wf(),
    ensures
        run_keys(s, keys).wf(),
        run_keys(s, keys).speed >= 1,
        0 <= run_keys(s, keys).position <= run_keys(s, keys).units.len(),
    decreases keys.len(),
{
    if keys.len() > 0 {
        lemma_keys_keep_wf(s, keys.drop_last());
        lemma_transition_wf(run_keys(s, keys.drop_last()), keys.last());
    }
}

/// A key press that the session was told to skip changes nothing but
/// clearing that flag.
pub proof fn lemma_skipped_key(s: SessionView, key: Key)
    requires
        s.skip_next_key,
    ensures
        transition(s, key) == (SessionView { skip_next_key: false, ..s }, Effect::Nothing),
{
}

/// Presses of page-down that the session handles: all `n`, or all but the
/// first when it was told to skip the next key.
pub open spec fn handled(s: SessionView, n: nat) -> int {
    if s.skip_next_key && n > 0 {
        n - 1
    } else {
        n as int
    }
}

/// Pressing the page-down key `n` times outside the menus lowers the speed
/// by a hundred for each press handled and stops at one: from any speed,
/// enough presses leave it at exactly one.
pub proof fn lemma_page_down_floor(s: SessionView, n: nat)
    requires
        s.wf(),
        s.menu == Menu::Normal,
    ensures
        run_keys(s, Seq::new(n, |i: int| Key::PageDown)).speed == lowered(s.speed, 100 * handled(s, n)),
        run_keys(s, Seq::new(n, |i: int| Key::PageDown)).menu == Menu::Normal,
        run_keys(s, Seq::new(n, |i: int| Key::PageDown)).skip_next_key == (s.skip_next_key && n == 0),
        run_keys(s, Seq::new(n, |i: int| Key::PageDown)).wf(),
        s.speed <= 100 * handled(s, n) + 1 ==> run_keys(s, Seq::new(n, |i: int| Key::PageDown)).speed == 1,
    decreases n,
{
    let keys = Seq::new(n, |i: int| Key::PageDown);
    if n > 0 {
        let n1 = (n - 1) as nat;
        assert(keys.drop_last() =~= Seq::new(n1, |i: int| Key::PageDown));
        lemma_page_down_floor(s, n1);
        let prev = run_keys(s, keys.drop_last());
        lemma_transition_wf(prev, Key::PageDown);
        assert(keys.last() == Key::PageDown);
    }
}

/// Every tick keeps the session well formed: the position stays within the
/// text.
pub proof fn lemma_tick_wf(s: SessionView, elapsed_ms: int)
    requires
        s.wf(),
    ensures
        tick_of(s, elapsed_ms).0.wf(),
        0 <= tick_of(s, elapsed_ms).0.position <= s.units.len(),
        tick_of(s, elapsed_ms).0.units == s.units,
{
    lemma_step_positive(s);
}

/// However many ticks pass, the position stays within the text; once it is
/// at the end, ticks leave the session as it is.
pub proof fn lemma_ticks_stay_in_text(s: SessionView, elapsed: Seq<int>)
    requires
        s.wf(),
    ensures
        run_ticks(s, elapsed).wf(),
        run_ticks(s, elapsed).units == s.units,
        0 <= run_ticks(s, elapsed).position <= s.units.len(),
        s.position == s.units.len() ==> run_ticks(s, elapsed) == s,
    decreases elapsed.len(),
{
    if elapsed.len() > 0 {
        lemma_ticks_stay_in_text(s, elapsed.drop_last());
        lemma_tick_wf(run_ticks(s, elapsed.drop_last()), elapsed.last());
    }
}

/// At the end of the text, moving forward leaves the position at the end.
pub proof fn lemma_forward_at_end_stays(s: SessionView)
    requires
        s.wf(),
        s.menu == Menu::Normal,
        !s.skip_next_key,
        s.position == s.units.len(),
    ensures
        transition(s, Key::Right).0 == s,
{
    lemma_step_positive(s);
}

/// Switching from word chunks of size `k` to sentences and back to size `k`
/// (with the digit key for `k`), rebuilding the units from the same text each
/// time, gives back exactly the units the session had.
pub proof fn lemma_mode_switch_round_trip(s: SessionView, text: Seq<char>, c: char)
    requires
        s.wf(),
        s.menu == Menu::Normal,
        !s.skip_next_key,
        is_size_digit(c),
        s.display_mode == DisplayMode::WordChunk((c as u32 - 48) as usize),
        s.units == units_for(text, s.display_mode),
    ensures
        transition(s, Key::Char('s')).1 == Effect::Retokenize,
        transition(s, Key::Char('s')).0.display_mode == DisplayMode::Sentence,
        retokenized(transition(s, Key::Char('s')).0, text).units == sentences_of(text),
        transition(retokenized(transition(s, Key::Char('s')).0, text), Key::Char(c)).1 == Effect::Retokenize,
        transition(retokenized(transition(s, Key::Char('s')).0, text), Key::Char(c)).0.display_mode
            == s.display_mode,
        retokenized(
            transition(retokenized(transition(s, Key::Char('s')).0, text), Key::Char(c)).0,
            text,
        ).units == s.units,
{
}

/// Pressing `s` twice in word-chunk mode, rebuilding the units from the
/// same text each time, goes to sentences and back to single words: the
/// units are the same words as before, read from the start.
pub proof fn lemma_sentence_toggle_round_trip(s: SessionView, text: Seq<char>, k: usize)
    requires
        s.wf(),
        s.menu == Menu::Normal,
        !s.skip_next_key,
        s.display_mode == DisplayMode::WordChunk(k),
        s.units == units_for(text, s.display_mode),
    ensures
        transition(s, Key::Char('s')).1 == Effect::Retokenize,
        retokenized(transition(s, Key::Char('s')).0, text).display_mode == DisplayMode::Sentence,
        retokenized(transition(s, Key::Char('s')).0, text).units == sentences_of(text),
        transition(retokenized(transition(s, Key::Char('s')).0, text), Key::Char('s')).1 == Effect::Retokenize,
        retokenized(transition(retokenized(transition(s, Key::Char('s')).0, text), Key::Char('s')).0, text)
            == (SessionView { display_mode: DisplayMode::WordChunk(1), position: 0, ..s }),
{
    let end = retokenized(transition(retokenized(transition(s, Key::Char('s')).0, text), Key::Char('s')).0, text);
    assert(end.units == s.units);
}

} // verus!
