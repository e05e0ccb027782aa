//! The menus around reading: choosing a document to load, browsing for a
//! file, and typing an address.

use vstd::prelude::*;
use vstd::utf8::encode_utf8;
use crate::session::Key;
use crate::sizer::units_view;
use crate::store::Store;

verus! {

/// The item above a list cursor, staying on the first.
pub open spec fn cursor_up(selected: int) -> int {
    if selected > 0 {
        selected - 1
    } else {
        selected
    }
}

/// The item below a list cursor among `count` items, staying on the last.
pub open spec fn cursor_down(selected: int, count: int) -> int {
    if selected + 1 < count {
        selected + 1
    } else {
        selected
    }
}

/// `a` orders before or equal to `b`, byte by byte.
pub open spec fn bytes_le(a: Seq<u8>, b: Seq<u8>) -> bool
    decreases a.len(),
{
    if a.len() == 0 {
        true
    } else if b.len() == 0 {
        false
    } else if a[0] != b[0] {
        a[0] < b[0]
    } else {
        bytes_le(a.drop_first(), b.drop_first())
    }
}

/// Relies on slice::sort on strings: the same strings, ordered by their
/// UTF-8 bytes.
#[verifier::external_body]
fn sort_strings(v: &mut Vec<String>)
    ensures
        units_view(final(v)@).to_multiset() == units_view(old(v)@).to_multiset(),
        forall|i: int, j: int|
            0 <= i < j < final(v)@.len() ==> bytes_le(encode_utf8(#[trigger] final(v)@[i]@), encode_utf8(#[trigger] final(v)@[j]@)),
{
    v.sort();
}

/// What the load menu asks for after a key press.
#[derive(Clone, Copy, Debug, PartialEq, Eq, Structural)]
pub enum LoadChoice {
    /// Still choosing.
    Pending,
    /// Browse the file system for a document.
    Browse,
    /// Open the recent document at this index.
    Open(usize),
    /// Leave without choosing.
    Cancel,
}

/// The load menu: "browse", then "recent documents" when there are any; the
/// second opens the list of recent documents.
pub struct LoadMenu {
    pub recent: Vec<String>,
    pub in_recent: bool,
    pub selected: usize,
    pub selected_recent: usize,
}

pub struct LoadMenuView {
    pub recent: Seq<Seq<char>>,
    pub in_recent: bool,
    pub selected: int,
    pub selected_recent: int,
}

impl View for LoadMenu {
    type V = LoadMenuView;

    open spec fn view(&self) -> LoadMenuView {
        LoadMenuView {
            recent: units_view(self.recent@),
            in_recent: self.in_recent,
            selected: self.selected as int,
            selected_recent: self.selected_recent as int,
        }
    }
}

/// Items of the load menu's first list.
pub open spec fn option_count(m: LoadMenuView) -> int {
    if m.recent.len() > 0 {
        2
    } else {
        1
    }
}

impl LoadMenuView {
    pub open spec fn wf(&self) -> bool {
        &&& 0 <= self.selected < option_count(*self)
        &&& self.in_recent ==> self.recent.len() > 0
        &&& 0 <= self.selected_recent
        &&& self.recent.len() > 0 ==> self.selected_recent < self.recent.len()
    }
}

/// A key press in the load menu.
pub open spec fn load_press(m: LoadMenuView, key: Key) -> (LoadMenuView, LoadChoice) {
    match key {
        Key::Up => if m.in_recent {
            (LoadMenuView { selected_recent: cursor_up(m.selected_recent), ..m }, LoadChoice::Pending)
        } else {
            (LoadMenuView { selected: cursor_up(m.selected), ..m }, LoadChoice::Pending)
        },
        Key::Down => if m.in_recent {
            (LoadMenuView {
                selected_recent: cursor_down(m.selected_recent, m.recent.len() as int),
                ..m
            }, LoadChoice::Pending)
        } else {
            (LoadMenuView { selected: cursor_down(m.selected, option_count(m)), ..m }, LoadChoice::Pending)
        },
        Key::Enter => if m.in_recent {
            (m, LoadChoice::Open(m.selected_recent as usize))
        } else if m.selected == 0 {
            (m, LoadChoice::Browse)
        } else {
            (LoadMenuView { in_recent: true, selected_recent: 0, ..m }, LoadChoice::Pending)
        },
        Key::Esc => if m.in_recent {
            (LoadMenuView { in_recent: false, ..m }, LoadChoice::Pending)
        } else {
            (m, LoadChoice::Cancel)
        },
        _ => (m, LoadChoice::Pending),
    }
}

impl LoadMenu {
    pub open spec fn wf(&self) -> bool {
        self@.wf()
    }

    /// The load menu over the documents the store has records for, sorted.
    pub fn new(store: &Store) -> (r: LoadMenu)
        ensures
            r.wf(),
            !r@.in_recent,
            r@.selected == 0,
            r@.recent.to_multiset() == store@.books.map_values(
                |e: (Seq<char>, crate::store::RecordView)| e.0,
            ).to_multiset(),
            forall|i: int, j: int|
                0 <= i < j < r@.recent.len() ==> bytes_le(encode_utf8(#[trigger] r@.recent[i]), encode_utf8(#[trigger] r@.recent[j])),
    {
        let mut recent: Vec<String> = Vec::new();
        let mut i: usize = 0;
        while i < store.books.len()
            invariant
                i <= store.books@.len(),
                units_view(recent@) == store@.books.take(i as int).map_values(
                    |e: (Seq<char>, crate::store::RecordView)| e.0,
                ),
            decreases store.books@.len() - i,
        {
            let ghost before = units_view(recent@);
            recent.push(store.books[i].key.clone());
            assert(units_view(recent@) =~= before.push(store@.books[i as int].0));
            assert(store@.books.take(i + 1).map_values(|e: (Seq<char>, crate::store::RecordView)| e.0)
                =~= store@.books.take(i as int).map_values(
                |e: (Seq<char>, crate::store::RecordView)| e.0,
            ).push(store@.books[i as int].0));
            i = i + 1;
        }
        assert(store@.books.take(store@.books.len() as int) =~= store@.books);
        sort_strings(&mut recent);
        LoadMenu { recent, in_recent: false, selected: 0, selected_recent: 0 }
    }

    /// Handles a key press as `load_press` says.
    pub fn press(&mut self, key: Key) -> (r: LoadChoice)
        requires
            old(self).wf(),
        ensures
            final(self).wf(),
            (final(self)@, r) == load_press(old(self)@, key),
    {
        let count: usize = if self.recent.len() > 0 {
            2
        } else {
            1
        };
        match key {
            Key::Up => {
                if self.in_recent {
                    if self.selected_recent > 0 {
                        self.selected_recent = self.selected_recent - 1;
                    }
                } else if self.selected > 0 {
                    self.selected = self.selected - 1;
                }
                LoadChoice::Pending
            },
            Key::Down => {
                if self.in_recent {
                    if self.selected_recent + 1 < self.recent.len() {
                        self.selected_recent = self.selected_recent + 1;
                    }
                } else if self.selected + 1 < count {
                    self.selected = self.selected + 1;
                }
                LoadChoice::Pending
            },
            Key::Enter => {
                if self.in_recent {
                    LoadChoice::Open(self.selected_recent)
                } else if self.selected == 0 {
                    LoadChoice::Browse
                } else {
                    self.in_recent = true;
                    self.selected_recent = 0;
                    LoadChoice::Pending
                }
            },
            Key::Esc => {
                if self.in_recent {
                    self.in_recent = false;
                    LoadChoice::Pending
                } else {
                    LoadChoice::Cancel
                }
            },
            _ => LoadChoice::Pending,
        }
    }
}

/// The entry that leads to the parent directory.
pub const PARENT_ENTRY: &'static str = "..";

/// Entries listed at a time by the file browser.
pub const BROWSER_ROWS: usize = 45;

/// The file extensions of documents that can be read.
pub open spec fn supported_extension(e: Seq<char>) -> bool {
    e == "pdf"@ || e == "docx"@ || e == "odt"@ || e == "txt"@ || e == "html"@ || e == "htm"@ || e == "md"@
}

/// Whether the file browser lists an entry: every directory, and the files
/// whose extension is that of a readable document.
pub fn is_listed(is_dir: bool, extension: Option<&str>) -> (r: bool)
    ensures
        r == (is_dir || match extension {
            Some(e) => supported_extension(e@),
            None => false,
        }),
{
    if is_dir {
        return true;
    }
    match extension {
        None => false,
        Some(e) => {
            let e = String::from_str(e);
            e == String::from_str("pdf") || e == String::from_str("docx") || e == String::from_str("odt")
                || e == String::from_str("txt") || e == String::from_str("html") || e
                == String::from_str("htm") || e == String::from_str("md")
        },
    }
}

/// What the file browser asks for after a key press.
#[derive(Clone, Copy, Debug, PartialEq, Eq, Structural)]
pub enum BrowseChoice {
    Pending,
    /// Go up to the parent directory.
    Parent,
    /// The entry at this index was chosen: a directory to enter or a file.
    Pick(usize),
    Cancel,
}

/// A list of directory entries with a cursor and a scrolled window.
pub struct Browser {
    pub entries: Vec<String>,
    pub selected: usize,
    pub start: usize,
}

pub struct BrowserView {
    pub entries: Seq<Seq<char>>,
    pub selected: int,
    pub start: int,
}

impl View for Browser {
    type V = BrowserView;

    open spec fn view(&self) -> BrowserView {
        BrowserView { entries: units_view(self.entries@), selected: self.selected as int, start: self.start as int }
    }
}

impl BrowserView {
    pub open spec fn wf(&self) -> bool {
        &&& 0 <= self.selected
        &&& 0 <= self.start
        &&& (self.selected < self.entries.len() || self.selected == 0)
    }
}

/// A key press in the file browser.
pub open spec fn browse_press(b: BrowserView, key: Key) -> (BrowserView, BrowseChoice) {
    match key {
        Key::Up => (BrowserView { selected: cursor_up(b.selected), ..b }, BrowseChoice::Pending),
        Key::Down => (BrowserView { selected: cursor_down(b.selected, b.entries.len() as int), ..b }, BrowseChoice::Pending),
        Key::Enter => if b.entries.len() == 0 {
            (b, BrowseChoice::Pending)
        } else if b.entries[b.selected] == PARENT_ENTRY@ {
            (b, BrowseChoice::Parent)
        } else {
            (b, BrowseChoice::Pick(b.selected as usize))
        },
        Key::Esc => (b, BrowseChoice::Cancel),
        _ => (b, BrowseChoice::Pending),
    }
}

/// The first entry shown so that the cursor stays in view.
pub open spec fn window_start(b: BrowserView) -> int {
    if b.selected < b.start {
        b.selected
    } else if b.selected >= b.start + BROWSER_ROWS {
        b.selected + 1 - BROWSER_ROWS
    } else {
        b.start
    }
}

impl Browser {
    pub open spec fn wf(&self) -> bool {
        self@.wf()
    }

    /// A browser over `entries`, the cursor on the first.
    pub fn new(entries: Vec<String>) -> (r: Browser)
        ensures
            r.wf(),
            r@ == (BrowserView { entries: units_view(entries@), selected: 0, start: 0 }),
    {
        Browser { entries, selected: 0, start: 0 }
    }

    /// Handles a key press as `browse_press` says.
    pub fn press(&mut self, key: Key) -> (r: BrowseChoice)
        requires
            old(self).wf(),
        ensures
            final(self).wf(),
            (final(self)@, r) == browse_press(old(self)@, key),
    {
        match key {
            Key::Up => {
                if self.selected > 0 {
                    self.selected = self.selected - 1;
                }
                BrowseChoice::Pending
            },
            Key::Down => {
                let len = self.entries.len();
                if len > 0 && self.selected < len - 1 {
                    self.selected = self.selected + 1;
                }
                BrowseChoice::Pending
            },
            Key::Enter => {
                if self.entries.len() == 0 {
                    BrowseChoice::Pending
                } else if self.entries[self.selected] == String::from_str(PARENT_ENTRY) {
                    BrowseChoice::Parent
                } else {
                    BrowseChoice::Pick(self.selected)
                }
            },
            Key::Esc => BrowseChoice::Cancel,
            _ => BrowseChoice::Pending,
        }
    }

    /// Scrolls so that the cursor is in view, and gives the entries shown:
    /// from the first index to before the second.
    pub fn window(&mut self) -> (r: (usize, usize))
        requires
            old(self).wf(),
        ensures
            final(self).wf(),
            final(self)@ == (BrowserView { start: window_start(old(self)@), ..old(self)@ }),
            r.0 as int == window_start(old(self)@),
            r.1 as int == if r.0 + BROWSER_ROWS > final(self)@.entries.len() {
                if r.0 > final(self)@.entries.len() {
                    r.0 as int
                } else {
                    final(self)@.entries.len() as int
                }
            } else {
                r.0 + BROWSER_ROWS
            },
            r.0 <= final(self)@.selected < r.0 + BROWSER_ROWS,
    {
        if self.selected < self.start {
            self.start = self.selected;
        } else if self.selected - self.start >= BROWSER_ROWS {
            self.start = self.selected - (BROWSER_ROWS - 1);
        }
        let len = self.entries.len();
        let end = if self.start > len {
            self.start
        } else if len - self.start < BROWSER_ROWS {
            len
        } else {
            self.start + BROWSER_ROWS
        };
        (self.start, end)
    }
}

/// Relies on String::push: the character is appended.
#[verifier::external_body]
fn push_char(s: &mut String, c: char)
    ensures
        final(s)@ == old(s)@.push(c),
{
    s.push(c);
}

/// Relies on String::pop: the last character, if any, is removed.
#[verifier::external_body]
fn pop_char(s: &mut String)
    ensures
        final(s)@ == if old(s)@.len() == 0 {
            old(s)@
        } else {
            old(s)@.drop_last()
        },
{
    s.pop();
}

/// What the address prompt asks for after a key press.
#[derive(Clone, Copy, Debug, PartialEq, Eq, Structural)]
pub enum UrlChoice {
    Pending,
    /// The address is complete.
    Done,
    Cancel,
}

/// The address being typed.
pub struct UrlInput {
    pub text: String,
}

/// A key press at the address prompt.
pub open spec fn url_press(text: Seq<char>, key: Key) -> (Seq<char>, UrlChoice) {
    match key {
        Key::Enter => (text, UrlChoice::Done),
        Key::Char(c) => (text.push(c), UrlChoice::Pending),
        Key::Backspace => (if text.len() == 0 {
            text
        } else {
            text.drop_last()
        }, UrlChoice::Pending),
        Key::Esc => (text, UrlChoice::Cancel),
        _ => (text, UrlChoice::Pending),
    }
}

impl UrlInput {
    pub fn new() -> (r: UrlInput)
        ensures
            r.text@ == Seq::<char>::empty(),
    {
        UrlInput { text: String::new() }
    }

    /// Handles a key press as `url_press` says.
    pub fn press(&mut self, key: Key) -> (r: UrlChoice)
        ensures
            (final(self).text@, r) == url_press(old(self).text@, key),
    {
        match key {
            Key::Enter => UrlChoice::Done,
            Key::Char(c) => {
                push_char(&mut self.text, c);
                UrlChoice::Pending
            },
            Key::Backspace => {
                pop_char(&mut self.text);
                UrlChoice::Pending
            },
            Key::Esc => UrlChoice::Cancel,
            _ => UrlChoice::Pending,
        }
    }
}

} // verus!
