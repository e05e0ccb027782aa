//! Saved reading progress: global settings and one record per document, and
//! the merge that reconciles a session's copy with what is already saved.

use vstd::prelude::*;
use crate::session::DisplayMode;

verus! {

/// A saved place in a document, with a few words of text to recognise it by.
pub struct Bookmark {
    pub position: usize,
    pub preview: String,
}

impl View for Bookmark {
    type V = (usize, Seq<char>);

    open spec fn view(&self) -> (usize, Seq<char>) {
        (self.position, self.preview@)
    }
}

/// The abstract contents of a list of bookmarks.
pub open spec fn marks_view(v: Seq<Bookmark>) -> Seq<(usize, Seq<char>)> {
    v.map_values(|b: Bookmark| b@)
}

impl Bookmark {
    pub fn new(position: usize, preview: String) -> (r: Bookmark)
        ensures
            r@ == (position, preview@),
    {
        Bookmark { position, preview }
    }

    pub fn duplicate(&self) -> (r: Bookmark)
        ensures
            r@ == self@,
    {
        Bookmark { position: self.position, preview: self.preview.clone() }
    }

    /// Structural equality: same position and same preview.
    pub fn same_as(&self, other: &Bookmark) -> (r: bool)
        ensures
            r == (self@ == other@),
    {
        self.position == other.position && self.preview == other.preview
    }
}

/// `acc` followed by each bookmark of `b` that is not already there, in
/// order.
pub open spec fn add_missing(acc: Seq<(usize, Seq<char>)>, b: Seq<(usize, Seq<char>)>) -> Seq<
    (usize, Seq<char>),
>
    decreases b.len(),
{
    if b.len() == 0 {
        acc
    } else {
        let u = add_missing(acc, b.drop_last());
        if u.contains(b.last()) {
            u
        } else {
            u.push(b.last())
        }
    }
}

/// The bookmarks of `a` and then of `b`, each distinct one once, in the
/// order it first appears.
pub open spec fn union_bookmarks(a: Seq<(usize, Seq<char>)>, b: Seq<(usize, Seq<char>)>) -> Seq<
    (usize, Seq<char>),
> {
    add_missing(Seq::empty(), a + b)
}

proof fn lemma_add_missing_contains(acc: Seq<(usize, Seq<char>)>, b: Seq<(usize, Seq<char>)>, x: (usize, Seq<char>))
    ensures
        add_missing(acc, b).contains(x) <==> (acc.contains(x) || b.contains(x)),
    decreases b.len(),
{
    if b.len() > 0 {
        let u = add_missing(acc, b.drop_last());
        lemma_add_missing_contains(acc, b.drop_last(), x);
        if b.drop_last().contains(x) {
            let i = choose|i: int| 0 <= i < b.drop_last().len() && b.drop_last()[i] == x;
            assert(b[i] == x);
        }
        if b.contains(x) && !b.drop_last().contains(x) {
            let i = choose|i: int| 0 <= i < b.len() && b[i] == x;
            if i < b.len() - 1 {
                assert(b.drop_last()[i] == x);
            }
            assert(x == b.last());
        }
        if !u.contains(b.last()) {
            assert(u.push(b.last())[u.len() as int] == b.last());
            if u.contains(x) {
                let i = choose|i: int| 0 <= i < u.len() && u[i] == x;
                assert(u.push(b.last())[i] == x);
            }
            if u.push(b.last()).contains(x) {
                let i = choose|i: int| 0 <= i < u.len() + 1 && u.push(b.last())[i] == x;
                if i < u.len() {
                    assert(u[i] == x);
                }
            }
        }
    }
}

proof fn lemma_add_missing_distinct(acc: Seq<(usize, Seq<char>)>, b: Seq<(usize, Seq<char>)>)
    requires
        acc.no_duplicates(),
    ensures
        add_missing(acc, b).no_duplicates(),
    decreases b.len(),
{
    if b.len() > 0 {
        lemma_add_missing_distinct(acc, b.drop_last());
        let u = add_missing(acc, b.drop_last());
        if !u.contains(b.last()) {
            let v = u.push(b.last());
            assert forall|i: int, j: int| 0 <= i < v.len() && 0 <= j < v.len() && i != j implies v[i] != v[j] by {
                if i < u.len() && j < u.len() {
                    assert(v[i] == u[i] && v[j] == u[j]);
                } else if i < u.len() {
                    assert(v[i] == u[i]);
                } else {
                    assert(v[j] == u[j]);
                }
            }
        }
    }
}

proof fn lemma_add_missing_concat(acc: Seq<(usize, Seq<char>)>, a: Seq<(usize, Seq<char>)>, b: Seq<(usize, Seq<char>)>)
    ensures
        add_missing(add_missing(acc, a), b) == add_missing(acc, a + b),
    decreases b.len(),
{
    if b.len() == 0 {
        assert(a + b =~= a);
    } else {
        lemma_add_missing_concat(acc, a, b.drop_last());
        assert((a + b).drop_last() =~= a + b.drop_last());
        assert((a + b).last() == b.last());
    }
}

/// A list without repeats gains nothing from being added to nothing.
proof fn lemma_add_missing_keeps_distinct(s: Seq<(usize, Seq<char>)>)
    requires
        s.no_duplicates(),
    ensures
        add_missing(Seq::empty(), s) == s,
    decreases s.len(),
{
    if s.len() > 0 {
        let d = s.drop_last();
        assert(d.no_duplicates());
        lemma_add_missing_keeps_distinct(d);
        if d.contains(s.last()) {
            let i = choose|i: int| 0 <= i < d.len() && d[i] == s.last();
            assert(s[i] == s[s.len() - 1]);
        }
        assert(d.push(s.last()) =~= s);
    }
}

/// A bookmark is in the union exactly when it is in one of the two lists,
/// and the union holds no bookmark twice.
pub proof fn lemma_union_contains(a: Seq<(usize, Seq<char>)>, b: Seq<(usize, Seq<char>)>, x: (usize, Seq<char>))
    ensures
        union_bookmarks(a, b).contains(x) <==> (a.contains(x) || b.contains(x)),
        union_bookmarks(a, b).no_duplicates(),
{
    let e = Seq::<(usize, Seq<char>)>::empty();
    lemma_add_missing_contains(e, a + b, x);
    lemma_add_missing_distinct(e, a + b);
    if a.contains(x) {
        let i = choose|i: int| 0 <= i < a.len() && a[i] == x;
        assert((a + b)[i] == x);
    }
    if b.contains(x) {
        let i = choose|i: int| 0 <= i < b.len() && b[i] == x;
        assert((a + b)[a.len() + i] == x);
    }
    if (a + b).contains(x) {
        let i = choose|i: int| 0 <= i < (a + b).len() && (a + b)[i] == x;
        if i < a.len() {
            assert(a[i] == x);
        } else {
            assert(b[i - a.len()] == x);
        }
    }
}

fn contains_bookmark(v: &Vec<Bookmark>, b: &Bookmark) -> (r: bool)
    ensures
        r == marks_view(v@).contains(b@),
{
    let mut i: usize = 0;
    while i < v.len()
        invariant
            i <= v@.len(),
            forall|j: int| 0 <= j < i ==> v@[j]@ != b@,
        decreases v@.len() - i,
    {
        if v[i].same_as(b) {
            assert(marks_view(v@)[i as int] == b@);
            return true;
        }
        i = i + 1;
    }
    assert forall|j: int| 0 <= j < marks_view(v@).len() implies marks_view(v@)[j] != b@ by {}
    false
}

/// A copy of a list of bookmarks.
pub fn copy_bookmarks(v: &Vec<Bookmark>) -> (r: Vec<Bookmark>)
    ensures
        marks_view(r@) == marks_view(v@),
{
    let mut r: Vec<Bookmark> = Vec::new();
    let mut i: usize = 0;
    while i < v.len()
        invariant
            i <= v@.len(),
            marks_view(r@) == marks_view(v@.take(i as int)),
        decreases v@.len() - i,
    {
        let ghost before = marks_view(r@);
        r.push(v[i].duplicate());
        assert(marks_view(r@) =~= before.push(v@[i as int]@));
        assert(marks_view(v@.take(i + 1)) =~= marks_view(v@.take(i as int)).push(v@[i as int]@));
        i = i + 1;
    }
    assert(v@.take(v@.len() as int) == v@);
    r
}

fn add_missing_bookmarks(r: &mut Vec<Bookmark>, b: &Vec<Bookmark>)
    ensures
        marks_view(final(r)@) == add_missing(marks_view(old(r)@), marks_view(b@)),
{
    let ghost start = marks_view(r@);
    let mut i: usize = 0;
    while i < b.len()
        invariant
            i <= b@.len(),
            marks_view(r@) == add_missing(start, marks_view(b@.take(i as int))),
        decreases b@.len() - i,
    {
        let ghost before = marks_view(r@);
        assert(marks_view(b@.take(i + 1)).drop_last() =~= marks_view(b@.take(i as int)));
        assert(marks_view(b@.take(i + 1)).last() == b@[i as int]@);
        if !contains_bookmark(r, &b[i]) {
            r.push(b[i].duplicate());
            assert(marks_view(r@) =~= before.push(b@[i as int]@));
        }
        i = i + 1;
    }
    assert(b@.take(b@.len() as int) == b@);
}

/// The bookmarks of `a` and then of `b`, each distinct one once.
pub fn union_bookmark_lists(a: &Vec<Bookmark>, b: &Vec<Bookmark>) -> (r: Vec<Bookmark>)
    ensures
        marks_view(r@) == union_bookmarks(marks_view(a@), marks_view(b@)),
        marks_view(r@).no_duplicates(),
{
    let mut r: Vec<Bookmark> = Vec::new();
    assert(marks_view(r@) =~= Seq::<(usize, Seq<char>)>::empty());
    add_missing_bookmarks(&mut r, a);
    add_missing_bookmarks(&mut r, b);
    proof {
        lemma_add_missing_concat(Seq::empty(), marks_view(a@), marks_view(b@));
        lemma_union_contains(marks_view(a@), marks_view(b@), (0, Seq::empty()));
    }
    r
}

/// Settings shared by every document.
#[derive(Clone, Copy, Debug, PartialEq, Eq, Structural)]
pub struct GlobalSettings {
    pub speed: u64,
    pub chunk_size: usize,
    pub max_saved_books: u64,
    pub max_bookmarks_per_book: u64,
}

pub const DEFAULT_SPEED: u64 = 300;

pub const DEFAULT_CHUNK_SIZE: usize = 1;

pub const DEFAULT_CAP: u64 = 10;

/// A stored speed, or `default` when none is stored; never zero.
pub open spec fn speed_or(stored: Option<u64>, default: u64) -> u64 {
    match stored {
        Some(v) => if v == 0 {
            1
        } else {
            v
        },
        None => if default == 0 {
            1
        } else {
            default
        },
    }
}

/// A stored chunk size, or `default` when none is stored; never zero.
pub open spec fn chunk_or(stored: Option<usize>, default: usize) -> usize {
    match stored {
        Some(v) => if v == 0 {
            1
        } else {
            v
        },
        None => if default == 0 {
            1
        } else {
            default
        },
    }
}

fn pick_speed(stored: Option<u64>, default: u64) -> (r: u64)
    ensures
        r == speed_or(stored, default),
{
    let v = match stored {
        Some(v) => v,
        None => default,
    };
    if v == 0 {
        1
    } else {
        v
    }
}

fn pick_chunk(stored: Option<usize>, default: usize) -> (r: usize)
    ensures
        r == chunk_or(stored, default),
{
    let v = match stored {
        Some(v) => v,
        None => default,
    };
    if v == 0 {
        1
    } else {
        v
    }
}

impl GlobalSettings {
    pub open spec fn wf(&self) -> bool {
        self.speed >= 1 && self.chunk_size >= 1
    }

    /// Settings decoded from saved fields, each absent one at its default.
    pub fn with_defaults(
        speed: Option<u64>,
        chunk_size: Option<usize>,
        max_saved_books: Option<u64>,
        max_bookmarks_per_book: Option<u64>,
    ) -> (r: GlobalSettings)
        ensures
            r.speed == speed_or(speed, DEFAULT_SPEED),
            r.chunk_size == chunk_or(chunk_size, DEFAULT_CHUNK_SIZE),
            r.max_saved_books == match max_saved_books {
                Some(v) => v,
                None => DEFAULT_CAP,
            },
            r.max_bookmarks_per_book == match max_bookmarks_per_book {
                Some(v) => v,
                None => DEFAULT_CAP,
            },
            r.wf(),
    {
        GlobalSettings {
            speed: pick_speed(speed, DEFAULT_SPEED),
            chunk_size: pick_chunk(chunk_size, DEFAULT_CHUNK_SIZE),
            max_saved_books: match max_saved_books {
                Some(v) => v,
                None => DEFAULT_CAP,
            },
            max_bookmarks_per_book: match max_bookmarks_per_book {
                Some(v) => v,
                None => DEFAULT_CAP,
            },
        }
    }
}

impl Default for GlobalSettings {
    fn default() -> (r: GlobalSettings)
        ensures
            r.speed == DEFAULT_SPEED,
            r.chunk_size == DEFAULT_CHUNK_SIZE,
            r.max_saved_books == DEFAULT_CAP,
            r.max_bookmarks_per_book == DEFAULT_CAP,
    {
        GlobalSettings {
            speed: DEFAULT_SPEED,
            chunk_size: DEFAULT_CHUNK_SIZE,
            max_saved_books: DEFAULT_CAP,
            max_bookmarks_per_book: DEFAULT_CAP,
        }
    }
}

/// What is saved of one document.
pub struct BookRecord {
    pub bookmarks: Vec<Bookmark>,
    pub speed: u64,
    pub chunk_size: usize,
    pub last_position: usize,
    pub display_mode: DisplayMode,
}

pub struct RecordView {
    pub bookmarks: Seq<(usize, Seq<char>)>,
    pub speed: u64,
    pub chunk_size: usize,
    pub last_position: usize,
    pub display_mode: DisplayMode,
}

impl View for BookRecord {
    type V = RecordView;

    open spec fn view(&self) -> RecordView {
        RecordView {
            bookmarks: marks_view(self.bookmarks@),
            speed: self.speed,
            chunk_size: self.chunk_size,
            last_position: self.last_position,
            display_mode: self.display_mode,
        }
    }
}

/// The record a document gets before anything was saved for it.
pub open spec fn fresh_record(speed: u64, chunk_size: usize) -> RecordView {
    RecordView {
        bookmarks: Seq::empty(),
        speed,
        chunk_size,
        last_position: 0,
        display_mode: DisplayMode::WordChunk(chunk_size),
    }
}

impl BookRecord {
    pub fn duplicate(&self) -> (r: BookRecord)
        ensures
            r@ == self@,
    {
        BookRecord {
            bookmarks: copy_bookmarks(&self.bookmarks),
            speed: self.speed,
            chunk_size: self.chunk_size,
            last_position: self.last_position,
            display_mode: self.display_mode,
        }
    }

    pub fn fresh(speed: u64, chunk_size: usize) -> (r: BookRecord)
        ensures
            r@ == fresh_record(speed, chunk_size),
    {
        let r = BookRecord {
            bookmarks: Vec::new(),
            speed,
            chunk_size,
            last_position: 0,
            display_mode: DisplayMode::WordChunk(chunk_size),
        };
        assert(r@.bookmarks =~= Seq::<(usize, Seq<char>)>::empty());
        r
    }

    /// A record decoded from saved fields; absent ones take the global
    /// settings, no bookmarks, the start of the text and word chunks.
    pub fn with_defaults(
        bookmarks: Option<Vec<Bookmark>>,
        speed: Option<u64>,
        chunk_size: Option<usize>,
        last_position: Option<usize>,
        sentence_mode: Option<bool>,
        global: &GlobalSettings,
    ) -> (r: BookRecord)
        ensures
            r@.bookmarks == match bookmarks {
                Some(v) => marks_view(v@),
                None => Seq::empty(),
            },
            r.speed == speed_or(speed, global.speed),
            r.chunk_size == chunk_or(chunk_size, global.chunk_size),
            r.last_position == match last_position {
                Some(p) => p,
                None => 0,
            },
            r.display_mode == if sentence_mode == Some(true) {
                DisplayMode::Sentence
            } else {
                DisplayMode::WordChunk(r.chunk_size)
            },
    {
        let chunk = pick_chunk(chunk_size, global.chunk_size);
        let marks = match bookmarks {
            Some(v) => v,
            None => Vec::new(),
        };
        let mode = match sentence_mode {
            Some(true) => DisplayMode::Sentence,
            _ => DisplayMode::WordChunk(chunk),
        };
        let r = BookRecord {
            bookmarks: marks,
            speed: pick_speed(speed, global.speed),
            chunk_size: chunk,
            last_position: match last_position {
                Some(p) => p,
                None => 0,
            },
            display_mode: mode,
        };
        assert(bookmarks is None ==> r@.bookmarks =~= Seq::<(usize, Seq<char>)>::empty());
        r
    }
}

/// One document's record under its key.
pub struct BookEntry {
    pub key: String,
    pub record: BookRecord,
}

/// Everything that is saved: the global settings and the documents' records,
/// at most one per key, in the order they were first saved.
pub struct Store {
    pub global: GlobalSettings,
    pub books: Vec<BookEntry>,
}

pub struct StoreView {
    pub global: GlobalSettings,
    pub books: Seq<(Seq<char>, RecordView)>,
}

pub open spec fn books_view(v: Seq<BookEntry>) -> Seq<(Seq<char>, RecordView)> {
    v.map_values(|e: BookEntry| (e.key@, e.record@))
}

impl View for Store {
    type V = StoreView;

    open spec fn view(&self) -> StoreView {
        StoreView { global: self.global, books: books_view(self.books@) }
    }
}

pub open spec fn keys_unique(b: Seq<(Seq<char>, RecordView)>) -> bool {
    forall|i: int, j: int| 0 <= i < j < b.len() ==> #[trigger] b[i].0 != #[trigger] b[j].0
}

pub open spec fn has_key(b: Seq<(Seq<char>, RecordView)>, k: Seq<char>) -> bool {
    exists|i: int| 0 <= i < b.len() && #[trigger] b[i].0 == k
}

/// Where key `k` stands (meaningful when it is there).
pub open spec fn index_of(b: Seq<(Seq<char>, RecordView)>, k: Seq<char>) -> int {
    choose|i: int| 0 <= i < b.len() && #[trigger] b[i].0 == k
}

/// The record saved under `k` (meaningful when it is there).
pub open spec fn record_of(b: Seq<(Seq<char>, RecordView)>, k: Seq<char>) -> RecordView {
    b[index_of(b, k)].1
}

/// With unique keys, an entry that holds `k` is the one `index_of` names.
pub proof fn lemma_index_of(b: Seq<(Seq<char>, RecordView)>, i: int)
    requires
        keys_unique(b),
        0 <= i < b.len(),
    ensures
        has_key(b, b[i].0),
        index_of(b, b[i].0) == i,
        record_of(b, b[i].0) == b[i].1,
{
    assert(b[i].0 == b[i].0);
    let j = index_of(b, b[i].0);
    if j != i {
        if j < i {
            assert(b[j].0 != b[i].0);
        } else {
            assert(b[i].0 != b[j].0);
        }
    }
}

/// The books with `k` saved as `r`: replaced where `k` is, else added last.
pub open spec fn upsert(b: Seq<(Seq<char>, RecordView)>, k: Seq<char>, r: RecordView) -> Seq<
    (Seq<char>, RecordView),
> {
    if has_key(b, k) {
        b.update(index_of(b, k), (k, r))
    } else {
        b.push((k, r))
    }
}

/// The books with bookmark `m` added to the record of `k`; a document with no
/// record yet gets a fresh one at `speed` and `chunk_size`.
pub open spec fn with_bookmark(
    b: Seq<(Seq<char>, RecordView)>,
    k: Seq<char>,
    m: (usize, Seq<char>),
    speed: u64,
    chunk_size: usize,
) -> Seq<(Seq<char>, RecordView)> {
    if has_key(b, k) {
        let r = record_of(b, k);
        upsert(b, k, RecordView { bookmarks: r.bookmarks.push(m), ..r })
    } else {
        b.push((k, RecordView { bookmarks: seq![m], ..fresh_record(speed, chunk_size) }))
    }
}

impl Store {
    pub open spec fn wf(&self) -> bool {
        keys_unique(self@.books)
    }

    /// A store with no document records.
    pub fn new(global: GlobalSettings) -> (r: Store)
        ensures
            r@.global == global,
            r@.books == Seq::<(Seq<char>, RecordView)>::empty(),
            r.wf(),
    {
        let r = Store { global, books: Vec::new() };
        assert(r@.books =~= Seq::<(Seq<char>, RecordView)>::empty());
        r
    }

    /// Where the record of `key` stands, if there is one.
    pub fn find(&self, key: &String) -> (r: Option<usize>)
        requires
            self.wf(),
        ensures
            match r {
                Some(i) => i < self@.books.len() && self@.books[i as int].0 == key@ && index_of(
                    self@.books,
                    key@,
                ) == i,
                None => !has_key(self@.books, key@),
            },
    {
        let mut i: usize = 0;
        while i < self.books.len()
            invariant
                self.wf(),
                i <= self.books@.len(),
                forall|j: int| 0 <= j < i ==> self@.books[j].0 != key@,
            decreases self.books@.len() - i,
        {
            if self.books[i].key == *key {
                proof {
                    lemma_index_of(self@.books, i as int);
                }
                return Some(i);
            }
            i = i + 1;
        }
        None
    }

    /// The record of `key`, or a fresh one from the global settings.
    pub fn record_or_default(&self, key: &String) -> (r: BookRecord)
        requires
            self.wf(),
        ensures
            r@ == if has_key(self@.books, key@) {
                record_of(self@.books, key@)
            } else {
                fresh_record(self.global.speed, self.global.chunk_size)
            },
    {
        match self.find(key) {
            Some(i) => self.books[i].record.duplicate(),
            None => BookRecord::fresh(self.global.speed, self.global.chunk_size),
        }
    }

    /// Saves `record` under `key`, replacing what was there.
    pub fn set_record(&mut self, key: String, record: BookRecord)
        requires
            old(self).wf(),
        ensures
            final(self).wf(),
            final(self)@.global == old(self)@.global,
            final(self)@.books == upsert(old(self)@.books, key@, record@),
    {
        let ghost b = self@.books;
        let ghost k = key@;
        let ghost r = record@;
        match self.find(&key) {
            Some(i) => {
                self.books.set(i, BookEntry { key, record });
                assert(self@.books =~= b.update(i as int, (k, r)));
                assert forall|x: int, y: int| 0 <= x < y < self@.books.len() implies #[trigger] self@.books[x].0
                    != #[trigger] self@.books[y].0 by {
                    assert(b[x].0 != b[y].0);
                }
            },
            None => {
                self.books.push(BookEntry { key, record });
                assert(self@.books =~= b.push((k, r)));
                assert forall|x: int, y: int| 0 <= x < y < self@.books.len() implies #[trigger] self@.books[x].0
                    != #[trigger] self@.books[y].0 by {
                    if y < b.len() {
                        assert(b[x].0 != b[y].0);
                    } else {
                        assert(b[x].0 == self@.books[x].0);
                    }
                }
            },
        }
    }

    /// Adds `bookmark` to the record of `key`, creating the record (at
    /// `speed` and `chunk_size`) when the document has none yet.
    pub fn add_bookmark(&mut self, key: &String, bookmark: Bookmark, speed: u64, chunk_size: usize)
        requires
            old(self).wf(),
        ensures
            final(self).wf(),
            final(self)@.global == old(self)@.global,
            final(self)@.books == with_bookmark(old(self)@.books, key@, bookmark@, speed, chunk_size),
    {
        let ghost m = bookmark@;
        let mut record = match self.find(key) {
            Some(i) => self.books[i].record.duplicate(),
            None => BookRecord::fresh(speed, chunk_size),
        };
        let ghost before = record@;
        record.bookmarks.push(bookmark);
        assert(record@.bookmarks =~= before.bookmarks.push(m));
        let ghost b = self@.books;
        self.set_record(key.clone(), record);
        proof {
            if !has_key(b, key@) {
                assert(seq![m] =~= Seq::<(usize, Seq<char>)>::empty().push(m));
            }
        }
    }
}

/// The bookmarks on disk for key `k`, none when disk has no record of it.
pub open spec fn disk_bookmarks(disk: Seq<(Seq<char>, RecordView)>, k: Seq<char>) -> Seq<(usize, Seq<char>)> {
    if has_key(disk, k) {
        record_of(disk, k).bookmarks
    } else {
        Seq::empty()
    }
}

/// A session's record reconciled with what is on disk for the same key: its
/// bookmarks and then those on disk, each distinct one once.
pub open spec fn merged_record(r: RecordView, disk: Seq<(Seq<char>, RecordView)>, k: Seq<char>) -> RecordView {
    RecordView { bookmarks: union_bookmarks(r.bookmarks, disk_bookmarks(disk, k)), ..r }
}

/// The session's records, each reconciled with disk.
pub open spec fn merge_memory(mem: Seq<(Seq<char>, RecordView)>, disk: Seq<(Seq<char>, RecordView)>) -> Seq<
    (Seq<char>, RecordView),
> {
    mem.map_values(|e: (Seq<char>, RecordView)| (e.0, merged_record(e.1, disk, e.0)))
}

/// The records on disk whose key the session does not hold, in disk order.
pub open spec fn disk_only(mem: Seq<(Seq<char>, RecordView)>, disk: Seq<(Seq<char>, RecordView)>) -> Seq<
    (Seq<char>, RecordView),
>
    decreases disk.len(),
{
    if disk.len() == 0 {
        Seq::empty()
    } else {
        let rest = disk_only(mem, disk.drop_last());
        if has_key(mem, disk.last().0) {
            rest
        } else {
            rest.push(disk.last())
        }
    }
}

/// The session's reconciled records, then the records only disk holds.
pub open spec fn merge_books(mem: Seq<(Seq<char>, RecordView)>, disk: Seq<(Seq<char>, RecordView)>) -> Seq<
    (Seq<char>, RecordView),
> {
    merge_memory(mem, disk) + disk_only(mem, disk)
}

/// The last `n` items of `s`, or all of them when there are no more.
pub open spec fn keep_last<T>(s: Seq<T>, n: int) -> Seq<T> {
    if s.len() <= n {
        s
    } else {
        s.subrange(s.len() - n, s.len() as int)
    }
}

/// An entry whose record keeps at most its `c` newest bookmarks.
pub open spec fn cap_entry(e: (Seq<char>, RecordView), c: u64) -> (Seq<char>, RecordView) {
    (e.0, RecordView { bookmarks: keep_last(e.1.bookmarks, c as int), ..e.1 })
}

/// Each record keeps at most its `cap` newest bookmarks, when a cap is given.
pub open spec fn cap_bookmarks(b: Seq<(Seq<char>, RecordView)>, cap: Option<u64>) -> Seq<(Seq<char>, RecordView)> {
    match cap {
        Some(c) => b.map_values(|e: (Seq<char>, RecordView)| cap_entry(e, c)),
        None => b,
    }
}

/// At most `cap` records are kept, the newest, when a cap is given.
pub open spec fn cap_books(b: Seq<(Seq<char>, RecordView)>, cap: Option<u64>) -> Seq<(Seq<char>, RecordView)> {
    match cap {
        Some(n) => keep_last(b, n as int),
        None => b,
    }
}

/// The global settings that are written: the session's speed and chunk size;
/// each cap as requested, else as already stored, else as the session has it.
pub open spec fn saved_global(
    mem: GlobalSettings,
    disk: Option<GlobalSettings>,
    max_saved_books: Option<u64>,
    max_bookmarks_per_book: Option<u64>,
) -> GlobalSettings {
    let base = match disk {
        Some(d) => d,
        None => mem,
    };
    GlobalSettings {
        max_saved_books: match max_saved_books {
            Some(n) => n,
            None => base.max_saved_books,
        },
        max_bookmarks_per_book: match max_bookmarks_per_book {
            Some(n) => n,
            None => base.max_bookmarks_per_book,
        },
        ..mem
    }
}

/// What a save writes, given the session's store and the store now on disk.
pub open spec fn saved_store(
    mem: StoreView,
    disk: Option<StoreView>,
    max_saved_books: Option<u64>,
    max_bookmarks_per_book: Option<u64>,
) -> StoreView {
    let disk_books = match disk {
        Some(d) => d.books,
        None => Seq::empty(),
    };
    StoreView {
        global: saved_global(
            mem.global,
            match disk {
                Some(d) => Some(d.global),
                None => None,
            },
            max_saved_books,
            max_bookmarks_per_book,
        ),
        books: cap_books(
            cap_bookmarks(merge_books(mem.books, disk_books), max_bookmarks_per_book),
            max_saved_books,
        ),
    }
}

proof fn lemma_drop_last_unique(d: Seq<(Seq<char>, RecordView)>)
    requires
        keys_unique(d),
        d.len() > 0,
    ensures
        keys_unique(d.drop_last()),
{
    assert forall|i: int, j: int| 0 <= i < j < d.drop_last().len() implies #[trigger] d.drop_last()[i].0
        != #[trigger] d.drop_last()[j].0 by {
        assert(d[i].0 != d[j].0);
    }
}

proof fn lemma_disk_only_facts(m: Seq<(Seq<char>, RecordView)>, d: Seq<(Seq<char>, RecordView)>)
    requires
        keys_unique(d),
    ensures
        keys_unique(disk_only(m, d)),
        forall|i: int|
            0 <= i < disk_only(m, d).len() ==> !has_key(m, #[trigger] disk_only(m, d)[i].0) && has_key(
                d,
                disk_only(m, d)[i].0,
            ),
    decreases d.len(),
{
    if d.len() > 0 {
        let dl = d.drop_last();
        lemma_drop_last_unique(d);
        lemma_disk_only_facts(m, dl);
        let rest = disk_only(m, dl);
        let last = d.last();
        assert forall|i: int| 0 <= i < rest.len() implies #[trigger] rest[i].0 != last.0 && has_key(
            d,
            rest[i].0,
        ) by {
            let j = choose|j: int| 0 <= j < dl.len() && #[trigger] dl[j].0 == rest[i].0;
            assert(d[j].0 == rest[i].0);
            assert(d[j].0 != d[d.len() - 1].0);
        }
        assert(d[d.len() - 1].0 == last.0);
        if !has_key(m, last.0) {
            let out = rest.push(last);
            assert(out == disk_only(m, d));
            assert forall|i: int, j: int| 0 <= i < j < out.len() implies #[trigger] out[i].0
                != #[trigger] out[j].0 by {
                if j < rest.len() {
                    assert(rest[i].0 != rest[j].0);
                } else {
                    assert(out[i] == rest[i]);
                }
            }
            assert forall|i: int| 0 <= i < out.len() implies !has_key(m, #[trigger] out[i].0) && has_key(
                d,
                out[i].0,
            ) by {
                if i < rest.len() {
                    assert(out[i] == rest[i]);
                }
            }
        }
    }
}

/// Merging two stores whose keys are unique gives a store whose keys are.
proof fn lemma_merge_unique(m: Seq<(Seq<char>, RecordView)>, d: Seq<(Seq<char>, RecordView)>)
    requires
        keys_unique(m),
        keys_unique(d),
    ensures
        keys_unique(merge_books(m, d)),
{
    lemma_disk_only_facts(m, d);
    let a = merge_memory(m, d);
    let o = disk_only(m, d);
    let r = merge_books(m, d);
    assert forall|i: int, j: int| 0 <= i < j < r.len() implies #[trigger] r[i].0 != #[trigger] r[j].0 by {
        if j < a.len() {
            assert(m[i].0 != m[j].0);
        } else if i < a.len() {
            assert(r[i].0 == m[i].0);
            assert(r[j] == o[j - a.len()]);
            if r[i].0 == r[j].0 {
                assert(has_key(m, o[j - a.len()].0));
            }
        } else {
            assert(r[i] == o[i - a.len()]);
            assert(r[j] == o[j - a.len()]);
        }
    }
}

proof fn lemma_caps_unique(b: Seq<(Seq<char>, RecordView)>, max_books: Option<u64>, max_marks: Option<u64>)
    requires
        keys_unique(b),
    ensures
        keys_unique(cap_books(cap_bookmarks(b, max_marks), max_books)),
{
    let c = cap_bookmarks(b, max_marks);
    assert forall|i: int, j: int| 0 <= i < j < c.len() implies #[trigger] c[i].0 != #[trigger] c[j].0 by {
        assert(c[i].0 == b[i].0 && c[j].0 == b[j].0);
    }
    let r = cap_books(c, max_books);
    if r.len() < c.len() {
        assert forall|i: int, j: int| 0 <= i < j < r.len() implies #[trigger] r[i].0 != #[trigger] r[j].0 by {
            let off = c.len() - r.len();
            assert(r[i] == c[i + off] && r[j] == c[j + off]);
        }
    }
}

proof fn lemma_keep_last_distinct(s: Seq<(usize, Seq<char>)>, n: int)
    requires
        s.no_duplicates(),
        n >= 0,
    ensures
        keep_last(s, n).no_duplicates(),
{
    if s.len() > n {
        let t = keep_last(s, n);
        let off = s.len() - n;
        assert forall|i: int, j: int| 0 <= i < t.len() && 0 <= j < t.len() && i != j implies t[i] != t[j] by {
            assert(t[i] == s[i + off] && t[j] == s[j + off]);
        }
    }
}

/// After the merge and the caps, every record of the session holds each
/// bookmark at most once.
proof fn lemma_saved_session_records_distinct(
    m: Seq<(Seq<char>, RecordView)>,
    d: Seq<(Seq<char>, RecordView)>,
    max_books: Option<u64>,
    max_marks: Option<u64>,
)
    requires
        keys_unique(d),
    ensures
        forall|i: int|
            0 <= i < cap_books(cap_bookmarks(merge_books(m, d), max_marks), max_books).len() && has_key(
                m,
                #[trigger] cap_books(cap_bookmarks(merge_books(m, d), max_marks), max_books)[i].0,
            ) ==> cap_books(cap_bookmarks(merge_books(m, d), max_marks), max_books)[i].1.bookmarks.no_duplicates(),
{
    lemma_disk_only_facts(m, d);
    let g = merge_books(m, d);
    let c = cap_bookmarks(g, max_marks);
    let r = cap_books(c, max_books);
    assert forall|j: int| 0 <= j < g.len() && has_key(m, #[trigger] g[j].0) implies c[j].1.bookmarks.no_duplicates() by {
        if j < m.len() {
            lemma_union_contains(m[j].1.bookmarks, disk_bookmarks(d, m[j].0), (0, Seq::empty()));
        } else {
            assert(g[j] == disk_only(m, d)[j - m.len()]);
        }
        if let Some(cap) = max_marks {
            lemma_keep_last_distinct(g[j].1.bookmarks, cap as int);
        }
    }
    assert forall|i: int| 0 <= i < r.len() && has_key(m, #[trigger] r[i].0) implies r[i].1.bookmarks.no_duplicates() by {
        let off = c.len() - r.len();
        assert(r[i] == c[i + off]);
        assert(c[i + off].0 == g[i + off].0);
    }
}

fn keep_last_bookmarks(v: Vec<Bookmark>, n: u64) -> (r: Vec<Bookmark>)
    ensures
        marks_view(r@) == keep_last(marks_view(v@), n as int),
{
    let len = v.len();
    if len as u64 <= n {
        v
    } else {
        let ghost before = v@;
        let mut v = v;
        let tail = v.split_off(len - n as usize);
        assert(marks_view(tail@) =~= keep_last(marks_view(before), n as int));
        tail
    }
}

fn merge_memory_books(mem: &Store, disk: &Store) -> (r: Vec<BookEntry>)
    requires
        mem.wf(),
        disk.wf(),
    ensures
        books_view(r@) == merge_memory(mem@.books, disk@.books),
{
    let ghost m = mem@.books;
    let ghost d = disk@.books;
    let mut r: Vec<BookEntry> = Vec::new();
    let mut i: usize = 0;
    while i < mem.books.len()
        invariant
            mem.wf(),
            disk.wf(),
            m == mem@.books,
            d == disk@.books,
            i <= m.len(),
            r@.len() == i,
            forall|j: int| 0 <= j < i ==> #[trigger] books_view(r@)[j] == (m[j].0, merged_record(m[j].1, d, m[j].0)),
        decreases m.len() - i,
    {
        let e = &mem.books[i];
        let record = match disk.find(&e.key) {
            Some(j) => {
                let mut rec = e.record.duplicate();
                rec.bookmarks = union_bookmark_lists(&e.record.bookmarks, &disk.books[j].record.bookmarks);
                assert(rec@ == merged_record(m[i as int].1, d, m[i as int].0));
                rec
            },
            None => {
                let mut rec = e.record.duplicate();
                let none: Vec<Bookmark> = Vec::new();
                rec.bookmarks = union_bookmark_lists(&e.record.bookmarks, &none);
                assert(marks_view(none@) =~= Seq::<(usize, Seq<char>)>::empty());
                rec
            },
        };
        assert(m[i as int] == (e.key@, e.record@));
        assert(record@ == merged_record(m[i as int].1, d, m[i as int].0));
        let ghost before = books_view(r@);
        let key = e.key.clone();
        let ghost item = (key@, record@);
        r.push(BookEntry { key, record });
        assert(books_view(r@) =~= before.push(item));
        assert forall|j: int| 0 <= j < i + 1 implies #[trigger] books_view(r@)[j] == (m[j].0, merged_record(m[j].1, d, m[j].0)) by {
            if j < i {
                assert(books_view(r@)[j] == before[j]);
            }
        }
        i = i + 1;
    }
    assert(books_view(r@) =~= merge_memory(m, d));
    r
}

fn disk_only_books(mem: &Store, disk: &Store) -> (r: Vec<BookEntry>)
    requires
        mem.wf(),
    ensures
        books_view(r@) == disk_only(mem@.books, disk@.books),
{
    let ghost m = mem@.books;
    let ghost d = disk@.books;
    let mut r: Vec<BookEntry> = Vec::new();
    let mut j: usize = 0;
    while j < disk.books.len()
        invariant
            mem.wf(),
            m == mem@.books,
            d == disk@.books,
            j <= d.len(),
            books_view(r@) == disk_only(m, d.take(j as int)),
        decreases d.len() - j,
    {
        let ghost before = books_view(r@);
        assert(d.take(j + 1).drop_last() =~= d.take(j as int));
        assert(d.take(j + 1).last() == d[j as int]);
        let e = &disk.books[j];
        match mem.find(&e.key) {
            Some(_) => {},
            None => {
                r.push(BookEntry { key: e.key.clone(), record: e.record.duplicate() });
                assert(books_view(r@) =~= before.push(d[j as int]));
            },
        }
        j = j + 1;
    }
    assert(d.take(d.len() as int) =~= d);
    r
}

fn cap_bookmark_lists(books: Vec<BookEntry>, cap: Option<u64>) -> (r: Vec<BookEntry>)
    ensures
        books_view(r@) == cap_bookmarks(books_view(books@), cap),
{
    match cap {
        None => books,
        Some(c) => {
            let ghost b = books_view(books@);
            let mut r: Vec<BookEntry> = Vec::new();
            let mut i: usize = 0;
            while i < books.len()
                invariant
                    cap == Some(c),
                    b == books_view(books@),
                    i <= b.len(),
                    r@.len() == i,
                    forall|j: int| 0 <= j < i ==> #[trigger] books_view(r@)[j] == cap_bookmarks(b, cap)[j],
                decreases b.len() - i,
            {
                let e = &books[i];
                let mut rec = e.record.duplicate();
                rec.bookmarks = keep_last_bookmarks(copy_bookmarks(&e.record.bookmarks), c);
                assert(b[i as int] == (e.key@, e.record@));
                assert(rec@.bookmarks == keep_last(b[i as int].1.bookmarks, c as int));
                assert(cap_bookmarks(b, cap)[i as int] == cap_entry(b[i as int], c));
                assert(rec@ == cap_bookmarks(b, cap)[i as int].1);
                let ghost before = books_view(r@);
                let key = e.key.clone();
                let ghost item = (key@, rec@);
                r.push(BookEntry { key, record: rec });
                assert(books_view(r@) =~= before.push(item));
                assert forall|j: int| 0 <= j < i + 1 implies #[trigger] books_view(r@)[j] == cap_bookmarks(b, cap)[j] by {
                    if j < i {
                        assert(books_view(r@)[j] == before[j]);
                    }
                }
                i = i + 1;
            }
            assert(books_view(r@) =~= cap_bookmarks(b, cap));
            r
        },
    }
}

fn cap_book_list(books: Vec<BookEntry>, cap: Option<u64>) -> (r: Vec<BookEntry>)
    ensures
        books_view(r@) == cap_books(books_view(books@), cap),
{
    match cap {
        None => books,
        Some(n) => {
            let len = books.len();
            if len as u64 <= n {
                books
            } else {
                let ghost before = books@;
                let mut books = books;
                let tail = books.split_off(len - n as usize);
                assert(books_view(tail@) =~= keep_last(books_view(before), n as int));
                tail
            }
        },
    }
}

/// The store that a save writes: the session's records reconciled with the
/// store read from disk just before (`None` when there is none), records only
/// disk holds kept as they are, and the caps applied where they are given.
pub fn merge_for_save(
    memory: &Store,
    disk: Option<&Store>,
    max_saved_books: Option<u64>,
    max_bookmarks_per_book: Option<u64>,
) -> (r: Store)
    requires
        memory.wf(),
        match disk {
            Some(d) => d.wf(),
            None => true,
        },
    ensures
        r.wf(),
        r@ == saved_store(
            memory@,
            match disk {
                Some(d) => Some(d@),
                None => None,
            },
            max_saved_books,
            max_bookmarks_per_book,
        ),
        forall|i: int|
            0 <= i < r@.books.len() && has_key(memory@.books, #[trigger] r@.books[i].0)
                ==> r@.books[i].1.bookmarks.no_duplicates(),
{
    let empty = Store::new(memory.global);
    let on_disk: &Store = match disk {
        Some(d) => d,
        None => &empty,
    };
    let base = match disk {
        Some(d) => d.global,
        None => memory.global,
    };
    let global = GlobalSettings {
        max_saved_books: match max_saved_books {
            Some(n) => n,
            None => base.max_saved_books,
        },
        max_bookmarks_per_book: match max_bookmarks_per_book {
            Some(n) => n,
            None => base.max_bookmarks_per_book,
        },
        ..memory.global
    };
    let mut books = merge_memory_books(memory, on_disk);
    let mut rest = disk_only_books(memory, on_disk);
    let ghost a = books_view(books@);
    let ghost o = books_view(rest@);
    books.append(&mut rest);
    assert(books_view(books@) =~= a + o);
    let books = cap_book_list(cap_bookmark_lists(books, max_bookmarks_per_book), max_saved_books);
    proof {
        lemma_merge_unique(memory@.books, on_disk@.books);
        lemma_caps_unique(merge_books(memory@.books, on_disk@.books), max_saved_books, max_bookmarks_per_book);
        lemma_saved_session_records_distinct(memory@.books, on_disk@.books, max_saved_books, max_bookmarks_per_book);
    }
    Store { global, books }
}

/// Saving when nothing is saved yet writes the session's store as it is
/// (when no record holds a bookmark twice, which a save would merge), and
/// decoding each saved field gives back the value that was saved: a round
/// trip reproduces the global settings and every record exactly.
pub proof fn lemma_save_round_trip(mem: StoreView)
    requires
        mem.global.wf(),
        forall|i: int| 0 <= i < mem.books.len() ==> (#[trigger] mem.books[i]).1.bookmarks.no_duplicates(),
    ensures
        saved_store(mem, None, None, None) == mem,
        speed_or(Some(mem.global.speed), DEFAULT_SPEED) == mem.global.speed,
        chunk_or(Some(mem.global.chunk_size), DEFAULT_CHUNK_SIZE) == mem.global.chunk_size,
        forall|i: int|
            0 <= i < mem.books.len() && #[trigger] mem.books[i].1.speed >= 1 ==> speed_or(
                Some(mem.books[i].1.speed),
                mem.global.speed,
            ) == mem.books[i].1.speed,
        forall|i: int|
            0 <= i < mem.books.len() && #[trigger] mem.books[i].1.chunk_size >= 1 ==> chunk_or(
                Some(mem.books[i].1.chunk_size),
                mem.global.chunk_size,
            ) == mem.books[i].1.chunk_size,
{
    let m = mem.books;
    let e = Seq::<(Seq<char>, RecordView)>::empty();
    assert(disk_only(m, e) == e);
    assert forall|i: int| 0 <= i < m.len() implies #[trigger] merge_memory(m, e)[i] == m[i] by {
        assert(!has_key(e, m[i].0));
        let bm = m[i].1.bookmarks;
        assert(bm + Seq::<(usize, Seq<char>)>::empty() =~= bm);
        lemma_add_missing_keeps_distinct(bm);
    }
    assert(merge_books(m, e) =~= m);
    assert(saved_store(mem, None, None, None).books =~= m);
}

proof fn lemma_with_bookmark(
    b: Seq<(Seq<char>, RecordView)>,
    k: Seq<char>,
    m: (usize, Seq<char>),
    speed: u64,
    chunk_size: usize,
)
    requires
        keys_unique(b),
    ensures
        keys_unique(with_bookmark(b, k, m, speed, chunk_size)),
        has_key(with_bookmark(b, k, m, speed, chunk_size), k),
        record_of(with_bookmark(b, k, m, speed, chunk_size), k).bookmarks.contains(m),
{
    let r = with_bookmark(b, k, m, speed, chunk_size);
    if has_key(b, k) {
        let i = index_of(b, k);
        assert forall|x: int, y: int| 0 <= x < y < r.len() implies #[trigger] r[x].0 != #[trigger] r[y].0 by {
            assert(b[x].0 != b[y].0);
        }
        lemma_index_of(r, i);
        let marks = r[i].1.bookmarks;
        assert(marks[marks.len() - 1] == m);
    } else {
        assert forall|x: int, y: int| 0 <= x < y < r.len() implies #[trigger] r[x].0 != #[trigger] r[y].0 by {
            if y < b.len() {
                assert(b[x].0 != b[y].0);
            } else {
                assert(r[x].0 == b[x].0);
            }
        }
        lemma_index_of(r, b.len() as int);
        assert(r[b.len() as int].1.bookmarks[0] == m);
    }
}

/// Merging keeps every record of the session, with as bookmarks exactly
/// those it had and those on disk for the same document, none twice.
pub proof fn lemma_merge_bookmark_union(
    m: Seq<(Seq<char>, RecordView)>,
    d: Seq<(Seq<char>, RecordView)>,
    k: Seq<char>,
    x: (usize, Seq<char>),
)
    requires
        keys_unique(m),
        keys_unique(d),
        has_key(m, k),
    ensures
        keys_unique(merge_books(m, d)),
        has_key(merge_books(m, d), k),
        record_of(merge_books(m, d), k).bookmarks.contains(x) <==> (record_of(m, k).bookmarks.contains(x) || (
        has_key(d, k) && record_of(d, k).bookmarks.contains(x))),
        record_of(merge_books(m, d), k).bookmarks.no_duplicates(),
{
    let i = index_of(m, k);
    lemma_merge_unique(m, d);
    let r = merge_books(m, d);
    assert(r[i] == (k, merged_record(m[i].1, d, k)));
    lemma_index_of(r, i);
    lemma_union_contains(m[i].1.bookmarks, disk_bookmarks(d, k), x);
}

/// What a save writes without caps keeps every record of the session, with
/// as bookmarks exactly the union of its own and those then on disk for the
/// same document, none twice: nothing another session saved is lost and
/// nothing is invented.
pub proof fn lemma_saved_bookmarks_are_union(
    mem: StoreView,
    disk: Option<StoreView>,
    k: Seq<char>,
    x: (usize, Seq<char>),
)
    requires
        keys_unique(mem.books),
        match disk {
            Some(d) => keys_unique(d.books),
            None => true,
        },
        has_key(mem.books, k),
    ensures
        ({
            let saved = saved_store(mem, disk, None, None).books;
            let on_disk = match disk {
                Some(d) => d.books,
                None => Seq::empty(),
            };
            &&& keys_unique(saved)
            &&& has_key(saved, k)
            &&& (record_of(saved, k).bookmarks.contains(x) <==> (record_of(mem.books, k).bookmarks.contains(x)
                || (has_key(on_disk, k) && record_of(on_disk, k).bookmarks.contains(x))))
            &&& record_of(saved, k).bookmarks.no_duplicates()
        }),
{
    let on_disk = match disk {
        Some(d) => d.books,
        None => Seq::empty(),
    };
    lemma_merge_bookmark_union(mem.books, on_disk, k, x);
}

/// Merge, don't clobber: two sessions start from what was saved; the second
/// adds bookmark `x` to a document and saves first, then the first adds `y`
/// to the same document and saves. What is finally saved for the document
/// holds both bookmarks.
pub proof fn lemma_concurrent_bookmarks_kept(
    first_loaded: StoreView,
    second_loaded: StoreView,
    second_disk: Option<StoreView>,
    key: Seq<char>,
    x: (usize, Seq<char>),
    y: (usize, Seq<char>),
    first_speed: u64,
    first_chunk: usize,
    second_speed: u64,
    second_chunk: usize,
)
    requires
        keys_unique(first_loaded.books),
        keys_unique(second_loaded.books),
        match second_disk {
            Some(d) => keys_unique(d.books),
            None => true,
        },
    ensures
        ({
            let second_saved = saved_store(
                StoreView {
                    books: with_bookmark(second_loaded.books, key, x, second_speed, second_chunk),
                    ..second_loaded
                },
                second_disk,
                None,
                None,
            );
            let first_saved = saved_store(
                StoreView {
                    books: with_bookmark(first_loaded.books, key, y, first_speed, first_chunk),
                    ..first_loaded
                },
                Some(second_saved),
                None,
                None,
            );
            has_key(first_saved.books, key) && record_of(first_saved.books, key).bookmarks.contains(x)
                && record_of(first_saved.books, key).bookmarks.contains(y)
        }),
{
    let e = Seq::<(Seq<char>, RecordView)>::empty();
    let second_books = with_bookmark(second_loaded.books, key, x, second_speed, second_chunk);
    let second_disk_books = match second_disk {
        Some(d) => d.books,
        None => e,
    };
    lemma_with_bookmark(second_loaded.books, key, x, second_speed, second_chunk);
    lemma_merge_bookmark_union(second_books, second_disk_books, key, x);
    let saved_books = merge_books(second_books, second_disk_books);
    let first_books = with_bookmark(first_loaded.books, key, y, first_speed, first_chunk);
    lemma_with_bookmark(first_loaded.books, key, y, first_speed, first_chunk);
    lemma_merge_bookmark_union(first_books, saved_books, key, x);
    lemma_merge_bookmark_union(first_books, saved_books, key, y);
}

} // verus!
