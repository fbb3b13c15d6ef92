//! The history view: the days of the log, as cards or as rows.

use crate::date;
use crate::date::Date;
use crate::key::{KeyCode, KeyEvent};
use crate::storage;
use crate::storage::{EntryView, Store};
use crate::style;
use crate::style::{Colour, Line, Rect, Span, SpanView, Style};
use crate::text;
use vstd::prelude::*;

verus! {

/// What is to be done after a key.
#[derive(Debug, Clone, Copy, PartialEq, Eq)]
pub enum HistoryAction {
    Nothing,
    Close,
    /// Caller positions today screen so this date appears as yesterday's did.
    Select(Date),
}

/// How the days are shown.
#[derive(Debug, Clone, Copy, PartialEq, Eq, Structural)]
pub enum ViewMode {
    /// Bordered cards per day, multi-line cell contents. Default.
    Box,
    /// One single-line row per day. Useful for skimming long history.
    Compact,
}

/// Where in the history one is.
pub struct HistoryState {
    today: Date,
    pub selected_date: Date,
    scroll_top: Date,
    initialized: bool,
    /// Pending vim sequence (e.g. `g` waiting for the second `g`).
    pending: Option<char>,
    /// Accumulated vim count prefix (e.g. `5j` → count = Some(5)).
    count: Option<u32>,
    view: ViewMode,
}

/// The view of a [`HistoryState`].
#[verifier::ext_equal]
pub struct HistoryView {
    pub today: i32,
    pub selected: i32,
    /// The first day on the screen.
    pub top: i32,
    /// Whether `top` was chosen for this way of showing the days.
    pub initialized: bool,
    pub pending: Option<char>,
    pub count: Option<u32>,
    pub mode: ViewMode,
}

impl View for HistoryState {
    type V = HistoryView;

    closed spec fn view(&self) -> HistoryView {
        HistoryView {
            today: self.today@,
            selected: self.selected_date@,
            top: self.scroll_top@,
            initialized: self.initialized,
            pending: self.pending,
            count: self.count,
            mode: self.view,
        }
    }
}

// ---------------------------------------------------------------------------
// Keys
// ---------------------------------------------------------------------------

/// The digit that `k` adds to a count, if it does: a `0` only after another
/// digit.
pub open spec fn count_digit(s: HistoryView, k: KeyEvent) -> Option<int> {
    match k.code {
        KeyCode::Char(c) => if '0' <= c <= '9' && k.modifiers.empty() && !(s.count is None && c
            == '0') {
            Some(c as int - '0' as int)
        } else {
            None
        },
        _ => None,
    }
}

/// The count with one digit more; ten times a count that is too large is the
/// largest.
pub open spec fn counted(count: Option<u32>, digit: int) -> int {
    match count {
        Some(n) => (if n * 10 <= u32::MAX {
            n * 10
        } else {
            u32::MAX as int
        }) + digit,
        None => digit,
    }
}

/// How many days a motion goes.
pub open spec fn stride(s: HistoryView) -> int {
    match s.count {
        Some(n) => n as int,
        None => 1,
    }
}

/// Whether `k` goes down.
pub open spec fn is_down(k: KeyEvent) -> bool {
    k.code == KeyCode::Char('j') || k.code == KeyCode::Down
}

/// Whether `k` goes up.
pub open spec fn is_up(k: KeyEvent) -> bool {
    k.code == KeyCode::Char('k') || k.code == KeyCode::Up
}

/// Whether the count, or the day that `k` leads to, is one that there is.
pub open spec fn fits(s: HistoryView, k: KeyEvent) -> bool {
    if s.pending == Some('g') {
        true
    } else {
        match count_digit(s, k) {
            Some(digit) => counted(s.count, digit) <= u32::MAX,
            None => if is_down(k) {
                date::is_day(s.selected + stride(s))
            } else if is_up(k) {
                date::is_day(s.selected - stride(s))
            } else {
                true
            },
        }
    }
}

/// After `k`, where `first` is the first recorded day.
pub open spec fn keyed(s: HistoryView, k: KeyEvent, first: Option<i32>) -> HistoryView {
    if s.pending == Some('g') {
        HistoryView {
            pending: None,
            count: None,
            selected: match first {
                Some(day) if k.code == KeyCode::Char('g') => day,
                _ => s.selected,
            },
            ..s
        }
    } else if let Some(digit) = count_digit(s, k) {
        HistoryView { count: Some(counted(s.count, digit) as u32), ..s }
    } else {
        let t = HistoryView { count: None, ..s };
        if is_down(k) {
            HistoryView { selected: (s.selected + stride(s)) as i32, ..t }
        } else if is_up(k) {
            HistoryView { selected: (s.selected - stride(s)) as i32, ..t }
        } else if k.code == KeyCode::Char('g') {
            HistoryView { pending: Some('g'), ..t }
        } else if k.code == KeyCode::Char('G') {
            HistoryView { selected: s.today, ..t }
        } else if k.code == KeyCode::Char('z') {
            HistoryView {
                mode: match s.mode {
                    ViewMode::Box => ViewMode::Compact,
                    ViewMode::Compact => ViewMode::Box,
                },
                initialized: false,
                ..t
            }
        } else {
            t
        }
    }
}

/// Whether `k` selects a day.
pub open spec fn selects(s: HistoryView, k: KeyEvent) -> bool {
    s.pending != Some('g') && k.code == KeyCode::Enter
}

/// Whether `k` closes the history.
pub open spec fn closes(s: HistoryView, k: KeyEvent) -> bool {
    s.pending != Some('g') && (k.code == KeyCode::Esc || k.code == KeyCode::Char('q'))
}

/// The number of an ASCII digit.
fn digit_of(c: char) -> (r: Option<u32>)
    ensures
        r is Some == ('0' <= c <= '9'),
        r matches Some(d) ==> d == c as int - '0' as int,
{
    if '0' <= c && c <= '9' {
        Some(c as u32 - '0' as u32)
    } else {
        None
    }
}

impl HistoryState {
    /// Starts at `today`, with cards.
    pub fn new(today: Date) -> (r: Self)
        ensures
            r@ == (HistoryView {
                today: today@,
                selected: today@,
                top: today@,
                initialized: false,
                pending: None,
                count: None,
                mode: ViewMode::Box,
            }),
    {
        HistoryState {
            today,
            selected_date: today,
            scroll_top: today,
            initialized: false,
            pending: None,
            count: None,
            view: ViewMode::Box,
        }
    }

    /// The digit that `k` adds to the count, if it does.
    fn digit(&self, k: KeyEvent) -> (r: Option<u32>)
        ensures
            r is Some == count_digit(self@, k) is Some,
            r matches Some(d) ==> Some(d as int) == count_digit(self@, k) && d < 10,
    {
        if let KeyCode::Char(c) = k.code {
            if k.modifiers.is_empty() {
                if let Some(d) = digit_of(c) {
                    if !(self.count.is_none() && d == 0) {
                        return Some(d);
                    }
                }
            }
        }
        None
    }

    fn waits_for_g(&self) -> (r: bool)
        ensures
            r == (self@.pending == Some('g')),
    {
        match self.pending {
            Some(c) => c == 'g',
            None => false,
        }
    }

    /// Whether the count, or the day that `k` leads to, is one that there is.
    pub fn can_handle_key(&self, k: KeyEvent) -> (r: bool)
        ensures
            r == fits(self@, k),
    {
        if self.waits_for_g() {
            return true;
        }
        let n: u32 = match self.count {
            Some(n) => n,
            None => 0,
        };
        if let Some(d) = self.digit(k) {
            let ten: u64 = if n as u64 * 10 <= u32::MAX as u64 {
                n as u64 * 10
            } else {
                u32::MAX as u64
            };
            return ten + d as u64 <= u32::MAX as u64;
        }
        let stride: i64 = match self.count {
            Some(n) => n as i64,
            None => 1,
        };
        let day: i64 = self.selected_date.days() as i64;
        let down = k.is_char('j') || k.code == KeyCode::Down;
        let up = k.is_char('k') || k.code == KeyCode::Up;
        if down {
            day + stride <= date::MAX_DAY as i64
        } else if up {
            day - stride >= date::MIN_DAY as i64
        } else {
            true
        }
    }

    /// Deals with a key.
    pub fn handle_key(&mut self, k: KeyEvent, store: &Store) -> (r: HistoryAction)
        requires
            store.wf(),
            fits(old(self)@, k),
        ensures
            final(self)@ == keyed(old(self)@, k, storage::first_day(store@)),
            match r {
                HistoryAction::Select(date) => selects(old(self)@, k) && date@
                    == old(self)@.selected,
                HistoryAction::Close => closes(old(self)@, k),
                HistoryAction::Nothing => !selects(old(self)@, k) && !closes(old(self)@, k),
            },
    {
        if self.waits_for_g() {
            self.pending = None;
            self.count = None;
            if k.is_char('g') {
                if let Some(first) = store.first_recorded() {
                    self.selected_date = first;
                }
            }
            return HistoryAction::Nothing;
        }
        // Digit prefix accumulates a count to apply to the next motion. A leading
        // `0` is line-start in vim; there is no such motion here, so it is ignored.
        if let Some(d) = self.digit(k) {
            let n: u32 = match self.count {
                Some(n) => n,
                None => 0,
            };
            let ten: u32 = if n <= 429_496_729 {
                n * 10
            } else {
                u32::MAX
            };
            self.count = Some(ten + d);
            return HistoryAction::Nothing;
        }
        let stride: i64 = match self.count {
            Some(n) => n as i64,
            None => 1,
        };
        self.count = None;
        match k.code {
            KeyCode::Char('j') | KeyCode::Down => {
                self.selected_date = self.selected_date.plus(stride);
            },
            KeyCode::Char('k') | KeyCode::Up => {
                self.selected_date = self.selected_date.plus(-stride);
            },
            KeyCode::Char('g') => {
                self.pending = Some('g');
            },
            KeyCode::Char('G') => {
                self.selected_date = self.today;
            },
            KeyCode::Char('z') => {
                self.view = match self.view {
                    ViewMode::Box => ViewMode::Compact,
                    ViewMode::Compact => ViewMode::Box,
                };
                // Re-center after view change so the cursor lands sensibly.
                self.initialized = false;
            },
            KeyCode::Enter => {
                return HistoryAction::Select(self.selected_date);
            },
            KeyCode::Esc | KeyCode::Char('q') => {
                return HistoryAction::Close;
            },
            _ => {},
        }
        HistoryAction::Nothing
    }

    /// The count typed so far.
    pub fn count_display(&self) -> (r: Option<u32>)
        ensures
            r == self@.count,
    {
        self.count
    }

    /// How the days are shown.
    pub fn mode(&self) -> (r: ViewMode)
        ensures
            r == self@.mode,
    {
        self.view
    }

    /// How the days are shown, in a word.
    pub fn view_label(&self) -> (r: &'static str)
        ensures
            r@ == match self@.mode {
                ViewMode::Box => "box"@,
                ViewMode::Compact => "compact"@,
            },
    {
        match self.view {
            ViewMode::Box => "box",
            ViewMode::Compact => "compact",
        }
    }
}

// ---------------------------------------------------------------------------
// Days and labels
// ---------------------------------------------------------------------------

/// `n` days before `day`; the first day of the calendar if that is later.
pub open spec fn back(day: int, n: int) -> int {
    if day - n >= date::MIN_DAY {
        day - n
    } else {
        date::MIN_DAY as int
    }
}

fn days_back(day: Date, n: i64) -> (r: Date)
    requires
        0 <= n,
    ensures
        r@ == back(day@ as int, n as int),
{
    let d: i64 = day.days() as i64;
    if n <= d - date::MIN_DAY as i64 {
        day.plus(-n)
    } else {
        day.plus(date::MIN_DAY as i64 - d)
    }
}

/// How far `day` is from `selected`, in three columns and a space.
pub open spec fn relnum(day: int, selected: int) -> Seq<char> {
    let distance = if day >= selected {
        day - selected
    } else {
        selected - day
    };
    text::right_aligned(text::decimal(distance as nat), 3) + " "@
}

/// How far `date` is from `selected`, in three columns and a space.
pub fn relnum_label(date: Date, selected: Date) -> (r: String)
    ensures
        r@ == relnum(date@ as int, selected@ as int),
{
    let a: i64 = date.days() as i64;
    let b: i64 = selected.days() as i64;
    let distance: u64 = if a >= b {
        (a - b) as u64
    } else {
        (b - a) as u64
    };
    style::concat(text::align_right(text::to_decimal(distance).as_str(), 3).as_str(), " ")
}

/// What is planned and what was done on a day, each on one line.
pub open spec fn preview(m: Map<i32, EntryView>, day: i32) -> (Seq<char>, Seq<char>) {
    if m.contains_key(day) {
        (text::joined(m[day].planning, " · "@), text::joined(m[day].did, " · "@))
    } else {
        (seq![], seq![])
    }
}

/// What is planned and what was done on `date`, each on one line.
pub fn preview_join(store: &Store, date: Date) -> (r: (String, String))
    ensures
        (r.0@, r.1@) == preview(store@, date@),
{
    match store.get(date) {
        Some(e) => (
            text::join(e.planning.as_slice(), " · "),
            text::join(e.did.as_slice(), " · "),
        ),
        None => (String::new(), String::new()),
    }
}

// ---------------------------------------------------------------------------
// Rows
// ---------------------------------------------------------------------------

/// The first day to show in `n` rows: as it is where the selected day has a row
/// above and below it; else the selected day comes last but one, or second. With
/// fewer than three rows it need only be among them.
pub open spec fn top_for_rows(s: HistoryView, n: int) -> int {
    let row = s.selected - s.top;
    if n <= 0 {
        s.top as int
    } else if n >= 3 {
        if !s.initialized || row > n - 2 {
            back(s.selected as int, n - 2)
        } else if row < 1 {
            back(s.selected as int, 1)
        } else {
            s.top as int
        }
    } else {
        if !s.initialized || row > n - 1 {
            back(s.selected as int, n - 1)
        } else if row < 0 {
            s.selected as int
        } else {
            s.top as int
        }
    }
}

/// The selected day is among the rows, with a row above and below it where there
/// are three and the calendar has a day before it.
pub proof fn lemma_selected_in_rows(s: HistoryView, n: int)
    requires
        date::is_day(s.selected as int),
        n > 0,
    ensures
        0 <= s.selected - top_for_rows(s, n) < n,
        n >= 3 && s.selected > date::MIN_DAY ==> 1 <= s.selected - top_for_rows(s, n) <= n - 2,
{
}

/// Rows that were placed stay where they are, and so do rows that show the selected
/// day well already.
pub proof fn lemma_rows_stay(s: HistoryView, n: int)
    requires
        date::is_day(s.selected as int),
        n > 0,
    ensures
        ({
            let t = HistoryView { top: top_for_rows(s, n) as i32, initialized: true, ..s };
            top_for_rows(t, n) == t.top
        }),
        s.initialized && n >= 3 && 1 <= s.selected - s.top <= n - 2 ==> top_for_rows(s, n) == s.top,
        s.initialized && n < 3 && 0 <= s.selected - s.top <= n - 1 ==> top_for_rows(s, n) == s.top,
{
}

/// `text`, or a dash where there is none.
pub open spec fn or_dash(text: Seq<char>) -> SpanView {
    if text.len() == 0 {
        style::span_of("—"@, Style::coloured(Colour::DarkGray))
    } else {
        style::raw_span(text)
    }
}

/// The row of a day: how far it is, its date, what was planned, what was done.
pub open spec fn day_row(s: HistoryView, m: Map<i32, EntryView>, day: i32) -> Seq<SpanView> {
    let label = date::day_label(day);
    seq![
        style::span_of(
            relnum(day as int, s.selected as int),
            Style::coloured(Colour::DarkGray),
        ),
        if day == s.today {
            style::span_of(" "@ + label + " *"@, Style::emphasised(Colour::Green))
        } else {
            style::raw_span(" "@ + label)
        },
        or_dash(preview(m, day).0),
        or_dash(preview(m, day).1),
    ]
}

/// How many days there are from `top` on, up to `n`.
pub open spec fn days_from(top: int, n: int) -> int {
    if top + n - 1 <= date::MAX_DAY {
        n
    } else {
        date::MAX_DAY - top + 1
    }
}

fn empty_or(s: &String) -> (r: Span)
    ensures
        r@ == or_dash(s@),
{
    if s.as_str().unicode_len() == 0 {
        Span::styled("—", Style::colour(Colour::DarkGray))
    } else {
        Span::raw(s.as_str())
    }
}

/// The cells above the rows.
pub fn compact_header() -> (r: Line)
    ensures
        r@ == Seq::new(
            4,
            |i: int|
                style::span_of(
                    seq![""@, " Date"@, " Planned"@, " Did"@][i],
                    Style::emphasised(Colour::DarkGray),
                ),
        ),
{
    let dim = Style::bold(Colour::DarkGray);
    let r = Line::of_two(Span::styled("", dim), Span::styled(" Date", dim)).with(
        Span::styled(" Planned", dim),
    ).with(Span::styled(" Did", dim));
    assert(r@ =~= Seq::new(
        4,
        |i: int|
            style::span_of(
                seq![""@, " Date"@, " Planned"@, " Did"@][i],
                Style::emphasised(Colour::DarkGray),
            ),
    ));
    r
}

/// How the selected row is shown.
pub fn compact_highlight() -> (r: Style)
    ensures
        r == (Style { fg: Some(Colour::Black), bg: Some(Colour::Yellow), bold: true }),
{
    Style { fg: Some(Colour::Black), bg: Some(Colour::Yellow), bold: true }
}

impl HistoryState {
    /// Scrolls so that the selected day is among `n` rows.
    pub fn ensure_visible_rows(&mut self, n: i64)
        ensures
            final(self)@ == (HistoryView {
                top: top_for_rows(old(self)@, n as int) as i32,
                initialized: old(self)@.initialized || n > 0,
                ..old(self)@
            }),
    {
        if n <= 0 {
            return;
        }
        let row: i64 = self.selected_date.days() as i64 - self.scroll_top.days() as i64;
        if !self.initialized {
            let target_row: i64 = if n >= 3 {
                n - 2
            } else {
                n - 1
            };
            self.scroll_top = days_back(self.selected_date, target_row);
            self.initialized = true;
            return;
        }
        if n >= 3 {
            if row < 1 {
                self.scroll_top = days_back(self.selected_date, 1);
            } else if row > n - 2 {
                self.scroll_top = days_back(self.selected_date, n - 2);
            }
        } else {
            if row < 0 {
                self.scroll_top = self.selected_date;
            } else if row > n - 1 {
                self.scroll_top = days_back(self.selected_date, n - 1);
            }
        }
    }

    /// The row of `date`.
    fn compact_row(&self, date: Date, store: &Store) -> (r: Line)
        ensures
            r@ == day_row(self@, store@, date@),
    {
        let rel = relnum_label(date, self.selected_date);
        let (planned, did) = preview_join(store, date);
        let label = style::concat(" ", date.label().as_str());
        let date_cell = if date.same(self.today) {
            Span::styled(
                style::concat(label.as_str(), " *").as_str(),
                Style::bold(Colour::Green),
            )
        } else {
            Span::raw(label.as_str())
        };
        let r = Line::of_two(
            Span::styled(rel.as_str(), Style::colour(Colour::DarkGray)),
            date_cell,
        ).with(empty_or(&planned)).with(empty_or(&did));
        assert(r@ =~= day_row(self@, store@, date@));
        r
    }

    /// The rows that fit in `height` under the header, and the number of the
    /// selected one; nothing where none fits. Where the calendar ends, the rows do.
    pub fn compact(&mut self, height: u16, store: &Store) -> (r: Option<(Vec<Line>, usize)>)
        ensures
            r is Some == (height > 1),
            height <= 1 ==> final(self)@ == old(self)@,
            height > 1 ==> final(self)@ == (HistoryView {
                top: top_for_rows(old(self)@, height - 1) as i32,
                initialized: true,
                ..old(self)@
            }),
            r matches Some((rows, selected)) ==> {
                let top = final(self)@.top as int;
                &&& rows@.len() == days_from(top, height - 1)
                &&& forall|i: int|
                    0 <= i < rows@.len() ==> (#[trigger] rows@[i])@ == day_row(
                        old(self)@,
                        store@,
                        (top + i) as i32,
                    )
                &&& selected == final(self)@.selected - top
                &&& selected < height - 1
            },
    {
        if height <= 1 {
            return None;
        }
        let n: i64 = height as i64 - 1;
        let ghost before = self@;
        let selected_day: i32 = self.selected_date.days();
        self.ensure_visible_rows(n);
        let top: i32 = self.scroll_top.days();
        proof {
            lemma_selected_in_rows(before, n as int);
        }
        let mut rows: Vec<Line> = Vec::new();
        let mut i: i64 = 0;
        let left: i64 = date::MAX_DAY as i64 - top as i64 + 1;
        let count: i64 = if n <= left {
            n
        } else {
            left
        };
        while i < count
            invariant
                0 <= i <= count,
                count == days_from(top as int, n as int),
                count <= date::MAX_DAY - top + 1,
                date::is_day(top as int),
                top == self@.top,
                self.scroll_top@ == top,
                self@.selected == before.selected,
                self@.today == before.today,
                rows@.len() == i,
                forall|j: int|
                    0 <= j < i ==> (#[trigger] rows@[j])@ == day_row(
                        before,
                        store@,
                        (top + j) as i32,
                    ),
            decreases count - i,
        {
            let date = self.scroll_top.plus(i);
            rows.push(self.compact_row(date, store));
            i += 1;
        }
        Some((rows, (selected_day as i64 - top as i64) as usize))
    }
}

// ---------------------------------------------------------------------------
// Cards
// ---------------------------------------------------------------------------

/// How wide the column of relative numbers is.
pub const RELNUM_WIDTH: u16 = 5;

/// How many times the first card is moved to find a good place for the selected
/// one.
pub const LAYOUT_TRIES: u32 = 32;

/// The longer list of an entry, and 1 at least.
pub open spec fn content_lines(m: Map<i32, EntryView>, day: i32) -> nat {
    let planned = if m.contains_key(day) {
        m[day].planning.len()
    } else {
        0
    };
    let did = if m.contains_key(day) {
        m[day].did.len()
    } else {
        0
    };
    let longer = if planned >= did {
        planned
    } else {
        did
    };
    if longer >= 1 {
        longer
    } else {
        1
    }
}

/// How high the card of a day is, in 16 bits: its content and two borders.
pub open spec fn height_of(m: Map<i32, EntryView>, day: int) -> int {
    (2 + content_lines(m, day as i32)) as int % 0x1_0000
}

/// The cards from `day` on that fit in `height`, of which `used` is taken: the
/// day and the height of each.
pub open spec fn plan(m: Map<i32, EntryView>, day: int, height: int, used: int) -> Seq<(int, int)>
    decreases date::MAX_DAY + 1 - day,
{
    if day > date::MAX_DAY || used >= height || used + height_of(m, day) > height {
        seq![]
    } else {
        seq![(day, height_of(m, day))] + plan(m, day + 1, height, used + height_of(m, day))
    }
}

/// The heights of some cards together.
pub open spec fn total_height(cards: Seq<(int, int)>) -> int
    decreases cards.len(),
{
    if cards.len() == 0 {
        0
    } else {
        cards[0].1 + total_height(cards.drop_first())
    }
}

/// The cards of a plan are of successive days, each as high as its content asks
/// for, and they fit; none is left out that would fit.
pub proof fn lemma_plan(m: Map<i32, EntryView>, day: int, height: int, used: int)
    requires
        date::is_day(day),
        0 <= used <= height,
    ensures
        forall|i: int|
            0 <= i < plan(m, day, height, used).len() ==> #[trigger] plan(m, day, height, used)[i]
                == (day + i, height_of(m, day + i)),
        used + total_height(plan(m, day, height, used)) <= height,
        ({
            let cards = plan(m, day, height, used);
            let next = day + cards.len();
            let taken = used + total_height(cards);
            next > date::MAX_DAY || taken >= height || taken + height_of(m, next) > height
        }),
    decreases date::MAX_DAY + 1 - day,
{
    let cards = plan(m, day, height, used);
    if used < height && used + height_of(m, day) <= height {
        let rest = plan(m, day + 1, height, used + height_of(m, day));
        assert(cards.drop_first() =~= rest);
        if day + 1 <= date::MAX_DAY {
            lemma_plan(m, day + 1, height, used + height_of(m, day));
            assert forall|i: int| 0 <= i < cards.len() implies #[trigger] cards[i] == (
                day + i,
                height_of(m, day + i),
            ) by {
                if i > 0 {
                    assert(cards[i] == rest[i - 1]);
                }
            }
        }
    }
}

/// Whether `top` is a good first day: the selected day is on the screen, and has
/// a card above and below it where there is more than one card.
pub open spec fn well_placed(m: Map<i32, EntryView>, selected: int, top: int, height: int) -> bool {
    let cards = plan(m, top, height, 0).len();
    let i = selected - top;
    0 <= i < cards && (cards > 1 ==> 0 < i < cards - 1)
}

/// The first day to try after `top`: the day before the selected one where that
/// is above the cards or the first of them; else a day further down.
pub open spec fn next_top(m: Map<i32, EntryView>, selected: int, top: int, height: int) -> int {
    if selected < top || (selected == top && plan(m, top, height, 0).len() > 0) {
        back(selected, 1)
    } else if top < date::MAX_DAY {
        top + 1
    } else {
        top
    }
}

/// The first well placed day from `top` on, after at most `tries` moves.
pub open spec fn placed(
    m: Map<i32, EntryView>,
    selected: int,
    top: int,
    height: int,
    tries: nat,
) -> int
    decreases tries,
{
    if tries == 0 || well_placed(m, selected, top, height) {
        top
    } else {
        placed(m, selected, next_top(m, selected, top, height), height, (tries - 1) as nat)
    }
}

/// The first day on the screen in `height` rows of cards: of a view that is new,
/// one that puts the selected day third, moved until the selected day is well
/// placed.
pub open spec fn top_for_cards(s: HistoryView, m: Map<i32, EntryView>, height: int) -> int {
    placed(
        m,
        s.selected as int,
        if s.initialized {
            s.top as int
        } else {
            back(s.selected as int, 2)
        },
        height,
        LAYOUT_TRIES as nat,
    )
}

/// Cards stay where they are as long as the selected day is well placed.
pub proof fn lemma_cards_stay(s: HistoryView, m: Map<i32, EntryView>, height: int)
    requires
        s.initialized,
        well_placed(m, s.selected as int, s.top as int, height),
    ensures
        top_for_cards(s, m, height) == s.top,
{
}

/// The day and the height of some cards.
pub open spec fn cards_view(cards: Seq<(Date, u16)>) -> Seq<(int, int)> {
    Seq::new(cards.len(), |i: int| (cards[i].0@ as int, cards[i].1 as int))
}

fn longer(a: usize, b: usize) -> (r: usize)
    ensures
        r == if a >= b {
            a
        } else {
            b
        },
{
    if a >= b {
        a
    } else {
        b
    }
}

/// How high the card of `date` is.
pub fn card_height(store: &Store, date: Date) -> (r: u16)
    ensures
        r == height_of(store@, date@ as int),
        date::is_day(date@ as int),
{
    let day: i32 = date.days();
    assert(date::is_day(day as int));
    let content: usize = match store.get(date) {
        Some(e) => longer(longer(e.planning.len(), e.did.len()), 1),
        None => 1,
    };
    assert(content == content_lines(store@, date@));
    // 1 (top border, with inline headings) + content + 1 (bottom border)
    let low: u32 = (content % 0x1_0000) as u32;
    ((low + 2) % 0x1_0000) as u16
}

impl HistoryState {
    /// The cards from `start` on that fit in `area_height`.
    pub fn plan_box_from(start: Date, area_height: u16, store: &Store) -> (r: Vec<(Date, u16)>)
        ensures
            cards_view(r@) == plan(store@, start@ as int, area_height as int, 0),
    {
        let ghost m = store@;
        let ghost height = area_height as int;
        let mut out: Vec<(Date, u16)> = Vec::new();
        let mut used: u16 = 0;
        let mut date = start;
        let mut more = true;
        assert(cards_view(out@) =~= Seq::<(int, int)>::empty());
        assert(Seq::<(int, int)>::empty() + plan(m, start@ as int, height, 0) =~= plan(
            m,
            start@ as int,
            height,
            0,
        ));
        while more && used < area_height
            invariant
                m == store@,
                height == area_height,
                used <= area_height,
                more ==> cards_view(out@) + plan(m, date@ as int, height, used as int) == plan(
                    m,
                    start@ as int,
                    height,
                    0,
                ),
                !more ==> cards_view(out@) == plan(m, start@ as int, height, 0),
            decreases (if more {
                1int
            } else {
                0int
            }), date::MAX_DAY + 1 - date@,
        {
            let h: u16 = card_height(store, date);
            let ghost before = cards_view(out@);
            if used as u32 + h as u32 > area_height as u32 {
                assert(before + plan(m, date@ as int, height, used as int) =~= before);
                more = false;
            } else {
                out.push((date, h));
                proof {
                    let now = cards_view(out@);
                    let rest = plan(m, date@ + 1, height, used + h);
                    assert(now =~= before.push((date@ as int, h as int)));
                    assert(now + rest =~= before + plan(m, date@ as int, height, used as int));
                    if date@ == date::MAX_DAY {
                        assert(now + rest =~= now);
                    }
                }
                used = used + h;
                match date.succ() {
                    Some(d) => {
                        date = d;
                    },
                    None => {
                        more = false;
                    },
                }
            }
        }
        assert(more ==> cards_view(out@) + plan(m, date@ as int, height, used as int)
            =~= cards_view(out@));
        out
    }
}

impl HistoryState {
    /// Plan which dates to render this frame and how tall each card is. Keeps a
    /// card above and below the selected one where it can.
    pub fn box_card_layout(&mut self, area_height: u16, store: &Store) -> (r: Vec<(Date, u16)>)
        ensures
            area_height == 0 ==> final(self)@ == old(self)@ && r@.len() == 0,
            area_height > 0 ==> {
                let top = top_for_cards(old(self)@, store@, area_height as int);
                &&& final(self)@ == (HistoryView { top: top as i32, initialized: true, ..old(self)@ })
                &&& cards_view(r@) == plan(store@, top, area_height as int, 0)
            },
    {
        if area_height == 0 {
            return Vec::new();
        }
        let ghost m = store@;
        let ghost before = self@;
        let ghost height = area_height as int;
        // First frame: pick a scroll_top that places `selected` near the bottom.
        // We aim for one card visible below the selected (the padding row).
        if !self.initialized {
            self.scroll_top = days_back(self.selected_date, 2);
            self.initialized = true;
        }
        let mut tries: u32 = 0;
        while tries < LAYOUT_TRIES
            invariant
                tries <= LAYOUT_TRIES,
                before == old(self)@,
                m == store@,
                height == area_height,
                height > 0,
                self@ == (HistoryView { top: self@.top, initialized: true, ..before }),
                top_for_cards(before, m, height) == placed(
                    m,
                    before.selected as int,
                    self@.top as int,
                    height,
                    (LAYOUT_TRIES - tries) as nat,
                ),
            decreases LAYOUT_TRIES - tries,
        {
            let plan = Self::plan_box_from(self.scroll_top, area_height, store);
            let top: i64 = self.scroll_top.days() as i64;
            let row: i64 = self.selected_date.days() as i64 - top;
            let cards: usize = plan.len();
            assert(cards == cards_view(plan@).len());
            if 0 <= row && (row as u64) < cards as u64 {
                let i: usize = row as usize;
                if cards == 1 || (0 < i && i < cards - 1) {
                    return plan;
                }
            }
            self.scroll_top = if row < 0 || (row == 0 && cards > 0) {
                days_back(self.selected_date, 1)
            } else {
                match self.scroll_top.succ() {
                    Some(d) => d,
                    None => self.scroll_top,
                }
            };
            tries += 1;
        }
        // Fallback: just render whatever fits.
        Self::plan_box_from(self.scroll_top, area_height, store)
    }
}

/// A card: the colour of its border, its title, and its two columns.
#[derive(Debug, Clone, PartialEq, Eq)]
pub struct Card {
    pub border: Colour,
    pub title: Span,
    pub planned: Vec<Line>,
    pub did: Vec<Line>,
}

/// The view of a [`Card`].
#[verifier::ext_equal]
pub struct CardView {
    pub border: Colour,
    pub title: SpanView,
    pub planned: Seq<Seq<SpanView>>,
    pub did: Seq<Seq<SpanView>>,
}

impl View for Card {
    type V = CardView;

    open spec fn view(&self) -> CardView {
        CardView {
            border: self.border,
            title: self.title@,
            planned: style::lines_view(self.planned@),
            did: style::lines_view(self.did@),
        }
    }
}

/// A bullet per item.
pub open spec fn bullet_rows(items: Seq<Seq<char>>) -> Seq<Seq<SpanView>> {
    Seq::new(items.len(), |i: int| seq![style::raw_span(" - "@ + items[i])])
}

/// The rows of a column of a card: a bullet per item, or a dash where there is
/// none.
pub open spec fn column_rows(items: Seq<Seq<char>>) -> Seq<Seq<SpanView>> {
    if items.len() == 0 {
        seq![seq![style::span_of(" —"@, Style::coloured(Colour::DarkGray))]]
    } else {
        bullet_rows(items)
    }
}

/// The card of a day: yellow where it is selected, else green where it is today.
pub open spec fn card_of(s: HistoryView, m: Map<i32, EntryView>, day: i32) -> CardView {
    let colour = if day == s.selected {
        Colour::Yellow
    } else if day == s.today {
        Colour::Green
    } else {
        Colour::DarkGray
    };
    CardView {
        border: colour,
        title: style::span_of(
            " "@ + date::day_label(day) + if day == s.today {
                " (today) "@
            } else {
                " "@
            },
            Style { fg: Some(colour), bg: None, bold: day == s.selected },
        ),
        planned: column_rows(storage::entry_of(m, day).planning),
        did: column_rows(storage::entry_of(m, day).did),
    }
}

/// The number beside a card: yellow and bold where it is the selected one's.
pub open spec fn card_number(s: HistoryView, day: i32) -> SpanView {
    style::span_of(
        relnum(day as int, s.selected as int),
        if day == s.selected {
            Style::emphasised(Colour::Yellow)
        } else {
            Style::coloured(Colour::DarkGray)
        },
    )
}

/// A bullet per item.
pub fn bullet_lines(items: &[String]) -> (r: Vec<Line>)
    ensures
        style::lines_view(r@) == bullet_rows(text::texts(items@)),
{
    let ghost all = text::texts(items@);
    let mut out: Vec<Line> = Vec::new();
    assert(style::lines_view(out@) =~= bullet_rows(all).take(0));
    let mut i: usize = 0;
    while i < items.len()
        invariant
            i <= items.len(),
            all == text::texts(items@),
            style::lines_view(out@) == bullet_rows(all).take(i as int),
        decreases items.len() - i,
    {
        let line = Line::of(Span::raw(style::concat(" - ", items[i].as_str()).as_str()));
        assert(bullet_rows(all)[i as int] =~= line@);
        style::add_line(&mut out, line);
        assert(bullet_rows(all).take(i + 1) =~= bullet_rows(all).take(i as int).push(line@));
        i += 1;
    }
    assert(bullet_rows(all).take(i as int) =~= bullet_rows(all));
    out
}

fn column_lines(items: &[String]) -> (r: Vec<Line>)
    ensures
        style::lines_view(r@) == column_rows(text::texts(items@)),
{
    if items.len() > 0 {
        return bullet_lines(items);
    }
    let mut out: Vec<Line> = Vec::new();
    style::add_line(&mut out, Line::of(Span::styled(" —", Style::colour(Colour::DarkGray))));
    assert(style::lines_view(out@) =~= column_rows(text::texts(items@)));
    out
}

impl HistoryState {
    /// The day that is selected.
    pub fn selected(&self) -> (r: Date)
        ensures
            r@ == self@.selected,
    {
        self.selected_date
    }

    /// The card of `date`.
    pub fn card(&self, date: Date, store: &Store) -> (r: Card)
        ensures
            r@ == card_of(self@, store@, date@),
    {
        let is_selected = date.same(self.selected_date);
        let is_today = date.same(self.today);
        let border = if is_selected {
            Colour::Yellow
        } else if is_today {
            Colour::Green
        } else {
            Colour::DarkGray
        };
        let mut title = style::concat(" ", date.label().as_str());
        title.append(
            if is_today {
                " (today) "
            } else {
                " "
            },
        );
        let title_style = Style { fg: Some(border), bg: None, bold: is_selected };
        let none: Vec<String> = Vec::new();
        assert(text::texts(none@) =~= Seq::<Seq<char>>::empty());
        let (planned, did) = match store.get(date) {
            Some(e) => (column_lines(e.planning.as_slice()), column_lines(e.did.as_slice())),
            None => (column_lines(none.as_slice()), column_lines(none.as_slice())),
        };
        Card { border, title: Span::styled(title.as_str(), title_style), planned, did }
    }

    /// The number beside the card of `date`.
    pub fn relnum_span(&self, date: Date) -> (r: Span)
        ensures
            r@ == card_number(self@, date@),
    {
        let label = relnum_label(date, self.selected_date);
        if date.same(self.selected_date) {
            Span::styled(label.as_str(), Style::bold(Colour::Yellow))
        } else {
            Span::styled(label.as_str(), Style::colour(Colour::DarkGray))
        }
    }
}

/// Where the number beside a card goes whose first row is `row_y`; nowhere if
/// that is outside the column.
pub fn relnum_place(column: Rect, row_y: u16) -> (r: Option<Rect>)
    requires
        column.wf(),
    ensures
        r == if column.y <= row_y < column.y + column.height {
            Some(Rect { x: column.x, y: row_y, width: column.width, height: 1 })
        } else {
            None
        },
{
    if row_y < column.y || row_y >= column.y + column.height {
        None
    } else {
        Some(Rect { x: column.x, y: row_y, width: column.width, height: 1 })
    }
}

/// Where a label of `len` characters starts in the middle of a column.
pub open spec fn centered(len: int, col: Rect) -> int {
    if len >= col.width {
        col.x as int
    } else {
        col.x + (col.width - len) / 2
    }
}

/// Where `label` starts in the middle of a column. Its length is taken in 16 bits.
pub fn label_centered(label: &str, col: Rect) -> (r: u16)
    requires
        col.wf(),
    ensures
        r == centered((label@.len() % 0x1_0000) as int, col),
{
    let len: u16 = (label.unicode_len() % 0x1_0000) as u16;
    if len >= col.width {
        col.x
    } else {
        col.x + (col.width - len) / 2
    }
}

/// A text at a place on the screen.
#[derive(Debug, Clone, PartialEq, Eq)]
pub struct Mark {
    pub x: u16,
    pub y: u16,
    pub span: Span,
}

/// The view of a [`Mark`].
#[verifier::ext_equal]
pub struct MarkView {
    pub x: int,
    pub y: int,
    pub span: SpanView,
}

impl View for Mark {
    type V = MarkView;

    open spec fn view(&self) -> MarkView {
        MarkView { x: self.x as int, y: self.y as int, span: self.span@ }
    }
}

/// The views of some marks.
pub open spec fn marks_view(marks: Seq<Mark>) -> Seq<MarkView> {
    Seq::new(marks.len(), |i: int| marks[i]@)
}

/// One mark, or none.
pub open spec fn mark_if(cond: bool, mark: MarkView) -> Seq<MarkView> {
    if cond {
        seq![mark]
    } else {
        seq![]
    }
}

/// What is drawn over the border of a card with the columns `left` and `right`:
/// the headings of the columns where the title and the border leave room for
/// them, and where the line between the columns meets the border.
pub open spec fn card_marks(area: Rect, left: Rect, right: Rect, title_len: nat) -> Seq<MarkView> {
    let heading = Style::emphasised(Colour::DarkGray);
    let dim = Style::coloured(Colour::DarkGray);
    let title_end = area.x + 1 + (title_len % 0x1_0000) as int;
    let area_end = area.x + area.width;
    let bottom = area.y + area.height - 1;
    let sep = left.x + left.width - 1;
    let crosses = area.x + 1 <= sep && sep + 1 < area_end;
    mark_if(
        centered(9, left) >= title_end + 1,
        MarkView {
            x: centered(9, left),
            y: area.y as int,
            span: style::span_of(" Planned "@, heading),
        },
    ) + mark_if(
        centered(5, right) + 6 <= area_end,
        MarkView {
            x: centered(5, right),
            y: area.y as int,
            span: style::span_of(" Did "@, heading),
        },
    ) + mark_if(
        crosses,
        MarkView { x: sep, y: area.y as int, span: style::span_of("┬"@, dim) },
    ) + mark_if(crosses, MarkView { x: sep, y: bottom, span: style::span_of("┴"@, dim) })
}

fn add_mark(marks: &mut Vec<Mark>, x: u16, y: u16, text: &str, style: Style)
    ensures
        marks_view(final(marks)@) == marks_view(old(marks)@) + seq![
            (MarkView { x: x as int, y: y as int, span: style::span_of(text@, style) }),
        ],
{
    let ghost before = marks_view(marks@);
    marks.push(Mark { x, y, span: Span::styled(text, style) });
    assert(marks_view(marks@) =~= before + seq![
        (MarkView { x: x as int, y: y as int, span: style::span_of(text@, style) }),
    ]);
}

/// Inline "Planned" / "Did" headings on the top border, plus ┬/┴ connectors where
/// the inner column separator meets the borders. Skips what doesn't fit cleanly.
pub fn border_marks(area: Rect, left: Rect, right: Rect, title: &str) -> (r: Vec<Mark>)
    requires
        area.wf(),
        left.wf(),
        right.wf(),
        area.height > 0,
        left.x + left.width > 0,
    ensures
        marks_view(r@) == card_marks(area, left, right, title@.len()),
{
    proof {
        reveal_strlit(" Planned ");
        reveal_strlit(" Did ");
    }
    let title_len: u32 = (title.unicode_len() % 0x1_0000) as u32;
    let title_end: u32 = area.x as u32 + 1 + title_len;
    let area_end: u32 = area.x as u32 + area.width as u32;
    let heading = Style::bold(Colour::DarkGray);
    let dim = Style::colour(Colour::DarkGray);
    let sep: u16 = left.x + left.width - 1;
    let planned_x: u16 = label_centered(" Planned ", left);
    let did_x: u16 = label_centered(" Did ", right);
    let mut out: Vec<Mark> = Vec::new();
    assert(marks_view(out@) =~= Seq::<MarkView>::empty());
    if planned_x as u32 >= title_end + 1 {
        add_mark(&mut out, planned_x, area.y, " Planned ", heading);
    }
    if did_x as u32 + 6 <= area_end {
        add_mark(&mut out, did_x, area.y, " Did ", heading);
    }
    if sep as u32 >= area.x as u32 + 1 && (sep as u32 + 1) < area_end {
        add_mark(&mut out, sep, area.y, "┬", dim);
        add_mark(&mut out, sep, area.y + area.height - 1, "┴", dim);
    }
    assert(marks_view(out@) =~= card_marks(area, left, right, title@.len()));
    out
}

// ---------------------------------------------------------------------------
// Laws of the keys
// ---------------------------------------------------------------------------

/// Down, then up by as many days leads back.
pub proof fn lemma_up_after_down(s: HistoryView, down: KeyEvent, up: KeyEvent, first: Option<i32>)
    requires
        s.pending != Some('g'),
        is_down(down),
        is_up(up),
        s.count is None,
        date::is_day(s.selected as int),
        fits(s, down),
    ensures
        fits(keyed(s, down, first), up),
        keyed(keyed(s, down, first), up, first) == s,
{
}

/// The other way of showing the days, twice: as it was, but placed anew.
pub proof fn lemma_toggle_twice(s: HistoryView, k: KeyEvent, first: Option<i32>)
    requires
        s.pending != Some('g'),
        k.code == KeyCode::Char('z'),
    ensures
        keyed(keyed(s, k, first), k, first) == (HistoryView {
            count: None,
            initialized: false,
            ..s
        }),
{
}

/// Two digits, then a motion: it goes as many days as the digits say.
pub proof fn lemma_count_of_two_digits(
    s: HistoryView,
    a: KeyEvent,
    b: KeyEvent,
    down: KeyEvent,
    first: Option<i32>,
)
    requires
        s.pending != Some('g'),
        s.count is None,
        date::is_day(s.selected as int),
        a.modifiers.empty(),
        b.modifiers.empty(),
        a.code matches KeyCode::Char(c) && '1' <= c <= '9',
        b.code matches KeyCode::Char(c) && '0' <= c <= '9',
        is_down(down),
        s.selected + 99 <= date::MAX_DAY,
    ensures
        ({
            let x = a.code->Char_0 as int - '0' as int;
            let y = b.code->Char_0 as int - '0' as int;
            let t = keyed(keyed(s, a, first), b, first);
            &&& fits(s, a)
            &&& fits(keyed(s, a, first), b)
            &&& fits(t, down)
            &&& keyed(t, down, first) == (HistoryView {
                selected: (s.selected + 10 * x + y) as i32,
                ..s
            })
        }),
{
}

/// `gg` leads to the first recorded day, where there is one; `G` leads to today.
pub proof fn lemma_jumps(s: HistoryView, g: KeyEvent, end: KeyEvent, first: Option<i32>)
    requires
        s.pending is None,
        g.code == KeyCode::Char('g'),
        end.code == KeyCode::Char('G'),
    ensures
        keyed(keyed(s, g, first), g, first) == (HistoryView {
            count: None,
            selected: match first {
                Some(day) => day,
                None => s.selected,
            },
            ..s
        }),
        keyed(s, end, first) == (HistoryView { count: None, selected: s.today, ..s }),
{
}

/// A motion goes as many days as the count says, or one; `gg` leads to the first recorded day,
/// `G` to today; no other key changes the selected day, and none changes what today is.
pub proof fn lemma_selected_by_keys(s: HistoryView, k: KeyEvent, first: Option<i32>)
    requires
        fits(s, k),
        date::is_day(s.selected as int),
    ensures
        ({
            let t = keyed(s, k, first);
            let n = match s.count {
                Some(n) => n as int,
                None => 1,
            };
            let waiting = s.pending == Some('g');
            &&& t.today == s.today && t.top == s.top
            &&& !waiting && (k.code == KeyCode::Char('j') || k.code == KeyCode::Down) ==> t.selected
                == s.selected + n
            &&& !waiting && (k.code == KeyCode::Char('k') || k.code == KeyCode::Up) ==> t.selected
                == s.selected - n
            &&& !waiting && k.code == KeyCode::Char('G') ==> t.selected == s.today
            &&& waiting && k.code == KeyCode::Char('g') && first is Some ==> t.selected == first->0
            &&& waiting && (k.code != KeyCode::Char('g') || first is None) ==> t.selected
                == s.selected
            &&& !waiting && k.code != KeyCode::Char('j') && k.code != KeyCode::Down && k.code
                != KeyCode::Char('k') && k.code != KeyCode::Up && k.code != KeyCode::Char('G')
                ==> t.selected == s.selected
            &&& (t.pending == Some('g')) == (!waiting && k.code == KeyCode::Char('g'))
                || s.pending is Some
            &&& (t.mode == s.mode) == (waiting || k.code != KeyCode::Char('z'))
        }),
{
}

/// A digit is put behind the count; a `0` starts none. Any other key ends the count.
pub proof fn lemma_count_by_keys(s: HistoryView, k: KeyEvent, first: Option<i32>, d: int)
    requires
        fits(s, k),
        s.pending is None,
        0 <= d <= 9,
        k.code matches KeyCode::Char(c) && c as int == '0' as int + d,
        !k.modifiers.shift && !k.modifiers.control && !k.modifiers.alt && !k.modifiers.other,
    ensures
        ({
            let t = keyed(s, k, first);
            &&& s.count matches Some(n) ==> n >= 400_000_000 || t.count == Some((n * 10 + d) as u32)
            &&& s.count is None && d > 0 ==> t.count == Some(d as u32)
            &&& s.count is None && d == 0 ==> t.count is None
            &&& t.selected == s.selected && t.mode == s.mode && t.pending is None
        }),
{
}

/// A key that is no digit ends the count.
pub proof fn lemma_count_ends(s: HistoryView, k: KeyEvent, first: Option<i32>)
    requires
        k.code matches KeyCode::Char(c) ==> !('0' <= c <= '9'),
    ensures
        keyed(s, k, first).count is None,
{
}

/// `Enter` selects and `Esc` or `q` closes, unless the second key of `gg` is waited for; no
/// other key does.
pub proof fn lemma_actions(s: HistoryView, k: KeyEvent)
    ensures
        selects(s, k) == (s.pending != Some('g') && k.code == KeyCode::Enter),
        closes(s, k) == (s.pending != Some('g') && (k.code == KeyCode::Esc || k.code
            == KeyCode::Char('q'))),
{
}

/// Each column of a card has a row for each item of its list, whatever the other list holds:
/// a dash between blanks, and the item. A list without items has one row with a long dash.
pub proof fn lemma_card_shows_entry(s: HistoryView, m: Map<i32, EntryView>, day: i32, i: int)
    requires
        m.contains_key(day),
    ensures
        ({
            let card = card_of(s, m, day);
            let planned = m[day].planning;
            let did = m[day].did;
            &&& planned.len() > 0 ==> card.planned.len() == planned.len()
            &&& did.len() > 0 ==> card.did.len() == did.len()
            &&& 0 <= i < planned.len() ==> card.planned[i].len() == 1 && card.planned[i][0].text
                == " - "@ + planned[i]
            &&& 0 <= i < did.len() ==> card.did[i].len() == 1 && card.did[i][0].text == " - "@
                + did[i]
            &&& planned.len() == 0 ==> card.planned.len() == 1 && card.planned[0][0].text == " —"@
            &&& did.len() == 0 ==> card.did.len() == 1 && card.did[0][0].text == " —"@
        }),
{
}

/// A card without an entry has a long dash in each column. The title of a card is the date,
/// with a note on the card of today; the border is yellow on the selected card, else green on
/// that of today.
pub proof fn lemma_card_head(s: HistoryView, m: Map<i32, EntryView>, day: i32)
    ensures
        ({
            let card = card_of(s, m, day);
            &&& !m.contains_key(day) ==> card.planned.len() == 1 && card.did.len() == 1
                && card.planned[0][0].text == " —"@ && card.did[0][0].text == " —"@
            &&& day == s.today ==> card.title.text == " "@ + date::day_label(day) + " (today) "@
            &&& day != s.today ==> card.title.text == " "@ + date::day_label(day) + " "@
            &&& (card.border == Colour::Yellow) == (day == s.selected)
            &&& (card.border == Colour::Green) == (day == s.today && day != s.selected)
            &&& (card.border == Colour::DarkGray) == (day != s.today && day != s.selected)
            &&& card.title.style.fg == Some(card.border)
            &&& card.title.style.bold == (day == s.selected)
        }),
{
}

/// A row has four cells: how many days it is away, its date, what was planned, and what was
/// done, each list with dots between its items; a long dash stands for nothing.
pub proof fn lemma_row_cells(s: HistoryView, m: Map<i32, EntryView>, day: i32)
    ensures
        ({
            let row = day_row(s, m, day);
            let planned = text::joined(m[day].planning, " · "@);
            let did = text::joined(m[day].did, " · "@);
            &&& row.len() == 4
            &&& row[0].text == relnum(day as int, s.selected as int)
            &&& day == s.today ==> row[1].text == " "@ + date::day_label(day) + " *"@
            &&& day != s.today ==> row[1].text == " "@ + date::day_label(day)
            &&& m.contains_key(day) && planned.len() > 0 ==> row[2].text == planned
            &&& m.contains_key(day) && did.len() > 0 ==> row[3].text == did
            &&& m.contains_key(day) && planned.len() == 0 ==> row[2].text == "—"@
            &&& m.contains_key(day) && did.len() == 0 ==> row[3].text == "—"@
            &&& !m.contains_key(day) ==> row[2].text == "—"@ && row[3].text == "—"@
        }),
{
}

/// The number of a row or card is how many days it is away, either way, in four columns or
/// more, with blanks before it and one behind it.
pub proof fn lemma_relative_number(day: int, selected: int)
    ensures
        ({
            let s = relnum(day, selected);
            let digits = text::decimal(
                if day >= selected {
                    (day - selected) as nat
                } else {
                    (selected - day) as nat
                },
            );
            &&& s.last() == ' '
            &&& s.len() == if digits.len() > 3 {
                digits.len() + 1
            } else {
                4
            }
            &&& s.subrange(s.len() - 1 - digits.len(), s.len() - 1) == digits
            &&& forall|i: int| 0 <= i < s.len() - 1 - digits.len() ==> #[trigger] s[i] == ' '
        }),
        relnum(day, selected) == relnum(selected, day),
{
    reveal_strlit(" ");
    let s = relnum(day, selected);
    let digits = text::decimal(
        if day >= selected {
            (day - selected) as nat
        } else {
            (selected - day) as nat
        },
    );
    assert(s.subrange(s.len() - 1 - digits.len(), s.len() - 1) =~= digits);
}

/// A card is as high as the longer of its lists, one row at least, and its two borders.
pub proof fn lemma_height_of_card(m: Map<i32, EntryView>, day: i32)
    requires
        m.contains_key(day) ==> m[day].planning.len() <= 60_000 && m[day].did.len() <= 60_000,
    ensures
        !m.contains_key(day) ==> height_of(m, day as int) == 3,
        m.contains_key(day) ==> {
            let (p, d) = (m[day].planning.len() as int, m[day].did.len() as int);
            let h = height_of(m, day as int);
            &&& h >= 3 && h >= p + 2 && h >= d + 2
            &&& h == 3 || h == p + 2 || h == d + 2
        },
{
}

/// The heights of cards add up.
pub proof fn lemma_total_height(cards: Seq<(int, int)>, card: (int, int))
    ensures
        total_height(cards.push(card)) == total_height(cards) + card.1,
        total_height(Seq::empty()) == 0,
    decreases cards.len(),
{
    if cards.len() == 0 {
        assert(cards.push(card).drop_first() =~= cards);
        assert(total_height(cards) == 0);
    } else {
        assert(cards.push(card).drop_first() =~= cards.drop_first().push(card));
        lemma_total_height(cards.drop_first(), card);
    }
}

proof fn lemma_three_cards(m: Map<i32, EntryView>, day: int, height: int)
    requires
        date::is_day(day),
        day + 2 <= date::MAX_DAY,
        height_of(m, day) >= 0,
        height_of(m, day + 1) >= 0,
        height_of(m, day + 2) > 0,
        height_of(m, day) + height_of(m, day + 1) + height_of(m, day + 2) <= height,
    ensures
        plan(m, day, height, 0).len() >= 3,
{
    let a = height_of(m, day);
    let b = height_of(m, day + 1);
    assert(plan(m, day + 2, height, a + b).len() >= 1);
    assert(plan(m, day + 1, height, a).len() >= 2);
}

proof fn lemma_placed(m: Map<i32, EntryView>, selected: int, top: int, height: int, tries: nat)
    requires
        date::is_day(top),
        date::is_day(selected - 1),
        date::is_day(selected + 1),
        height_of(m, selected - 1) >= 0,
        height_of(m, selected) > 0,
        height_of(m, selected + 1) > 0,
        height_of(m, selected - 1) + height_of(m, selected) + height_of(m, selected + 1) <= height,
        tries >= 1,
        selected - 1 - top <= tries,
    ensures
        ({
            let p = placed(m, selected, top, height, tries);
            0 < selected - p < plan(m, p, height, 0).len() - 1
        }),
    decreases tries,
{
    lemma_three_cards(m, selected - 1, height);
    if well_placed(m, selected, top, height) {
        if plan(m, top, height, 0).len() == 1 {
            assert(selected == top);
            assert(plan(m, selected, height, 0).len() >= 2) by {
                assert(plan(m, selected + 1, height, height_of(m, selected)).len() >= 1);
            }
        }
    } else {
        assert(selected == top ==> plan(m, top, height, 0).len() > 0);
        let next = next_top(m, selected, top, height);
        if tries == 1 {
            assert(next == selected - 1);
            assert(placed(m, selected, next, height, 0) == next);
        } else {
            lemma_placed(m, selected, next, height, (tries - 1) as nat);
        }
    }
}

/// Where the cards of the selected day and of its neighbours fit, the layout shows all three:
/// of a new history, and of one whose first day is at most thirty days before the selected one
/// or comes after it.
pub proof fn lemma_layout_shows_neighbours(s: HistoryView, m: Map<i32, EntryView>, height: int)
    requires
        date::is_day(s.selected - 2),
        date::is_day(s.selected + 1),
        date::is_day(s.top as int),
        s.initialized ==> s.selected - s.top <= 30,
        height_of(m, s.selected - 1) > 0,
        height_of(m, s.selected as int) > 0,
        height_of(m, s.selected + 1) > 0,
        height_of(m, s.selected - 1) + height_of(m, s.selected as int) + height_of(m, s.selected + 1)
            <= height,
    ensures
        ({
            let top = top_for_cards(s, m, height);
            0 < s.selected - top < plan(m, top, height, 0).len() - 1
        }),
{
    lemma_placed(
        m,
        s.selected as int,
        if s.initialized {
            s.top as int
        } else {
            s.selected - 2
        },
        height,
        LAYOUT_TRIES as nat,
    );
}

/// There are as many rows as asked for, unless the calendar ends before.
pub proof fn lemma_row_count(top: int, n: int)
    requires
        date::is_day(top),
        n > 0,
    ensures
        0 < days_from(top, n) <= n,
        top + days_from(top, n) - 1 <= date::MAX_DAY,
        days_from(top, n) < n ==> top + days_from(top, n) - 1 == date::MAX_DAY,
{
}

/// A heading in the middle of a column has as much room before it as behind it, give or take
/// one; one that is too long starts with the column.
pub proof fn lemma_heading_in_the_middle(len: int, col: Rect)
    requires
        len >= 0,
    ensures
        len < col.width ==> {
            let before = centered(len, col) - col.x;
            let behind = col.x + col.width - (centered(len, col) + len);
            0 <= before && 0 <= behind - before <= 1
        },
        len >= col.width ==> centered(len, col) == col.x,
{
}

/// What is drawn over the border of a card: the headings, each only where there is room, and
/// two joints where the line between the columns is inside the card.
pub proof fn lemma_card_marks(area: Rect, left: Rect, right: Rect, title_len: nat)
    requires
        title_len < 0x1_0000,
    ensures
        ({
            let marks = card_marks(area, left, right, title_len);
            let sep = left.x + left.width - 1;
            let planned = centered(9, left) > area.x + 1 + title_len;
            let did = centered(5, right) + 5 < area.x + area.width;
            let joints = area.x < sep < area.x + area.width - 1;
            &&& marks.len() == (if planned {
                1int
            } else {
                0
            }) + (if did {
                1int
            } else {
                0
            }) + (if joints {
                2int
            } else {
                0
            })
            &&& planned ==> marks[0].span.text == " Planned "@ && marks[0].y == area.y && marks[0].x
                == centered(9, left)
            &&& did ==> {
                let mark = marks[if planned {
                    1int
                } else {
                    0
                }];
                mark.span.text == " Did "@ && mark.y == area.y && mark.x == centered(5, right)
            }
            &&& joints ==> {
                let n = marks.len();
                &&& marks[n - 2].span.text == "┬"@ && marks[n - 2].y == area.y && marks[n - 2].x
                    == sep
                &&& marks[n - 1].span.text == "┴"@ && marks[n - 1].y == area.y + area.height - 1
                    && marks[n - 1].x == sep
            }
        }),
{
}

/// After `g` the next key is waited for, whatever it is, and then no longer. No other key
/// is waited for, and only `z` has the days placed anew.
pub proof fn lemma_waiting(s: HistoryView, k: KeyEvent, first: Option<i32>)
    ensures
        ({
            let t = keyed(s, k, first);
            let waiting = s.pending == Some('g');
            &&& waiting ==> t.pending is None && t.count is None && t.mode == s.mode && t.initialized
                == s.initialized
            &&& !waiting && k.code == KeyCode::Char('g') ==> t.pending == Some('g')
            &&& !waiting && k.code != KeyCode::Char('g') ==> t.pending == s.pending
            &&& !waiting && k.code == KeyCode::Char('z') ==> !t.initialized && t.mode != s.mode
            &&& k.code != KeyCode::Char('z') ==> t.initialized == s.initialized
        }),
{
}

/// A digit with a modifier is no part of a count: it ends one, as other keys do. Ten times
/// a count that is too large is the largest count.
pub proof fn lemma_odd_counts(s: HistoryView, k: KeyEvent, first: Option<i32>, d: int)
    requires
        fits(s, k),
        s.pending is None,
        0 <= d <= 9,
        k.code matches KeyCode::Char(c) && c as int == '0' as int + d,
    ensures
        k.modifiers.shift || k.modifiers.control || k.modifiers.alt || k.modifiers.other
            ==> keyed(s, k, first) == (HistoryView { count: None, ..s }),
        k.modifiers.empty() && (s.count matches Some(n) && n * 10 <= u32::MAX) ==> keyed(
            s,
            k,
            first,
        ).count == Some((s.count->0 * 10 + d) as u32),
        k.modifiers.empty() && (s.count matches Some(n) && n * 10 > u32::MAX) ==> keyed(
            s,
            k,
            first,
        ).count == Some(u32::MAX),
{
}

/// Where the rows are placed: of a new view the selected day comes last but one, or last
/// with fewer than three rows. A selected day that is too far down comes last but one as
/// well, and one that is too far up second. With fewer than three rows it is the last and
/// the first.
pub proof fn lemma_rows_placed(s: HistoryView, n: int)
    requires
        n > 0,
        date::is_day(s.selected - n),
    ensures
        ({
            let above = s.selected - top_for_rows(s, n);
            &&& n >= 3 && (!s.initialized || s.selected - s.top > n - 2) ==> above == n - 2
            &&& n >= 3 && s.initialized && s.selected - s.top < 1 ==> above == 1
            &&& n < 3 && (!s.initialized || s.selected - s.top > n - 1) ==> above == n - 1
            &&& n < 3 && s.initialized && s.selected < s.top ==> above == 0
        }),
{
}

proof fn lemma_placed_first(
    m: Map<i32, EntryView>,
    selected: int,
    top: int,
    height: int,
    tries: nat,
    t: int,
)
    requires
        date::is_day(top),
        top <= t,
        t - top <= tries,
        date::is_day(t),
        well_placed(m, selected, t, height),
        forall|u: int| top <= u < t ==> u < selected && !#[trigger] well_placed(m, selected, u, height),
    ensures
        placed(m, selected, top, height, tries) == t,
    decreases t - top,
{
    if top < t {
        assert(!well_placed(m, selected, top, height));
        lemma_placed_first(m, selected, top + 1, height, (tries - 1) as nat, t);
    }
}

/// Cards scroll no further than they must: where the selected day comes after the first
/// card, the first card is that of the first day from there on with which the selected day
/// has a card above and below it, or stands alone. A new view starts two days before the
/// selected day.
pub proof fn lemma_cards_scroll_least(s: HistoryView, m: Map<i32, EntryView>, height: int, t: int)
    requires
        date::is_day(s.selected - 2),
        date::is_day(s.selected as int),
        date::is_day(s.top as int),
        ({
            let start = if s.initialized {
                s.top as int
            } else {
                s.selected - 2
            };
            let shows = |u: int|
                {
                    let cards = plan(m, u, height, 0).len();
                    if cards > 1 {
                        u < s.selected < u + cards - 1
                    } else {
                        cards == 1 && u == s.selected
                    }
                };
            &&& start <= t <= start + 32
            &&& t <= s.selected
            &&& shows(t)
            &&& forall|u: int| start <= u < t ==> !#[trigger] shows(u)
        }),
    ensures
        top_for_cards(s, m, height) == t,
{
    let start = if s.initialized {
        s.top as int
    } else {
        s.selected - 2
    };
    let shows = |u: int|
        {
            let cards = plan(m, u, height, 0).len();
            if cards > 1 {
                u < s.selected < u + cards - 1
            } else {
                cards == 1 && u == s.selected
            }
        };
    assert forall|u: int| start <= u <= t implies #[trigger] well_placed(
        m,
        s.selected as int,
        u,
        height,
    ) == shows(u) by {}
    assert(shows(t));
    lemma_placed_first(m, s.selected as int, start, height, LAYOUT_TRIES as nat, t);
}

/// A selected day above the cards is scrolled to with one card above it, where that shows
/// it well.
pub proof fn lemma_cards_scroll_up(s: HistoryView, m: Map<i32, EntryView>, height: int)
    requires
        s.initialized,
        s.selected < s.top,
        date::is_day(s.selected - 1),
        plan(m, s.selected - 1, height, 0).len() > 2,
    ensures
        top_for_cards(s, m, height) == s.selected - 1,
{
    let top = s.selected - 1;
    assert(!well_placed(m, s.selected as int, s.top as int, height));
    assert(well_placed(m, s.selected as int, top, height));
    assert(placed(m, s.selected as int, top, height, (LAYOUT_TRIES - 1) as nat) == top);
}

/// What [`HistoryState::card`] returns: a row for everything that is planned, whatever was
/// done, and a row for everything that was done, whatever is planned.
pub proof fn lemma_card(state: &HistoryState, date: Date, store: &Store, r: Card, i: int)
    requires
        call_ensures(HistoryState::card, (state, date, store), r),
        store@.contains_key(date@),
    ensures
        ({
            let planned = store@[date@].planning;
            let did = store@[date@].did;
            &&& planned.len() > 0 ==> r.planned@.len() == planned.len()
            &&& did.len() > 0 ==> r.did@.len() == did.len()
            &&& 0 <= i < planned.len() ==> r.planned@[i]@ == seq![
                style::raw_span(seq![' ', '-', ' '] + planned[i]),
            ]
            &&& 0 <= i < did.len() ==> r.did@[i]@ == seq![
                style::raw_span(seq![' ', '-', ' '] + did[i]),
            ]
        }),
{
    reveal_strlit(" - ");
    assert(" - "@ =~= seq![' ', '-', ' ']);
    let planned = store@[date@].planning;
    let did = store@[date@].did;
    assert(style::lines_view(r.planned@).len() == r.planned@.len());
    assert(style::lines_view(r.did@).len() == r.did@.len());
    if 0 <= i < planned.len() {
        assert(style::lines_view(r.planned@)[i] == r.planned@[i]@);
    }
    if 0 <= i < did.len() {
        assert(style::lines_view(r.did@)[i] == r.did@[i]@);
    }
}

/// The history starts at today with cards that are not placed yet. It is called after the
/// way in which it shows the days, and the cells above the rows name them.
pub proof fn lemma_start_and_labels(
    today: Date,
    new: HistoryState,
    state: &HistoryState,
    label: &'static str,
    header: Line,
)
    requires
        call_ensures(HistoryState::new, (today,), new),
        call_ensures(HistoryState::view_label, (state,), label),
        call_ensures(compact_header, (), header),
    ensures
        new@.today == today@ && new@.selected == today@ && new@.mode == ViewMode::Box
            && !new@.initialized && new@.pending is None && new@.count is None,
        state@.mode == ViewMode::Box ==> label@ == "box"@,
        state@.mode == ViewMode::Compact ==> label@ == "compact"@,
        header@.len() == 4,
        header@[1].text == " Date"@,
        header@[2].text == " Planned"@,
        header@[3].text == " Did"@,
{
}

/// The number beside a card is in the row of the card, as wide as the column; beside a card
/// that is outside the column there is none. It is yellow just beside the selected card.
pub proof fn lemma_number_place(
    column: Rect,
    y: u16,
    place: Option<Rect>,
    state: &HistoryState,
    date: Date,
    number: Span,
)
    requires
        call_ensures(relnum_place, (column, y), place),
        call_ensures(HistoryState::relnum_span, (state, date), number),
    ensures
        place is Some == (column.y <= y < column.y + column.height),
        place matches Some(r) ==> r.x == column.x && r.y == y && r.width == column.width && r.height
            == 1,
        number@.text == relnum(date@ as int, state@.selected as int),
        (number@.style.fg == Some(Colour::Yellow)) == (date@ == state@.selected),
        number@.style.bold == (date@ == state@.selected),
{
}

} // verus!
