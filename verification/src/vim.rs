//! A text area with vim's keys: a normal and an insert mode, and an undo of its
//! own.

use crate::area;
use crate::area::{Area, Motion, Text};
use crate::key::{KeyCode, KeyEvent};
use crate::text;
use std::time::Instant;
use vstd::prelude::*;

verus! {

/// `std::time::Instant`, held as it is.
#[verifier::external_type_specification]
#[verifier::external_body]
pub struct ExInstant(std::time::Instant);

/// What keys do.
#[derive(Clone, Copy, PartialEq, Eq, Debug, Structural)]
pub enum Mode {
    /// They are commands.
    Normal,
    /// They are text.
    Insert,
}

impl Mode {
    /// The name of the mode.
    pub open spec fn name(self) -> Seq<char> {
        match self {
            Mode::Normal => "NORMAL"@,
            Mode::Insert => "INSERT"@,
        }
    }

    /// The name of the mode, to show.
    pub fn label(self) -> (r: &'static str)
        ensures
            r@ == self.name(),
    {
        match self {
            Mode::Normal => "NORMAL",
            Mode::Insert => "INSERT",
        }
    }
}

/// The first key of a command of two keys, where it was pressed.
#[derive(Clone, Copy, PartialEq, Eq, Debug, Structural)]
pub enum Pending {
    Nothing,
    G,
    D,
    C,
}

/// How long two `j` presses may be apart, in nanoseconds, for them to be treated
/// as `<Esc>` in insert mode.
pub const JJ_TIMEOUT: u128 = 250_000_000;

/// A text and its cursor, to go back to.
struct Snapshot {
    lines: Vec<String>,
    cursor: (usize, usize),
}

/// The view of a snapshot.
#[verifier::ext_equal]
pub struct Snap {
    pub lines: Seq<Seq<char>>,
    pub row: int,
    pub col: int,
}

impl View for Snapshot {
    type V = Snap;

    closed spec fn view(&self) -> Snap {
        Snap {
            lines: text::texts(self.lines@),
            row: self.cursor.0 as int,
            col: self.cursor.1 as int,
        }
    }
}

spec fn snaps(stack: Seq<Snapshot>) -> Seq<Snap> {
    Seq::new(stack.len(), |i: int| stack[i]@)
}

/// A text area with vim's keys.
pub struct VimBuffer<'a> {
    pub area: Area<'a>,
    pub mode: Mode,
    pending: Pending,
    last_j_at: Option<Instant>,
    /// How long two `j` presses may be apart to leave insert mode, in
    /// nanoseconds.
    pub jj_timeout: u128,
    undo_stack: Vec<Snapshot>,
    redo_stack: Vec<Snapshot>,
    /// Taken when insert mode is entered; what leaving it compares with.
    pre_insert: Option<Snapshot>,
}

/// The view of a buffer.
#[verifier::ext_equal]
pub struct VimState {
    pub text: Text,
    pub mode: Mode,
    pub pending: Pending,
    /// When the last key, a `j`, was pressed in insert mode.
    pub last_j_at: Option<Instant>,
    pub jj_timeout: u128,
    /// What undoing goes back to, the next last.
    pub undo: Seq<Snap>,
    /// What redoing goes back to, the next last.
    pub redo: Seq<Snap>,
    /// The text as it was when insert mode was entered.
    pub pre_insert: Option<Snap>,
}

impl<'a> View for VimBuffer<'a> {
    type V = VimState;

    closed spec fn view(&self) -> VimState {
        VimState {
            text: area::text_of(self.area),
            mode: self.mode,
            pending: self.pending,
            last_j_at: self.last_j_at,
            jj_timeout: self.jj_timeout,
            undo: snaps(self.undo_stack@),
            redo: snaps(self.redo_stack@),
            pre_insert: match self.pre_insert {
                Some(s) => Some(s@),
                None => None,
            },
        }
    }
}

// ---------------------------------------------------------------------------
// What the keys do
// ---------------------------------------------------------------------------

impl Text {
    /// Without what is in the line of the cursor, which is cut.
    pub open spec fn line_cleared(self) -> Text {
        let line = self.lines[self.row];
        if line.len() == 0 {
            Text { col: 0, mark: None, ..self }
        } else {
            Text {
                cut: seq![line],
                ..self.changed(
                    self.lines.update(self.row, Seq::empty()),
                    (self.row, line.len() as int),
                    (self.row, 0),
                )
            }
        }
    }

    /// Without the line of the cursor, which is cut; a sole line is cleared.
    pub open spec fn line_deleted(self) -> Text {
        let line = self.lines[self.row];
        let rest = self.lines.remove(self.row);
        if self.lines.len() <= 1 {
            self.line_cleared()
        } else if self.row + 1 < self.lines.len() {
            Text {
                cut: seq![line, Seq::empty()],
                ..self.changed(rest, (self.row + 1, 0), (self.row, 0))
            }
        } else {
            Text {
                cut: seq![Seq::empty(), line],
                ..self.changed(
                    rest,
                    (self.row, line.len() as int),
                    (self.row - 1, self.lines[self.row - 1].len() as int),
                )
            }
        }
    }
}

/// The text that the command `c` leads to, where it is no undo.
pub open spec fn command_text(t: Text, c: char) -> Text {
    if c == 'h' {
        t.moved(Motion::Back)
    } else if c == 'j' {
        t.moved(Motion::Down)
    } else if c == 'k' {
        t.moved(Motion::Up)
    } else if c == 'l' || c == 'a' {
        t.moved(Motion::Forward)
    } else if c == 'w' {
        t.moved(Motion::WordForward)
    } else if c == 'b' {
        t.moved(Motion::WordBack)
    } else if c == 'e' {
        t.moved(Motion::WordEnd)
    } else if c == '0' || c == 'I' {
        t.moved(Motion::Head)
    } else if c == '$' || c == 'A' {
        t.moved(Motion::End)
    } else if c == 'G' {
        t.moved(Motion::Bottom).moved(Motion::End)
    } else if c == 'o' {
        t.moved(Motion::End).newline()
    } else if c == 'O' {
        t.moved(Motion::Head).newline().moved(Motion::Up)
    } else if c == 'x' {
        t.next_char_deleted()
    } else if c == 'D' || c == 'C' {
        t.rest_deleted()
    } else {
        t
    }
}

/// Whether `k` is control and backspace.
pub open spec fn is_word_delete(k: KeyEvent) -> bool {
    k.code == KeyCode::Backspace && k.modifiers.control
}

/// Whether `k` is left to the app in normal mode.
pub open spec fn is_app_key(k: KeyEvent) -> bool {
    &&& k.modifiers.plain()
    &&& k.code matches KeyCode::Char(c) && (c == 'q' || c == 'y' || c == ' ' || c == ':' || c == '<'
        || c == '>' || c == '[' || c == ']' || c == '?')
}

/// Whether `k` is a `j` without modifiers.
pub open spec fn is_plain_j(k: KeyEvent) -> bool {
    k.code == KeyCode::Char('j') && k.modifiers.empty()
}

impl Snap {
    /// The cursor is in the text.
    pub open spec fn valid(self) -> bool {
        area::place_in(self.lines, (self.row, self.col))
    }

    /// The text of the snapshot with the cursor where it was, as far as the two
    /// numbers of the place fit in 16 bits.
    pub open spec fn text(self) -> Text {
        Text::fresh(self.lines).moved(
            Motion::Jump((self.row % 0x1_0000) as u16, (self.col % 0x1_0000) as u16),
        )
    }
}

impl VimState {
    /// The text and its cursor.
    pub open spec fn snapshot(self) -> Snap {
        Snap { lines: self.text.lines, row: self.text.row, col: self.text.col }
    }

    /// With another text.
    pub open spec fn with(self, text: Text) -> VimState {
        VimState { text, ..self }
    }

    /// With `prev` to go back to, if the text is another by now; then there is
    /// nothing to redo.
    pub open spec fn committed(self, prev: Snap) -> VimState {
        if prev.lines != self.text.lines {
            VimState { undo: self.undo.push(prev), redo: Seq::empty(), ..self }
        } else {
            self
        }
    }

    /// Back at the last snapshot.
    pub open spec fn undone(self) -> VimState {
        if self.undo.len() == 0 {
            self
        } else {
            VimState {
                text: self.undo.last().text(),
                undo: self.undo.drop_last(),
                redo: self.redo.push(self.snapshot()),
                ..self
            }
        }
    }

    /// As before the last undo.
    pub open spec fn redone(self) -> VimState {
        if self.redo.len() == 0 {
            self
        } else {
            VimState {
                text: self.redo.last().text(),
                redo: self.redo.drop_last(),
                undo: self.undo.push(self.snapshot()),
                ..self
            }
        }
    }

    /// In insert mode.
    pub open spec fn inserting(self) -> VimState {
        VimState {
            mode: Mode::Insert,
            pre_insert: if self.pre_insert is None {
                Some(self.snapshot())
            } else {
                self.pre_insert
            },
            ..self
        }
    }

    /// Back in normal mode: what was inserted is one step to undo.
    pub open spec fn left_insert(self) -> VimState {
        let s = VimState { mode: Mode::Normal, last_j_at: None, pre_insert: None, ..self };
        match self.pre_insert {
            Some(prev) => s.committed(prev),
            None => s,
        }
    }

    /// The cursor is in the text, and it was in the snapshots.
    pub open spec fn in_text(self) -> bool {
        &&& self.text.valid()
        &&& forall|i: int| 0 <= i < self.undo.len() ==> (#[trigger] self.undo[i]).valid()
        &&& forall|i: int| 0 <= i < self.redo.len() ==> (#[trigger] self.redo[i]).valid()
        &&& self.pre_insert matches Some(snap) ==> snap.valid()
    }

    /// After the command `c` in normal mode.
    pub open spec fn commanded(self, c: char) -> VimState {
        let t = command_text(self.text, c);
        if c == 'i' || c == 'I' || c == 'a' || c == 'A' || c == 'o' || c == 'O' || c == 'C' {
            self.inserting().with(t)
        } else if c == 'x' || c == 'D' {
            self.with(t).committed(self.snapshot())
        } else if c == 'u' {
            self.undone()
        } else if c == 'g' {
            VimState { pending: Pending::G, ..self }
        } else if c == 'd' {
            VimState { pending: Pending::D, ..self }
        } else if c == 'c' {
            VimState { pending: Pending::C, ..self }
        } else {
            self.with(t)
        }
    }

    /// After `k` in normal mode.
    pub open spec fn normal(self, k: KeyEvent) -> VimState {
        let s = VimState { pending: Pending::Nothing, ..self };
        match self.pending {
            Pending::G => if k.code == KeyCode::Char('g') {
                s.with(s.text.moved(Motion::Top).moved(Motion::Head))
            } else {
                s
            },
            Pending::D => if k.code == KeyCode::Char('d') {
                s.with(s.text.line_deleted()).committed(s.snapshot())
            } else {
                s
            },
            Pending::C => if k.code == KeyCode::Char('c') {
                s.inserting().with(s.text.line_cleared())
            } else {
                s
            },
            Pending::Nothing => if is_app_key(k) {
                self
            } else if k.modifiers.plain() {
                match k.code {
                    KeyCode::Char(c) => self.commanded(c),
                    _ => self,
                }
            } else if k.modifiers.control && k.code == KeyCode::Char('r') {
                self.redone()
            } else {
                self
            },
        }
    }

    /// Whether `k` is a second `j` that comes `since` nanoseconds after the
    /// first, soon enough to leave insert mode.
    pub open spec fn is_jj(self, k: KeyEvent, since: u128) -> bool {
        is_plain_j(k) && self.last_j_at is Some && since <= self.jj_timeout
    }

    /// Whether `k` goes to the text area as it is.
    pub open spec fn types(self, k: KeyEvent, since: u128) -> bool {
        &&& !is_word_delete(k)
        &&& self.mode == Mode::Insert
        &&& k.code != KeyCode::Esc
        &&& !self.is_jj(k, since)
    }

    /// After a key that does not go to the text area.
    pub open spec fn keyed(self, k: KeyEvent, since: u128) -> VimState {
        if is_word_delete(k) {
            self.with(self.text.word_deleted())
        } else if self.mode == Mode::Normal {
            self.normal(k)
        } else if k.code == KeyCode::Esc {
            self.left_insert()
        } else {
            self.with(self.text.char_deleted()).left_insert()
        }
    }

    /// Whether `after` is what `k` can make of the buffer, where it comes at
    /// `now`, `since` nanoseconds after the last `j` if that was the last key.
    pub open spec fn steps_to(
        self,
        k: KeyEvent,
        since: u128,
        now: Instant,
        after: VimState,
    ) -> bool {
        if self.types(k, since) {
            &&& area::typed(self.text, k, after.text)
            &&& after == VimState {
                text: after.text,
                last_j_at: if is_plain_j(k) {
                    Some(now)
                } else {
                    None
                },
                ..self
            }
        } else {
            after == self.keyed(k, since)
        }
    }

    /// Whether `k` is dealt with here.
    pub open spec fn consumes(self, k: KeyEvent) -> bool {
        ||| is_word_delete(k)
        ||| self.mode == Mode::Insert
        ||| self.pending != Pending::Nothing
        ||| !is_app_key(k)
    }
}

// ---------------------------------------------------------------------------
// The buffer
// ---------------------------------------------------------------------------

/// `Instant::now`: the time. Nothing is stated of it.
#[verifier::external_body]
fn clock() -> Instant {
    Instant::now()
}

/// `Instant::elapsed`: the nanoseconds since `t`. Nothing is stated of them.
#[verifier::external_body]
fn nanos_since(t: &Instant) -> u128 {
    t.elapsed().as_nanos()
}

fn clear_line(area: &mut Area)
    ensures
        area::text_of(*final(area)) == area::text_of(*old(area)).line_cleared(),
{
    area::move_cursor(area, Motion::Head);
    area::start_selection(area);
    area::move_cursor(area, Motion::End);
    let ghost t = area::text_of(*area);
    area::cut(area);
    proof {
        let line = t.lines[t.row];
        if line.len() > 0 {
            assert(line.take(0) + line.skip(line.len() as int) =~= Seq::<char>::empty());
            assert(line.subrange(0, line.len() as int) =~= line);
            assert(area::text_of(*area).lines =~= t.lines.update(t.row, Seq::empty()));
        }
    }
}

fn delete_line(area: &mut Area)
    ensures
        area::text_of(*final(area)) == area::text_of(*old(area)).line_deleted(),
{
    let (row, _) = area::cursor_of(area);
    let total: usize = area::lines_of(area).len();
    if total <= 1 {
        clear_line(area);
        return;
    }
    if row + 1 < total {
        area::move_cursor(area, Motion::Head);
        area::start_selection(area);
        area::move_cursor(area, Motion::Down);
        area::move_cursor(area, Motion::Head);
        let ghost t = area::text_of(*area);
        area::cut(area);
        proof {
            let next = t.lines[t.row];
            let line = t.lines[row as int];
            assert(line.take(0) + next.skip(0) =~= next);
            assert(area::text_of(*area).lines =~= t.lines.remove(row as int));
            assert(line.skip(0) =~= line);
            assert(next.take(0) =~= Seq::<char>::empty());
            assert(area::text_of(*area).cut =~= seq![line, Seq::empty()]);
        }
    } else {
        area::move_cursor(area, Motion::Up);
        area::move_cursor(area, Motion::End);
        area::start_selection(area);
        area::move_cursor(area, Motion::Down);
        area::move_cursor(area, Motion::End);
        let ghost t = area::text_of(*area);
        area::cut(area);
        proof {
            let previous = t.lines[row - 1];
            let line = t.lines[row as int];
            assert(previous.take(previous.len() as int) + line.skip(line.len() as int)
                =~= previous);
            assert(area::text_of(*area).lines =~= t.lines.remove(row as int));
            assert(previous.skip(previous.len() as int) =~= Seq::<char>::empty());
            assert(line.take(line.len() as int) =~= line);
            assert(area::text_of(*area).cut =~= seq![Seq::empty(), line]);
        }
    }
}

/// The lower 16 bits of `n`.
fn low16(n: usize) -> (r: u16)
    ensures
        r == n % 0x1_0000,
{
    assert(n as u16 == n % 0x1_0000) by (bit_vector);
    n as u16
}

impl<'a> VimBuffer<'a> {
    /// A buffer in normal mode, with nothing to undo.
    pub fn new(area: Area<'a>) -> (r: Self)
        ensures
            r@ == (VimState {
                text: area::text_of(area),
                mode: Mode::Normal,
                pending: Pending::Nothing,
                last_j_at: None,
                jj_timeout: JJ_TIMEOUT,
                undo: Seq::empty(),
                redo: Seq::empty(),
                pre_insert: None,
            }),
    {
        let r = VimBuffer {
            area,
            mode: Mode::Normal,
            pending: Pending::Nothing,
            last_j_at: None,
            jj_timeout: JJ_TIMEOUT,
            undo_stack: Vec::new(),
            redo_stack: Vec::new(),
            pre_insert: None,
        };
        assert(r@.undo =~= Seq::<Snap>::empty());
        assert(r@.redo =~= Seq::<Snap>::empty());
        r
    }

    fn snapshot(&self) -> (r: Snapshot)
        ensures
            r@ == self@.snapshot(),
    {
        Snapshot {
            lines: text::copy_lines(area::lines_of(&self.area)),
            cursor: area::cursor_of(&self.area),
        }
    }

    fn restore(&mut self, s: Snapshot)
        ensures
            final(self)@ == old(self)@.with(s@.text()),
    {
        let mut area = Area::new(s.lines);
        area::move_cursor(&mut area, Motion::Jump(low16(s.cursor.0), low16(s.cursor.1)));
        self.area = area;
    }

    /// Puts `prev` on the undo stack if the text differs from it.
    fn commit(&mut self, prev: Snapshot)
        ensures
            final(self)@ == old(self)@.committed(prev@),
    {
        if !text::same_lines(prev.lines.as_slice(), area::lines_of(&self.area)) {
            let ghost before = *self;
            self.undo_stack.push(prev);
            self.redo_stack.clear();
            assert(self@.undo =~= before@.undo.push(prev@));
            assert(self@.redo =~= Seq::<Snap>::empty());
        }
    }

    /// Goes back to the last snapshot, if there is one.
    pub fn undo(&mut self)
        ensures
            final(self)@ == old(self)@.undone(),
    {
        let ghost before = *self;
        if let Some(snap) = self.undo_stack.pop() {
            let ghost popped = snaps(self.undo_stack@);
            let current = self.snapshot();
            self.restore(snap);
            self.redo_stack.push(current);
            assert(popped =~= before@.undo.drop_last());
            assert(self@.redo =~= before@.redo.push(current@));
        }
    }

    /// Takes back the last undo, if there is one.
    pub fn redo(&mut self)
        ensures
            final(self)@ == old(self)@.redone(),
    {
        let ghost before = *self;
        if let Some(snap) = self.redo_stack.pop() {
            let ghost popped = snaps(self.redo_stack@);
            let current = self.snapshot();
            self.restore(snap);
            self.undo_stack.push(current);
            assert(popped =~= before@.redo.drop_last());
            assert(self@.undo =~= before@.undo.push(current@));
        }
    }

    fn enter_insert(&mut self)
        ensures
            final(self)@ == old(self)@.inserting(),
    {
        if self.pre_insert.is_none() {
            self.pre_insert = Some(self.snapshot());
        }
        self.mode = Mode::Insert;
    }

    fn leave_insert(&mut self)
        ensures
            final(self)@ == old(self)@.left_insert(),
    {
        self.mode = Mode::Normal;
        self.last_j_at = None;
        if let Some(snap) = self.pre_insert.take() {
            self.commit(snap);
        }
    }

    /// The lines of the text.
    pub fn lines(&self) -> (r: &[String])
        ensures
            text::texts(r@) == self@.text.lines,
            r@.len() > 0,
    {
        area::lines_of(&self.area)
    }

    /// The row of the cursor, and how many characters are before it there.
    pub fn cursor(&self) -> (r: (usize, usize))
        ensures
            r.0 == self@.text.row,
            r.1 == self@.text.col,
            self@.text.has_place((r.0 as int, r.1 as int)),
    {
        area::cursor_of(&self.area)
    }

    /// The text area.
    pub fn area(&self) -> (r: &Area<'a>)
        ensures
            area::text_of(*r) == self@.text,
    {
        &self.area
    }

    /// What keys do.
    pub fn mode(&self) -> (r: Mode)
        ensures
            r == self@.mode,
    {
        self.mode
    }

    /// How long two `j` presses may be apart to leave insert mode, in nanoseconds.
    pub fn jj_timeout(&self) -> (r: u128)
        ensures
            r == self@.jj_timeout,
    {
        self.jj_timeout
    }

    /// Sets how long two `j` presses may be apart to leave insert mode, in
    /// nanoseconds.
    pub fn set_jj_timeout(&mut self, nanos: u128)
        ensures
            final(self)@ == (VimState { jj_timeout: nanos, ..old(self)@ }),
    {
        self.jj_timeout = nanos;
    }

    /// Says that the text is on the screen with so many columns and rows, which keys
    /// that scroll go by. A text too large for that stays as it is.
    pub fn show(&mut self, width: u16, height: u16)
        ensures
            final(self)@ == if area::can_show(old(self)@.text, width, height) {
                old(self)@.with(old(self)@.text.shown(width, height))
            } else {
                old(self)@
            },
    {
        self.area.show(width, height);
    }

    /// Whether the first key of a command of two keys was pressed.
    pub fn has_pending(&self) -> (r: bool)
        ensures
            r == (self@.pending != Pending::Nothing),
    {
        self.pending != Pending::Nothing
    }
}

impl<'a> VimBuffer<'a> {
    /// Deals with a key. Returns false if the key should be handled at the app
    /// level (e.g. `y` yank verb, `<space>` leader).
    pub fn input(&mut self, k: KeyEvent) -> (r: bool)
        ensures
            r == old(self)@.consumes(k),
            exists|since: u128, now: Instant| #[trigger]
                old(self)@.steps_to(k, since, now, final(self)@),
    {
        let since: u128 = match &self.last_j_at {
            Some(t) => nanos_since(t),
            None => 0,
        };
        let now = clock();
        self.input_timed(k, since, now)
    }

    /// Deals with a key that comes at `now`, `since` nanoseconds after the last
    /// `j` if that was the last key.
    pub fn input_timed(&mut self, k: KeyEvent, since: u128, now: Instant) -> (r: bool)
        ensures
            r == old(self)@.consumes(k),
            old(self)@.steps_to(k, since, now, final(self)@),
    {
        // Ctrl+Backspace works in any mode.
        if k.code == KeyCode::Backspace && k.modifiers.control {
            area::delete_word(&mut self.area);
            return true;
        }
        match self.mode {
            Mode::Insert => {
                self.input_insert(k, since, now);
                true
            },
            Mode::Normal => self.input_normal(k),
        }
    }

    fn input_insert(&mut self, k: KeyEvent, since: u128, now: Instant)
        requires
            old(self)@.mode == Mode::Insert,
            !is_word_delete(k),
        ensures
            old(self)@.steps_to(k, since, now, final(self)@),
    {
        if k.code == KeyCode::Esc {
            self.leave_insert();
            return;
        }
        // Quick `jj` escape: only triggers when the two j's arrive within `jj_timeout`.
        // Pause briefly between them to type a literal `jj`.
        if k.is_char('j') && k.modifiers.is_empty() {
            if self.last_j_at.is_some() && since <= self.jj_timeout {
                area::delete_char(&mut self.area);
                self.leave_insert();
                return;
            }
            area::press(&mut self.area, k);
            self.last_j_at = Some(now);
            return;
        }
        self.last_j_at = None;
        area::press(&mut self.area, k);
    }

    /// Normal-mode dispatch. Returns false if the app should handle the key.
    fn input_normal(&mut self, k: KeyEvent) -> (r: bool)
        requires
            old(self)@.mode == Mode::Normal,
        ensures
            final(self)@ == old(self)@.normal(k),
            r == (old(self)@.pending != Pending::Nothing || !is_app_key(k)),
    {
        // Resolve pending two-char sequences first.
        match self.pending {
            Pending::G => {
                self.pending = Pending::Nothing;
                if k.is_char('g') {
                    area::move_cursor(&mut self.area, Motion::Top);
                    area::move_cursor(&mut self.area, Motion::Head);
                }
                return true;
            },
            Pending::D => {
                self.pending = Pending::Nothing;
                if k.is_char('d') {
                    let snap = self.snapshot();
                    delete_line(&mut self.area);
                    self.commit(snap);
                }
                return true;
            },
            Pending::C => {
                self.pending = Pending::Nothing;
                if k.is_char('c') {
                    self.enter_insert();
                    clear_line(&mut self.area);
                }
                return true;
            },
            Pending::Nothing => {},
        }
        if k.modifiers.is_plain() {
            if let KeyCode::Char(c) = k.code {
                // App-level verbs: q=quit, y=yank, space=leader, : ex, </> nav, ?=help.
                if c == 'q' || c == 'y' || c == ' ' || c == ':' || c == '<' || c == '>' || c == '['
                    || c == ']' || c == '?' {
                    return false;
                }
                self.command(c);
            }
            return true;
        }
        if k.modifiers.control && k.is_char('r') {
            self.redo();
        }
        true
    }

    /// Carries out a command of one key.
    fn command(&mut self, c: char)
        ensures
            final(self)@ == old(self)@.commanded(c),
    {
        match c {
            // Movement
            'h' => area::move_cursor(&mut self.area, Motion::Back),
            'j' => area::move_cursor(&mut self.area, Motion::Down),
            'k' => area::move_cursor(&mut self.area, Motion::Up),
            'l' => area::move_cursor(&mut self.area, Motion::Forward),
            'w' => area::move_cursor(&mut self.area, Motion::WordForward),
            'b' => area::move_cursor(&mut self.area, Motion::WordBack),
            'e' => area::move_cursor(&mut self.area, Motion::WordEnd),
            '0' => area::move_cursor(&mut self.area, Motion::Head),
            '$' => area::move_cursor(&mut self.area, Motion::End),
            'G' => {
                area::move_cursor(&mut self.area, Motion::Bottom);
                area::move_cursor(&mut self.area, Motion::End);
            },
            // Enter insert
            'i' => self.enter_insert(),
            'I' => {
                self.enter_insert();
                area::move_cursor(&mut self.area, Motion::Head);
            },
            'a' => {
                self.enter_insert();
                area::move_cursor(&mut self.area, Motion::Forward);
            },
            'A' => {
                self.enter_insert();
                area::move_cursor(&mut self.area, Motion::End);
            },
            'o' => {
                self.enter_insert();
                area::move_cursor(&mut self.area, Motion::End);
                area::insert_newline(&mut self.area);
            },
            'O' => {
                self.enter_insert();
                area::move_cursor(&mut self.area, Motion::Head);
                area::insert_newline(&mut self.area);
                area::move_cursor(&mut self.area, Motion::Up);
            },
            // Delete / change
            'x' => {
                let snap = self.snapshot();
                area::delete_next_char(&mut self.area);
                self.commit(snap);
            },
            'D' => {
                let snap = self.snapshot();
                area::delete_line_by_end(&mut self.area);
                self.commit(snap);
            },
            'C' => {
                self.enter_insert();
                area::delete_line_by_end(&mut self.area);
            },
            // Undo
            'u' => self.undo(),
            // Pending sequences
            'g' => {
                self.pending = Pending::G;
            },
            'd' => {
                self.pending = Pending::D;
            },
            'c' => {
                self.pending = Pending::C;
            },
            _ => {},
        }
    }
}

// ---------------------------------------------------------------------------
// Laws
// ---------------------------------------------------------------------------

impl VimState {
    /// In insert mode the text before it is kept, and no command is begun; in
    /// normal mode nothing of insert mode is left.
    pub open spec fn settled(self) -> bool {
        match self.mode {
            Mode::Insert => self.pre_insert is Some && self.pending == Pending::Nothing,
            Mode::Normal => self.pre_insert is None && self.last_j_at is None,
        }
    }
}

/// Every key leaves a settled buffer settled.
pub proof fn lemma_stays_settled(
    s: VimState,
    k: KeyEvent,
    since: u128,
    now: Instant,
    after: VimState,
)
    requires
        s.settled(),
        s.steps_to(k, since, now, after),
    ensures
        after.settled(),
{
}

/// Keys in normal mode that move about leave the lines alone.
pub proof fn lemma_motions_keep_lines(s: VimState, c: char)
    requires
        c == 'h' || c == 'j' || c == 'k' || c == 'l' || c == 'w' || c == 'b' || c == 'e' || c == '0'
            || c == '$' || c == 'G',
    ensures
        s.commanded(c) == s.with(s.commanded(c).text),
        s.commanded(c).text.lines == s.text.lines,
{
}

/// A snapshot gives back its lines, and the place of its cursor where that fits
/// in 16 bits.
pub proof fn lemma_snapshot_text(s: VimState)
    requires
        s.text.lines.len() > 0,
        s.text.has_place((s.text.row, s.text.col)),
    ensures
        s.snapshot().text().lines == s.text.lines,
        s.text.row < 0x1_0000 && s.text.col < 0x1_0000 ==> s.snapshot().text().row == s.text.row
            && s.snapshot().text().col == s.text.col,
        s.snapshot().text().mark is None,
{
}

/// Undo, then redo: the lines are as they were, and so is the cursor where its
/// place fits in 16 bits. There is as much to undo and to redo as before.
pub proof fn lemma_redo_after_undo(s: VimState)
    requires
        s.undo.len() > 0,
        s.text.lines.len() > 0,
        s.text.has_place((s.text.row, s.text.col)),
    ensures
        s.undone().redone().text.lines == s.text.lines,
        s.text.row < 0x1_0000 && s.text.col < 0x1_0000 ==> s.undone().redone().text.row
            == s.text.row && s.undone().redone().text.col == s.text.col,
        s.undone().redone().undo.len() == s.undo.len(),
        s.undone().redone().redo == s.redo,
{
    lemma_snapshot_text(s);
    let u = s.undone();
    assert(u.redo.drop_last() =~= s.redo);
}

/// `u`, then control and `r`: the lines are as they were, and so is the cursor
/// where its place fits in 16 bits. With nothing to undo or to redo, neither does
/// anything.
pub proof fn lemma_redo_key_after_undo_key(s: VimState, u: KeyEvent, r: KeyEvent, since: u128)
    requires
        s.mode == Mode::Normal,
        s.pending == Pending::Nothing,
        s.text.has_place((s.text.row, s.text.col)),
        u.code == KeyCode::Char('u'),
        u.modifiers.plain(),
        r.code == KeyCode::Char('r'),
        r.modifiers.control,
    ensures
        s.undo.len() > 0 ==> {
            let after = s.keyed(u, since).keyed(r, since);
            &&& after.text.lines == s.text.lines
            &&& s.text.row < 0x1_0000 && s.text.col < 0x1_0000 ==> after.text.row == s.text.row
                && after.text.col == s.text.col
            &&& after.redo == s.redo
        },
        s.undo.len() == 0 ==> s.keyed(u, since) == s,
        s.redo.len() == 0 ==> s.keyed(r, since) == s,
{
    if s.undo.len() > 0 {
        lemma_redo_after_undo(s);
    }
}

/// With nothing to undo, undoing changes nothing, and likewise redoing.
pub proof fn lemma_nothing_to_undo(s: VimState)
    ensures
        s.undo.len() == 0 ==> s.undone() == s,
        s.redo.len() == 0 ==> s.redone() == s,
{
}

/// Redo, then undo: the lines are as they were.
pub proof fn lemma_undo_after_redo(s: VimState)
    requires
        s.redo.len() > 0,
        s.text.lines.len() > 0,
        s.text.has_place((s.text.row, s.text.col)),
    ensures
        s.redone().undone().text.lines == s.text.lines,
        s.redone().undone().undo == s.undo,
        s.redone().undone().redo.len() == s.redo.len(),
{
    lemma_snapshot_text(s);
    assert(s.redone().undo.drop_last() =~= s.undo);
}

/// Where `after` has the lines of another text than `s` and was committed
/// against it: one undo brings the lines back, and there is nothing to redo.
proof fn lemma_committed(s: VimState, after: VimState)
    requires
        s.text.lines.len() > 0,
        s.text.has_place((s.text.row, s.text.col)),
        after.undo == s.undo,
        after.redo == s.redo,
    ensures
        after.text.lines != s.text.lines ==> {
            &&& after.committed(s.snapshot()).redo.len() == 0
            &&& after.committed(s.snapshot()).undone().text.lines == s.text.lines
            &&& after.committed(s.snapshot()).undone().undo == s.undo
        },
        after.text.lines == s.text.lines ==> after.committed(s.snapshot()) == after,
{
    lemma_snapshot_text(s);
    assert(s.undo.push(s.snapshot()).drop_last() =~= s.undo);
}

/// `x`, `D` and `dd` are one step to undo each, and clear what could be redone;
/// where they change nothing, they are no step.
pub proof fn lemma_edit_is_one_step(s: VimState, k: KeyEvent)
    requires
        s.text.lines.len() > 0,
        s.text.has_place((s.text.row, s.text.col)),
        (s.pending == Pending::D && k.code == KeyCode::Char('d')) || (s.pending == Pending::Nothing
            && k.modifiers.plain() && (k.code == KeyCode::Char('x') || k.code == KeyCode::Char(
            'D',
        ))),
    ensures
        s.normal(k).text.lines != s.text.lines ==> {
            &&& s.normal(k).redo.len() == 0
            &&& s.normal(k).redone() == s.normal(k)
            &&& s.normal(k).undone().text.lines == s.text.lines
            &&& s.normal(k).undone().undo == s.undo
        },
        s.normal(k).text.lines == s.text.lines ==> s.normal(k).undo == s.undo && s.normal(k).redo
            == s.redo,
{
    let t = if s.pending == Pending::D {
        s.text.line_deleted()
    } else if k.code == KeyCode::Char('x') {
        s.text.next_char_deleted()
    } else {
        s.text.rest_deleted()
    };
    let after = VimState { pending: Pending::Nothing, ..s.with(t) };
    lemma_committed(s, after);
    assert(VimState { pending: Pending::Nothing, ..s }.with(t) == after);
    assert(s.normal(k) == after.committed(s.snapshot()));
}

/// Typing leaves alone what can be undone and redone, and the text that insert
/// mode started with.
pub proof fn lemma_typing_is_no_step(
    s: VimState,
    k: KeyEvent,
    since: u128,
    now: Instant,
    after: VimState,
)
    requires
        s.types(k, since),
        s.steps_to(k, since, now, after),
    ensures
        after.mode == s.mode,
        after.undo == s.undo,
        after.redo == s.redo,
        after.pre_insert == s.pre_insert,
{
}

/// An insert session, from `s` in normal mode to `e` before insert mode is left,
/// is one step to undo; where it changed nothing, it is no step.
pub proof fn lemma_session_is_one_step(s: VimState, e: VimState)
    requires
        s.text.lines.len() > 0,
        s.text.has_place((s.text.row, s.text.col)),
        e.pre_insert == Some(s.snapshot()),
        e.undo == s.undo,
        e.redo == s.redo,
    ensures
        e.left_insert().mode == Mode::Normal,
        e.left_insert().text == e.text,
        e.text.lines != s.text.lines ==> {
            &&& e.left_insert().redo.len() == 0
            &&& e.left_insert().undone().text.lines == s.text.lines
            &&& e.left_insert().undone().undo == s.undo
        },
        e.text.lines == s.text.lines ==> e.left_insert().undo == s.undo && e.left_insert().redo
            == s.redo,
{
    let after = VimState { mode: Mode::Normal, last_j_at: None, pre_insert: None, ..e };
    lemma_committed(s, after);
}

/// Deleting and clearing a line do not lead out of the text.
pub proof fn lemma_line_edits_stay_in_text(t: Text)
    requires
        t.valid(),
    ensures
        t.line_cleared().valid(),
        t.line_deleted().valid(),
{
    let line = t.lines[t.row];
    let cleared = t.lines.update(t.row, Seq::empty());
    let rest = t.lines.remove(t.row);
    if line.len() > 0 {
        area::lemma_changed_valid(t, cleared, (t.row, line.len() as int), (t.row, 0));
    }
    if t.row + 1 < t.lines.len() {
        area::lemma_changed_valid(t, rest, (t.row + 1, 0), (t.row, 0));
    } else if t.row > 0 {
        let end = t.lines[t.row - 1].len() as int;
        area::lemma_changed_valid(t, rest, (t.row, line.len() as int), (t.row - 1, end));
    }
}

proof fn lemma_snap_valid(snap: Snap)
    requires
        snap.valid(),
    ensures
        snap.text().valid(),
{
    let t = Text::fresh(snap.lines);
    area::lemma_target_in_text(
        t,
        Motion::Jump((snap.row % 0x1_0000) as u16, (snap.col % 0x1_0000) as u16),
    );
}

proof fn lemma_with_in_text(s: VimState, t: Text)
    requires
        s.in_text(),
        t.valid(),
    ensures
        s.with(t).in_text(),
        s.inserting().with(t).in_text(),
        s.with(t).committed(s.snapshot()).in_text(),
        s.undone().in_text(),
        s.redone().in_text(),
{
    assert(s.snapshot().valid());
    if s.undo.len() > 0 {
        lemma_snap_valid(s.undo.last());
    }
    if s.redo.len() > 0 {
        lemma_snap_valid(s.redo.last());
    }
}

proof fn lemma_command_text_valid(t: Text, c: char)
    requires
        t.valid(),
    ensures
        command_text(t, c).valid(),
{
    if c == 'h' {
        area::lemma_target_in_text(t, Motion::Back);
    } else if c == 'j' {
        area::lemma_target_in_text(t, Motion::Down);
    } else if c == 'k' {
        area::lemma_target_in_text(t, Motion::Up);
    } else if c == 'l' || c == 'a' {
        area::lemma_target_in_text(t, Motion::Forward);
    } else if c == 'w' {
        area::lemma_target_in_text(t, Motion::WordForward);
    } else if c == 'b' {
        area::lemma_target_in_text(t, Motion::WordBack);
    } else if c == 'e' {
        area::lemma_target_in_text(t, Motion::WordEnd);
    } else if c == '0' || c == 'I' {
        area::lemma_target_in_text(t, Motion::Head);
    } else if c == '$' || c == 'A' {
        area::lemma_target_in_text(t, Motion::End);
    } else if c == 'G' {
        area::lemma_target_in_text(t, Motion::Bottom);
        area::lemma_target_in_text(t.moved(Motion::Bottom), Motion::End);
    } else if c == 'o' {
        area::lemma_target_in_text(t, Motion::End);
        area::lemma_edits_stay_in_text(t.moved(Motion::End), seq![]);
    } else if c == 'O' {
        area::lemma_target_in_text(t, Motion::Head);
        area::lemma_edits_stay_in_text(t.moved(Motion::Head), seq![]);
        area::lemma_target_in_text(t.moved(Motion::Head).newline(), Motion::Up);
    } else {
        area::lemma_edits_stay_in_text(t, seq![]);
    }
}

proof fn lemma_commands_stay_in_text(s: VimState, c: char)
    requires
        s.in_text(),
    ensures
        s.commanded(c).in_text(),
{
    let t = command_text(s.text, c);
    lemma_command_text_valid(s.text, c);
    lemma_with_in_text(s, t);
}

/// No key leads out of the text, and no snapshot does.
pub proof fn lemma_stays_in_text(
    s: VimState,
    k: KeyEvent,
    since: u128,
    now: Instant,
    after: VimState,
)
    requires
        s.in_text(),
        s.steps_to(k, since, now, after),
    ensures
        after.in_text(),
{
    let t = s.text;
    if s.types(k, since) {
        area::lemma_typing_stays_in_text(t, k, after.text);
    } else if is_word_delete(k) || s.mode != Mode::Normal {
        area::lemma_edits_stay_in_text(t, seq![]);
    } else {
        let plain = VimState { pending: Pending::Nothing, ..s };
        area::lemma_target_in_text(t, Motion::Top);
        area::lemma_target_in_text(t.moved(Motion::Top), Motion::Head);
        lemma_line_edits_stay_in_text(t);
        lemma_with_in_text(plain, t.moved(Motion::Top).moved(Motion::Head));
        lemma_with_in_text(plain, t.line_deleted());
        lemma_with_in_text(plain, t.line_cleared());
        lemma_with_in_text(s, t);
        if let KeyCode::Char(c) = k.code {
            lemma_commands_stay_in_text(s, c);
        }
    }
}

// ---------------------------------------------------------------------------
// Laws of the commands
// ---------------------------------------------------------------------------

/// In normal mode, with no command begun, and with nothing selected.
pub open spec fn ready(s: VimState) -> bool {
    s.mode == Mode::Normal && s.pending == Pending::Nothing && s.text.valid() && s.text.mark is None
}

/// `c`, with shift or without.
pub open spec fn is_command(k: KeyEvent, c: char) -> bool {
    k.code == KeyCode::Char(c) && !k.modifiers.control && !k.modifiers.alt && !k.modifiers.other
}

/// `O` opens an empty line above that of the cursor, `o` one below it, wherever the
/// cursor is in its line. All other lines stay as they are, and the cursor is in the
/// new line, in insert mode.
pub proof fn lemma_open_line(s: VimState, above: KeyEvent, below: KeyEvent, since: u128)
    requires
        ready(s),
        is_command(above, 'O'),
        is_command(below, 'o'),
    ensures
        ({
            let t = s.keyed(above, since);
            &&& t.text.lines == s.text.lines.insert(s.text.row, Seq::empty())
            &&& t.text.row == s.text.row
            &&& t.text.col == 0
            &&& t.mode == Mode::Insert
        }),
        ({
            let t = s.keyed(below, since);
            &&& t.text.lines == s.text.lines.insert(s.text.row + 1, Seq::empty())
            &&& t.text.row == s.text.row + 1
            &&& t.text.col == 0
            &&& t.mode == Mode::Insert
        }),
{
    let t = s.text;
    let line = t.lines[t.row];
    assert(line.take(0) =~= Seq::<char>::empty());
    assert(line.skip(0) =~= line);
    assert(line.take(line.len() as int) =~= line);
    assert(line.skip(line.len() as int) =~= Seq::<char>::empty());
    assert(s.keyed(above, since).text.lines =~= t.lines.insert(t.row, Seq::empty()));
    assert(s.keyed(below, since).text.lines =~= t.lines.insert(t.row + 1, Seq::empty()));
}

/// `i`, `I`, `a` and `A` start inserting at the cursor, at the head of its line, behind
/// the character at the cursor, and at the end of the line. No line changes.
pub proof fn lemma_insert_commands(s: VimState, k: KeyEvent, since: u128)
    requires
        ready(s),
        is_command(k, 'i') || is_command(k, 'I') || is_command(k, 'a') || is_command(k, 'A'),
    ensures
        ({
            let t = s.keyed(k, since);
            let line = s.text.lines[s.text.row];
            &&& t.mode == Mode::Insert
            &&& t.text.lines == s.text.lines
            &&& t.pre_insert is Some
            &&& t.undo == s.undo
            &&& t.redo == s.redo
            &&& is_command(k, 'i') ==> t.text == s.text
            &&& is_command(k, 'I') ==> t.text.row == s.text.row && t.text.col == 0
            &&& is_command(k, 'A') ==> t.text.row == s.text.row && t.text.col == line.len()
            &&& is_command(k, 'a') && s.text.col < line.len() ==> t.text.row == s.text.row
                && t.text.col == s.text.col + 1
        }),
{
}

/// `h` and `l` move by a character, over the ends of lines too, `j` and `k` by a line,
/// `0` and `$` to the ends of the line, and `G` to the end of the text. Nothing else
/// changes.
pub proof fn lemma_plain_motions(s: VimState, k: KeyEvent, since: u128)
    requires
        ready(s),
        is_command(k, 'h') || is_command(k, 'l') || is_command(k, 'j') || is_command(k, 'k')
            || is_command(k, '0') || is_command(k, '$') || is_command(k, 'G'),
    ensures
        ({
            let t = s.keyed(k, since).text;
            let (row, col) = (s.text.row, s.text.col);
            let lines = s.text.lines;
            let last = lines.len() - 1;
            let len = lines[row].len() as int;
            &&& s.keyed(k, since) == s.with(Text { row: t.row, col: t.col, ..s.text })
            &&& is_command(k, 'h') ==> (t.row, t.col) == if col > 0 {
                (row, col - 1)
            } else if row > 0 {
                (row - 1, lines[row - 1].len() as int)
            } else {
                (row, col)
            }
            &&& is_command(k, 'l') ==> (t.row, t.col) == if col < len {
                (row, col + 1)
            } else if row < last {
                (row + 1, 0int)
            } else {
                (row, col)
            }
            &&& is_command(k, 'j') && row < last ==> t.row == row + 1 && (t.col == col || (t.col < col
                && t.col == lines[row + 1].len()))
            &&& is_command(k, 'j') && row == last ==> t == s.text
            &&& is_command(k, 'k') && row > 0 ==> t.row == row - 1 && (t.col == col || (t.col < col
                && t.col == lines[row - 1].len()))
            &&& is_command(k, 'k') && row == 0 ==> t == s.text
            &&& is_command(k, '0') ==> t.row == row && t.col == 0
            &&& is_command(k, '$') ==> t.row == row && t.col == len
            &&& is_command(k, 'G') ==> t.row == last && t.col == lines[last].len()
        }),
{
}

proof fn lemma_first_start_skips(line: Seq<char>, i: int)
    requires
        0 <= i,
    ensures
        match area::first_start_from(line, i) {
            Some(j) => i <= j < line.len() && area::starts_word(line, j) && (forall|x: int|
                i <= x < j ==> !#[trigger] area::starts_word(line, x)),
            None => forall|x: int| i <= x < line.len() ==> !#[trigger] area::starts_word(line, x),
        },
        match area::first_end_from(line, i) {
            Some(j) => i <= j < line.len() && area::ends_word(line, j) && (forall|x: int|
                i <= x < j ==> !#[trigger] area::ends_word(line, x)),
            None => forall|x: int| i <= x < line.len() ==> !#[trigger] area::ends_word(line, x),
        },
    decreases line.len() - i,
{
    if i < line.len() {
        lemma_first_start_skips(line, i + 1);
    }
}

proof fn lemma_last_start_skips(line: Seq<char>, i: int)
    requires
        i <= line.len(),
    ensures
        match area::last_start_before(line, i) {
            Some(j) => 0 <= j < i && area::starts_word(line, j) && (forall|x: int|
                j < x < i ==> !#[trigger] area::starts_word(line, x)),
            None => forall|x: int| 0 <= x < i ==> !#[trigger] area::starts_word(line, x),
        },
    decreases i,
{
    if i > 0 {
        lemma_last_start_skips(line, i - 1);
    }
}

/// `w` goes to where the next word of the line starts, `b` to where the last one
/// started, and `e` to where the next one ends: no word starts, or ends, in between.
/// No line changes.
pub proof fn lemma_word_motions(s: VimState, k: KeyEvent, since: u128, x: int)
    requires
        ready(s),
        is_command(k, 'w') || is_command(k, 'b') || is_command(k, 'e'),
    ensures
        ({
            let t = s.keyed(k, since).text;
            let (row, col) = (s.text.row, s.text.col);
            let line = s.text.lines[row];
            &&& s.keyed(k, since) == s.with(Text { row: t.row, col: t.col, ..s.text })
            &&& is_command(k, 'w') && t.row == row && t.col < line.len() ==> t.col > col
                && area::starts_word(line, t.col)
            &&& is_command(k, 'w') && col < x < line.len() && area::starts_word(line, x) ==> t.row
                == row && t.col <= x
            &&& is_command(k, 'b') && t.row == row && t.col > 0 ==> t.col < col
                && area::starts_word(line, t.col)
            &&& is_command(k, 'b') && 0 <= x < col && area::starts_word(line, x) ==> t.row == row
                && x <= t.col < col
            &&& is_command(k, 'e') && t.row == row && t.col < line.len() ==> t.col > col
                && area::ends_word(line, t.col)
            &&& is_command(k, 'e') && col < x < line.len() && area::ends_word(line, x) ==> t.row
                == row && col < t.col <= x
        }),
{
    let t = s.text;
    lemma_first_start_skips(t.lines[t.row], t.col + 1);
    lemma_last_start_skips(t.lines[t.row], t.col);
    lemma_word_end_below_is_below(t.lines, t.row);
}

proof fn lemma_word_end_below_is_below(lines: Seq<Seq<char>>, row: int)
    requires
        0 <= row < lines.len(),
    ensures
        ({
            let place = area::word_end_below(lines, row);
            place.0 >= row && (place.0 == row ==> place.1 == lines[row].len())
        }),
    decreases lines.len() - row,
{
    if row + 1 < lines.len() {
        lemma_word_end_below_is_below(lines, row + 1);
    }
}

/// `x` takes the character at the cursor out of its line, and `D` all from the cursor
/// on; `C` does that and starts inserting. No other line changes, and the cursor stays
/// in place. At the end of a line they join it with the next one.
pub proof fn lemma_delete_commands(s: VimState, k: KeyEvent, since: u128)
    requires
        ready(s),
        is_command(k, 'x') || is_command(k, 'D') || is_command(k, 'C'),
    ensures
        ({
            let t = s.keyed(k, since);
            let (row, col) = (s.text.row, s.text.col);
            let lines = s.text.lines;
            let line = lines[row];
            &&& t.text.row == row && t.text.col == col
            &&& t.mode == if is_command(k, 'C') {
                Mode::Insert
            } else {
                Mode::Normal
            }
            &&& is_command(k, 'x') && col < line.len() ==> t.text.lines == lines.update(
                row,
                line.remove(col),
            )
            &&& !is_command(k, 'x') && col < line.len() ==> t.text.lines == lines.update(
                row,
                line.take(col),
            )
            &&& col == line.len() && row + 1 < lines.len() ==> t.text.lines == lines.remove(
                row + 1,
            ).update(row, line + lines[row + 1])
            &&& col == line.len() && row + 1 == lines.len() ==> t.text.lines == lines
        }),
{
    let t = s.text;
    let line = t.lines[t.row];
    let after = s.keyed(k, since).text.lines;
    if t.col < line.len() {
        assert(line.take(t.col) + line.skip(t.col + 1) =~= line.remove(t.col));
        assert(line.take(t.col) + line.skip(line.len() as int) =~= line.take(t.col));
        if is_command(k, 'x') {
            assert(after =~= t.lines.update(t.row, line.remove(t.col)));
        } else {
            assert(after =~= t.lines.update(t.row, line.take(t.col)));
        }
    } else if t.row + 1 < t.lines.len() {
        let next = t.lines[t.row + 1];
        assert(line.take(t.col) + next.skip(0) =~= line + next);
        assert(after =~= t.lines.remove(t.row + 1).update(t.row, line + next));
    }
}

/// `dd` takes the line of the cursor out, and leaves every other line; a sole line is
/// emptied. `cc` empties the line and leaves it in place, for inserting.
pub proof fn lemma_line_commands(s: VimState, d: KeyEvent, c: KeyEvent, since: u128)
    requires
        ready(s),
        is_command(d, 'd'),
        is_command(c, 'c'),
    ensures
        ({
            let t = s.keyed(d, since).keyed(d, since);
            &&& t.mode == Mode::Normal && t.pending == Pending::Nothing
            &&& s.text.lines.len() > 1 ==> t.text.lines == s.text.lines.remove(s.text.row)
            &&& s.text.lines.len() == 1 ==> t.text.lines == seq![Seq::<char>::empty()]
            &&& s.text.row + 1 < s.text.lines.len() ==> t.text.row == s.text.row && t.text.col == 0
        }),
        ({
            let t = s.keyed(c, since).keyed(c, since);
            &&& t.mode == Mode::Insert && t.pending == Pending::Nothing
            &&& t.text.lines == s.text.lines.update(s.text.row, Seq::empty())
            &&& t.text.row == s.text.row && t.text.col == 0
        }),
{
    let t = s.text;
    let line = t.lines[t.row];
    if line.len() == 0 {
        assert(line =~= Seq::<char>::empty());
        assert(t.lines.update(t.row, Seq::empty()) =~= t.lines);
    }
    if t.lines.len() == 1 {
        assert(t.lines.update(0, Seq::empty()) =~= seq![Seq::<char>::empty()]);
        assert(s.keyed(d, since).keyed(d, since).text.lines =~= seq![Seq::<char>::empty()]);
    }
}

/// `gg` goes to the start of the text. After the first key of a command of two keys,
/// another one than its second gives the command up and does nothing.
pub proof fn lemma_two_keys(s: VimState, first: KeyEvent, second: KeyEvent, since: u128)
    requires
        ready(s),
        is_command(first, 'g') || is_command(first, 'd') || is_command(first, 'c'),
        !is_word_delete(second),
    ensures
        s.keyed(first, since).pending != Pending::Nothing,
        s.keyed(first, since).text == s.text,
        s.keyed(first, since).mode == Mode::Normal,
        second.code != first.code ==> s.keyed(first, since).keyed(second, since) == s,
        is_command(first, 'g') && second.code == KeyCode::Char('g') ==> s.keyed(
            first,
            since,
        ).keyed(second, since) == s.with(Text { row: 0, col: 0, ..s.text }),
{
}

/// `u` gives back the lines of the last snapshot, and puts the lines there are now where
/// control and `r` finds them; that gives them back.
pub proof fn lemma_undo_command(s: VimState, u: KeyEvent, r: KeyEvent, since: u128)
    requires
        ready(s),
        s.in_text(),
        is_command(u, 'u'),
        r.code == KeyCode::Char('r'),
        r.modifiers.control,
    ensures
        s.undo.len() > 0 ==> {
            let t = s.keyed(u, since);
            &&& t.text.lines == s.undo.last().lines
            &&& t.undo == s.undo.drop_last()
            &&& t.redo.len() == s.redo.len() + 1
            &&& t.redo.last().lines == s.text.lines
            &&& t.mode == Mode::Normal
        },
        s.redo.len() > 0 ==> {
            let t = s.keyed(r, since);
            &&& t.text.lines == s.redo.last().lines
            &&& t.redo == s.redo.drop_last()
            &&& t.undo.len() == s.undo.len() + 1
            &&& t.undo.last().lines == s.text.lines
            &&& t.mode == Mode::Normal
        },
{
    if s.undo.len() > 0 {
        assert(s.undo.last().valid());
    }
    if s.redo.len() > 0 {
        assert(s.redo.last().valid());
    }
}

/// A key that is no command does nothing in normal mode. These nine characters are left
/// to the app, and no other key is.
pub proof fn lemma_other_keys(s: VimState, k: KeyEvent, c: char, since: u128)
    requires
        ready(s),
        is_command(k, c),
        !seq![
            'h', 'j', 'k', 'l', 'w', 'b', 'e', '0', '$', 'G', 'i', 'I', 'a', 'A', 'o', 'O', 'x', 'D',
            'C', 'u', 'g', 'd', 'c',
        ].contains(c),
    ensures
        s.keyed(k, since) == s,
        s.consumes(k) == !(c == 'q' || c == 'y' || c == ' ' || c == ':' || c == '<' || c == '>'
            || c == '[' || c == ']' || c == '?'),
{
    let all = seq![
        'h', 'j', 'k', 'l', 'w', 'b', 'e', '0', '$', 'G', 'i', 'I', 'a', 'A', 'o', 'O', 'x', 'D', 'C',
        'u', 'g', 'd', 'c',
    ];
    assert forall|i: int| 0 <= i < all.len() implies all[i] != c by {}
    assert(all[0] != c && all[1] != c && all[2] != c && all[3] != c && all[4] != c && all[5] != c
        && all[6] != c && all[7] != c && all[8] != c && all[9] != c && all[10] != c && all[11] != c
        && all[12] != c && all[13] != c && all[14] != c && all[15] != c && all[16] != c && all[17]
        != c && all[18] != c && all[19] != c && all[20] != c && all[21] != c && all[22] != c);
}

/// Commands and keys in insert mode are never left to the app.
pub proof fn lemma_consumed(s: VimState, k: KeyEvent)
    ensures
        s.mode == Mode::Insert ==> s.consumes(k),
        s.pending != Pending::Nothing ==> s.consumes(k),
        k.modifiers.control || k.modifiers.alt ==> s.consumes(k),
        k.code !is Char ==> s.consumes(k),
{
}

/// In insert mode, with nothing selected, a character goes into its line at the cursor;
/// the line break splits the line; backspace takes the character before the cursor out.
/// No other line changes, and it stays insert mode.
pub proof fn lemma_typing_in_insert(
    s: VimState,
    k: KeyEvent,
    since: u128,
    now: Instant,
    after: VimState,
)
    requires
        s.mode == Mode::Insert,
        s.text.valid(),
        s.text.mark is None,
        since > s.jj_timeout,
        !k.modifiers.control,
        !k.modifiers.alt,
        s.steps_to(k, since, now, after),
    ensures
        ({
            let (row, col) = (s.text.row, s.text.col);
            let lines = s.text.lines;
            let line = lines[row];
            &&& k.code matches KeyCode::Char(c) ==> c == '\n' || c == '\r' || {
                &&& after.text.lines == lines.update(row, line.insert(col, c))
                &&& after.text.row == row && after.text.col == col + 1
                &&& after.mode == Mode::Insert
            }
            &&& k.code == KeyCode::Enter ==> {
                &&& after.text.lines == lines.update(row, line.take(col)).insert(
                    row + 1,
                    line.skip(col),
                )
                &&& after.text.row == row + 1 && after.text.col == 0
                &&& after.mode == Mode::Insert
            }
            &&& k.code == KeyCode::Backspace && col > 0 ==> {
                &&& after.text.lines == lines.update(row, line.remove(col - 1))
                &&& after.text.row == row && after.text.col == col - 1
                &&& after.mode == Mode::Insert
            }
        }),
{
    let t = s.text;
    let line = t.lines[t.row];
    match k.code {
        KeyCode::Char(c) => {
            if c != '\n' && c != '\r' {
                assert(line.take(t.col) + seq![c] + line.skip(t.col) =~= line.insert(t.col, c));
            }
        },
        KeyCode::Enter => {
            assert(after.text.lines =~= t.lines.update(t.row, line.take(t.col)).insert(
                t.row + 1,
                line.skip(t.col),
            ));
        },
        KeyCode::Backspace => {
            if t.col > 0 {
                assert(line.take(t.col - 1) + line.skip(t.col) =~= line.remove(t.col - 1));
                assert(after.text.lines =~= t.lines.update(t.row, line.remove(t.col - 1)));
            }
        },
        _ => {},
    }
}

/// Two `j` soon enough after each other leave insert mode, and the text is as it was
/// before the first. A `j` that comes later is typed.
pub proof fn lemma_jj(
    s: VimState,
    k: KeyEvent,
    first: u128,
    second: u128,
    now: Instant,
    later: Instant,
    t: VimState,
    u: VimState,
)
    requires
        s.mode == Mode::Insert,
        s.text.valid(),
        s.text.mark is None,
        s.last_j_at is None,
        k.code == KeyCode::Char('j'),
        !k.modifiers.control && !k.modifiers.alt && !k.modifiers.shift && !k.modifiers.other,
        s.steps_to(k, first, now, t),
        t.steps_to(k, second, later, u),
    ensures
        t.mode == Mode::Insert,
        second <= s.jj_timeout ==> {
            &&& u.mode == Mode::Normal
            &&& u.text.lines == s.text.lines
            &&& u.text.row == s.text.row && u.text.col == s.text.col
        },
        second > s.jj_timeout ==> {
            &&& u.mode == Mode::Insert
            &&& u.text.col == s.text.col + 2
        },
{
    area::lemma_delete_after_type(s.text, 'j');
}

/// `Esc` leaves insert mode and the text alone.
pub proof fn lemma_escape(s: VimState, k: KeyEvent, since: u128, now: Instant, after: VimState)
    requires
        s.mode == Mode::Insert,
        k.code == KeyCode::Esc,
        s.steps_to(k, since, now, after),
    ensures
        after.mode == Mode::Normal,
        after.text == s.text,
        s.pre_insert matches Some(prev) ==> {
            &&& prev.lines != s.text.lines ==> after.undo == s.undo.push(prev) && after.redo.len()
                == 0
            &&& prev.lines == s.text.lines ==> after.undo == s.undo && after.redo == s.redo
        },
{
}

/// Control and backspace takes out, in any mode, what is between the start of the last
/// word before the cursor and the cursor, or the whole line before the cursor where no
/// word starts there.
pub proof fn lemma_word_delete(s: VimState, k: KeyEvent, since: u128)
    requires
        s.text.valid(),
        s.text.mark is None,
        s.text.col > 0,
        k.code == KeyCode::Backspace,
        k.modifiers.control,
    ensures
        ({
            let t = s.keyed(k, since);
            let (row, col) = (s.text.row, s.text.col);
            let line = s.text.lines[row];
            let start = t.text.col;
            &&& t.mode == s.mode
            &&& 0 <= start < col && t.text.row == row
            &&& t.text.lines == s.text.lines.update(row, line.take(start) + line.skip(col))
            &&& start == 0 || area::starts_word(line, start)
            &&& forall|x: int| start < x < col ==> !#[trigger] area::starts_word(line, x)
        }),
{
    let t = s.text;
    lemma_last_start_skips(t.lines[t.row], t.col);
    let after = s.keyed(k, since).text;
    assert(after.lines =~= t.lines.update(
        t.row,
        t.lines[t.row].take(after.col) + t.lines[t.row].skip(t.col),
    ));
}

/// In normal mode, and for control and backspace in any, the outcome of a key is one and
/// does not go by the time.
pub proof fn lemma_timeless(s: VimState, k: KeyEvent, since: u128, now: Instant, after: VimState)
    requires
        s.mode == Mode::Normal || (k.code == KeyCode::Backspace && k.modifiers.control),
    ensures
        s.steps_to(k, since, now, after) == (after == s.keyed(k, 0)),
{
}

/// `a` at the end of a line starts inserting at the head of the next one, and at the end
/// of the text where the cursor is. Motions up and down never lead past the end of a line,
/// and keep the column where the line is long enough.
pub proof fn lemma_motions_at_line_ends(s: VimState, k: KeyEvent, since: u128)
    requires
        ready(s),
    ensures
        ({
            let t = s.keyed(k, since).text;
            let (row, col) = (s.text.row, s.text.col);
            let lines = s.text.lines;
            &&& is_command(k, 'a') && col == lines[row].len() && row + 1 < lines.len() ==> t.row == row
                + 1 && t.col == 0
            &&& is_command(k, 'a') && col == lines[row].len() && row + 1 == lines.len() ==> t.row
                == row && t.col == col
            &&& is_command(k, 'j') && row + 1 < lines.len() ==> t.col <= lines[row + 1].len() && (col
                <= lines[row + 1].len() ==> t.col == col)
            &&& is_command(k, 'k') && row > 0 ==> t.col <= lines[row - 1].len() && (col <= lines[row
                - 1].len() ==> t.col == col)
        }),
{
}

/// Where no word starts behind the cursor in its line, `w` goes to the head of the next
/// line, or to the end of the last one. Where none starts before it, `b` goes to the end of
/// the line above, or to the start of the text. Where none ends behind it, `e` goes to the
/// end of the first word of the next line that has one.
pub proof fn lemma_word_motions_over_lines(s: VimState, k: KeyEvent, since: u128)
    requires
        ready(s),
    ensures
        ({
            let t = s.keyed(k, since).text;
            let (row, col) = (s.text.row, s.text.col);
            let lines = s.text.lines;
            let line = lines[row];
            let no_start = forall|x: int|
                col < x < line.len() ==> !#[trigger] area::starts_word(line, x);
            let none_before = forall|x: int| 0 <= x < col ==> !#[trigger] area::starts_word(line, x);
            let no_end = forall|x: int| col < x < line.len() ==> !#[trigger] area::ends_word(line, x);
            &&& is_command(k, 'w') && no_start && row + 1 < lines.len() ==> t.row == row + 1 && t.col
                == 0
            &&& is_command(k, 'w') && no_start && row + 1 == lines.len() ==> t.row == row && t.col
                == line.len()
            &&& is_command(k, 'b') && none_before && row > 0 ==> t.row == row - 1 && t.col
                == lines[row - 1].len()
            &&& is_command(k, 'b') && none_before && row == 0 ==> t.row == 0 && t.col == 0
            &&& is_command(k, 'e') && no_end && row + 1 == lines.len() ==> t.row == row && t.col
                == line.len()
            &&& is_command(k, 'e') && no_end && row + 1 < lines.len() && t.col < lines[t.row].len()
                ==> t.row > row && area::ends_word(lines[t.row], t.col) && forall|x: int|
                0 <= x < t.col ==> !#[trigger] area::ends_word(lines[t.row], x)
            &&& is_command(k, 'e') && no_end && row + 1 < lines.len() && t.col == lines[t.row].len()
                ==> t.row + 1 == lines.len() && forall|y: int, x: int|
                row < y < lines.len() && 0 <= x < lines[y].len() ==> !#[trigger] area::ends_word(
                    lines[y],
                    x,
                )
        }),
{
    let t = s.text;
    let line = t.lines[t.row];
    lemma_first_start_skips(line, t.col + 1);
    lemma_last_start_skips(line, t.col);
    lemma_word_end_of_next(t.lines, t.row);
}

proof fn lemma_word_end_of_next(lines: Seq<Seq<char>>, row: int)
    requires
        0 <= row < lines.len(),
    ensures
        ({
            let place = area::word_end_below(lines, row);
            &&& row <= place.0 < lines.len()
            &&& row + 1 == lines.len() ==> place == (row, lines[row].len() as int)
            &&& row + 1 < lines.len() ==> place.0 > row && 0 <= place.1 <= lines[place.0].len()
            &&& row + 1 < lines.len() && place.1 < lines[place.0].len() ==> area::ends_word(
                lines[place.0],
                place.1,
            ) && forall|x: int| 0 <= x < place.1 ==> !#[trigger] area::ends_word(lines[place.0], x)
            &&& row + 1 < lines.len() && place.1 == lines[place.0].len() ==> place.0 + 1
                == lines.len() && forall|y: int, x: int|
                row < y < lines.len() && 0 <= x < lines[y].len() ==> !#[trigger] area::ends_word(
                    lines[y],
                    x,
                )
        }),
    decreases lines.len() - row,
{
    if row + 1 < lines.len() {
        lemma_first_start_skips(lines[row + 1], 0);
        lemma_word_end_of_next(lines, row + 1);
    }
}

/// What insert mode was entered with is kept, whichever command entered it, so that leaving
/// it knows what to go back to.
pub proof fn lemma_insert_remembers(s: VimState, k: KeyEvent, c: KeyEvent, since: u128)
    requires
        ready(s),
        s.pre_insert is None,
        is_command(k, 'i') || is_command(k, 'I') || is_command(k, 'a') || is_command(k, 'A')
            || is_command(k, 'o') || is_command(k, 'O') || is_command(k, 'C'),
        is_command(c, 'c'),
    ensures
        ({
            let before = Snap { lines: s.text.lines, row: s.text.row, col: s.text.col };
            let t = s.keyed(k, since);
            let u = s.keyed(c, since).keyed(c, since);
            &&& t.pre_insert == Some(before) && t.undo == s.undo && t.redo == s.redo
            &&& t.mode == Mode::Insert && t.pending == Pending::Nothing
            &&& u.pre_insert == Some(before) && u.undo == s.undo && u.redo == s.redo
        }),
{
}

/// `dd` in the last of several lines goes to the end of the line above. The line is kept to
/// be pasted, with the line break that went with it; `cc` keeps what was in the line.
pub proof fn lemma_cut_lines(s: VimState, d: KeyEvent, c: KeyEvent, since: u128)
    requires
        ready(s),
        is_command(d, 'd'),
        is_command(c, 'c'),
    ensures
        ({
            let (row, lines) = (s.text.row, s.text.lines);
            let t = s.keyed(d, since).keyed(d, since).text;
            let u = s.keyed(c, since).keyed(c, since).text;
            let none = Seq::<char>::empty();
            &&& t.mark is None && u.mark is None
            &&& lines.len() > 1 && row + 1 == lines.len() ==> t.row == row - 1 && t.col
                == lines[row - 1].len()
            &&& row + 1 < lines.len() ==> t.cut == seq![lines[row], none]
            &&& lines.len() > 1 && row + 1 == lines.len() ==> t.cut == seq![none, lines[row]]
            &&& lines[row].len() > 0 ==> u.cut == seq![lines[row]]
        }),
{
}

/// Undoing and redoing lead back to where the cursor was, as far as its place fits in 16
/// bits, and nothing is selected then.
pub proof fn lemma_undo_place(s: VimState, u: KeyEvent, r: KeyEvent, since: u128)
    requires
        ready(s),
        s.in_text(),
        is_command(u, 'u'),
        r.code == KeyCode::Char('r'),
        r.modifiers.control,
    ensures
        s.undo.len() > 0 ==> {
            let snap = s.undo.last();
            let t = s.keyed(u, since).text;
            t.mark is None && (snap.row < 0x1_0000 && snap.col < 0x1_0000 ==> t.row == snap.row
                && t.col == snap.col)
        },
        s.redo.len() > 0 ==> {
            let snap = s.redo.last();
            let t = s.keyed(r, since).text;
            t.mark is None && (snap.row < 0x1_0000 && snap.col < 0x1_0000 ==> t.row == snap.row
                && t.col == snap.col)
        },
        s.undo.len() == 0 ==> s.keyed(u, since) == s,
        s.redo.len() == 0 ==> s.keyed(r, since) == s,
{
    if s.undo.len() > 0 {
        assert(s.undo.last().valid());
    }
    if s.redo.len() > 0 {
        assert(s.redo.last().valid());
    }
}

/// In normal mode a key that is no character does nothing, and neither does one with
/// control or another modifier but shift, except control and `r` and control and backspace.
pub proof fn lemma_keys_without_effect(s: VimState, k: KeyEvent, since: u128)
    requires
        ready(s),
        k.code !is Char || k.modifiers.control || k.modifiers.alt || k.modifiers.other,
        !(k.modifiers.control && (k.code == KeyCode::Char('r') || k.code == KeyCode::Backspace)),
    ensures
        s.keyed(k, since) == s,
        s.consumes(k),
{
}

/// In insert mode every key but `Esc`, a second `j` and control and backspace does to the
/// text what it does to a text area.
pub proof fn lemma_keys_reach_area(
    s: VimState,
    k: KeyEvent,
    since: u128,
    now: Instant,
    after: VimState,
)
    requires
        s.mode == Mode::Insert,
        k.code != KeyCode::Esc,
        !(k.code == KeyCode::Backspace && k.modifiers.control),
        s.steps_to(k, since, now, after),
        !(k.code == KeyCode::Char('j') && k.modifiers.empty()) || s.last_j_at is None || since
            > s.jj_timeout,
    ensures
        area::typed(s.text, k, after.text),
        after.mode == Mode::Insert,
        after.last_j_at is Some == (k.code == KeyCode::Char('j') && k.modifiers.empty()),
{
}

/// A new buffer is in normal mode with nothing to undo or redo, and takes two `j` within a
/// quarter of a second for `Esc`. The modes are called so.
pub proof fn lemma_new_buffer<'a>(area: Area<'a>, r: VimBuffer<'a>, mode: Mode, label: &'static str)
    requires
        call_ensures(VimBuffer::new, (area,), r),
        call_ensures(Mode::label, (mode,), label),
    ensures
        r@.text == area::text_of(area),
        r@.mode == Mode::Normal,
        r@.pending == Pending::Nothing,
        r@.undo.len() == 0 && r@.redo.len() == 0,
        r@.last_j_at is None && r@.pre_insert is None,
        r@.jj_timeout == 250_000_000,
        mode == Mode::Normal ==> label@ == "NORMAL"@,
        mode == Mode::Insert ==> label@ == "INSERT"@,
{
}

} // verus!
