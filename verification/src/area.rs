//! A multi-line text with a cursor: `tui_textarea::TextArea` and what its
//! operations do.

use crate::key::{KeyCode, KeyEvent};
use crate::text;
use ratatui::buffer::Buffer;
use ratatui::layout::Rect;
use ratatui::widgets::Widget;
use tui_textarea::{CursorMove, Input, Key, TextArea};
use vstd::prelude::*;

verus! {

/// A `tui_textarea::TextArea`.
#[verifier::external_body]
pub struct Area<'a> {
    area: TextArea<'a>,
}

/// What `area` holds.
pub uninterp spec fn text_of(area: Area) -> Text;

/// How many columns the characters of `s` take on the screen.
pub uninterp spec fn text_cells(s: Seq<char>) -> nat;

/// A change of a text: its lines and the place of the cursor before and after.
#[verifier::ext_equal]
pub struct Change {
    pub lines: Seq<Seq<char>>,
    pub place: (int, int),
    pub new_lines: Seq<Seq<char>>,
    pub new_place: (int, int),
}

/// What an area holds.
#[verifier::ext_equal]
pub struct Text {
    pub lines: Seq<Seq<char>>,
    /// The row of the cursor.
    pub row: int,
    /// How many characters are before the cursor in its row.
    pub col: int,
    /// Where the selection started, if there is one.
    pub mark: Option<(int, int)>,
    /// What was cut or copied last, by lines.
    pub cut: Seq<Seq<char>>,
    /// The changes that can be undone, the next last.
    pub done: Seq<Change>,
    /// The changes that can be redone, the next last.
    pub undone: Seq<Change>,
    /// The row and the column that the screen starts with.
    pub top: (int, int),
    /// How many rows and columns are on the screen.
    pub size: (int, int),
}

/// How many changes an area keeps.
pub const MAX_CHANGES: usize = 50;

/// The largest screen, in cells.
pub const MAX_CELLS: u32 = 1_000_000;

/// The longest line on a screen, in characters.
pub const MAX_LINE: usize = 16_383;

/// A way to move the cursor.
#[derive(Debug, Clone, Copy, PartialEq, Eq, Structural)]
pub enum Motion {
    Forward,
    Back,
    Up,
    Down,
    Head,
    End,
    Top,
    Bottom,
    WordForward,
    WordEnd,
    WordBack,
    Jump(u16, u16),
}

// ---------------------------------------------------------------------------
// Words
// ---------------------------------------------------------------------------

/// What a word is made of: no word holds two kinds, and none holds space.
pub enum CharKind {
    Space,
    Punct,
    Other,
}

/// The kind of a character.
pub open spec fn char_kind(c: char) -> CharKind {
    if text::is_white(c) {
        CharKind::Space
    } else if '!' <= c <= '/' || ':' <= c <= '@' || '[' <= c <= '`' || '{' <= c <= '~' {
        CharKind::Punct
    } else {
        CharKind::Other
    }
}

/// Whether a word starts at `i`.
pub open spec fn starts_word(line: Seq<char>, i: int) -> bool {
    char_kind(line[i]) != CharKind::Space && (i == 0 || char_kind(line[i - 1]) != char_kind(line[i]))
}

/// Whether `i` is the last character of a word.
pub open spec fn ends_word(line: Seq<char>, i: int) -> bool {
    char_kind(line[i]) != CharKind::Space && (i + 1 == line.len() || char_kind(line[i + 1])
        != char_kind(line[i]))
}

/// The first place from `i` on where a word starts.
pub open spec fn first_start_from(line: Seq<char>, i: int) -> Option<int>
    decreases line.len() - i,
{
    if i >= line.len() {
        None
    } else if starts_word(line, i) {
        Some(i)
    } else {
        first_start_from(line, i + 1)
    }
}

/// The last place before `i` where a word starts.
pub open spec fn last_start_before(line: Seq<char>, i: int) -> Option<int>
    decreases i,
{
    if i <= 0 {
        None
    } else if starts_word(line, i - 1) {
        Some(i - 1)
    } else {
        last_start_before(line, i - 1)
    }
}

/// The first place from `i` on where a word ends.
pub open spec fn first_end_from(line: Seq<char>, i: int) -> Option<int>
    decreases line.len() - i,
{
    if i >= line.len() {
        None
    } else if ends_word(line, i) {
        Some(i)
    } else {
        first_end_from(line, i + 1)
    }
}

/// Where the first word below row `row` ends; the end of the text if there is
/// none.
pub open spec fn word_end_below(lines: Seq<Seq<char>>, row: int) -> (int, int)
    decreases lines.len() - row,
{
    if row + 1 >= lines.len() {
        (row, lines[row].len() as int)
    } else {
        match first_end_from(lines[row + 1], 0) {
            Some(col) => (row + 1, col),
            None => word_end_below(lines, row + 1),
        }
    }
}

/// Whether row `row` is the first after a blank line.
pub open spec fn starts_paragraph(lines: Seq<Seq<char>>, row: int) -> bool {
    row > 0 && lines[row].len() > 0 && lines[row - 1].len() == 0
}

/// The first row from `row` on that starts a paragraph; the last row if there is
/// none.
pub open spec fn paragraph_from(lines: Seq<Seq<char>>, row: int) -> int
    decreases lines.len() - row,
{
    if row >= lines.len() {
        lines.len() - 1
    } else if starts_paragraph(lines, row) {
        row
    } else {
        paragraph_from(lines, row + 1)
    }
}

/// The last row before `row` that starts a paragraph; row 0 if there is none.
pub open spec fn paragraph_before(lines: Seq<Seq<char>>, row: int) -> int
    decreases row,
{
    if row <= 1 {
        0
    } else if starts_paragraph(lines, row - 1) {
        row - 1
    } else {
        paragraph_before(lines, row - 1)
    }
}

// ---------------------------------------------------------------------------
// What the operations do
// ---------------------------------------------------------------------------

/// Whether place `a` is before place `b`.
pub open spec fn place_before(a: (int, int), b: (int, int)) -> bool {
    a.0 < b.0 || (a.0 == b.0 && a.1 < b.1)
}

/// Whether `place` is one of the places of the text with `lines`.
pub open spec fn place_in(lines: Seq<Seq<char>>, place: (int, int)) -> bool {
    0 <= place.0 < lines.len() && 0 <= place.1 <= lines[place.0].len()
}

/// `n`, or what of `low` and `high` is closest to it.
pub open spec fn clamped(n: int, low: int, high: int) -> int {
    if n < low {
        low
    } else if n > high {
        high
    } else {
        n
    }
}

/// What the screen starts with so that `n` is on it, where it shows `len` from
/// `top` on.
pub open spec fn scrolled_to(top: int, n: int, len: int) -> int {
    if n < top {
        n
    } else if top + len <= n {
        n + 1 - len
    } else {
        top
    }
}

/// The last that is on the screen where it shows `len` from `top` on.
pub open spec fn screen_end(top: int, len: int) -> int {
    let end = clamped(top + len, 0, 0xffff) - 1;
    if end < top {
        top
    } else {
        end
    }
}

/// `s` in pieces, at its line breaks.
pub open spec fn at_breaks(s: Seq<char>) -> Seq<Seq<char>>
    decreases s.len(),
{
    if s.len() == 0 {
        seq![seq![]]
    } else {
        let before = at_breaks(s.drop_last());
        if s.last() == '\n' {
            before.push(seq![])
        } else {
            before.drop_last().push(before.last().push(s.last()))
        }
    }
}

/// A line without a carriage return at its end.
pub open spec fn without_return(line: Seq<char>) -> Seq<char> {
    if line.len() > 0 && line.last() == '\r' {
        line.drop_last()
    } else {
        line
    }
}

/// The lines of `s`.
pub open spec fn lines_in(s: Seq<char>) -> Seq<Seq<char>> {
    Seq::new(at_breaks(s).len(), |i: int| without_return(at_breaks(s)[i]))
}

/// The lines that are pasted where `cut` was cut: a line break in a line breaks it.
pub open spec fn to_paste(cut: Seq<Seq<char>>) -> Seq<Seq<char>> {
    let s = text::joined(cut, "\n"@);
    if s.contains('\n') {
        lines_in(s)
    } else {
        cut
    }
}

impl Change {
    /// The cursor is in the text before and after.
    pub open spec fn valid(self) -> bool {
        place_in(self.lines, self.place) && place_in(self.new_lines, self.new_place)
    }
}

impl Text {
    /// Whether `place` is one of the places of the text.
    pub open spec fn has_place(self, place: (int, int)) -> bool {
        place_in(self.lines, place)
    }

    /// There is a line, and the cursor, the mark and the places that undoing and
    /// redoing lead to are in the text.
    pub open spec fn valid(self) -> bool {
        &&& self.lines.len() > 0
        &&& self.has_place((self.row, self.col))
        &&& self.mark matches Some(m) ==> self.has_place(m)
        &&& self.cut.len() > 0
        &&& self.top.0 >= 0 && self.top.1 >= 0
        &&& forall|i: int| 0 <= i < self.done.len() ==> (#[trigger] self.done[i]).valid()
        &&& forall|i: int| 0 <= i < self.undone.len() ==> (#[trigger] self.undone[i]).valid()
    }

    /// A text without cursor and mark to speak of.
    pub open spec fn fresh(lines: Seq<Seq<char>>) -> Text {
        Text {
            lines: if lines.len() == 0 {
                seq![Seq::empty()]
            } else {
                lines
            },
            row: 0,
            col: 0,
            mark: None,
            cut: seq![Seq::empty()],
            done: Seq::empty(),
            undone: Seq::empty(),
            top: (0, 0),
            size: (0, 0),
        }
    }

    /// The place in row `row` that is closest to column `col`.
    pub open spec fn fit(self, row: int, col: int) -> (int, int) {
        (
            row,
            if col <= self.lines[row].len() {
                col
            } else {
                self.lines[row].len() as int
            },
        )
    }

    /// Where `m` leads, if it leads anywhere.
    pub open spec fn target(self, m: Motion) -> Option<(int, int)> {
        let line = self.lines[self.row];
        let last = self.lines.len() - 1;
        match m {
            Motion::Forward => if self.col < line.len() {
                Some((self.row, self.col + 1))
            } else if self.row < last {
                Some((self.row + 1, 0))
            } else {
                None
            },
            Motion::Back => if self.col > 0 {
                Some((self.row, self.col - 1))
            } else if self.row > 0 {
                Some((self.row - 1, self.lines[self.row - 1].len() as int))
            } else {
                None
            },
            Motion::Up => if self.row > 0 {
                Some(self.fit(self.row - 1, self.col))
            } else {
                None
            },
            Motion::Down => if self.row < last {
                Some(self.fit(self.row + 1, self.col))
            } else {
                None
            },
            Motion::Head => Some((self.row, 0)),
            Motion::End => Some((self.row, line.len() as int)),
            Motion::Top => Some(self.fit(0, self.col)),
            Motion::Bottom => Some(self.fit(last, self.col)),
            Motion::WordForward => match first_start_from(line, self.col + 1) {
                Some(col) => Some((self.row, col)),
                None => if self.row < last {
                    Some((self.row + 1, 0))
                } else {
                    Some((self.row, line.len() as int))
                },
            },
            Motion::WordEnd => match first_end_from(line, self.col + 1) {
                Some(col) => Some((self.row, col)),
                None => Some(word_end_below(self.lines, self.row)),
            },
            Motion::WordBack => match last_start_before(line, self.col) {
                Some(col) => Some((self.row, col)),
                None => if self.row > 0 {
                    Some((self.row - 1, self.lines[self.row - 1].len() as int))
                } else {
                    Some((self.row, 0))
                },
            },
            Motion::Jump(row, col) => Some(
                self.fit(
                    if row <= last {
                        row as int
                    } else {
                        last
                    },
                    col as int,
                ),
            ),
        }
    }

    /// With the cursor at `place`.
    pub open spec fn at(self, place: (int, int)) -> Text {
        Text { row: place.0, col: place.1, ..self }
    }

    /// With the cursor where `m` leads; a selection goes along.
    pub open spec fn moved(self, m: Motion) -> Text {
        match self.target(m) {
            Some(place) => self.at(place),
            None => self,
        }
    }

    /// With the cursor at `place`, if there is one; then with shift a selection
    /// starts or goes along, without shift it ends.
    pub open spec fn moved_by_key(self, place: Option<(int, int)>, shift: bool) -> Text {
        match place {
            Some(place) => Text {
                mark: if !shift {
                    None
                } else if self.mark is None {
                    Some((self.row, self.col))
                } else {
                    self.mark
                },
                ..self.at(place)
            },
            None => self,
        }
    }

    /// With a selection that starts at the cursor.
    pub open spec fn marked(self) -> Text {
        Text { mark: Some((self.row, self.col)), ..self }
    }

    /// Whether something is selected.
    pub open spec fn selects(self) -> bool {
        self.mark matches Some(m) && m != (self.row, self.col)
    }

    /// Where the selection starts and ends.
    pub open spec fn range(self) -> ((int, int), (int, int))
        recommends
            self.mark is Some,
    {
        let cursor = (self.row, self.col);
        let m = self.mark->0;
        if place_before(cursor, m) {
            (cursor, m)
        } else {
            (m, cursor)
        }
    }

    /// With other lines and the cursor at `new_place`. Undoing that leads back to
    /// the lines before and to `place`.
    pub open spec fn changed(
        self,
        new_lines: Seq<Seq<char>>,
        place: (int, int),
        new_place: (int, int),
    ) -> Text {
        let kept = if self.done.len() == 0 || self.done.len() + self.undone.len() < MAX_CHANGES {
            self.done
        } else {
            self.done.skip(1)
        };
        Text {
            lines: new_lines,
            mark: None,
            done: kept.push(Change { lines: self.lines, place, new_lines, new_place }),
            undone: Seq::empty(),
            ..self.at(new_place)
        }
    }

    /// As before the last change, if there is one to undo.
    pub open spec fn change_undone(self) -> Text {
        if self.done.len() == 0 {
            self
        } else {
            let change = self.done.last();
            Text {
                lines: change.lines,
                mark: None,
                done: self.done.drop_last(),
                undone: self.undone.push(change),
                ..self.at(change.place)
            }
        }
    }

    /// As after the last change that was undone, if there is one to redo.
    pub open spec fn change_redone(self) -> Text {
        if self.undone.len() == 0 {
            self
        } else {
            let change = self.undone.last();
            Text {
                lines: change.new_lines,
                mark: None,
                done: self.done.push(change),
                undone: self.undone.drop_last(),
                ..self.at(change.new_place)
            }
        }
    }

    /// Without the characters from `from` to `to`, and with the cursor there.
    pub open spec fn removed(self, from: (int, int), to: (int, int)) -> Text {
        self.changed(
            self.lines.take(from.0).push(
                self.lines[from.0].take(from.1) + self.lines[to.0].skip(to.1),
            ) + self.lines.skip(to.0 + 1),
            to,
            from,
        )
    }

    /// The characters from `from` to `to`, by lines.
    pub open spec fn between(self, from: (int, int), to: (int, int)) -> Seq<Seq<char>> {
        if from.0 == to.0 {
            seq![self.lines[from.0].subrange(from.1, to.1)]
        } else {
            seq![self.lines[from.0].skip(from.1)] + self.lines.subrange(from.0 + 1, to.0).push(
                self.lines[to.0].take(to.1),
            )
        }
    }

    /// Without a selection.
    pub open spec fn unmarked(self) -> Text {
        Text { mark: None, ..self }
    }

    /// Without what is selected, and with no selection.
    pub open spec fn unselected(self) -> Text {
        let cursor = (self.row, self.col);
        match self.mark {
            Some(m) if place_before(m, cursor) => self.removed(m, cursor),
            Some(m) if place_before(cursor, m) => self.removed(cursor, m),
            _ => self.unmarked(),
        }
    }

    /// With what is selected copied, and with no selection.
    pub open spec fn copied(self) -> Text {
        let cursor = (self.row, self.col);
        match self.mark {
            Some(m) if place_before(m, cursor) => Text {
                cut: self.between(m, cursor),
                ..self.unmarked()
            },
            Some(m) if place_before(cursor, m) => Text {
                cut: self.between(cursor, m),
                ..self.unmarked()
            },
            _ => self.unmarked(),
        }
    }

    /// Without what is selected, which is cut.
    pub open spec fn cut_out(self) -> Text {
        Text { cut: self.copied().cut, ..self.unselected() }
    }

    /// With the line broken at the cursor, in place of what is selected.
    pub open spec fn newline(self) -> Text {
        let t = self.unselected();
        let line = t.lines[t.row];
        t.changed(
            t.lines.take(t.row).push(line.take(t.col)).push(line.skip(t.col)) + t.lines.skip(
                t.row + 1,
            ),
            (t.row, t.col),
            (t.row + 1, 0),
        )
    }

    /// With `s` at the cursor, if it is not empty.
    pub open spec fn inserted(self, s: Seq<char>) -> Text {
        let line = self.lines[self.row];
        if s.len() == 0 {
            self
        } else {
            self.changed(
                self.lines.update(self.row, line.take(self.col) + s + line.skip(self.col)),
                (self.row, self.col),
                (self.row, self.col + s.len()),
            )
        }
    }

    /// With `c` at the cursor, in place of what is selected.
    pub open spec fn typed_char(self, c: char) -> Text {
        self.unselected().inserted(seq![c])
    }

    /// With the lines of `piece` at the cursor.
    pub open spec fn lines_inserted(self, piece: Seq<Seq<char>>) -> Text {
        let line = self.lines[self.row];
        let n = piece.len();
        if n == 1 {
            self.inserted(piece[0])
        } else {
            self.changed(
                self.lines.take(self.row).push(line.take(self.col) + piece[0]) + piece.subrange(
                    1,
                    n - 1,
                ).push(piece[n - 1] + line.skip(self.col)) + self.lines.skip(self.row + 1),
                (self.row, self.col),
                (self.row + n - 1, piece[n - 1].len() as int),
            )
        }
    }

    /// With what was cut or copied at the cursor, in place of what is selected.
    pub open spec fn pasted(self) -> Text {
        self.unselected().lines_inserted(to_paste(self.cut))
    }

    /// What is before the cursor in its line.
    pub open spec fn head(self) -> Seq<char> {
        self.lines[self.row].take(self.col)
    }

    /// With spaces at the cursor up to the next tab stop. The stops are four
    /// columns apart.
    pub open spec fn indented(self) -> Text {
        self.inserted(text::spaces((4 - text_cells(self.head()) % 4) as nat))
    }

    /// That a printable ASCII character takes one column.
    pub open spec fn ascii_is_narrow(self) -> bool {
        (forall|i: int| 0 <= i < self.head().len() ==> ' ' <= #[trigger] self.head()[i] <= '~')
            ==> text_cells(self.head()) == self.col
    }

    /// Without the characters from column `from` to column `to` of the line of the
    /// cursor, which are cut.
    pub open spec fn piece_cut(self, from: int, to: int) -> Text {
        Text {
            cut: seq![self.lines[self.row].subrange(from, to)],
            ..self.removed((self.row, from), (self.row, to))
        }
    }

    /// Without what is selected; else without the character before the cursor,
    /// which at the head of a line is the line break.
    pub open spec fn char_deleted(self) -> Text {
        if self.selects() {
            self.unselected()
        } else {
            match self.target(Motion::Back) {
                Some(place) => self.removed(place, (self.row, self.col)),
                None => self.unmarked(),
            }
        }
    }

    /// Without what is selected; else without the character at the cursor, which
    /// at the end of a line is the line break.
    pub open spec fn next_char_deleted(self) -> Text {
        if self.selects() {
            self.unselected()
        } else {
            match self.target(Motion::Forward) {
                Some(place) => self.removed((self.row, self.col), place),
                None => self.unmarked(),
            }
        }
    }

    /// Without what is selected; else without the rest of the line, which is cut;
    /// at the end of a line without the line break.
    pub open spec fn rest_deleted(self) -> Text {
        let line = self.lines[self.row];
        if self.selects() {
            self.unselected()
        } else if self.col < line.len() {
            self.piece_cut(self.col, line.len() as int)
        } else {
            self.next_char_deleted()
        }
    }

    /// Without what is selected; else without the line up to the cursor, which is
    /// cut; at the head of a line without the line break before it.
    pub open spec fn head_deleted(self) -> Text {
        if self.selects() {
            self.unselected()
        } else if self.col > 0 {
            self.piece_cut(0, self.col)
        } else {
            self.char_deleted()
        }
    }

    /// Without what is selected; else without the word before the cursor and what
    /// follows it, which is cut; at the head of a line without the line break
    /// before it.
    pub open spec fn word_deleted(self) -> Text {
        if self.selects() {
            self.unselected()
        } else if self.col > 0 {
            self.piece_cut(
                match last_start_before(self.lines[self.row], self.col) {
                    Some(col) => col,
                    None => 0,
                },
                self.col,
            )
        } else {
            self.char_deleted()
        }
    }

    /// Without what is selected; else without the line up to the end of the next
    /// word, which is cut; at the end of a line without the line break.
    pub open spec fn next_word_deleted(self) -> Text {
        let line = self.lines[self.row];
        if self.selects() {
            self.unselected()
        } else if self.col < line.len() {
            self.piece_cut(
                self.col,
                match first_end_from(line, self.col) {
                    Some(col) => col + 1,
                    None => line.len() as int,
                },
            )
        } else {
            self.next_char_deleted()
        }
    }

    /// With the screen a page further down or up, and the cursor on it.
    pub open spec fn paged(self, down: bool, shift: bool) -> Text {
        let step = if down {
            self.size.0
        } else {
            -self.size.0
        };
        let t = Text { top: (clamped(self.top.0 + step, 0, 0xffff), self.top.1), ..self };
        let row = clamped(
            clamped(t.row, t.top.0, screen_end(t.top.0, t.size.0)),
            0,
            t.lines.len() - 1,
        );
        let col = clamped(t.col, t.top.1, screen_end(t.top.1, t.size.1));
        t.moved_by_key(Some(t.fit(row, col)), shift)
    }

    /// On a screen with so many rows and columns, scrolled so that the cursor is
    /// on it.
    pub open spec fn shown(self, width: u16, height: u16) -> Text {
        Text {
            top: (
                scrolled_to(self.top.0, self.row, height as int),
                scrolled_to(self.top.1, self.col, width as int),
            ),
            size: (height as int, width as int),
            ..self
        }
    }
}

/// Whether no line is longer than a line on a screen may be.
pub open spec fn lines_fit(lines: Seq<Seq<char>>) -> bool {
    forall|i: int| 0 <= i < lines.len() ==> (#[trigger] lines[i]).len() <= MAX_LINE
}

/// Whether an area with `t` can be shown in so many columns and rows.
pub open spec fn can_show(t: Text, width: u16, height: u16) -> bool {
    &&& t.lines.len() + height <= u16::MAX
    &&& lines_fit(t.lines)
    &&& width * height <= MAX_CELLS
    &&& width <= i16::MAX
    &&& height <= i16::MAX
}

/// What a key does to an area.
pub enum Typing {
    Newline,
    Insert(char),
    Indent,
    DeleteChar,
    DeleteNextChar,
    DeleteRest,
    DeleteHead,
    DeleteWord,
    DeleteNextWord,
    Move(Motion),
    NextParagraph,
    PreviousParagraph,
    Cut,
    Copy,
    Paste,
    Undo,
    Redo,
    PageDown,
    PageUp,
    Ignored,
}

/// What `k` does to an area.
pub open spec fn typing(k: KeyEvent) -> Typing {
    let control = k.modifiers.control;
    let alt = k.modifiers.alt;
    match k.code {
        KeyCode::Enter => Typing::Newline,
        KeyCode::Home => Typing::Move(Motion::Head),
        KeyCode::End => Typing::Move(Motion::End),
        KeyCode::PageUp => Typing::PageUp,
        KeyCode::PageDown => Typing::PageDown,
        KeyCode::Esc | KeyCode::Other => Typing::Ignored,
        KeyCode::Tab => if control || alt {
            Typing::Ignored
        } else {
            Typing::Indent
        },
        KeyCode::Backspace => if control {
            Typing::Ignored
        } else if alt {
            Typing::DeleteWord
        } else {
            Typing::DeleteChar
        },
        KeyCode::Delete => if control {
            Typing::Ignored
        } else if alt {
            Typing::DeleteNextWord
        } else {
            Typing::DeleteNextChar
        },
        KeyCode::Left => match (control, alt) {
            (false, false) => Typing::Move(Motion::Back),
            (true, false) => Typing::Move(Motion::WordBack),
            (true, true) => Typing::Move(Motion::Head),
            (false, true) => Typing::Ignored,
        },
        KeyCode::Right => match (control, alt) {
            (false, false) => Typing::Move(Motion::Forward),
            (true, false) => Typing::Move(Motion::WordForward),
            (true, true) => Typing::Move(Motion::End),
            (false, true) => Typing::Ignored,
        },
        KeyCode::Up => match (control, alt) {
            (false, false) => Typing::Move(Motion::Up),
            (true, false) => Typing::PreviousParagraph,
            (true, true) => Typing::Move(Motion::Top),
            (false, true) => Typing::Ignored,
        },
        KeyCode::Down => match (control, alt) {
            (false, false) => Typing::Move(Motion::Down),
            (true, false) => Typing::NextParagraph,
            (true, true) => Typing::Move(Motion::Bottom),
            (false, true) => Typing::Ignored,
        },
        KeyCode::Char(c) => match (control, alt) {
            (false, false) => if c == '\n' || c == '\r' {
                Typing::Newline
            } else {
                Typing::Insert(c)
            },
            (true, false) => control_typing(c),
            (false, true) => alt_typing(c),
            (true, true) => if c == 'b' {
                Typing::Move(Motion::Head)
            } else if c == 'f' {
                Typing::Move(Motion::End)
            } else if c == 'p' {
                Typing::Move(Motion::Top)
            } else if c == 'n' {
                Typing::Move(Motion::Bottom)
            } else {
                Typing::Ignored
            },
        },
    }
}

/// What `c` with control does to an area.
pub open spec fn control_typing(c: char) -> Typing {
    if c == 'm' {
        Typing::Newline
    } else if c == 'h' {
        Typing::DeleteChar
    } else if c == 'd' {
        Typing::DeleteNextChar
    } else if c == 'k' {
        Typing::DeleteRest
    } else if c == 'j' {
        Typing::DeleteHead
    } else if c == 'w' {
        Typing::DeleteWord
    } else if c == 'n' {
        Typing::Move(Motion::Down)
    } else if c == 'p' {
        Typing::Move(Motion::Up)
    } else if c == 'f' {
        Typing::Move(Motion::Forward)
    } else if c == 'b' {
        Typing::Move(Motion::Back)
    } else if c == 'a' {
        Typing::Move(Motion::Head)
    } else if c == 'e' {
        Typing::Move(Motion::End)
    } else if c == 'x' {
        Typing::Cut
    } else if c == 'c' {
        Typing::Copy
    } else if c == 'y' {
        Typing::Paste
    } else if c == 'u' {
        Typing::Undo
    } else if c == 'r' {
        Typing::Redo
    } else if c == 'v' {
        Typing::PageDown
    } else {
        Typing::Ignored
    }
}

/// What `c` with alt does to an area.
pub open spec fn alt_typing(c: char) -> Typing {
    if c == 'h' {
        Typing::DeleteWord
    } else if c == 'd' {
        Typing::DeleteNextWord
    } else if c == '<' {
        Typing::Move(Motion::Top)
    } else if c == '>' {
        Typing::Move(Motion::Bottom)
    } else if c == 'f' {
        Typing::Move(Motion::WordForward)
    } else if c == 'b' {
        Typing::Move(Motion::WordBack)
    } else if c == ']' || c == 'n' {
        Typing::NextParagraph
    } else if c == '[' || c == 'p' {
        Typing::PreviousParagraph
    } else if c == 'v' {
        Typing::PageUp
    } else {
        Typing::Ignored
    }
}

/// Whether `k` can make `after` of `before`.
pub open spec fn typed(before: Text, k: KeyEvent, after: Text) -> bool {
    let shift = k.modifiers.shift;
    match typing(k) {
        Typing::Newline => after == before.newline(),
        Typing::Insert(c) => after == before.typed_char(c),
        Typing::Indent => after == before.unselected().indented()
            && before.unselected().ascii_is_narrow(),
        Typing::DeleteChar => after == before.char_deleted(),
        Typing::DeleteNextChar => after == before.next_char_deleted(),
        Typing::DeleteRest => after == before.rest_deleted(),
        Typing::DeleteHead => after == before.head_deleted(),
        Typing::DeleteWord => after == before.word_deleted(),
        Typing::DeleteNextWord => after == before.next_word_deleted(),
        Typing::Move(m) => after == before.moved_by_key(before.target(m), shift),
        Typing::NextParagraph => after == before.moved_by_key(
            Some(before.fit(paragraph_from(before.lines, before.row + 1), before.col)),
            shift,
        ),
        Typing::PreviousParagraph => after == before.moved_by_key(
            if before.row > 0 {
                Some(before.fit(paragraph_before(before.lines, before.row), before.col))
            } else {
                None
            },
            shift,
        ),
        Typing::Cut => after == before.cut_out(),
        Typing::Copy => after == before.copied(),
        Typing::Paste => after == before.pasted(),
        Typing::Undo => after == before.change_undone(),
        Typing::Redo => after == before.change_redone(),
        Typing::PageDown => after == before.paged(true, shift),
        Typing::PageUp => after == before.paged(false, shift),
        Typing::Ignored => after == before,
    }
}

// ---------------------------------------------------------------------------
// The operations
// ---------------------------------------------------------------------------

/// `TextArea::new`: an area with the given lines, with one empty line where none
/// is given, and the cursor at the start.
#[verifier::external_body]
fn text_area<'a>(lines: Vec<String>) -> (r: Area<'a>)
    ensures
        text_of(r) == Text::fresh(text::texts(lines@)),
{
    Area { area: TextArea::new(lines) }
}

/// `TextArea::lines`: the lines.
#[verifier::external_body]
pub(crate) fn lines_of<'b, 'a>(area: &'b Area<'a>) -> (r: &'b [String])
    ensures
        text::texts(r@) == text_of(*area).lines,
        r@.len() > 0,
{
    area.area.lines()
}

/// `TextArea::cursor`: the place of the cursor, which is always in the text.
#[verifier::external_body]
pub(crate) fn cursor_of(area: &Area) -> (r: (usize, usize))
    ensures
        r.0 == text_of(*area).row,
        r.1 == text_of(*area).col,
        text_of(*area).has_place((r.0 as int, r.1 as int)),
{
    area.area.cursor()
}

/// A place, as a pair of numbers.
pub open spec fn place_of(place: (usize, usize)) -> (int, int) {
    (place.0 as int, place.1 as int)
}

/// `TextArea::selection_range`: where the selection starts and ends, if there is
/// one. The start does not come after the end.
#[verifier::external_body]
pub(crate) fn selection_of(area: &Area) -> (r: Option<((usize, usize), (usize, usize))>)
    ensures
        r is Some == text_of(*area).mark is Some,
        r matches Some((start, end)) ==> text_of(*area).range() == (place_of(start), place_of(end)),
{
    area.area.selection_range()
}

/// `TextArea::move_cursor`: moves the cursor as asked, or not at all where that
/// leads nowhere. The cursor stays in the text.
#[verifier::external_body]
pub(crate) fn move_cursor(area: &mut Area, m: Motion)
    ensures
        text_of(*final(area)) == text_of(*old(area)).moved(m),
        text_of(*final(area)).has_place((text_of(*final(area)).row, text_of(*final(area)).col)),
{
    area.area.move_cursor(match m {
        Motion::Forward => CursorMove::Forward,
        Motion::Back => CursorMove::Back,
        Motion::Up => CursorMove::Up,
        Motion::Down => CursorMove::Down,
        Motion::Head => CursorMove::Head,
        Motion::End => CursorMove::End,
        Motion::Top => CursorMove::Top,
        Motion::Bottom => CursorMove::Bottom,
        Motion::WordForward => CursorMove::WordForward,
        Motion::WordEnd => CursorMove::WordEnd,
        Motion::WordBack => CursorMove::WordBack,
        Motion::Jump(row, col) => CursorMove::Jump(row, col),
    });
}

/// `TextArea::start_selection`: starts a selection at the cursor.
#[verifier::external_body]
pub(crate) fn start_selection(area: &mut Area)
    ensures
        text_of(*final(area)) == text_of(*old(area)).marked(),
{
    area.area.start_selection();
}

/// `TextArea::cut`: removes what is selected, and keeps it for pasting.
#[verifier::external_body]
pub(crate) fn cut(area: &mut Area)
    ensures
        text_of(*final(area)) == text_of(*old(area)).cut_out(),
{
    area.area.cut();
}

/// `TextArea::insert_newline`: breaks the line at the cursor.
#[verifier::external_body]
pub(crate) fn insert_newline(area: &mut Area)
    ensures
        text_of(*final(area)) == text_of(*old(area)).newline(),
{
    area.area.insert_newline();
}

/// `TextArea::delete_char`: deletes what is selected, else the character before
/// the cursor.
#[verifier::external_body]
pub(crate) fn delete_char(area: &mut Area)
    ensures
        text_of(*final(area)) == text_of(*old(area)).char_deleted(),
{
    area.area.delete_char();
}

/// `TextArea::delete_next_char`: deletes what is selected, else the character at
/// the cursor.
#[verifier::external_body]
pub(crate) fn delete_next_char(area: &mut Area)
    ensures
        text_of(*final(area)) == text_of(*old(area)).next_char_deleted(),
{
    area.area.delete_next_char();
}

/// `TextArea::delete_line_by_end`: deletes what is selected, else the rest of the
/// line, else the line break.
#[verifier::external_body]
pub(crate) fn delete_line_by_end(area: &mut Area)
    ensures
        text_of(*final(area)) == text_of(*old(area)).rest_deleted(),
{
    area.area.delete_line_by_end();
}

/// `TextArea::delete_word`: deletes what is selected, else the word before the
/// cursor.
#[verifier::external_body]
pub(crate) fn delete_word(area: &mut Area)
    ensures
        text_of(*final(area)) == text_of(*old(area)).word_deleted(),
{
    area.area.delete_word();
}

/// `TextArea::input`: does what the key stands for. A tab goes by the columns that
/// the characters before it take: `UnicodeWidthChar::width` of each, summed up,
/// which has a name. A piece of a line that holds a line break is not to be pasted.
#[verifier::external_body]
fn input(area: &mut Area, k: KeyEvent)
    requires
        typing(k) is Paste ==> !text::joined(text_of(*old(area)).cut, "\n"@).contains('\n'),
    ensures
        typed(text_of(*old(area)), k, text_of(*final(area))),
        typing(k) is Indent ==> text_of(*final(area)).col == text_of(*old(area)).unselected().col + 4
            - text_cells(text_of(*old(area)).unselected().head()) % 4,
{
    let key = match k.code {
        KeyCode::Char(c) => Key::Char(c),
        KeyCode::Backspace => Key::Backspace, KeyCode::Enter => Key::Enter,
        KeyCode::Left => Key::Left, KeyCode::Right => Key::Right,
        KeyCode::Up => Key::Up, KeyCode::Down => Key::Down,
        KeyCode::Tab => Key::Tab, KeyCode::Delete => Key::Delete,
        KeyCode::Home => Key::Home, KeyCode::End => Key::End,
        KeyCode::PageUp => Key::PageUp, KeyCode::PageDown => Key::PageDown,
        KeyCode::Esc => Key::Esc, KeyCode::Other => Key::Null,
    };
    let held = k.modifiers;
    area.area.input(Input { key, ctrl: held.control, alt: held.alt, shift: held.shift });
}

/// `TextArea::yank_text`: what was cut or copied last, with line breaks between the
/// lines.
#[verifier::external_body]
fn yank_text(area: &Area) -> (r: String)
    ensures
        r@ == text::joined(text_of(*area).cut, "\n"@),
{
    area.area.yank_text()
}

/// `TextArea::insert_str`: inserts the lines of `s` in place of what is selected.
#[verifier::external_body]
fn insert_str(area: &mut Area, s: &str)
    ensures
        text_of(*final(area)) == text_of(*old(area)).unselected().lines_inserted(lines_in(s@)),
{
    area.area.insert_str(s);
}

fn is_paste(k: KeyEvent) -> (r: bool)
    ensures
        r == (typing(k) is Paste),
{
    k.is_char('y') && k.modifiers.control && !k.modifiers.alt
}

/// Whether a key scrolls by what is on the screen.
pub fn scrolls(k: KeyEvent) -> (r: bool)
    ensures
        r == (typing(k) is PageUp || typing(k) is PageDown),
{
    match k.code {
        KeyCode::PageUp | KeyCode::PageDown => true,
        KeyCode::Char(c) => c == 'v' && k.modifiers.control != k.modifiers.alt,
        _ => false,
    }
}

/// Does to an area what the key stands for. What was cut is pasted line by line
/// where it holds a line break.
pub(crate) fn press(area: &mut Area, k: KeyEvent)
    ensures
        typed(text_of(*old(area)), k, text_of(*final(area))),
{
    if is_paste(k) {
        let cut = yank_text(area);
        if text::has_char(cut.as_str(), '\n') {
            insert_str(area, cut.as_str());
            return;
        }
    }
    input(area, k);
}

/// Whether no line is longer than a line on a screen may be.
fn short_lines(lines: &[String]) -> (r: bool)
    ensures
        r == lines_fit(text::texts(lines@)),
{
    let ghost all = text::texts(lines@);
    let mut i: usize = 0;
    while i < lines.len()
        invariant
            i <= lines.len(),
            all == text::texts(lines@),
            forall|j: int| 0 <= j < i ==> (#[trigger] all[j]).len() <= MAX_LINE,
        decreases lines.len() - i,
    {
        assert(all[i as int] == lines@[i as int]@);
        if lines[i].as_str().unicode_len() > MAX_LINE {
            return false;
        }
        i += 1;
    }
    true
}

/// `Widget::render` of a `TextArea`: scrolls so that the cursor is on the screen,
/// and keeps what is on the screen for keys that scroll by it. What is drawn is
/// left behind. It computes with 16 bits, the columns of a line and of a single
/// character included, and it takes room for every cell, hence the limits.
#[verifier::external_body]
fn render(area: &mut Area, width: u16, height: u16)
    requires
        can_show(text_of(*old(area)), width, height),
    ensures
        text_of(*final(area)) == text_of(*old(area)).shown(width, height),
{
    let cells = Rect { x: 0, y: 0, width, height };
    area.area.render(cells, &mut Buffer::empty(cells));
}

impl<'a> Area<'a> {
    /// An area with the given lines, with one empty line where none is given, and
    /// the cursor at the start.
    pub fn new(lines: Vec<String>) -> (r: Area<'a>)
        ensures
            text_of(r) == Text::fresh(text::texts(lines@)),
    {
        text_area(lines)
    }

    /// Says that the area is on the screen with so many columns and rows, which
    /// keys that scroll go by. An area too large for that stays as it is.
    pub fn show(&mut self, width: u16, height: u16)
        ensures
            text_of(*final(self)) == if can_show(text_of(*old(self)), width, height) {
                text_of(*old(self)).shown(width, height)
            } else {
                text_of(*old(self))
            },
    {
        let rows: usize = lines_of(self).len();
        assert(width * height <= 0xffff * 0xffff) by (nonlinear_arith)
            requires
                width <= 0xffff,
                height <= 0xffff,
        ;
        let cells: u32 = width as u32 * height as u32;
        if rows <= (u16::MAX - height) as usize && cells <= MAX_CELLS && width <= i16::MAX as u16
            && height <= i16::MAX as u16 && short_lines(lines_of(self)) {
            render(self, width, height);
        }
    }
}

// ---------------------------------------------------------------------------
// Laws
// ---------------------------------------------------------------------------

/// A change leads to a valid text where its places are in the lines before and
/// after.
pub proof fn lemma_changed_valid(
    t: Text,
    new_lines: Seq<Seq<char>>,
    place: (int, int),
    new_place: (int, int),
)
    requires
        t.valid(),
        t.has_place(place),
        place_in(new_lines, new_place),
    ensures
        t.changed(new_lines, place, new_place).valid(),
{
    let u = t.changed(new_lines, place, new_place);
    assert forall|i: int| 0 <= i < u.done.len() implies (#[trigger] u.done[i]).valid() by {
        if i < u.done.len() - 1 {
            let j = i + (t.done.len() - (u.done.len() - 1));
            assert(u.done[i] == t.done[j]);
        }
    }
}

/// Undoing a change gives back the lines before it, and the place it was made
/// from; redoing it then gives back what it had made.
pub proof fn lemma_undo_then_redo(
    t: Text,
    new_lines: Seq<Seq<char>>,
    place: (int, int),
    new_place: (int, int),
)
    ensures
        ({
            let u = t.changed(new_lines, place, new_place);
            &&& u.change_undone().lines == t.lines
            &&& (u.change_undone().row, u.change_undone().col) == place
            &&& u.change_undone().change_redone() == u
        }),
{
    let u = t.changed(new_lines, place, new_place);
    let v = u.change_undone();
    assert(v.undone.drop_last() =~= u.undone);
    assert(v.done.push(u.done.last()) =~= u.done);
}

/// Typing a character and deleting it leaves the lines and the cursor as they
/// were.
pub proof fn lemma_delete_after_type(t: Text, c: char)
    requires
        t.has_place((t.row, t.col)),
        !t.selects(),
    ensures
        t.typed_char(c).char_deleted().lines == t.lines,
        t.typed_char(c).char_deleted().row == t.row,
        t.typed_char(c).char_deleted().col == t.col,
{
    let line = t.lines[t.row];
    let typed = t.typed_char(c);
    let longer = typed.lines[t.row];
    assert(longer == line.take(t.col) + seq![c] + line.skip(t.col));
    assert(longer.take(t.col) =~= line.take(t.col));
    assert(longer.skip(t.col + 1) =~= line.skip(t.col));
    assert(line.take(t.col) + line.skip(t.col) =~= line);
    assert(typed.char_deleted().lines =~= t.lines);
}

/// A line broken and joined again is as it was.
pub proof fn lemma_delete_after_newline(t: Text)
    requires
        t.has_place((t.row, t.col)),
        !t.selects(),
    ensures
        t.newline().char_deleted().lines == t.lines,
        t.newline().char_deleted().row == t.row,
        t.newline().char_deleted().col == t.col,
{
    let line = t.lines[t.row];
    let broken = t.newline();
    assert(broken.lines[t.row] == line.take(t.col));
    assert(broken.lines[t.row + 1] == line.skip(t.col));
    let head = line.take(t.col);
    let tail = line.skip(t.col);
    assert(head.take(head.len() as int) =~= head);
    assert(tail.skip(0) =~= tail);
    assert(head + tail =~= line);
    assert(broken.char_deleted().lines =~= t.lines);
}

proof fn lemma_breaks_exist(s: Seq<char>)
    ensures
        at_breaks(s).len() > 0,
        lines_in(s).len() > 0,
    decreases s.len(),
{
    if s.len() > 0 {
        lemma_breaks_exist(s.drop_last());
    }
}

/// Behind a break, text without one is a piece of its own.
proof fn lemma_break_before(s: Seq<char>, line: Seq<char>)
    requires
        !line.contains('\n'),
    ensures
        at_breaks(s + seq!['\n'] + line) == at_breaks(s).push(line),
    decreases line.len(),
{
    let all = s + seq!['\n'] + line;
    if line.len() == 0 {
        assert(all.drop_last() =~= s);
        assert(line =~= seq![]);
        assert(at_breaks(all) =~= at_breaks(s).push(line));
    } else {
        let init = line.drop_last();
        assert(line.last() != '\n') by {
            assert(line.contains(line[line.len() - 1]));
        }
        assert(!init.contains('\n')) by {
            if init.contains('\n') {
                let i = choose|i: int| 0 <= i < init.len() && init[i] == '\n';
                assert(line[i] == '\n');
            }
        }
        lemma_break_before(s, init);
        assert(all.drop_last() =~= s + seq!['\n'] + init);
        assert(init.push(line.last()) =~= line);
        assert(at_breaks(all) =~= at_breaks(s).push(line));
    }
}

/// Text without a break is one piece.
proof fn lemma_one_piece(line: Seq<char>)
    requires
        !line.contains('\n'),
    ensures
        at_breaks(line) == seq![line],
    decreases line.len(),
{
    if line.len() == 0 {
        assert(line =~= seq![]);
        assert(at_breaks(line) =~= seq![line]);
    } else {
        let init = line.drop_last();
        assert(line.last() != '\n') by {
            assert(line.contains(line[line.len() - 1]));
        }
        assert(!init.contains('\n')) by {
            if init.contains('\n') {
                let i = choose|i: int| 0 <= i < init.len() && init[i] == '\n';
                assert(line[i] == '\n');
            }
        }
        lemma_one_piece(init);
        assert(init.push(line.last()) =~= line);
        assert(at_breaks(line) =~= seq![line]);
    }
}

proof fn lemma_break_joined(list: Seq<Seq<char>>)
    requires
        list.len() > 0,
        forall|i: int| 0 <= i < list.len() ==> !(#[trigger] list[i]).contains('\n'),
    ensures
        at_breaks(text::joined(list, seq!['\n'])) == list,
    decreases list.len(),
{
    assert(!list.last().contains('\n')) by {
        assert(!list[list.len() - 1].contains('\n'));
    }
    if list.len() == 1 {
        lemma_one_piece(list[0]);
        assert(seq![list[0]] =~= list);
    } else {
        let init = list.drop_last();
        assert forall|i: int| 0 <= i < init.len() implies !(#[trigger] init[i]).contains('\n') by {
            assert(!list[i].contains('\n'));
        }
        lemma_break_joined(init);
        lemma_break_before(text::joined(init, seq!['\n']), list.last());
        assert(init.push(list.last()) =~= list);
    }
}

/// Whether lines stay what they are when they are joined and broken again: no line
/// holds a line break, and none of several ends with a carriage return.
pub open spec fn keeps_lines(lines: Seq<Seq<char>>) -> bool {
    forall|i: int|
        0 <= i < lines.len() ==> !(#[trigger] lines[i]).contains('\n') && (lines.len() > 1
            ==> without_return(lines[i]) == lines[i])
}

proof fn lemma_to_paste(cut: Seq<Seq<char>>)
    ensures
        cut.len() > 0 ==> to_paste(cut).len() > 0,
        cut.len() > 0 && keeps_lines(cut) ==> to_paste(cut) == cut,
{
    reveal_strlit("\n");
    assert("\n"@ =~= seq!['\n']);
    let s = text::joined(cut, "\n"@);
    lemma_breaks_exist(s);
    if cut.len() == 1 && keeps_lines(cut) {
        assert(!cut[0].contains('\n'));
    } else if cut.len() > 1 && keeps_lines(cut) {
        let head = text::joined(cut.drop_last(), "\n"@);
        assert(s[head.len() as int] == '\n');
        lemma_break_joined(cut);
        assert(to_paste(cut) =~= cut);
    }
}

/// Pasting what was cut puts it back, unless a line of it holds a line break or,
/// with another behind it, ends with a carriage return.
pub proof fn lemma_paste_after_cut(t: Text)
    requires
        t.valid(),
        t.selects(),
        keeps_lines(t.cut_out().cut),
    ensures
        t.cut_out().pasted().lines == t.lines,
{
    let cursor = (t.row, t.col);
    let m = t.mark->0;
    let (from, to) = if place_before(m, cursor) {
        (m, cursor)
    } else {
        (cursor, m)
    };
    let cut = t.between(from, to);
    let u = t.cut_out();
    assert(u == Text { cut, ..t.removed(from, to) });
    lemma_to_paste(cut);
    let first = t.lines[from.0];
    let last = t.lines[to.0];
    let joined = u.lines[from.0];
    assert(joined == first.take(from.1) + last.skip(to.1));
    assert(joined.take(from.1) =~= first.take(from.1));
    assert(joined.skip(from.1) =~= last.skip(to.1));
    if from.0 == to.0 {
        assert(first.take(from.1) + first.subrange(from.1, to.1) + first.skip(to.1) =~= first);
    } else {
        let n = cut.len();
        assert(cut[0] == first.skip(from.1));
        assert(cut[n - 1] == last.take(to.1));
        assert(first.take(from.1) + first.skip(from.1) =~= first);
        assert(last.take(to.1) + last.skip(to.1) =~= last);
        assert(cut.subrange(1, n - 1) =~= t.lines.subrange(from.0 + 1, to.0));
    }
    assert(u.pasted().lines =~= t.lines);
}

/// What is shown has the cursor on the screen, if the screen has any room.
pub proof fn lemma_cursor_is_shown(t: Text, width: u16, height: u16)
    requires
        width > 0,
        height > 0,
    ensures
        ({
            let u = t.shown(width, height);
            &&& u.top.0 <= u.row < u.top.0 + height
            &&& u.top.1 <= u.col < u.top.1 + width
            &&& u.shown(width, height) == u
        }),
{
}

proof fn lemma_removed_valid(t: Text, from: (int, int), to: (int, int))
    requires
        t.valid(),
        t.has_place(from),
        t.has_place(to),
        place_before(from, to),
    ensures
        t.removed(from, to).valid(),
{
    let r = t.removed(from, to);
    assert(r.lines[from.0] == t.lines[from.0].take(from.1) + t.lines[to.0].skip(to.1));
    lemma_changed_valid(t, r.lines, to, from);
}

proof fn lemma_first_end(line: Seq<char>, i: int)
    requires
        0 <= i,
    ensures
        first_end_from(line, i) matches Some(j) ==> i <= j < line.len(),
        first_start_from(line, i) matches Some(j) ==> i <= j < line.len(),
    decreases line.len() - i,
{
    if i < line.len() {
        lemma_first_end(line, i + 1);
    }
}

proof fn lemma_last_start(line: Seq<char>, i: int)
    requires
        i <= line.len(),
    ensures
        last_start_before(line, i) matches Some(j) ==> 0 <= j < i,
    decreases i,
{
    if i > 0 {
        lemma_last_start(line, i - 1);
    }
}

proof fn lemma_word_end_below(lines: Seq<Seq<char>>, row: int)
    requires
        0 <= row < lines.len(),
    ensures
        place_in(lines, word_end_below(lines, row)),
    decreases lines.len() - row,
{
    if row + 1 < lines.len() {
        lemma_first_end(lines[row + 1], 0);
        lemma_word_end_below(lines, row + 1);
    }
}

/// No motion leads out of the text.
pub proof fn lemma_target_in_text(t: Text, m: Motion)
    requires
        t.valid(),
    ensures
        t.target(m) matches Some(place) ==> t.has_place(place),
        t.moved(m).valid(),
{
    lemma_first_end(t.lines[t.row], t.col + 1);
    lemma_last_start(t.lines[t.row], t.col);
    lemma_word_end_below(t.lines, t.row);
}

proof fn lemma_paragraphs(lines: Seq<Seq<char>>, row: int)
    requires
        lines.len() > 0,
        0 <= row,
    ensures
        0 <= paragraph_from(lines, row) < lines.len(),
        row <= lines.len() ==> 0 <= paragraph_before(lines, row) < lines.len(),
    decreases lines.len() - row,
{
    if row < lines.len() {
        lemma_paragraphs(lines, row + 1);
    }
    if row <= lines.len() {
        lemma_paragraph_before(lines, row);
    }
}

proof fn lemma_paragraph_before(lines: Seq<Seq<char>>, row: int)
    requires
        0 <= row <= lines.len(),
        lines.len() > 0,
    ensures
        0 <= paragraph_before(lines, row) < lines.len(),
    decreases row,
{
    if row > 1 {
        lemma_paragraph_before(lines, row - 1);
    }
}

proof fn lemma_unselected_valid(t: Text)
    requires
        t.valid(),
    ensures
        t.unselected().valid(),
        t.cut_out().valid(),
        t.copied().valid(),
{
    let cursor = (t.row, t.col);
    if let Some(m) = t.mark {
        if place_before(m, cursor) {
            lemma_removed_valid(t, m, cursor);
        } else if place_before(cursor, m) {
            lemma_removed_valid(t, cursor, m);
        }
    }
}

proof fn lemma_inserted_valid(t: Text, s: Seq<char>)
    requires
        t.valid(),
    ensures
        t.inserted(s).valid(),
{
    if s.len() > 0 {
        let u = t.inserted(s);
        let line = t.lines[t.row];
        assert(u.lines[t.row] == line.take(t.col) + s + line.skip(t.col));
        lemma_changed_valid(t, u.lines, (t.row, t.col), (t.row, t.col + s.len()));
    }
}

/// No line break, insertion or deletion leads out of the text.
pub proof fn lemma_edits_stay_in_text(t: Text, s: Seq<char>)
    requires
        t.valid(),
    ensures
        t.unselected().valid(),
        t.unselected().inserted(s).valid(),
        t.cut_out().valid(),
        t.copied().valid(),
        t.newline().valid(),
        t.pasted().valid(),
        t.char_deleted().valid(),
        t.next_char_deleted().valid(),
        t.rest_deleted().valid(),
        t.head_deleted().valid(),
        t.word_deleted().valid(),
        t.next_word_deleted().valid(),
{
    lemma_unselected_valid(t);
    let u = t.unselected();
    let at = (u.row, u.col);
    lemma_inserted_valid(u, s);
    lemma_changed_valid(u, t.newline().lines, at, (u.row + 1, 0));
    lemma_to_paste(t.cut);
    let piece = to_paste(t.cut);
    let n = piece.len();
    lemma_inserted_valid(u, piece[0]);
    if n > 1 {
        let place = (u.row + n - 1, piece[n - 1].len() as int);
        assert(t.pasted().lines[place.0] == piece[n - 1] + u.lines[u.row].skip(u.col));
        lemma_changed_valid(u, t.pasted().lines, at, place);
    }
    let cursor = (t.row, t.col);
    lemma_target_in_text(t, Motion::Back);
    lemma_target_in_text(t, Motion::Forward);
    if let Some(place) = t.target(Motion::Back) {
        lemma_removed_valid(t, place, cursor);
    }
    if let Some(place) = t.target(Motion::Forward) {
        lemma_removed_valid(t, cursor, place);
    }
    let line = t.lines[t.row];
    if t.col < line.len() {
        lemma_removed_valid(t, cursor, (t.row, line.len() as int));
        lemma_first_end(line, t.col);
        if let Some(col) = first_end_from(line, t.col) {
            lemma_removed_valid(t, cursor, (t.row, col + 1));
        }
    }
    if t.col > 0 {
        lemma_removed_valid(t, (t.row, 0), cursor);
        lemma_last_start(line, t.col);
        if let Some(col) = last_start_before(line, t.col) {
            lemma_removed_valid(t, (t.row, col), cursor);
        }
    }
}

/// A new area and an area that is shown are valid.
pub proof fn lemma_shown_stays_in_text(t: Text, lines: Seq<Seq<char>>, width: u16, height: u16)
    requires
        t.valid(),
    ensures
        Text::fresh(lines).valid(),
        t.shown(width, height).valid(),
{
}

proof fn lemma_paged_valid(t: Text, down: bool, shift: bool)
    requires
        t.valid(),
    ensures
        t.paged(down, shift).valid(),
{
}

proof fn lemma_history_valid(t: Text)
    requires
        t.valid(),
    ensures
        t.change_undone().valid(),
        t.change_redone().valid(),
{
}

/// No key leads out of the text.
pub proof fn lemma_typing_stays_in_text(t: Text, k: KeyEvent, after: Text)
    requires
        t.valid(),
        typed(t, k, after),
    ensures
        after.valid(),
{
    match typing(k) {
        Typing::Move(m) => lemma_target_in_text(t, m),
        Typing::NextParagraph => lemma_paragraphs(t.lines, t.row + 1),
        Typing::PreviousParagraph => lemma_paragraphs(t.lines, t.row),
        Typing::Insert(c) => lemma_edits_stay_in_text(t, seq![c]),
        Typing::Indent => {
            let n = (4 - text_cells(t.unselected().head()) % 4) as nat;
            lemma_edits_stay_in_text(t, text::spaces(n));
        },
        Typing::PageDown => lemma_paged_valid(t, true, k.modifiers.shift),
        Typing::PageUp => lemma_paged_valid(t, false, k.modifiers.shift),
        Typing::Undo => lemma_history_valid(t),
        Typing::Redo => lemma_history_valid(t),
        _ => lemma_edits_stay_in_text(t, seq![]),
    }
}

/// A text of ordinary size can be shown on a screen of ordinary size, whatever it says: so
/// many lines and characters in a line, and so many columns, rows and cells.
pub proof fn lemma_ordinary_size_is_shown(t: Text, width: u16, height: u16)
    requires
        t.lines.len() + height <= 65_535,
        forall|i: int| 0 <= i < t.lines.len() ==> (#[trigger] t.lines[i]).len() <= 16_383,
        width <= 32_767,
        height <= 32_767,
        width * height <= 1_000_000,
    ensures
        can_show(t, width, height),
        t.shown(width, height).size == (height as int, width as int),
        t.shown(width, height).lines == t.lines,
{
}

/// The keys that scroll by what is on the screen: those for it, and `v` with control or
/// alt, but not with both.
pub proof fn lemma_scrolling_keys(k: KeyEvent, r: bool)
    requires
        call_ensures(scrolls, (k,), r),
    ensures
        r == (k.code == KeyCode::PageUp || k.code == KeyCode::PageDown || (k.code == KeyCode::Char(
            'v',
        ) && k.modifiers.control != k.modifiers.alt)),
{
}

/// A new area has the lines that it is given, or one empty line, with the cursor at the
/// start and nothing selected, cut or changed.
pub proof fn lemma_new_area<'a>(lines: Vec<String>, r: Area<'a>)
    requires
        call_ensures(Area::new, (lines,), r),
    ensures
        ({
            let t = text_of(r);
            &&& lines@.len() > 0 ==> t.lines == text::texts(lines@)
            &&& lines@.len() == 0 ==> t.lines == seq![Seq::<char>::empty()]
            &&& t.row == 0 && t.col == 0 && t.mark is None
            &&& t.cut == seq![Seq::<char>::empty()]
            &&& t.done.len() == 0 && t.undone.len() == 0
        }),
{
    assert(text::texts(lines@).len() == lines@.len());
}

} // verus!
