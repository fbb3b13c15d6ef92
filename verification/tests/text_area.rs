use std::time::Instant;
use todone::area::{scrolls, Area};
use todone::key::{KeyCode, KeyEvent, Modifiers};
use todone::vim::VimBuffer;

type Place = (usize, usize);
type Lines = Vec<Vec<char>>;

#[derive(Clone)]
struct Change {
    lines: Lines,
    place: Place,
    new_lines: Lines,
    new_place: Place,
}

/// A text area written down from what its keys are said to do.
#[derive(Clone)]
struct Model {
    lines: Lines,
    at: Place,
    mark: Option<Place>,
    cut: Lines,
    done: Vec<Change>,
    undone: Vec<Change>,
    top: Place,
    size: Place,
}

fn kind(c: char) -> u8 {
    if c.is_whitespace() {
        0
    } else if c.is_ascii_punctuation() {
        1
    } else {
        2
    }
}

fn starts_word(line: &[char], i: usize) -> bool {
    kind(line[i]) != 0 && (i == 0 || kind(line[i - 1]) != kind(line[i]))
}

fn ends_word(line: &[char], i: usize) -> bool {
    kind(line[i]) != 0 && (i + 1 == line.len() || kind(line[i + 1]) != kind(line[i]))
}

impl Model {
    fn new(lines: &[&str]) -> Model {
        Model {
            lines: lines.iter().map(|l| l.chars().collect()).collect(),
            at: (0, 0),
            mark: None,
            cut: vec![vec![]],
            done: vec![],
            undone: vec![],
            top: (0, 0),
            size: (0, 0),
        }
    }

    fn line(&self) -> &[char] {
        &self.lines[self.at.0]
    }

    fn change(&mut self, new_lines: Lines, place: Place, new_place: Place) {
        if self.done.len() + self.undone.len() >= 50 && !self.done.is_empty() {
            self.done.remove(0);
        }
        let lines = std::mem::replace(&mut self.lines, new_lines.clone());
        self.done.push(Change { lines, place, new_lines, new_place });
        self.undone.clear();
        self.at = new_place;
        self.mark = None;
    }

    fn remove(&mut self, from: Place, to: Place) {
        let mut lines = self.lines[..from.0].to_vec();
        let mut joined = self.lines[from.0][..from.1].to_vec();
        joined.extend(&self.lines[to.0][to.1..]);
        lines.push(joined);
        lines.extend_from_slice(&self.lines[to.0 + 1..]);
        self.change(lines, to, from);
    }

    fn selection(&self) -> Option<(Place, Place)> {
        let mark = self.mark?;
        if mark == self.at {
            None
        } else {
            Some((mark.min(self.at), mark.max(self.at)))
        }
    }

    fn between(&self, from: Place, to: Place) -> Lines {
        if from.0 == to.0 {
            return vec![self.lines[from.0][from.1..to.1].to_vec()];
        }
        let mut out = vec![self.lines[from.0][from.1..].to_vec()];
        out.extend_from_slice(&self.lines[from.0 + 1..to.0]);
        out.push(self.lines[to.0][..to.1].to_vec());
        out
    }

    /// Whether anything was selected.
    fn unselect(&mut self) -> bool {
        match self.selection() {
            Some((from, to)) => {
                self.remove(from, to);
                true
            }
            None => {
                self.mark = None;
                false
            }
        }
    }

    fn copy(&mut self) {
        if let Some((from, to)) = self.selection() {
            self.cut = self.between(from, to);
        }
        self.mark = None;
    }

    fn insert(&mut self, s: &[char]) {
        if s.is_empty() {
            return;
        }
        let (row, col) = self.at;
        let mut lines = self.lines.clone();
        lines[row].splice(col..col, s.iter().copied());
        self.change(lines, (row, col), (row, col + s.len()));
    }

    fn newline(&mut self) {
        self.unselect();
        let (row, col) = self.at;
        let mut lines = self.lines.clone();
        let tail = lines[row].split_off(col);
        lines.insert(row + 1, tail);
        self.change(lines, (row, col), (row + 1, 0));
    }

    fn paste(&mut self) {
        self.unselect();
        let cut = self.cut.clone();
        if cut.len() == 1 {
            self.insert(&cut[0]);
            return;
        }
        let (row, col) = self.at;
        let last = cut.len() - 1;
        let mut lines = self.lines.clone();
        let tail = lines[row].split_off(col);
        lines[row].extend(&cut[0]);
        let mut rest = cut[1..].to_vec();
        rest[last - 1].extend(tail);
        lines.splice(row + 1..row + 1, rest);
        self.change(lines, (row, col), (row + last, cut[last].len()));
    }

    fn cut_piece(&mut self, from: usize, to: usize) {
        self.cut = vec![self.line()[from..to].to_vec()];
        self.remove((self.at.0, from), (self.at.0, to));
    }

    fn back(&self) -> Option<Place> {
        let (row, col) = self.at;
        if col > 0 {
            Some((row, col - 1))
        } else if row > 0 {
            Some((row - 1, self.lines[row - 1].len()))
        } else {
            None
        }
    }

    fn forward(&self) -> Option<Place> {
        let (row, col) = self.at;
        if col < self.line().len() {
            Some((row, col + 1))
        } else if row + 1 < self.lines.len() {
            Some((row + 1, 0))
        } else {
            None
        }
    }

    fn fit(&self, row: usize, col: usize) -> Place {
        (row, col.min(self.lines[row].len()))
    }

    fn word_forward(&self) -> Place {
        let (row, col) = self.at;
        let line = self.line();
        match (col + 1..line.len()).find(|i| starts_word(line, *i)) {
            Some(i) => (row, i),
            None if row + 1 < self.lines.len() => (row + 1, 0),
            None => (row, line.len()),
        }
    }

    fn word_back(&self) -> Place {
        let (row, col) = self.at;
        match (0..col).rev().find(|i| starts_word(self.line(), *i)) {
            Some(i) => (row, i),
            None if row > 0 => (row - 1, self.lines[row - 1].len()),
            None => (row, 0),
        }
    }

    fn starts_paragraph(&self, row: usize) -> bool {
        row > 0 && !self.lines[row].is_empty() && self.lines[row - 1].is_empty()
    }

    fn go(&mut self, place: Option<Place>, shift: bool) {
        if let Some(place) = place {
            if !shift {
                self.mark = None;
            } else if self.mark.is_none() {
                self.mark = Some(self.at);
            }
            self.at = place;
        }
    }

    fn delete_char(&mut self) {
        if !self.unselect() {
            if let Some(place) = self.back() {
                self.remove(place, self.at);
            }
        }
    }

    fn delete_next_char(&mut self) {
        if !self.unselect() {
            if let Some(place) = self.forward() {
                self.remove(self.at, place);
            }
        }
    }

    fn delete_word(&mut self) {
        if self.selection().is_some() || self.at.1 == 0 {
            return self.delete_char();
        }
        let col = self.at.1;
        let from = (0..col).rev().find(|i| starts_word(self.line(), *i)).unwrap_or(0);
        self.cut_piece(from, col);
    }

    fn delete_next_word(&mut self) {
        let (col, len) = (self.at.1, self.line().len());
        if self.selection().is_some() || col == len {
            return self.delete_next_char();
        }
        let to = (col..len).find(|i| ends_word(self.line(), *i)).map_or(len, |i| i + 1);
        self.cut_piece(col, to);
    }

    fn page(&mut self, down: bool, shift: bool) {
        self.top.0 = if down {
            (self.top.0 + self.size.0).min(0xffff)
        } else {
            self.top.0.saturating_sub(self.size.0)
        };
        let end = |top: usize, len: usize| (top + len).min(0xffff).saturating_sub(1).max(top);
        let row = self.at.0.clamp(self.top.0, end(self.top.0, self.size.0));
        let col = self.at.1.clamp(self.top.1, end(self.top.1, self.size.1));
        let place = self.fit(row.min(self.lines.len() - 1), col);
        self.go(Some(place), shift);
    }

    fn show(&mut self, width: u16, height: u16) {
        let scrolled = |top: usize, n: usize, len: usize| {
            if n < top {
                n
            } else if top + len <= n {
                n + 1 - len
            } else {
                top
            }
        };
        self.size = (height as usize, width as usize);
        self.top = (
            scrolled(self.top.0, self.at.0, self.size.0),
            scrolled(self.top.1, self.at.1, self.size.1),
        );
    }

    fn undo(&mut self) {
        if let Some(change) = self.done.pop() {
            self.lines = change.lines.clone();
            self.at = change.place;
            self.mark = None;
            self.undone.push(change);
        }
    }

    fn redo(&mut self) {
        if let Some(change) = self.undone.pop() {
            self.lines = change.new_lines.clone();
            self.at = change.new_place;
            self.mark = None;
            self.done.push(change);
        }
    }

    fn press(&mut self, k: KeyEvent) {
        let Modifiers { shift, control, alt, .. } = k.modifiers;
        let (row, col) = self.at;
        let len = self.line().len();
        let last = self.lines.len() - 1;
        let up = if row > 0 { Some(self.fit(row - 1, col)) } else { None };
        let down = if row < last { Some(self.fit(row + 1, col)) } else { None };
        let next = (row + 1..=last).find(|r| self.starts_paragraph(*r)).unwrap_or(last);
        let previous = (0..row).rev().find(|r| self.starts_paragraph(*r)).unwrap_or(0);
        let paragraph_up = if row > 0 { Some(self.fit(previous, col)) } else { None };
        let head = Some((row, 0));
        let tail = Some((row, len));
        match (k.code, control, alt) {
            (KeyCode::Enter, _, _) | (KeyCode::Char('m'), true, false) => self.newline(),
            (KeyCode::Tab, false, false) => {
                self.unselect();
                let n = 4 - self.at.1 % 4;
                self.insert(&vec![' '; n]);
            }
            (KeyCode::Char('\n' | '\r'), false, false) => self.newline(),
            (KeyCode::Char(c), false, false) => {
                self.unselect();
                self.insert(&[c]);
            }
            (KeyCode::Backspace, true, _) => self.delete_word(),
            (KeyCode::Backspace, false, false) | (KeyCode::Char('h'), true, false) => {
                self.delete_char()
            }
            (KeyCode::Delete, false, false) | (KeyCode::Char('d'), true, false) => {
                self.delete_next_char()
            }
            (KeyCode::Char('k'), true, false) => {
                if self.selection().is_some() || col == len {
                    self.delete_next_char();
                } else {
                    self.cut_piece(col, len);
                }
            }
            (KeyCode::Char('j'), true, false) => {
                if self.selection().is_some() || col == 0 {
                    self.delete_char();
                } else {
                    self.cut_piece(0, col);
                }
            }
            (KeyCode::Char('w'), true, false)
            | (KeyCode::Char('h'), false, true)
            | (KeyCode::Backspace, false, true) => self.delete_word(),
            (KeyCode::Char('d'), false, true) | (KeyCode::Delete, false, true) => {
                self.delete_next_word()
            }
            (KeyCode::Char('n'), true, false) | (KeyCode::Down, false, false) => {
                self.go(down, shift)
            }
            (KeyCode::Char('p'), true, false) | (KeyCode::Up, false, false) => self.go(up, shift),
            (KeyCode::Char('f'), true, false) | (KeyCode::Right, false, false) => {
                self.go(self.forward(), shift)
            }
            (KeyCode::Char('b'), true, false) | (KeyCode::Left, false, false) => {
                self.go(self.back(), shift)
            }
            (KeyCode::Char('a'), true, false)
            | (KeyCode::Home, _, _)
            | (KeyCode::Left | KeyCode::Char('b'), true, true) => self.go(head, shift),
            (KeyCode::Char('e'), true, false)
            | (KeyCode::End, _, _)
            | (KeyCode::Right | KeyCode::Char('f'), true, true) => self.go(tail, shift),
            (KeyCode::Char('<'), false, true) | (KeyCode::Up | KeyCode::Char('p'), true, true) => {
                self.go(Some(self.fit(0, col)), shift)
            }
            (KeyCode::Char('>'), false, true)
            | (KeyCode::Down | KeyCode::Char('n'), true, true) => {
                self.go(Some(self.fit(last, col)), shift)
            }
            (KeyCode::Char('f'), false, true) | (KeyCode::Right, true, false) => {
                self.go(Some(self.word_forward()), shift)
            }
            (KeyCode::Char('b'), false, true) | (KeyCode::Left, true, false) => {
                self.go(Some(self.word_back()), shift)
            }
            (KeyCode::Char(']' | 'n'), false, true) | (KeyCode::Down, true, false) => {
                self.go(Some(self.fit(next, col)), shift)
            }
            (KeyCode::Char('[' | 'p'), false, true) | (KeyCode::Up, true, false) => {
                self.go(paragraph_up, shift)
            }
            (KeyCode::Char('u'), true, false) => self.undo(),
            (KeyCode::Char('r'), true, false) => self.redo(),
            (KeyCode::Char('y'), true, false) => self.paste(),
            (KeyCode::Char('x'), true, false) => {
                if let Some((from, to)) = self.selection() {
                    self.cut = self.between(from, to);
                }
                self.unselect();
            }
            (KeyCode::Char('c'), true, false) => self.copy(),
            (KeyCode::Char('v'), true, false) | (KeyCode::PageDown, _, _) => self.page(true, shift),
            (KeyCode::Char('v'), false, true) | (KeyCode::PageUp, _, _) => self.page(false, shift),
            _ => {}
        }
    }
}

struct Dice(u64);

impl Dice {
    fn roll(&mut self, n: usize) -> usize {
        self.0 = self.0.wrapping_mul(6364136223846793005).wrapping_add(1442695040888963407);
        ((self.0 >> 33) as usize) % n
    }
}

fn plain(code: KeyCode) -> KeyEvent {
    KeyEvent::plain(code)
}

fn control(c: char) -> KeyEvent {
    KeyEvent {
        code: KeyCode::Char(c),
        modifiers: Modifiers { shift: false, control: true, alt: false, other: false },
    }
}

fn inserting(lines: &[&str]) -> VimBuffer<'static> {
    let owned: Vec<String> = lines.iter().map(|l| l.to_string()).collect();
    let mut b = VimBuffer::new(Area::new(owned));
    b.input(plain(KeyCode::Char('i')));
    b
}

/// Presses `k` long after the key before it.
fn press(b: &mut VimBuffer, k: KeyEvent) {
    b.input_timed(k, u128::MAX, Instant::now());
}

fn check(b: &VimBuffer, m: &Model, what: &str) {
    let lines: Vec<String> = m.lines.iter().map(|l| l.iter().collect()).collect();
    assert_eq!(b.lines(), lines.as_slice(), "{}", what);
    assert_eq!(b.cursor(), m.at, "{}", what);
}

fn random_key(dice: &mut Dice) -> KeyEvent {
    let typed = ['a', 'b', ' ', ' ', '.', ',', '-', 'Z', '9', '~', '\n'];
    let chords = [
        'm', 'h', 'd', 'k', 'j', 'w', 'n', 'p', 'f', 'b', 'a', 'e', 'x', 'c', 'y', 'u', 'r', 'v',
        '<', '>', '[', ']', 'z',
    ];
    let codes = [
        KeyCode::Enter,
        KeyCode::Home,
        KeyCode::End,
        KeyCode::PageUp,
        KeyCode::PageDown,
        KeyCode::Tab,
        KeyCode::Backspace,
        KeyCode::Delete,
        KeyCode::Left,
        KeyCode::Right,
        KeyCode::Up,
        KeyCode::Down,
        KeyCode::Other,
    ];
    let shift = dice.roll(3) == 0;
    match dice.roll(4) {
        0 => plain(KeyCode::Char(typed[dice.roll(typed.len())])),
        1 => {
            let control = dice.roll(3) > 0;
            let alt = !control || dice.roll(6) == 0;
            let code = KeyCode::Char(chords[dice.roll(chords.len())]);
            KeyEvent { code, modifiers: Modifiers { shift, control, alt, other: false } }
        }
        _ => {
            let control = dice.roll(4) == 0;
            let alt = dice.roll(6) == 0;
            let code = codes[dice.roll(codes.len())];
            KeyEvent { code, modifiers: Modifiers { shift, control, alt, other: false } }
        }
    }
}

#[test]
fn keys_do_what_they_are_said_to_do() {
    let text = ["one two.three", "", "  four", "", "", "five, six seven", "eight"];
    for seed in 0..300 {
        let mut dice = Dice(seed * 7919 + 17);
        let mut b = inserting(&text);
        let mut m = Model::new(&text);
        let mut keys = Vec::new();
        for _ in 0..120 {
            if dice.roll(5) == 0 {
                let (width, height) = (dice.roll(12) as u16, dice.roll(6) as u16);
                b.area.show(width, height);
                m.show(width, height);
            }
            let k = random_key(&mut dice);
            keys.push(k);
            press(&mut b, k);
            m.press(k);
            check(&b, &m, &format!("seed {} after {:?}", seed, keys.last()));
        }
    }
}

#[test]
fn a_tab_reaches_to_the_next_stop() {
    let mut b = inserting(&["ab"]);
    press(&mut b, plain(KeyCode::Tab));
    assert_eq!(b.lines()[0], "    ab");
    press(&mut b, plain(KeyCode::Right));
    press(&mut b, plain(KeyCode::Tab));
    assert_eq!(b.lines()[0], "    a   b");
    assert_eq!(b.cursor(), (0, 8));
}

#[test]
fn a_tab_goes_by_the_width_of_characters() {
    let mut b = inserting(&["日x"]);
    press(&mut b, plain(KeyCode::Right));
    press(&mut b, plain(KeyCode::Tab));
    assert_eq!(b.lines()[0], "日  x");
}

#[test]
fn what_is_cut_can_be_pasted() {
    let mut b = inserting(&["ab", "cd"]);
    let extend = KeyEvent {
        code: KeyCode::Down,
        modifiers: Modifiers { shift: true, control: false, alt: false, other: false },
    };
    press(&mut b, plain(KeyCode::Right));
    press(&mut b, extend);
    press(&mut b, control('x'));
    assert_eq!(b.lines(), &["ad".to_string()]);
    press(&mut b, control('y'));
    assert_eq!(b.lines(), &["ab".to_string(), "cd".to_string()]);
    assert_eq!(b.cursor(), (1, 1));
}

#[test]
fn what_dd_deletes_can_be_pasted() {
    let mut b = inserting(&["ab", "cd"]);
    press(&mut b, plain(KeyCode::Esc));
    press(&mut b, plain(KeyCode::Char('d')));
    press(&mut b, plain(KeyCode::Char('d')));
    assert_eq!(b.lines(), &["cd".to_string()]);
    press(&mut b, plain(KeyCode::Char('i')));
    press(&mut b, control('y'));
    assert_eq!(b.lines(), &["ab".to_string(), "cd".to_string()]);
}

#[test]
fn changes_are_undone_and_redone_one_by_one() {
    let mut b = inserting(&[""]);
    press(&mut b, plain(KeyCode::Char('a')));
    press(&mut b, plain(KeyCode::Char('b')));
    press(&mut b, control('u'));
    assert_eq!(b.lines(), &["a".to_string()]);
    press(&mut b, control('u'));
    press(&mut b, control('u'));
    assert_eq!(b.lines(), &["".to_string()]);
    press(&mut b, control('r'));
    press(&mut b, control('r'));
    assert_eq!(b.lines(), &["ab".to_string()]);
    assert_eq!(b.cursor(), (0, 2));
}

#[test]
fn fifty_changes_are_kept() {
    let mut b = inserting(&[""]);
    for _ in 0..60 {
        press(&mut b, plain(KeyCode::Char('a')));
    }
    for _ in 0..60 {
        press(&mut b, control('u'));
    }
    assert_eq!(b.lines()[0], "a".repeat(10));
}

#[test]
fn pages_go_by_what_is_shown() {
    let lines: Vec<String> = (0..20).map(|i| i.to_string()).collect();
    let mut b = VimBuffer::new(Area::new(lines));
    b.input(plain(KeyCode::Char('i')));
    b.area.show(10, 5);
    press(&mut b, plain(KeyCode::PageDown));
    assert_eq!(b.cursor(), (5, 0));
    press(&mut b, plain(KeyCode::PageDown));
    assert_eq!(b.cursor(), (10, 0));
    press(&mut b, plain(KeyCode::PageUp));
    assert_eq!(b.cursor(), (9, 0));
}

#[test]
fn an_area_too_large_for_the_screen_stays_as_it_is() {
    let mut b = inserting(&["ab"]);
    b.area.show(10, 5);
    b.area.show(u16::MAX, 5);
    b.area.show(10, u16::MAX);
    b.area.show(10_000, 10_000);
    press(&mut b, plain(KeyCode::PageDown));
    check(&b, &Model { at: (0, 0), ..Model::new(&["ab"]) }, "page down");
}

#[test]
fn a_line_that_holds_a_break_is_pasted_as_lines() {
    let mut b = inserting(&["a\nb", "c"]);
    press(&mut b, control('k'));
    assert_eq!(b.lines(), &["".to_string(), "c".to_string()]);
    press(&mut b, control('y'));
    assert_eq!(b.lines(), &["a".to_string(), "b".to_string(), "c".to_string()]);
    assert_eq!(b.cursor(), (1, 1));
    press(&mut b, control('u'));
    assert_eq!(b.lines(), &["".to_string(), "c".to_string()]);
}

#[test]
fn long_lines_and_wide_screens_are_not_shown() {
    let narrow = "x".repeat(16_383);
    let long = "x".repeat(16_384);
    let mut b = inserting(&[&long, "y", "z"]);
    b.show(100, 1);
    press(&mut b, plain(KeyCode::PageDown));
    assert_eq!(b.cursor(), (0, 0));
    let mut b = inserting(&[&narrow, "y", "z"]);
    b.show(40_000, 1);
    press(&mut b, plain(KeyCode::PageDown));
    assert_eq!(b.cursor(), (0, 0));
    b.show(i16::MAX as u16, 1);
    press(&mut b, plain(KeyCode::PageDown));
    assert_eq!(b.cursor(), (1, 0));
}

#[test]
fn one_character_may_be_very_wide() {
    let cluster = "\u{1100}".repeat(16_383);
    let mut b = inserting(&[&cluster, "y"]);
    b.show(i16::MAX as u16, 1);
    press(&mut b, plain(KeyCode::PageDown));
    assert_eq!(b.cursor(), (1, 0));
}

#[test]
fn some_keys_scroll() {
    let alt_v = KeyEvent {
        code: KeyCode::Char('v'),
        modifiers: Modifiers { shift: false, control: false, alt: true, other: false },
    };
    assert!(scrolls(plain(KeyCode::PageUp)));
    assert!(scrolls(control('v')));
    assert!(scrolls(alt_v));
    assert!(!scrolls(plain(KeyCode::Char('v'))));
    assert!(!scrolls(plain(KeyCode::Down)));
}
