use std::time::Instant;
use todone::area::Area;
use todone::key::{KeyCode, KeyEvent, Modifiers};
use todone::vim::{Mode, VimBuffer, JJ_TIMEOUT};

fn with_modifiers(code: KeyCode, shift: bool, control: bool, alt: bool) -> KeyEvent {
    KeyEvent { code, modifiers: Modifiers { shift, control, alt, other: false } }
}

fn key(c: char) -> KeyEvent {
    KeyEvent::plain(KeyCode::Char(c))
}
fn shift(c: char) -> KeyEvent {
    with_modifiers(KeyCode::Char(c), true, false, false)
}
fn ctrl(c: char) -> KeyEvent {
    with_modifiers(KeyCode::Char(c), false, true, false)
}
fn esc() -> KeyEvent {
    KeyEvent::plain(KeyCode::Esc)
}

fn buf(lines: &[&str]) -> VimBuffer<'static> {
    let owned: Vec<String> = lines.iter().map(|s| s.to_string()).collect();
    VimBuffer::new(Area::new(owned))
}

fn send(b: &mut VimBuffer<'_>, keys: &[KeyEvent]) {
    for k in keys {
        b.input(*k);
    }
}

#[test]
fn starts_in_normal_mode() {
    let b = buf(&["hi"]);
    assert_eq!(b.mode, Mode::Normal);
}

#[test]
fn i_enters_insert_esc_returns_to_normal() {
    let mut b = buf(&["hi"]);
    send(&mut b, &[key('i')]);
    assert_eq!(b.mode, Mode::Insert);
    send(&mut b, &[esc()]);
    assert_eq!(b.mode, Mode::Normal);
}

#[test]
fn insert_mode_text_is_inserted() {
    let mut b = buf(&[""]);
    send(&mut b, &[key('i'), key('a'), key('b'), key('c')]);
    assert_eq!(b.lines(), &["abc".to_string()]);
}

#[test]
fn normal_mode_hjkl_does_not_insert_text() {
    let mut b = buf(&["abc", "def"]);
    send(&mut b, &[key('j'), key('l'), key('h'), key('k')]);
    assert_eq!(b.lines(), &["abc".to_string(), "def".to_string()]);
}

#[test]
fn dd_deletes_current_line() {
    let mut b = buf(&["one", "two", "three"]);
    // cursor starts at (0,0). dd should remove "one".
    send(&mut b, &[key('d'), key('d')]);
    assert_eq!(b.lines(), &["two".to_string(), "three".to_string()]);
}

#[test]
fn dd_on_sole_line_clears_it() {
    let mut b = buf(&["only"]);
    send(&mut b, &[key('d'), key('d')]);
    assert_eq!(b.lines(), &["".to_string()]);
}

#[test]
fn dd_on_last_line_of_multi_removes_the_line() {
    let mut b = buf(&["one", "two"]);
    // Move to last line, then dd.
    send(&mut b, &[shift('G'), key('d'), key('d')]);
    assert_eq!(b.lines(), &["one".to_string()]);
}

#[test]
fn dd_on_trailing_blank_line_removes_it() {
    let mut b = buf(&["bullet", ""]);
    send(&mut b, &[shift('G'), key('d'), key('d')]);
    assert_eq!(b.lines(), &["bullet".to_string()]);
}

#[test]
fn cc_deletes_line_and_enters_insert() {
    let mut b = buf(&["one", "two"]);
    send(&mut b, &[key('c'), key('c')]);
    assert_eq!(b.mode, Mode::Insert);
    send(&mut b, &[key('x')]); // would be cmd in normal, text in insert
    assert_eq!(b.lines()[0], "x");
}

#[test]
fn o_opens_line_below() {
    let mut b = buf(&["one", "two"]);
    send(&mut b, &[key('o'), key('X')]);
    assert_eq!(b.lines(), &["one".to_string(), "X".to_string(), "two".to_string()]);
}

#[test]
fn capital_o_opens_line_above() {
    let mut b = buf(&["one", "two"]);
    send(&mut b, &[shift('O'), key('X')]);
    assert_eq!(b.lines(), &["X".to_string(), "one".to_string(), "two".to_string()]);
}

#[test]
fn gg_jumps_to_top() {
    let mut b = buf(&["one", "two", "three"]);
    send(&mut b, &[shift('G'), key('g'), key('g'), key('i'), key('!')]);
    assert_eq!(b.lines()[0], "!one");
}

#[test]
fn capital_g_jumps_to_bottom() {
    let mut b = buf(&["one", "two", "three"]);
    send(&mut b, &[shift('G'), key('a'), key('!')]);
    assert_eq!(b.lines()[2], "three!");
}

#[test]
fn x_deletes_char_under_cursor() {
    let mut b = buf(&["hello"]);
    send(&mut b, &[key('x')]);
    assert_eq!(b.lines()[0], "ello");
}

#[test]
fn undo_treats_insert_session_as_one_block() {
    let mut b = buf(&[""]);
    send(&mut b, &[key('i'), key('a'), key('b'), key('c'), esc()]);
    assert_eq!(b.lines()[0], "abc");
    send(&mut b, &[key('u')]);
    assert_eq!(b.lines()[0], ""); // single undo wipes the whole "abc"
    send(&mut b, &[ctrl('r')]);
    assert_eq!(b.lines()[0], "abc");
}

#[test]
fn undo_skips_net_zero_insert_sessions() {
    // jj-escape inserts then deletes a j; net change is none, so no undo step.
    let mut b = buf(&["start"]);
    send(&mut b, &[key('A'), key('!'), esc()]); // append "!" → "start!"
    send(&mut b, &[key('i'), key('j'), key('j')]); // jj-escape, no change
    assert_eq!(b.lines()[0], "start!");
    send(&mut b, &[key('u')]);
    // Only one undo step exists (for the "!" insert), and it should clear that.
    assert_eq!(b.lines()[0], "start");
}

#[test]
fn undo_normal_mode_edits_each_one_step() {
    let mut b = buf(&["abc"]);
    send(&mut b, &[key('x')]); // "bc"
    send(&mut b, &[key('x')]); // "c"
    assert_eq!(b.lines()[0], "c");
    send(&mut b, &[key('u')]);
    assert_eq!(b.lines()[0], "bc");
    send(&mut b, &[key('u')]);
    assert_eq!(b.lines()[0], "abc");
}

#[test]
fn redo_is_cleared_by_new_edit() {
    let mut b = buf(&["abc"]);
    send(&mut b, &[key('x')]); // "bc"
    send(&mut b, &[key('u')]); // back to "abc"
    send(&mut b, &[key('x')]); // "bc" again — should clear redo
    send(&mut b, &[ctrl('r')]); // nothing to redo
    assert_eq!(b.lines()[0], "bc");
}

#[test]
fn ctrl_backspace_works_in_insert_mode() {
    let mut b = buf(&[""]);
    send(&mut b, &[key('i'), key('h'), key('e'), key('l'), key('l'), key('o')]);
    let bk = with_modifiers(KeyCode::Backspace, false, true, false);
    b.input(bk);
    assert_eq!(b.lines()[0], "");
}

#[test]
fn y_and_space_are_not_consumed_in_normal_mode() {
    let mut b = buf(&["hi"]);
    assert!(!b.input(key('y')));
    assert!(!b.input(key(' ')));
}

#[test]
fn y_in_insert_mode_is_typed() {
    let mut b = buf(&[""]);
    send(&mut b, &[key('i')]);
    assert!(b.input(key('y')));
    assert_eq!(b.lines()[0], "y");
}

#[test]
fn jj_in_insert_escapes_to_normal() {
    let mut b = buf(&[""]);
    send(&mut b, &[key('i'), key('a'), key('b'), key('j'), key('j')]);
    assert_eq!(b.mode, Mode::Normal);
    assert_eq!(b.lines()[0], "ab");
}

#[test]
fn single_j_in_insert_is_typed_normally() {
    let mut b = buf(&[""]);
    send(&mut b, &[key('i'), key('j'), key('o'), key('e')]);
    assert_eq!(b.mode, Mode::Insert);
    assert_eq!(b.lines()[0], "joe");
}

#[test]
fn jj_with_other_keys_between_does_not_escape() {
    let mut b = buf(&[""]);
    send(&mut b, &[key('i'), key('j'), key('x'), key('j')]);
    assert_eq!(b.mode, Mode::Insert);
    assert_eq!(b.lines()[0], "jxj");
}

fn code(c: KeyCode) -> KeyEvent {
    KeyEvent::plain(c)
}

fn shifted(c: KeyCode) -> KeyEvent {
    with_modifiers(c, true, false, false)
}

fn alt(c: char) -> KeyEvent {
    with_modifiers(KeyCode::Char(c), false, false, true)
}

#[test]
fn mode_labels() {
    assert_eq!(Mode::Normal.label(), "NORMAL");
    assert_eq!(Mode::Insert.label(), "INSERT");
}

#[test]
fn pending_key_is_reported_and_consumed() {
    let mut b = buf(&["one", "two"]);
    assert!(!b.has_pending());
    assert!(b.input(key('d')));
    assert!(b.has_pending());
    // Any second key ends the sequence, even one that the app would get.
    assert!(b.input(key('q')));
    assert!(!b.has_pending());
    assert_eq!(b.lines(), &["one".to_string(), "two".to_string()]);
    assert!(!b.input(key('q')));
}

#[test]
fn app_keys_are_left_to_the_app() {
    let mut b = buf(&["hi"]);
    for c in ['q', 'y', ' ', ':', '<', '>', '[', ']', '?'] {
        assert!(!b.input(key(c)), "{c:?}");
        assert!(!b.input(shift(c)), "shift {c:?}");
        assert!(b.input(ctrl(c)), "control {c:?}");
    }
    assert_eq!(b.lines(), &["hi".to_string()]);
}

#[test]
fn empty_buffer_has_one_empty_line() {
    let b = VimBuffer::new(Area::new(Vec::new()));
    assert_eq!(b.lines(), &["".to_string()]);
    assert_eq!(b.cursor(), (0, 0));
}

#[test]
fn motions_lead_where_they_should() {
    let mut b = buf(&["aaa bbb, ccc", "", "  dd"]);
    let mut at = |keys: &[KeyEvent]| {
        send(&mut b, keys);
        b.cursor()
    };
    assert_eq!(at(&[key('w')]), (0, 4));
    assert_eq!(at(&[key('w')]), (0, 7)); // the comma
    assert_eq!(at(&[key('w')]), (0, 9));
    assert_eq!(at(&[key('b')]), (0, 7));
    assert_eq!(at(&[key('e')]), (0, 11));
    assert_eq!(at(&[key('e')]), (2, 3));
    assert_eq!(at(&[key('0')]), (2, 0));
    assert_eq!(at(&[key('b')]), (1, 0));
    assert_eq!(at(&[key('$')]), (1, 0));
    assert_eq!(at(&[key('k'), key('$')]), (0, 12));
    assert_eq!(at(&[key('j')]), (1, 0));
    assert_eq!(at(&[key('l')]), (2, 0));
    assert_eq!(at(&[key('h')]), (1, 0));
    assert_eq!(at(&[key('w')]), (2, 0));
    assert_eq!(at(&[shift('G')]), (2, 4));
    assert_eq!(at(&[key('l')]), (2, 4));
    assert_eq!(at(&[key('g'), key('g')]), (0, 0));
    assert_eq!(at(&[key('h'), key('k')]), (0, 0));
}

#[test]
fn dd_puts_the_cursor_on_the_next_line() {
    let mut b = buf(&["one", "two", "three"]);
    send(&mut b, &[key('l'), key('d'), key('d')]);
    assert_eq!(b.cursor(), (0, 0));
    send(&mut b, &[key('j'), key('d'), key('d')]);
    assert_eq!(b.lines(), &["two".to_string()]);
    assert_eq!(b.cursor(), (0, 3));
}

#[test]
fn cc_on_an_empty_line_keeps_it_in_place() {
    let mut b = buf(&["", "two"]);
    send(&mut b, &[key('c'), key('c'), key('x')]);
    assert_eq!(b.lines(), &["x".to_string(), "two".to_string()]);
}

#[test]
fn dd_clears_a_sole_line_whatever_is_selected() {
    let mut b = buf(&["abcd"]);
    send(&mut b, &[key('i'), code(KeyCode::Right), shifted(KeyCode::Right), esc()]);
    send(&mut b, &[key('d'), key('d')]);
    assert_eq!(b.lines(), &["".to_string()]);
}

#[test]
fn rest_of_line_is_deleted_then_the_line_break() {
    let mut b = buf(&["abc", "def"]);
    send(&mut b, &[key('l'), shift('D')]);
    assert_eq!(b.lines(), &["a".to_string(), "def".to_string()]);
    send(&mut b, &[shift('D')]);
    assert_eq!(b.lines(), &["adef".to_string()]);
    send(&mut b, &[key('u'), key('u')]);
    assert_eq!(b.lines(), &["abc".to_string(), "def".to_string()]);
}

#[test]
fn change_to_end_of_line_enters_insert() {
    let mut b = buf(&["abc"]);
    send(&mut b, &[key('l'), shift('C'), key('x')]);
    assert_eq!(b.mode, Mode::Insert);
    assert_eq!(b.lines()[0], "ax");
}

#[test]
fn insert_commands_place_the_cursor() {
    let mut b = buf(&["abc"]);
    send(&mut b, &[key('l'), shift('I'), key('1'), esc()]);
    send(&mut b, &[shift('A'), key('2'), esc()]);
    send(&mut b, &[key('0'), key('a'), key('3'), esc()]);
    assert_eq!(b.lines()[0], "13abc2");
}

#[test]
fn x_at_the_end_of_the_text_is_no_step() {
    let mut b = buf(&["ab"]);
    send(&mut b, &[key('x'), key('$'), key('x')]);
    assert_eq!(b.lines()[0], "b");
    send(&mut b, &[key('u')]);
    assert_eq!(b.lines()[0], "ab");
}

#[test]
fn undo_then_redo_restores_text_and_cursor() {
    let mut b = buf(&["hello"]);
    send(&mut b, &[key('l'), key('l'), key('x')]);
    assert_eq!(b.lines()[0], "helo");
    send(&mut b, &[key('u')]);
    assert_eq!(b.lines()[0], "hello");
    assert_eq!(b.cursor(), (0, 2));
    send(&mut b, &[key('$'), ctrl('r')]);
    assert_eq!(b.lines()[0], "helo");
    assert_eq!(b.cursor(), (0, 2));
    // Nothing more to redo, and one step to undo.
    send(&mut b, &[ctrl('r'), key('u'), key('u')]);
    assert_eq!(b.lines()[0], "hello");
}

#[test]
fn ctrl_backspace_works_in_normal_mode_too() {
    let mut b = buf(&["one two"]);
    assert!(b.input(key('$')));
    assert!(b.input(with_modifiers(KeyCode::Backspace, false, true, false)));
    assert_eq!(b.lines()[0], "one ");
}

#[test]
fn slow_jj_is_typed() {
    let mut b = buf(&[""]);
    let now = Instant::now();
    b.input_timed(key('i'), 0, now);
    b.input_timed(key('j'), 0, now);
    b.input_timed(key('j'), JJ_TIMEOUT + 1, now);
    assert_eq!(b.mode, Mode::Insert);
    assert_eq!(b.lines()[0], "jj");
    b.input_timed(key('j'), JJ_TIMEOUT, now);
    assert_eq!(b.mode, Mode::Normal);
    assert_eq!(b.lines()[0], "j");
}

#[test]
fn jj_timeout_can_be_changed() {
    let mut b = buf(&[""]);
    b.jj_timeout = 0;
    let now = Instant::now();
    b.input_timed(key('i'), 0, now);
    b.input_timed(key('j'), 0, now);
    b.input_timed(key('j'), 1, now);
    assert_eq!(b.lines()[0], "jj");
}

#[test]
fn shifted_j_does_not_escape() {
    let mut b = buf(&[""]);
    let now = Instant::now();
    b.input_timed(key('i'), 0, now);
    b.input_timed(key('j'), 0, now);
    b.input_timed(shift('j'), 0, now);
    assert_eq!(b.mode, Mode::Insert);
    assert_eq!(b.lines()[0], "jj");
}

#[test]
fn typing_replaces_a_selection() {
    let mut b = buf(&["abcd"]);
    send(&mut b, &[key('i'), shifted(KeyCode::Right), shifted(KeyCode::Right), key('x')]);
    assert_eq!(b.lines()[0], "xcd");
    assert_eq!(b.cursor(), (0, 1));
}

#[test]
fn a_selection_across_lines_is_cut() {
    let mut b = buf(&["abc", "def", "ghi"]);
    send(
        &mut b,
        &[
            key('i'),
            code(KeyCode::Right),
            shifted(KeyCode::Down),
            shifted(KeyCode::Down),
            shifted(KeyCode::Home),
            ctrl('x'),
        ],
    );
    assert_eq!(b.lines(), &["aghi".to_string()]);
    assert_eq!(b.cursor(), (0, 1));
}

#[test]
fn insert_mode_keys_edit_the_text() {
    let mut b = buf(&["one two", "three"]);
    send(&mut b, &[key('i'), code(KeyCode::End), code(KeyCode::Enter)]);
    assert_eq!(b.lines(), &["one two".to_string(), "".to_string(), "three".to_string()]);
    send(&mut b, &[code(KeyCode::Backspace)]);
    assert_eq!(b.lines(), &["one two".to_string(), "three".to_string()]);
    send(&mut b, &[code(KeyCode::Delete)]);
    assert_eq!(b.lines(), &["one twothree".to_string()]);
    assert_eq!(b.cursor(), (0, 7));
    send(&mut b, &[ctrl('w')]);
    assert_eq!(b.lines()[0], "one three");
    send(&mut b, &[ctrl('k')]);
    assert_eq!(b.lines()[0], "one ");
    send(&mut b, &[ctrl('j')]);
    assert_eq!(b.lines()[0], "");
    send(&mut b, &[code(KeyCode::Other), code(KeyCode::Char('ä'))]);
    assert_eq!(b.lines()[0], "ä");
}

#[test]
fn insert_mode_chords_move_the_cursor() {
    let mut b = buf(&["aaa bbb", "ccc", "", "ddd"]);
    send(&mut b, &[key('i')]);
    let mut at = |k: KeyEvent| {
        b.input(k);
        b.cursor()
    };
    assert_eq!(at(alt('f')), (0, 4));
    assert_eq!(at(alt('b')), (0, 0));
    assert_eq!(at(ctrl('e')), (0, 7));
    assert_eq!(at(ctrl('n')), (1, 3));
    assert_eq!(at(ctrl('p')), (0, 3));
    assert_eq!(at(ctrl('f')), (0, 4));
    assert_eq!(at(ctrl('b')), (0, 3));
    assert_eq!(at(ctrl('a')), (0, 0));
    assert_eq!(at(alt(']')), (3, 0));
    assert_eq!(at(alt('[')), (0, 0));
    assert_eq!(at(alt('>')), (3, 0));
    assert_eq!(at(alt('<')), (0, 0));
    assert_eq!(at(code(KeyCode::Left)), (0, 0));
    assert_eq!(at(code(KeyCode::Up)), (0, 0));
    assert_eq!(at(with_modifiers(KeyCode::Right, false, true, false)), (0, 4));
    assert_eq!(at(with_modifiers(KeyCode::Left, false, true, true)), (0, 0));
}

#[test]
fn next_word_is_deleted() {
    let mut b = buf(&["  one two", "x"]);
    send(&mut b, &[key('i'), alt('d')]);
    assert_eq!(b.lines()[0], " two");
    send(&mut b, &[alt('d')]);
    assert_eq!(b.lines()[0], "");
    send(&mut b, &[alt('d')]);
    assert_eq!(b.lines(), &["x".to_string()]);
}

#[test]
fn undo_and_redo_without_keys() {
    let mut b = buf(&["abc", "def"]);
    b.redo();
    b.undo();
    assert_eq!(b.lines(), &["abc".to_string(), "def".to_string()]);
    send(&mut b, &[key('j'), key('l'), key('x')]);
    let cursor = b.cursor();
    assert_eq!(b.lines()[1], "df");
    b.undo();
    assert_eq!(b.lines()[1], "def");
    b.redo();
    assert_eq!(b.lines()[1], "df");
    assert_eq!(b.cursor(), cursor);
}

#[test]
fn the_parts_of_a_buffer_can_be_read() {
    let mut b = buf(&["abc"]);
    assert_eq!(b.mode(), b.mode);
    assert_eq!(b.jj_timeout(), JJ_TIMEOUT);
    b.set_jj_timeout(7);
    assert_eq!(b.jj_timeout, 7);
    let copy = Area::new(b.lines().to_vec());
    b.area = copy;
    b.show(10, 3);
    assert_eq!(b.cursor(), (0, 0));
}
