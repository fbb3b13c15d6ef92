use chrono::{Datelike, NaiveDate};
use todone::date::{Date, MAX_DAY, MIN_DAY};
use todone::history::{
    border_marks, bullet_lines, card_height, compact_header, compact_highlight, label_centered,
    preview_join, relnum_label, relnum_place, HistoryAction, HistoryState, ViewMode,
};
use todone::key::{KeyCode, KeyEvent};
use todone::storage::Store;
use todone::style::{Colour, Line, Rect, Style};

fn d(s: &str) -> Date {
    let date = NaiveDate::parse_from_str(s, "%Y-%m-%d").unwrap();
    Date::from_days(date.num_days_from_ce()).unwrap()
}

fn key(c: char) -> KeyEvent {
    KeyEvent::plain(KeyCode::Char(c))
}

fn plain(lines: &[Line]) -> Vec<String> {
    lines
        .iter()
        .map(|l| l.spans.iter().map(|s| s.text.as_str()).collect::<Vec<_>>().join("|"))
        .collect()
}

fn send(h: &mut HistoryState, store: &Store, keys: &str) {
    for c in keys.chars() {
        assert!(h.can_handle_key(key(c)));
        assert_eq!(h.handle_key(key(c), store), HistoryAction::Nothing);
    }
}

#[test]
fn starts_at_today_with_cards() {
    let h = HistoryState::new(d("2026-05-25"));
    assert_eq!(h.selected_date, d("2026-05-25"));
    assert_eq!(h.view_label(), "box");
    assert_eq!(h.mode(), ViewMode::Box);
    assert_eq!(h.count_display(), None);
}

#[test]
fn moves_by_counted_days() {
    let store = Store::default();
    let mut h = HistoryState::new(d("2026-05-25"));
    send(&mut h, &store, "k");
    assert_eq!(h.selected_date, d("2026-05-24"));
    send(&mut h, &store, "22");
    assert_eq!(h.count_display(), Some(22));
    send(&mut h, &store, "j");
    assert_eq!(h.selected_date, d("2026-06-15"));
    assert_eq!(h.count_display(), None);
    send(&mut h, &store, "10k");
    assert_eq!(h.selected_date, d("2026-06-05"));
    // A leading zero is no count.
    send(&mut h, &store, "0j");
    assert_eq!(h.selected_date, d("2026-06-06"));
    h.handle_key(KeyEvent::plain(KeyCode::Up), &store);
    h.handle_key(KeyEvent::plain(KeyCode::Down), &store);
    assert_eq!(h.selected_date, d("2026-06-06"));
    send(&mut h, &store, "G");
    assert_eq!(h.selected_date, d("2026-05-25"));
}

#[test]
fn gg_goes_to_the_first_recorded_day() {
    let mut store = Store::default();
    let mut h = HistoryState::new(d("2026-05-25"));
    send(&mut h, &store, "3gg");
    assert_eq!(h.selected_date, d("2026-05-25"));
    assert_eq!(h.count_display(), None);
    store.entry_mut(d("2026-05-01"));
    store.entry_mut(d("2026-05-04")).did.push("x".into());
    send(&mut h, &store, "gg");
    assert_eq!(h.selected_date, d("2026-05-04"));
    // Another key ends the sequence and does nothing else.
    send(&mut h, &store, "gj");
    assert_eq!(h.selected_date, d("2026-05-04"));
    send(&mut h, &store, "j");
    assert_eq!(h.selected_date, d("2026-05-05"));
}

#[test]
fn selecting_and_closing() {
    let store = Store::default();
    let mut h = HistoryState::new(d("2026-05-25"));
    let enter = KeyEvent::plain(KeyCode::Enter);
    assert_eq!(h.handle_key(enter, &store), HistoryAction::Select(d("2026-05-25")));
    assert_eq!(h.handle_key(KeyEvent::plain(KeyCode::Esc), &store), HistoryAction::Close);
    assert_eq!(h.handle_key(key('q'), &store), HistoryAction::Close);
    send(&mut h, &store, "g");
    assert_eq!(h.handle_key(key('q'), &store), HistoryAction::Nothing);
}

#[test]
fn counts_and_days_that_there_are_not() {
    let store = Store::default();
    let mut h = HistoryState::new(Date::from_days(MAX_DAY).unwrap());
    assert!(!h.can_handle_key(key('j')));
    assert!(h.can_handle_key(key('k')));
    send(&mut h, &store, "4294967295");
    assert_eq!(h.count_display(), Some(u32::MAX));
    assert!(!h.can_handle_key(key('1')));
    assert!(h.can_handle_key(key('0')));
    assert!(!h.can_handle_key(key('k')));
    send(&mut h, &store, "x");
    assert_eq!(h.count_display(), None);
    let h = HistoryState::new(Date::from_days(MIN_DAY).unwrap());
    assert!(!h.can_handle_key(key('k')));
}

#[test]
fn z_toggles_the_view() {
    let store = Store::default();
    let mut h = HistoryState::new(d("2026-05-25"));
    send(&mut h, &store, "z");
    assert_eq!(h.view_label(), "compact");
    send(&mut h, &store, "z");
    assert_eq!(h.view_label(), "box");
}

#[test]
fn relative_numbers_are_right_aligned() {
    let a = d("2026-05-25");
    assert_eq!(relnum_label(a, a), "  0 ");
    assert_eq!(relnum_label(d("2026-05-20"), a), "  5 ");
    assert_eq!(relnum_label(a, d("2026-05-15")), " 10 ");
    assert_eq!(relnum_label(d("2036-05-25"), a), "3653 ");
}

#[test]
fn compact_rows_show_each_day() {
    let mut store = Store::default();
    store.entry_mut(d("2026-05-24")).planning = vec!["a".into(), "b".into()];
    store.entry_mut(d("2026-05-25")).did = vec!["c".into()];
    let mut h = HistoryState::new(d("2026-05-25"));
    let (rows, selected) = h.compact(5, &store).unwrap();
    assert_eq!(
        plain(&rows),
        vec![
            "  2 | Sat May 23|—|—",
            "  1 | Sun May 24|a · b|—",
            "  0 | Mon May 25 *|—|c",
            "  1 | Tue May 26|—|—",
        ]
    );
    assert_eq!(selected, 2);
    assert_eq!(rows[2].spans[1].style, Style::bold(Colour::Green));
    assert_eq!(rows[0].spans[2].style, Style::colour(Colour::DarkGray));
    assert_eq!(plain(&[compact_header()]), vec!["| Date| Planned| Did"]);
    assert_eq!(compact_highlight().bg, Some(Colour::Yellow));
    assert_eq!(preview_join(&store, d("2026-05-24")), ("a · b".to_string(), "".to_string()));
    assert_eq!(preview_join(&store, d("2026-05-23")), ("".to_string(), "".to_string()));
}

#[test]
fn compact_rows_keep_the_selected_day_in_view() {
    let store = Store::default();
    let mut h = HistoryState::new(d("2026-05-25"));
    assert!(h.compact(0, &store).is_none());
    assert!(h.compact(1, &store).is_none());
    assert_eq!(h.compact(6, &store).unwrap().1, 3);
    send(&mut h, &store, "k");
    assert_eq!(h.compact(6, &store).unwrap().1, 2);
    send(&mut h, &store, "kk");
    assert_eq!(h.compact(6, &store).unwrap().1, 1);
    send(&mut h, &store, "9j");
    assert_eq!(h.compact(6, &store).unwrap().1, 3);
    assert_eq!(h.compact(2, &store).unwrap().1, 0);
    assert_eq!(h.compact(3, &store).unwrap().1, 0);
    send(&mut h, &store, "9j");
    assert_eq!(h.compact(3, &store).unwrap().1, 1);
}

#[test]
fn compact_rows_end_with_the_calendar() {
    let store = Store::default();
    let mut h = HistoryState::new(Date::from_days(MAX_DAY).unwrap());
    let (rows, selected) = h.compact(6, &store).unwrap();
    assert_eq!((rows.len(), selected), (4, 3));
    let mut h = HistoryState::new(Date::from_days(MIN_DAY).unwrap());
    assert_eq!(h.compact(6, &store).unwrap().1, 0);
}

#[test]
fn cards_are_as_high_as_their_longer_list() {
    let mut store = Store::default();
    assert_eq!(card_height(&store, d("2026-05-25")), 3);
    store.entry_mut(d("2026-05-25")).did = vec!["a".into(), "b".into()];
    assert_eq!(card_height(&store, d("2026-05-25")), 4);
    store.entry_mut(d("2026-05-25")).planning = vec!["a".into(); 5];
    assert_eq!(card_height(&store, d("2026-05-25")), 7);
    // Heights have 16 bits.
    store.entry_mut(d("2026-05-25")).planning = vec![String::new(); 65_534 + 4];
    assert_eq!(card_height(&store, d("2026-05-25")), 4);
}

#[test]
fn cards_that_fit_are_planned() {
    let mut store = Store::default();
    store.entry_mut(d("2026-05-26")).did = vec!["a".into(), "b".into()];
    let plan = HistoryState::plan_box_from(d("2026-05-25"), 10, &store);
    assert_eq!(
        plan,
        vec![(d("2026-05-25"), 3), (d("2026-05-26"), 4), (d("2026-05-27"), 3)]
    );
    assert_eq!(HistoryState::plan_box_from(d("2026-05-25"), 9, &store).len(), 2);
    assert!(HistoryState::plan_box_from(d("2026-05-25"), 2, &store).is_empty());
    let last = Date::from_days(MAX_DAY).unwrap();
    assert_eq!(HistoryState::plan_box_from(last, 100, &store), vec![(last, 3)]);
}

#[test]
fn selected_card_has_neighbours() {
    let store = Store::default();
    let mut h = HistoryState::new(d("2026-05-25"));
    assert!(h.box_card_layout(0, &store).is_empty());
    let days: Vec<_> = h.box_card_layout(9, &store).into_iter().map(|c| c.0).collect();
    assert_eq!(days, vec![d("2026-05-24"), d("2026-05-25"), d("2026-05-26")]);
    send(&mut h, &store, "j");
    let days: Vec<_> = h.box_card_layout(9, &store).into_iter().map(|c| c.0).collect();
    assert_eq!(days, vec![d("2026-05-25"), d("2026-05-26"), d("2026-05-27")]);
    send(&mut h, &store, "5k");
    let days: Vec<_> = h.box_card_layout(12, &store).into_iter().map(|c| c.0).collect();
    assert_eq!(days[0], d("2026-05-20"));
    assert_eq!(days.len(), 4);
    let one = h.box_card_layout(3, &store);
    assert_eq!(one, vec![(d("2026-05-21"), 3)]);
}

#[test]
fn cards_tell_what_was_planned_and_done() {
    let mut store = Store::default();
    store.entry_mut(d("2026-05-25")).did = vec!["a".into(), "b".into()];
    let mut h = HistoryState::new(d("2026-05-25"));
    let card = h.card(d("2026-05-25"), &store);
    assert_eq!(card.border, Colour::Yellow);
    assert_eq!(card.title.text, " Mon May 25 (today) ");
    assert_eq!(card.title.style, Style::bold(Colour::Yellow));
    assert_eq!(plain(&card.planned), vec![" —"]);
    assert_eq!(plain(&card.did), vec![" - a", " - b"]);
    assert_eq!(h.relnum_span(d("2026-05-25")).style, Style::bold(Colour::Yellow));
    send(&mut h, &store, "j");
    assert_eq!(h.card(d("2026-05-25"), &store).border, Colour::Green);
    let other = h.card(d("2026-05-24"), &store);
    assert_eq!(other.border, Colour::DarkGray);
    assert_eq!(other.title.text, " Sun May 24 ");
    assert_eq!(plain(&other.did), vec![" —"]);
    assert_eq!(h.relnum_span(d("2026-05-24")).text, "  2 ");
    assert_eq!(h.relnum_span(d("2026-05-24")).style, Style::colour(Colour::DarkGray));
    assert!(bullet_lines(&[]).is_empty());
}

#[test]
fn numbers_stay_in_their_column() {
    let column = Rect { x: 1, y: 2, width: 5, height: 4 };
    assert_eq!(relnum_place(column, 1), None);
    assert_eq!(relnum_place(column, 6), None);
    assert_eq!(relnum_place(column, 5), Some(Rect { x: 1, y: 5, width: 5, height: 1 }));
}

#[test]
fn headings_are_drawn_where_they_fit() {
    assert_eq!(label_centered(" Did ", Rect { x: 10, y: 0, width: 9, height: 1 }), 12);
    assert_eq!(label_centered(" Did ", Rect { x: 10, y: 0, width: 4, height: 1 }), 10);
    let long = "x".repeat(0x1_0003);
    assert_eq!(label_centered(&long, Rect { x: 10, y: 0, width: 9, height: 1 }), 13);
    let area = Rect { x: 0, y: 3, width: 80, height: 5 };
    let left = Rect { x: 1, y: 4, width: 39, height: 3 };
    let right = Rect { x: 40, y: 4, width: 39, height: 3 };
    let marks = border_marks(area, left, right, " Sun May 24 ");
    let got: Vec<_> = marks.iter().map(|m| (m.x, m.y, m.span.text.as_str())).collect();
    assert_eq!(got, vec![(16, 3, " Planned "), (57, 3, " Did "), (39, 3, "┬"), (39, 7, "┴")]);
    assert_eq!(marks[0].span.style, Style::bold(Colour::DarkGray));
    assert_eq!(marks[2].span.style, Style::colour(Colour::DarkGray));
    let marks = border_marks(area, left, right, " a title of many a character ");
    assert_eq!(marks.len(), 3);
    let tiny = Rect { x: 0, y: 0, width: 3, height: 3 };
    let col = Rect { x: 1, y: 1, width: 1, height: 1 };
    let none = Rect { x: 2, y: 1, width: 0, height: 1 };
    let marks = border_marks(tiny, col, none, "");
    let got: Vec<_> = marks.iter().map(|m| (m.x, m.y, m.span.text.as_str())).collect();
    assert_eq!(got, vec![(1, 0, "┬"), (1, 2, "┴")]);
}

#[test]
fn the_selected_day_can_be_read() {
    let mut h = HistoryState::new(d("2026-05-25"));
    assert_eq!(h.selected(), h.selected_date);
    send(&mut h, &Store::default(), "k");
    assert_eq!(h.selected(), d("2026-05-24"));
}

#[test]
fn any_number_of_rows_can_be_asked_for() {
    let mut h = HistoryState::new(d("2026-05-25"));
    h.ensure_visible_rows(100_000);
    assert_eq!(h.selected(), d("2026-05-25"));
    h.ensure_visible_rows(100_000);
    h.ensure_visible_rows(i64::MAX);
    h.ensure_visible_rows(1);
    assert_eq!(h.selected(), d("2026-05-25"));
}
