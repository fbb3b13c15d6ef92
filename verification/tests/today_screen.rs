use chrono::{Datelike, NaiveDate};
use todone::app::{collect_bullets, record_did, record_planning, App, Pane};
use todone::date::Date;
use todone::help;
use todone::key::{KeyCode, KeyEvent, Modifiers};
use todone::storage::Store;
use todone::style::{Colour, Style};

fn d(s: &str) -> Date {
    let date = NaiveDate::parse_from_str(s, "%Y-%m-%d").unwrap();
    Date::from_days(date.num_days_from_ce()).unwrap()
}

fn control(code: KeyCode) -> KeyEvent {
    KeyEvent { code, modifiers: Modifiers { shift: false, control: true, alt: false, other: false } }
}

fn type_text(app: &mut App, text: &str) {
    for c in text.chars() {
        app.handle_key(KeyEvent::plain(KeyCode::Char(c)));
    }
}

fn log() -> Store {
    let mut store = Store::default();
    store.entry_mut(d("2026-05-22")).planning = vec!["plan a".into(), "plan b".into()];
    store.entry_mut(d("2026-05-25")).planning = vec!["today".into()];
    store.entry_mut(d("2026-05-25")).did = vec!["already".into()];
    store
}

#[test]
fn planning_is_the_draft_of_did() {
    let app = App::new(log(), d("2026-05-25"));
    assert_eq!(app.lines(Pane::Did), &["plan a".to_string(), "plan b".to_string()]);
    assert_eq!(app.cursor(Pane::Did), (1, 6));
    assert_eq!(app.lines(Pane::Planning), &["today".to_string()]);
    assert_eq!(app.focus(), Pane::Did);
    assert!(!app.should_quit());
    let mut store = log();
    store.entry_mut(d("2026-05-22")).did = vec!["done".into()];
    let app = App::new(store, d("2026-05-25"));
    assert_eq!(app.lines(Pane::Did), &["done".to_string()]);
}

#[test]
fn empty_log_gives_empty_panes() {
    let app = App::new(Store::default(), d("2026-05-25"));
    assert_eq!(app.lines(Pane::Did), &["".to_string()]);
    assert_eq!(app.lines(Pane::Planning), &["".to_string()]);
    assert_eq!(app.reference().len(), 1);
    assert_eq!(app.reference()[0].spans[0].text, "(no planning recorded)");
    assert_eq!(app.reference()[0].spans[0].style, Style::colour(Colour::DarkGray));
}

#[test]
fn keys_go_to_the_focused_pane() {
    let mut app = App::new(log(), d("2026-05-25"));
    type_text(&mut app, "!");
    app.handle_key(KeyEvent::plain(KeyCode::Tab));
    assert_eq!(app.focus(), Pane::Planning);
    type_text(&mut app, "?");
    assert_eq!(app.lines(Pane::Did)[1], "plan b!");
    assert_eq!(app.lines(Pane::Planning), &["today?".to_string()]);
    app.handle_key(control(KeyCode::Backspace));
    assert_eq!(app.lines(Pane::Planning), &["today".to_string()]);
    app.handle_key(KeyEvent::plain(KeyCode::Tab));
    assert_eq!(app.focus(), Pane::Did);
    app.handle_key(control(KeyCode::Backspace));
    app.handle_key(control(KeyCode::Backspace));
    assert_eq!(app.lines(Pane::Did)[1], "plan ");
    type_text(&mut app, "q");
    assert!(!app.should_quit());
    app.handle_key(control(KeyCode::Char('q')));
    assert!(app.should_quit());
}

#[test]
fn persisting_trims_and_keeps_the_rest() {
    let mut app = App::new(log(), d("2026-05-25"));
    app.handle_key(KeyEvent::plain(KeyCode::Enter));
    type_text(&mut app, "  ");
    app.handle_key(KeyEvent::plain(KeyCode::Enter));
    type_text(&mut app, " more ");
    app.persist();
    let store = app.store();
    let yesterday = store.get(d("2026-05-22")).unwrap();
    assert_eq!(yesterday.did, vec!["plan a", "plan b", "more"]);
    assert_eq!(yesterday.planning, vec!["plan a", "plan b"]);
    let today = store.get(d("2026-05-25")).unwrap();
    assert_eq!(today.did, vec!["already"]);
    assert_eq!(today.planning, vec!["today"]);
    let again = App::new(store.clone(), d("2026-05-25"));
    assert_eq!(again.lines(Pane::Did), &["plan a", "plan b", "more"]);
    let before = store.clone();
    app.persist();
    assert_eq!(app.store(), &before);
}

#[test]
fn persisting_nothing_makes_no_entry() {
    let mut app = App::new(Store::default(), d("2026-05-25"));
    app.persist();
    assert!(app.store().entries.is_empty());
}

#[test]
fn recording_nothing_clears() {
    let mut store = log();
    record_planning(&mut store, d("2026-05-25"), vec![]);
    record_did(&mut store, d("2026-05-25"), vec![]);
    assert!(store.get(d("2026-05-25")).unwrap().is_empty());
    record_did(&mut store, d("2026-05-26"), vec![]);
    assert!(store.get(d("2026-05-26")).is_none());
    record_did(&mut store, d("2026-05-26"), vec!["x".into()]);
    assert_eq!(store.get(d("2026-05-26")).unwrap().did, vec!["x"]);
}

#[test]
fn bullets_are_trimmed_lines_with_text() {
    let lines = vec![" a ".to_string(), "".into(), "\t".into(), "- b".into()];
    assert_eq!(collect_bullets(&lines), vec!["a", "- b"]);
}

#[test]
fn titles_name_the_days() {
    let app = App::new(log(), d("2026-05-25"));
    assert_eq!(app.title(Pane::Did), " Yesterday (2026-05-22) — what I did ");
    assert_eq!(app.title(Pane::Planning), " Today (2026-05-25) — planning ");
    assert_eq!(app.reference_title(), " Yesterday (2026-05-22) — planning (ref) ");
    assert_eq!(app.header(), " standup — 2026-05-25 ");
    assert_eq!(app.status(), " Tab: switch pane    Ctrl-Q: quit (saves) ");
    assert_eq!(app.border(Pane::Did), Colour::Yellow);
    assert_eq!(app.border(Pane::Planning), Colour::DarkGray);
    let rows: Vec<_> = app.reference().into_iter().map(|l| l.spans[0].text.clone()).collect();
    assert_eq!(rows, vec!["- plan a", "- plan b"]);
}

#[test]
fn help_lists_every_key() {
    let lines = help::content();
    assert_eq!(lines.len(), 60);
    assert_eq!(lines[0].spans[0].text, "Today screen — normal mode");
    assert_eq!(lines[0].spans[0].style, Style::bold(Colour::Yellow));
    assert_eq!(lines[1].spans[0].text, "  i  a  o       ");
    assert_eq!(lines[1].spans[0].style, Style::colour(Colour::Cyan));
    assert_eq!(lines[1].spans[1].text, "insert at cursor / after / open line below");
    assert!(lines[14].spans.is_empty());
    assert_eq!(lines[59].spans[0].text, "  Press any key to dismiss.");
    assert_eq!(help::title().text, " Keybinds ");
    assert_eq!(help::border(), Colour::Cyan);
    assert_eq!(help::margin(80), 10);
}

#[test]
fn pages_go_by_what_of_a_pane_is_shown() {
    let mut store = Store::default();
    store.entry_mut(d("2026-05-22")).did = (0..20).map(|i| i.to_string()).collect();
    let mut app = App::new(store, d("2026-05-25"));
    app.show(Pane::Did, 20, 6);
    app.show(Pane::Planning, 20, 6);
    assert_eq!(app.cursor(Pane::Did), (19, 2));
    app.handle_key(KeyEvent::plain(KeyCode::PageUp));
    assert_eq!(app.cursor(Pane::Did), (13, 2));
    assert_eq!(app.cursor(Pane::Planning), (0, 0));
}

#[test]
fn the_selection_of_a_pane_is_known() {
    let mut app = App::new(log(), d("2026-05-25"));
    assert_eq!(app.selection(Pane::Did), None);
    let extend = KeyEvent {
        code: KeyCode::Up,
        modifiers: Modifiers { shift: true, control: false, alt: false, other: false },
    };
    app.handle_key(extend);
    assert_eq!(app.selection(Pane::Did), Some(((0, 6), (1, 6))));
    assert_eq!(app.selection(Pane::Planning), None);
    app.handle_key(KeyEvent::plain(KeyCode::Left));
    assert_eq!(app.selection(Pane::Did), None);
}
