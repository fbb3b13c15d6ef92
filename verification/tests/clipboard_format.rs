use chrono::{Datelike, NaiveDate};
use todone::date::Date;
use todone::format::{
    bullets, did, parse_item, planning, push_html_escaped, standup_html, timesheet,
};
use todone::storage::{Entry, Store};

fn d(s: &str) -> Date {
    let date = NaiveDate::parse_from_str(s, "%Y-%m-%d").unwrap();
    Date::from_days(date.num_days_from_ce()).unwrap()
}

#[test]
fn standup_html_pulls_yesterday_from_previous_workday() {
    let mut store = Store::default();
    // Friday: what I did
    store.entry_mut(d("2026-05-22")).did =
        vec!["finished feature X".into(), "reviewed PRs".into()];
    // Monday: my plan
    store.entry_mut(d("2026-05-25")).planning = vec!["start feature Y".into()];

    let out = standup_html(&store, d("2026-05-25"));
    assert_eq!(
        out,
        "<b>Yesterday</b><ul><li>finished feature X</li><li>reviewed PRs</li></ul>\
         <b>Today</b><ul><li>start feature Y</li></ul>"
    );
}

#[test]
fn standup_html_uses_br_when_a_section_is_empty() {
    let mut store = Store::default();
    store.entry_mut(d("2026-05-26")).planning = vec!["thing".into()];
    let out = standup_html(&store, d("2026-05-26"));
    assert_eq!(out, "<b>Yesterday</b><br><b>Today</b><ul><li>thing</li></ul>");
}

#[test]
fn standup_html_escapes_special_chars() {
    let mut store = Store::default();
    store.entry_mut(d("2026-05-22")).did = vec!["a & b <c> \"d\"".into()];
    store.entry_mut(d("2026-05-25")).planning = vec!["x".into()];
    let out = standup_html(&store, d("2026-05-25"));
    assert!(out.contains("<li>a &amp; b &lt;c&gt; \"d\"</li>"));
}

#[test]
fn timesheet_plain_no_prefix() {
    let mut store = Store::default();
    store.entry_mut(d("2026-05-22")).did = vec!["a".into(), "b".into(), "c".into()];
    let out = timesheet(&store, d("2026-05-22"));
    assert_eq!(out, "a\nb\nc");
}

#[test]
fn timesheet_empty_when_no_entry() {
    let store = Store::default();
    let out = timesheet(&store, d("2026-05-22"));
    assert_eq!(out, "");
}

#[test]
fn bullets_trims_trailing_newline() {
    let out = bullets(&["x".into(), "y".into()]);
    assert_eq!(out, "- x\n- y");
}

#[test]
fn standup_html_nests_dash_prefixed_sub_items() {
    let mut store = Store::default();
    store.entry_mut(d("2026-05-22")).did = vec![
        "MR Review".into(),
        "- Session data polling".into(),
        "Navigation sidebar feature".into(),
    ];
    store.entry_mut(d("2026-05-25")).planning = vec!["x".into()];
    let out = standup_html(&store, d("2026-05-25"));
    assert_eq!(
        out,
        "<b>Yesterday</b><ul>\
         <li>MR Review<ul><li>Session data polling</li></ul></li>\
         <li>Navigation sidebar feature</li>\
         </ul><b>Today</b><ul><li>x</li></ul>"
    );
}

#[test]
fn standup_html_groups_multiple_sub_items() {
    let mut store = Store::default();
    store.entry_mut(d("2026-05-22")).did = vec![
        "parent".into(),
        "- sub a".into(),
        "- sub b".into(),
        "next parent".into(),
    ];
    store.entry_mut(d("2026-05-25")).planning = vec!["x".into()];
    let out = standup_html(&store, d("2026-05-25"));
    assert!(out.contains(
        "<li>parent<ul><li>sub a</li><li>sub b</li></ul></li><li>next parent</li>"
    ));
}

#[test]
fn standup_html_orphan_sub_item_becomes_top_level() {
    let mut store = Store::default();
    store.entry_mut(d("2026-05-22")).did = vec!["- orphan".into(), "parent".into()];
    store.entry_mut(d("2026-05-25")).planning = vec!["x".into()];
    let out = standup_html(&store, d("2026-05-25"));
    assert!(out.contains("<ul><li>orphan</li><li>parent</li></ul>"));
}

#[test]
fn timesheet_keeps_dash_prefix_on_sub_items() {
    let mut store = Store::default();
    store.entry_mut(d("2026-05-22")).did = vec![
        "MR Review".into(),
        "- Session data polling".into(),
        "Navigation sidebar feature".into(),
    ];
    let out = timesheet(&store, d("2026-05-22"));
    assert_eq!(
        out,
        "MR Review\n- Session data polling\nNavigation sidebar feature"
    );
}

#[test]
fn bullets_indents_sub_items() {
    let out = bullets(&[
        "parent".into(),
        "- sub".into(),
        "other".into(),
    ]);
    assert_eq!(out, "- parent\n  - sub\n- other");
}

#[test]
fn items_have_levels() {
    assert_eq!(parse_item("top"), (0, "top"));
    assert_eq!(parse_item("- sub"), (1, "sub"));
    assert_eq!(parse_item("-sub"), (0, "-sub"));
    assert_eq!(parse_item("  - x"), (1, "x"));
    assert_eq!(parse_item("\t- x y \n"), (1, "x y \n"));
    assert_eq!(parse_item("- x "), (1, "x "));
    assert_eq!(parse_item("  top "), (0, "  top "));
    assert_eq!(parse_item("- "), (0, "- "));
    assert_eq!(parse_item(""), (0, ""));
    assert_eq!(parse_item("- - x"), (1, "- x"));
}

#[test]
fn orphans_stay_apart_from_each_other() {
    let mut store = Store::default();
    store.entry_mut(d("2026-05-25")).did = vec!["- a".into(), "- b".into(), "c".into(), "- d".into()];
    let out = standup_html(&store, d("2026-05-26"));
    assert_eq!(
        out,
        "<b>Yesterday</b><ul><li>a</li><li>b</li><li>c<ul><li>d</li></ul></li></ul><b>Today</b><br>"
    );
}

#[test]
fn escaping_appends() {
    let mut out = "x".to_string();
    push_html_escaped(&mut out, "&lt;<>é");
    assert_eq!(out, "x&amp;lt;&lt;&gt;é");
}

#[test]
fn no_bullets_of_nothing() {
    assert_eq!(bullets(&[]), "");
    assert_eq!(did(&Entry::default()), "");
}

#[test]
fn sections_are_yanked_one_by_one() {
    let entry = Entry { did: vec!["a".into()], planning: vec!["b".into(), "- c".into()] };
    assert_eq!(did(&entry), "- a");
    assert_eq!(planning(&entry), "- b\n  - c");
}

#[test]
fn an_indented_sub_item_is_nested() {
    let items = vec!["top".to_string(), "  - sub".to_string()];
    assert_eq!(bullets(&items), "- top\n  - sub");
    let mut store = Store::default();
    store.entry_mut(d("2026-05-25")).planning = items;
    let html = standup_html(&store, d("2026-05-25"));
    assert!(html.ends_with("<ul><li>top<ul><li>sub</li></ul></li></ul>"));
}
