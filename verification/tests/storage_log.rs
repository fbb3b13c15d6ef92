use chrono::{Datelike, NaiveDate};
use todone::date::{Date, MAX_DAY, MIN_DAY};
use todone::storage::{previous_workday, text_to_read, try_previous_workday, Entry, Store};

fn d(s: &str) -> Date {
    let date = NaiveDate::parse_from_str(s, "%Y-%m-%d").unwrap();
    Date::from_days(date.num_days_from_ce()).unwrap()
}

#[test]
fn workday_monday_jumps_to_friday() {
    // 2026-05-25 is a Monday.
    assert_eq!(previous_workday(d("2026-05-25")), d("2026-05-22"));
}

#[test]
fn workday_tuesday_to_monday() {
    // 2026-05-26 is a Tuesday.
    assert_eq!(previous_workday(d("2026-05-26")), d("2026-05-25"));
}

#[test]
fn workday_saturday_to_friday() {
    // 2026-05-23 is a Saturday.
    assert_eq!(previous_workday(d("2026-05-23")), d("2026-05-22"));
}

#[test]
fn workday_sunday_to_friday() {
    // 2026-05-24 is a Sunday.
    assert_eq!(previous_workday(d("2026-05-24")), d("2026-05-22"));
}

#[test]
fn dates_desc_skips_empty_and_orders_newest_first() {
    let mut store = Store::default();
    store.entry_mut(d("2026-05-20")).did = vec!["x".into()];
    store.entry_mut(d("2026-05-21")); // empty, should be skipped
    store.entry_mut(d("2026-05-22")).planning = vec!["y".into()];
    assert_eq!(
        store.dates_desc(),
        vec![d("2026-05-22"), d("2026-05-20")],
    );
}

#[test]
fn the_calendar_is_that_of_chrono() {
    assert_eq!(MIN_DAY, NaiveDate::MIN.num_days_from_ce());
    assert_eq!(MAX_DAY, NaiveDate::MAX.num_days_from_ce());
    assert!(Date::from_days(MIN_DAY - 1).is_none());
    assert!(Date::from_days(MAX_DAY + 1).is_none());
    assert_eq!(d("2026-05-25").weekday(), 0);
    assert_eq!(d("2026-05-24").weekday(), 6);
    assert_eq!(d("2026-05-05").label(), "Tue May 5");
    assert_eq!(d("2026-05-05").iso(), "2026-05-05");
}

#[test]
fn weekdays_before_the_year_one() {
    for n in [MIN_DAY, -5_000, -8, -1, 0, 1, MAX_DAY] {
        let date = NaiveDate::from_num_days_from_ce_opt(n).unwrap();
        let day = Date::from_days(n).unwrap();
        assert_eq!(day.weekday(), date.weekday().num_days_from_monday());
        assert_eq!(day.iso(), date.to_string());
    }
}

#[test]
fn workday_at_the_start_of_the_calendar() {
    assert_eq!(try_previous_workday(d("2026-05-25")), Some(d("2026-05-22")));
    assert_eq!(try_previous_workday(Date::from_days(MIN_DAY).unwrap()), None);
}

#[test]
fn entry_mut_then_get() {
    let mut store = Store::default();
    assert!(store.get(d("2026-05-22")).is_none());
    store.entry_mut(d("2026-05-22")).did.push("a".into());
    store.entry_mut(d("2026-05-22")).planning.push("b".into());
    let entry = store.get(d("2026-05-22")).unwrap();
    assert_eq!(entry, &Entry { did: vec!["a".into()], planning: vec!["b".into()] });
    assert!(!entry.is_empty());
    assert!(store.get(d("2026-05-23")).is_none());
    assert!(store.remove(d("2026-05-23")).is_none());
    assert_eq!(store.remove(d("2026-05-22")).unwrap().did, vec!["a".to_string()]);
    assert!(store.entries.is_empty());
}

#[test]
fn first_recorded_skips_empty_days() {
    let mut store = Store::default();
    assert_eq!(store.first_recorded(), None);
    store.entry_mut(d("2026-05-19"));
    assert_eq!(store.first_recorded(), None);
    store.entry_mut(d("2026-05-22")).planning = vec!["y".into()];
    store.entry_mut(d("2026-05-20")).did = vec!["x".into()];
    assert_eq!(store.first_recorded(), Some(d("2026-05-20")));
}

#[test]
fn rows_make_the_store_again() {
    let mut store = Store::default();
    store.entry_mut(d("2026-05-22")).planning = vec!["y".into()];
    store.entry_mut(d("2026-05-20")).did = vec!["x".into(), "".into()];
    store.entry_mut(d("2026-05-21"));
    let rows = store.rows();
    assert_eq!(rows.len(), 3);
    assert_eq!(rows[0].0, d("2026-05-20").days());
    assert_eq!(rows[2].1.planning, vec!["y".to_string()]);
    assert_eq!(Store::from_rows(&rows), store);
}

#[test]
fn rows_that_are_no_days_are_left_out() {
    let entry = |s: &str| Entry { did: vec![s.into()], planning: vec![] };
    let rows = vec![(MAX_DAY + 1, entry("no")), (5, entry("first")), (5, entry("second"))];
    let store = Store::from_rows(&rows);
    assert_eq!(store.entries.len(), 1);
    assert_eq!(store.entries[&5], entry("second"));
}

#[test]
fn blank_files_are_not_read() {
    assert_eq!(text_to_read(None), None);
    assert_eq!(text_to_read(Some("")), None);
    assert_eq!(text_to_read(Some(" \n\t")), None);
    assert_eq!(text_to_read(Some(" {} ")), Some(" {} "));
}

#[test]
fn days_are_written_with_names_and_padding() {
    let day = |n: i32| Date::from_days(n).unwrap();
    assert_eq!(day(1).label(), "Mon Jan 1");
    assert_eq!(day(1).iso(), "0001-01-01");
    assert_eq!(day(0).label(), "Sun Dec 31");
    assert_eq!(day(0).iso(), "0000-12-31");
    assert_eq!(day(-366).iso(), "-0001-12-31");
    assert_eq!(day(3_652_059).iso(), "9999-12-31");
    assert_eq!(day(3_652_060).iso(), "+10000-01-01");
    assert_eq!(day(MIN_DAY).iso(), "-262143-01-01");
    assert_eq!(day(MAX_DAY).iso(), "+262142-12-31");
    assert_eq!(d("2024-02-29").label(), "Thu Feb 29");
    assert_eq!(d("1900-03-01").days() - d("1900-02-28").days(), 1);
    assert_eq!(d("2000-03-01").days() - d("2000-02-28").days(), 2);
}
