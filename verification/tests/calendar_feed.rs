use chrono::{Datelike, NaiveDate};
use todone::calendar::{
    earlier, events_between, events_of_day, events_on, feed_url, materialize_from,
    materialize_non_recurring, moment_in_utc, parse_ics, raw_from_props, resolve_from, resolve_times, CalendarEvent,
    DatePerhapsTime, EventProps, Moment, Stamp, Zone, DAY_1970,
};
use todone::date::{Date, MAX_DAY};

const FIXTURE: &str = "BEGIN:VCALENDAR\r
VERSION:2.0\r
PRODID:-//example//todone//EN\r
BEGIN:VEVENT\r
UID:single@example.com\r
DTSTAMP:20260501T000000Z\r
DTSTART:20260522T100000\r
DTEND:20260522T103000\r
SUMMARY:Single Standup\r
LOCATION:Room 1\r
END:VEVENT\r
BEGIN:VEVENT\r
UID:allday@example.com\r
DTSTAMP:20260501T000000Z\r
DTSTART;VALUE=DATE:20260525\r
SUMMARY:Holiday\r
END:VEVENT\r
BEGIN:VEVENT\r
UID:multiday@example.com\r
DTSTAMP:20260501T000000Z\r
DTSTART;VALUE=DATE:20260601\r
DTEND;VALUE=DATE:20260604\r
SUMMARY:Conference\r
END:VEVENT\r
BEGIN:VEVENT\r
UID:weekly@example.com\r
DTSTAMP:20260501T000000Z\r
DTSTART:20260520T090000Z\r
DTEND:20260520T093000Z\r
RRULE:FREQ=WEEKLY;BYDAY=WE\r
EXDATE:20260527T090000Z\r
EXDATE:20260603T090000Z\r
RDATE:20260528T090000Z\r
RDATE:20260529T090000Z\r
SUMMARY:Weekly\r
END:VEVENT\r
BEGIN:VEVENT\r
UID:cancelled@example.com\r
DTSTAMP:20260501T000000Z\r
DTSTART:20260522T120000Z\r
DTEND:20260522T130000Z\r
STATUS:CANCELLED\r
SUMMARY:Cancelled\r
END:VEVENT\r
BEGIN:VEVENT\r
UID:zoned@example.com\r
DTSTAMP:20260501T000000Z\r
DTSTART;TZID=Europe/Berlin:20260522T100000\r
DTEND;TZID=Europe/Berlin:20260522T110000\r
LOCATION:\r
END:VEVENT\r
BEGIN:VEVENT\r
UID:nostart@example.com\r
DTSTAMP:20260501T000000Z\r
SUMMARY:Never\r
END:VEVENT\r
END:VCALENDAR\r
";

fn day(y: i32, m: u32, d: u32) -> Date {
    let date = NaiveDate::from_ymd_opt(y, m, d).unwrap();
    Date::from_days(date.num_days_from_ce()).unwrap()
}

fn between(a: Moment, b: Moment) -> chrono::Duration {
    chrono::Duration::seconds(b.secs - a.secs)
        + chrono::Duration::nanoseconds(b.nanos as i64 - a.nanos as i64)
}

#[test]
fn parses_single_timed_event() {
    let raws = parse_ics(FIXTURE).unwrap();
    let single = raws.iter().find(|r| r.uid == "single@example.com").unwrap();
    assert_eq!(single.summary, "Single Standup");
    assert!(!single.is_recurring());
}

#[test]
fn parses_all_day_event() {
    let raws = parse_ics(FIXTURE).unwrap();
    let all_day = raws.iter().find(|r| r.uid == "allday@example.com").unwrap();
    let events = materialize_non_recurring(&[all_day.clone()]);
    assert_eq!(events.len(), 1);
    assert!(events[0].all_day);
    // All-day end is the next day's midnight (RFC 5545 exclusive).
    assert_eq!(between(events[0].start, events[0].end), chrono::Duration::days(1));
}

#[test]
fn parses_multi_day_event() {
    let raws = parse_ics(FIXTURE).unwrap();
    let multi = raws.iter().find(|r| r.uid == "multiday@example.com").unwrap();
    let events = materialize_non_recurring(&[multi.clone()]);
    assert_eq!(events.len(), 1);
    assert!(events[0].all_day);
    assert_eq!(between(events[0].start, events[0].end), chrono::Duration::days(3));
}

#[test]
fn skips_recurring_events_in_phase_2() {
    let raws = parse_ics(FIXTURE).unwrap();
    let has_recurring = raws.iter().any(|r| r.is_recurring());
    assert!(has_recurring, "fixture should contain a recurring event");
    let events = materialize_non_recurring(&raws);
    assert!(events.iter().all(|e| e.uid != "weekly@example.com"));
}

#[test]
fn events_on_picks_overlapping_only() {
    let raws = parse_ics(FIXTURE).unwrap();
    let events = materialize_non_recurring(&raws);
    // Fixture's single event is on 2026-05-22.
    let on_day = events_on(&events, day(2026, 5, 22));
    assert!(on_day.iter().any(|e| e.uid == "single@example.com"));
    let off_day = events_on(&events, day(2026, 5, 21));
    assert!(off_day.iter().all(|e| e.uid != "single@example.com"));
}

#[test]
fn events_on_includes_multi_day_for_each_covered_day() {
    let raws = parse_ics(FIXTURE).unwrap();
    let events = materialize_non_recurring(&raws);
    // Multi-day runs 2026-06-01..2026-06-04.
    for day in [
        day(2026, 6, 1),
        day(2026, 6, 2),
        day(2026, 6, 3),
    ] {
        let on = events_on(&events, day);
        assert!(
            on.iter().any(|e| e.uid == "multiday@example.com"),
            "multi-day should appear on {}",
            day.iso()
        );
    }
    // Excludes the exclusive end date.
    let after = events_on(&events, day(2026, 6, 4));
    assert!(after.iter().all(|e| e.uid != "multiday@example.com"));
}

#[test]
fn drops_cancelled_events() {
    let raws = parse_ics(FIXTURE).unwrap();
    let events = materialize_non_recurring(&raws);
    assert!(events.iter().all(|e| e.uid != "cancelled@example.com"));
}

fn stamp(y: i32, m: u32, d: u32, secs: u32) -> Stamp {
    Stamp { day: day(y, m, d).days(), secs, nanos: 0 }
}

fn at(secs: i64) -> Moment {
    Moment { secs, nanos: 0 }
}

fn meeting(uid: &str, start: i64, end: i64) -> CalendarEvent {
    CalendarEvent {
        uid: uid.into(),
        start: at(start),
        end: at(end),
        all_day: false,
        summary: "".into(),
        location: None,
    }
}

#[test]
fn feed_properties_are_kept() {
    let raws = parse_ics(FIXTURE).unwrap();
    assert!(raws.iter().all(|r| r.uid != "nostart@example.com"));
    assert_eq!(raws.len(), 6);
    assert_eq!(raws[0].location.as_deref(), Some("Room 1"));
    assert_eq!(
        raws[0].start,
        DatePerhapsTime::DateTime(stamp(2026, 5, 22, 36_000), Zone::Floating)
    );
    assert_eq!(raws[1].start, DatePerhapsTime::Date(day(2026, 5, 25).days()));
    assert_eq!(raws[1].end, None);
    let weekly = &raws[3];
    assert_eq!(weekly.rrule.as_deref(), Some("FREQ=WEEKLY;BYDAY=WE"));
    assert_eq!(weekly.exdates, vec!["20260527T090000Z", "20260603T090000Z"]);
    assert_eq!(weekly.rdates, vec!["20260528T090000Z", "20260529T090000Z"]);
    assert_eq!(
        weekly.start,
        DatePerhapsTime::DateTime(stamp(2026, 5, 20, 32_400), Zone::Utc)
    );
    assert!(raws[4].is_cancelled());
    let zoned = &raws[5];
    assert_eq!(zoned.summary, "(no title)");
    assert_eq!(zoned.location, None);
    assert_eq!(
        zoned.start,
        DatePerhapsTime::DateTime(stamp(2026, 5, 22, 36_000), Zone::Named("Europe/Berlin".into()))
    );
}

#[test]
fn documents_that_are_no_calendars_are_refused() {
    let message = parse_ics("BEGIN:VCALENDAR\r\nnonsense").unwrap_err();
    assert!(message.starts_with("parsing ICS: "), "{message}");
    assert!(message.len() > "parsing ICS: ".len());
}

#[test]
fn zoned_times_are_exact() {
    let raws = parse_ics(FIXTURE).unwrap();
    let events = materialize_non_recurring(&raws);
    let zoned = events.iter().find(|e| e.uid == "zoned@example.com").unwrap();
    // Ten o'clock in Berlin is eight o'clock in UTC, in May.
    assert_eq!(zoned.start, moment_in_utc(stamp(2026, 5, 22, 8 * 3600)));
    assert_eq!(zoned.end, moment_in_utc(stamp(2026, 5, 22, 9 * 3600)));
    assert!(!zoned.all_day);
}

#[test]
fn unknown_zones_and_skipped_hours_give_no_time() {
    let time = |tzid: &str, s: Stamp| DatePerhapsTime::DateTime(s, Zone::Named(tzid.into()));
    assert_eq!(resolve_times(&time("Nowhere/Else", stamp(2026, 5, 22, 0)), &None), None);
    // Half past two is skipped on this day, and comes twice on that.
    assert_eq!(resolve_times(&time("Europe/Berlin", stamp(2026, 3, 29, 9_000)), &None), None);
    assert_eq!(resolve_times(&time("Europe/Berlin", stamp(2026, 10, 25, 9_000)), &None), None);
    assert!(resolve_times(&time("Europe/Berlin", stamp(2026, 10, 26, 9_000)), &None).is_some());
}

#[test]
fn utc_times_need_no_zone() {
    assert_eq!(moment_in_utc(Stamp { day: DAY_1970, secs: 0, nanos: 7 }), Moment { secs: 0, nanos: 7 });
    assert_eq!(moment_in_utc(stamp(2026, 5, 22, 1)).secs, 1_779_408_001);
    let start = DatePerhapsTime::DateTime(stamp(2026, 5, 22, 0), Zone::Utc);
    let m = moment_in_utc(stamp(2026, 5, 22, 0));
    // Without an end, an event with a time ends when it starts.
    assert_eq!(resolve_times(&start, &None), Some((m, m, false)));
}

#[test]
fn bounds_follow_from_the_local_clock() {
    let d = day(2026, 5, 25).days();
    let date = DatePerhapsTime::Date(d);
    let (a, b) = (Some(at(10)), Some(at(20)));
    assert_eq!(resolve_from(&date, &None, a, b), Some((at(10), at(20), true)));
    assert_eq!(resolve_from(&date, &None, None, b), None);
    assert_eq!(resolve_from(&date, &None, a, None), None);
    let utc = DatePerhapsTime::DateTime(stamp(2026, 5, 25, 0), Zone::Utc);
    assert_eq!(resolve_from(&date, &Some(utc.clone()), a, b), Some((at(10), at(20), true)));
    assert_eq!(
        resolve_from(&utc, &Some(date), None, b),
        Some((moment_in_utc(stamp(2026, 5, 25, 0)), at(20), false))
    );
    assert_eq!(resolve_from(&DatePerhapsTime::Date(MAX_DAY), &None, a, b), None);
    let floating = DatePerhapsTime::DateTime(stamp(2026, 5, 25, 0), Zone::Floating);
    assert_eq!(resolve_from(&floating, &None, a, None), Some((at(10), at(10), false)));
}

#[test]
fn properties_have_defaults() {
    let props = EventProps {
        uid: None,
        summary: None,
        location: Some("".into()),
        start: Some(DatePerhapsTime::Date(5)),
        end: None,
        rrule: None,
        exdates: vec![],
        rdate: None,
        rdates: vec![],
        recurrence_id: None,
        status: None,
    };
    let raw = raw_from_props(props.clone()).unwrap();
    assert_eq!((raw.uid.as_str(), raw.summary.as_str()), ("", "(no title)"));
    assert_eq!(raw.location, None);
    assert!(raw.rdates.is_empty());
    let dated = EventProps { rdate: Some("a".into()), rdates: vec!["b".into()], ..props.clone() };
    assert_eq!(raw_from_props(dated).unwrap().rdates, vec!["a", "b"]);
    assert!(!raw.is_recurring() && !raw.is_cancelled());
    assert!(raw_from_props(EventProps { start: None, ..props }).is_none());
}

#[test]
fn events_without_bounds_are_dropped() {
    let raws = parse_ics(FIXTURE).unwrap();
    let local = vec![(None, None); raws.len()];
    let uids: Vec<_> = materialize_from(&raws, &local).into_iter().map(|e| e.uid).collect();
    assert_eq!(uids, vec!["zoned@example.com"]);
}

#[test]
fn overlapping_events_come_in_order() {
    let events = vec![
        meeting("late", 50, 60),
        meeting("long", 10, 90),
        meeting("short", 10, 20),
        meeting("twin", 50, 60),
        meeting("before", 0, 10),
        meeting("after", 100, 110),
    ];
    let uids: Vec<_> =
        events_between(&events, at(10), at(100)).into_iter().map(|e| e.uid.as_str()).collect();
    assert_eq!(uids, vec!["short", "long", "late", "twin"]);
}

#[test]
fn moments_are_compared_to_the_nanosecond() {
    let a = Moment { secs: 1, nanos: 5 };
    let b = Moment { secs: 1, nanos: 6 };
    assert!(earlier(a, b));
    assert!(!earlier(b, a));
    assert!(!earlier(a, a));
    assert!(earlier(b, Moment { secs: 2, nanos: 0 }));
}

#[test]
fn no_events_on_the_last_day_of_the_calendar() {
    let events = vec![meeting("long", i64::MIN, i64::MAX)];
    assert!(events_on(&events, Date::from_days(MAX_DAY).unwrap()).is_empty());
    assert_eq!(events_on(&events, day(2026, 5, 22)).len(), 1);
}

#[test]
fn feed_addresses_are_trimmed() {
    assert_eq!(feed_url("  https://x/y.ics "), Ok("https://x/y.ics".to_string()));
    assert_eq!(feed_url("  "), Err("ICS URL is empty".to_string()));
}

#[test]
fn the_events_of_a_day_go_by_its_bounds() {
    let event = CalendarEvent {
        uid: "a".into(),
        start: Moment { secs: 50, nanos: 0 },
        end: Moment { secs: 60, nanos: 0 },
        all_day: false,
        summary: "standup".into(),
        location: None,
    };
    let events = [event];
    let at = |secs: i64| Some(Moment { secs, nanos: 0 });
    let friday = day(2026, 5, 22);
    assert_eq!(events_of_day(&events, friday, at(0), at(100)).len(), 1);
    assert!(events_of_day(&events, friday, at(60), at(100)).is_empty());
    assert!(events_of_day(&events, friday, None, at(100)).is_empty());
    assert!(events_of_day(&events, friday, at(0), None).is_empty());
    assert!(events_of_day(&events, Date::from_days(MAX_DAY).unwrap(), at(0), at(100)).is_empty());
}
