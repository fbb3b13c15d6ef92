//! Calendar events, from an iCalendar feed.

use crate::date;
use crate::date::Date;
use crate::text;
use chrono::{Datelike, Local, NaiveDate, NaiveTime, TimeZone, Timelike};
use chrono_tz::Tz;
use icalendar::{
    Calendar, CalendarDateTime as IcsDateTime, Component, DatePerhapsTime as IcsTime, Event,
};
use std::str::FromStr;
use vstd::prelude::*;

verus! {

/// `icalendar::Calendar`, held as it is.
#[verifier::external_type_specification]
#[verifier::external_body]
pub struct ExCalendar(icalendar::Calendar);

/// `icalendar::CalendarComponent`, held as it is.
#[verifier::external_type_specification]
#[verifier::external_body]
pub struct ExCalendarComponent(icalendar::CalendarComponent);

/// `icalendar::Event`, held as it is.
#[verifier::external_type_specification]
#[verifier::external_body]
pub struct ExEvent(icalendar::Event);

/// A date and a time on a clock: the day, counted as [`Date::days`] does, the
/// seconds since midnight, and nanoseconds.
#[derive(Debug, Clone, Copy, PartialEq, Eq, Structural)]
pub struct Stamp {
    pub day: i32,
    pub secs: u32,
    pub nanos: u32,
}

/// Whose clock a time is on.
#[derive(Debug, Clone, PartialEq, Eq)]
pub enum Zone {
    /// That of wherever one is.
    Floating,
    Utc,
    Named(String),
}

/// A date, perhaps with a time.
#[derive(Debug, Clone, PartialEq, Eq)]
pub enum DatePerhapsTime {
    DateTime(Stamp, Zone),
    /// A day, counted as [`Date::days`] does.
    Date(i32),
}

/// The view of a [`DatePerhapsTime`].
#[verifier::ext_equal]
pub enum TimeView {
    Date(i32),
    Floating(Stamp),
    Utc(Stamp),
    Zoned(Stamp, Seq<char>),
}

impl View for DatePerhapsTime {
    type V = TimeView;

    open spec fn view(&self) -> TimeView {
        match self {
            DatePerhapsTime::Date(day) => TimeView::Date(*day),
            DatePerhapsTime::DateTime(s, Zone::Floating) => TimeView::Floating(*s),
            DatePerhapsTime::DateTime(s, Zone::Utc) => TimeView::Utc(*s),
            DatePerhapsTime::DateTime(s, Zone::Named(tzid)) => TimeView::Zoned(*s, tzid@),
        }
    }
}

/// The view of a time that may be missing.
pub open spec fn opt_time(t: Option<DatePerhapsTime>) -> Option<TimeView> {
    match t {
        Some(t) => Some(t@),
        None => None,
    }
}

// ---------------------------------------------------------------------------
// What a feed holds
// ---------------------------------------------------------------------------

/// The components of a calendar: the event that each is, if it is one.
pub uninterp spec fn calendar_parts(calendar: Calendar) -> Seq<Option<Event>>;

/// What an iCalendar document holds: the components, or the message why it cannot
/// be read.
pub uninterp spec fn ics_read(text: Seq<char>) -> Result<Seq<Option<Event>>, Seq<char>>;

/// The values of the properties that an event has once, by name.
pub uninterp spec fn event_values(event: Event) -> Map<Seq<char>, Seq<char>>;

/// The values of the properties that an event may have many times, by name.
pub uninterp spec fn event_lists(event: Event) -> Map<Seq<char>, Seq<Seq<char>>>;

/// The times that an event's properties stand for, by name.
pub uninterp spec fn event_times(event: Event) -> Map<Seq<char>, TimeView>;

/// `Calendar::from_str`: reads an iCalendar document.
#[verifier::external_body]
fn read_calendar(text: &str) -> (r: Result<Calendar, String>)
    ensures
        match r {
            Ok(calendar) => ics_read(text@) == Ok::<Seq<Option<Event>>, Seq<char>>(
                calendar_parts(calendar),
            ),
            Err(message) => ics_read(text@) == Err::<Seq<Option<Event>>, Seq<char>>(message@),
        },
{
    Calendar::from_str(text)
}

/// `CalendarComponent::as_event` on each of the components: the event that it is,
/// if it is one.
#[verifier::external_body]
fn events_in<'a>(calendar: &'a Calendar) -> (r: Vec<Option<&'a Event>>)
    ensures
        r@.len() == calendar_parts(*calendar).len(),
        forall|i: int|
            0 <= i < r@.len() ==> calendar_parts(*calendar)[i] == (match #[trigger] r@[i] {
                Some(event) => Some(*event),
                None => None,
            }),
{
    calendar.components.iter().map(|c| c.as_event()).collect()
}

/// `Component::property_value`: the value of property `key`, if the event has it.
#[verifier::external_body]
fn property_value(event: &Event, key: &str) -> (r: Option<String>)
    ensures
        r is Some == event_values(*event).contains_key(key@),
        r matches Some(value) ==> value@ == event_values(*event)[key@],
{
    event.property_value(key).map(str::to_owned)
}

/// `Component::multi_properties`: the values of property `key`, none where the
/// event does not have it.
#[verifier::external_body]
fn property_values(event: &Event, key: &str) -> (r: Vec<String>)
    ensures
        text::texts(r@) == if event_lists(*event).contains_key(key@) {
            event_lists(*event)[key@]
        } else {
            Seq::empty()
        },
{
    let values = event.multi_properties().get(key).into_iter().flatten();
    values.map(|p| p.value().to_string()).collect()
}

/// `DatePerhapsTime::from_property` on property `key`: the time that it stands for,
/// if the event has it and it can be read.
#[verifier::external_body]
fn time_property(event: &Event, key: &str) -> (r: Option<DatePerhapsTime>)
    ensures
        r is Some == event_times(*event).contains_key(key@),
        r matches Some(time) ==> time@ == event_times(*event)[key@],
{
    let (t, zone) = match IcsTime::from_property(event.properties().get(key)?)? {
        IcsTime::Date(d) => return Some(DatePerhapsTime::Date(d.num_days_from_ce())),
        IcsTime::DateTime(IcsDateTime::Floating(t)) => (t, Zone::Floating),
        IcsTime::DateTime(IcsDateTime::Utc(t)) => (t.naive_utc(), Zone::Utc),
        IcsTime::DateTime(IcsDateTime::WithTimezone { date_time, tzid }) => {
            (date_time, Zone::Named(tzid))
        },
    };
    let day = t.num_days_from_ce();
    let (secs, nanos) = (t.num_seconds_from_midnight(), t.nanosecond());
    Some(DatePerhapsTime::DateTime(Stamp { day, secs, nanos }, zone))
}

// ---------------------------------------------------------------------------
// Events as they are in the feed
// ---------------------------------------------------------------------------

/// Raw VEVENT data, keeping recurrence properties intact so that recurring events
/// can be expanded later.
#[derive(Debug, Clone)]
pub struct RawVevent {
    pub uid: String,
    pub summary: String,
    pub location: Option<String>,
    pub start: DatePerhapsTime,
    pub end: Option<DatePerhapsTime>,
    pub rrule: Option<String>,
    pub exdates: Vec<String>,
    pub rdates: Vec<String>,
    pub recurrence_id: Option<DatePerhapsTime>,
    pub status: Option<String>,
}

/// The view of a [`RawVevent`].
#[verifier::ext_equal]
pub struct RawView {
    pub uid: Seq<char>,
    pub summary: Seq<char>,
    pub location: Option<Seq<char>>,
    pub start: TimeView,
    pub end: Option<TimeView>,
    pub rrule: Option<Seq<char>>,
    pub exdates: Seq<Seq<char>>,
    pub rdates: Seq<Seq<char>>,
    pub recurrence_id: Option<TimeView>,
    pub status: Option<Seq<char>>,
}

impl View for RawVevent {
    type V = RawView;

    open spec fn view(&self) -> RawView {
        RawView {
            uid: self.uid@,
            summary: self.summary@,
            location: text::opt_text(self.location),
            start: self.start@,
            end: opt_time(self.end),
            rrule: text::opt_text(self.rrule),
            exdates: text::texts(self.exdates@),
            rdates: text::texts(self.rdates@),
            recurrence_id: opt_time(self.recurrence_id),
            status: text::opt_text(self.status),
        }
    }
}

/// The views of some events.
pub open spec fn raw_views(raws: Seq<RawVevent>) -> Seq<RawView> {
    Seq::new(raws.len(), |i: int| raws[i]@)
}

impl RawView {
    /// Whether the event recurs.
    pub open spec fn recurs(self) -> bool {
        self.rrule is Some
    }

    /// Whether the event was cancelled.
    pub open spec fn cancelled(self) -> bool {
        self.status == Some("CANCELLED"@)
    }
}

impl RawVevent {
    /// Whether the event recurs.
    pub fn is_recurring(&self) -> (r: bool)
        ensures
            r == self@.recurs(),
    {
        self.rrule.is_some()
    }

    /// Whether the event was cancelled.
    pub fn is_cancelled(&self) -> (r: bool)
        ensures
            r == self@.cancelled(),
    {
        match &self.status {
            Some(s) => text::same_text(s.as_str(), "CANCELLED"),
            None => false,
        }
    }
}

/// The properties of an event that matter, as far as it has them.
#[derive(Debug, Clone)]
pub struct EventProps {
    pub uid: Option<String>,
    pub summary: Option<String>,
    pub location: Option<String>,
    pub start: Option<DatePerhapsTime>,
    pub end: Option<DatePerhapsTime>,
    pub rrule: Option<String>,
    pub exdates: Vec<String>,
    /// The value of an RDATE that stands alone.
    pub rdate: Option<String>,
    /// The values of RDATEs that may stand many times.
    pub rdates: Vec<String>,
    pub recurrence_id: Option<DatePerhapsTime>,
    pub status: Option<String>,
}

/// The view of [`EventProps`].
#[verifier::ext_equal]
pub struct PropsView {
    pub uid: Option<Seq<char>>,
    pub summary: Option<Seq<char>>,
    pub location: Option<Seq<char>>,
    pub start: Option<TimeView>,
    pub end: Option<TimeView>,
    pub rrule: Option<Seq<char>>,
    pub exdates: Seq<Seq<char>>,
    pub rdate: Option<Seq<char>>,
    pub rdates: Seq<Seq<char>>,
    pub recurrence_id: Option<TimeView>,
    pub status: Option<Seq<char>>,
}

impl View for EventProps {
    type V = PropsView;

    open spec fn view(&self) -> PropsView {
        PropsView {
            uid: text::opt_text(self.uid),
            summary: text::opt_text(self.summary),
            location: text::opt_text(self.location),
            start: opt_time(self.start),
            end: opt_time(self.end),
            rrule: text::opt_text(self.rrule),
            exdates: text::texts(self.exdates@),
            rdate: text::opt_text(self.rdate),
            rdates: text::texts(self.rdates@),
            recurrence_id: opt_time(self.recurrence_id),
            status: text::opt_text(self.status),
        }
    }
}

/// The event with the given properties, if it has a start. It may lack a title
/// and an id, and an empty location is none.
pub open spec fn raw_of(p: PropsView) -> Option<RawView> {
    match p.start {
        Some(start) => Some(
            RawView {
                uid: text::text_or(p.uid, ""@),
                summary: text::text_or(p.summary, "(no title)"@),
                location: if p.location matches Some(s) && s.len() > 0 {
                    p.location
                } else {
                    None
                },
                start,
                end: p.end,
                rrule: p.rrule,
                exdates: p.exdates,
                rdates: match p.rdate {
                    Some(value) => seq![value] + p.rdates,
                    None => p.rdates,
                },
                recurrence_id: p.recurrence_id,
                status: p.status,
            },
        ),
        None => None,
    }
}

/// The value of property `key`, if `event` has it.
pub open spec fn value_in(event: Event, key: Seq<char>) -> Option<Seq<char>> {
    if event_values(event).contains_key(key) {
        Some(event_values(event)[key])
    } else {
        None
    }
}

/// The time that property `key` stands for, if `event` has it.
pub open spec fn time_in(event: Event, key: Seq<char>) -> Option<TimeView> {
    if event_times(event).contains_key(key) {
        Some(event_times(event)[key])
    } else {
        None
    }
}

/// The values of property `key`; none where `event` does not have it.
pub open spec fn list_in(event: Event, key: Seq<char>) -> Seq<Seq<char>> {
    if event_lists(event).contains_key(key) {
        event_lists(event)[key]
    } else {
        seq![]
    }
}

/// The properties of `event`.
pub open spec fn props_of(event: Event) -> PropsView {
    PropsView {
        uid: value_in(event, "UID"@),
        summary: value_in(event, "SUMMARY"@),
        location: value_in(event, "LOCATION"@),
        start: time_in(event, "DTSTART"@),
        end: time_in(event, "DTEND"@),
        rrule: value_in(event, "RRULE"@),
        exdates: list_in(event, "EXDATE"@),
        rdate: value_in(event, "RDATE"@),
        rdates: list_in(event, "RDATE"@),
        recurrence_id: time_in(event, "RECURRENCE-ID"@),
        status: value_in(event, "STATUS"@),
    }
}

/// The events with a start among some components.
pub open spec fn raws_of(parts: Seq<Option<Event>>) -> Seq<RawView>
    decreases parts.len(),
{
    if parts.len() == 0 {
        seq![]
    } else {
        let before = raws_of(parts.drop_last());
        match parts.last() {
            Some(event) => match raw_of(props_of(event)) {
                Some(raw) => before.push(raw),
                None => before,
            },
            None => before,
        }
    }
}

/// The event with the given properties, if it has a start.
pub fn raw_from_props(p: EventProps) -> (r: Option<RawVevent>)
    ensures
        match r {
            Some(raw) => raw_of(p@) == Some(raw@),
            None => raw_of(p@) is None,
        },
{
    let ghost props = p@;
    let start = match p.start {
        Some(start) => start,
        None => {
            return None;
        },
    };
    let uid = match p.uid {
        Some(s) => s,
        None => "".to_owned(),
    };
    let summary = match p.summary {
        Some(s) => s,
        None => "(no title)".to_owned(),
    };
    let location = match p.location {
        Some(s) => if s.as_str().unicode_len() > 0 {
            Some(s)
        } else {
            None
        },
        None => None,
    };
    let mut rdates: Vec<String> = Vec::new();
    if let Some(value) = p.rdate {
        rdates.push(value);
    }
    let mut more = p.rdates;
    rdates.append(&mut more);
    let raw = RawVevent {
        uid,
        summary,
        location,
        start,
        end: p.end,
        rrule: p.rrule,
        exdates: p.exdates,
        rdates,
        recurrence_id: p.recurrence_id,
        status: p.status,
    };
    assert(raw@.rdates =~= raw_of(props)->0.rdates);
    assert(raw_of(props)->0 =~= raw@);
    Some(raw)
}

fn read_props(event: &Event) -> (r: EventProps)
    ensures
        r@ == props_of(*event),
{
    let r = EventProps {
        uid: property_value(event, "UID"),
        summary: property_value(event, "SUMMARY"),
        location: property_value(event, "LOCATION"),
        start: time_property(event, "DTSTART"),
        end: time_property(event, "DTEND"),
        rrule: property_value(event, "RRULE"),
        exdates: property_values(event, "EXDATE"),
        rdate: property_value(event, "RDATE"),
        rdates: property_values(event, "RDATE"),
        recurrence_id: time_property(event, "RECURRENCE-ID"),
        status: property_value(event, "STATUS"),
    };
    assert(r@ =~= props_of(*event));
    r
}

/// The event, if it has a start.
pub fn raw_from_event(event: &Event) -> (r: Option<RawVevent>)
    ensures
        match r {
            Some(raw) => raw_of(props_of(*event)) == Some(raw@),
            None => raw_of(props_of(*event)) is None,
        },
{
    raw_from_props(read_props(event))
}

/// Parse an ICS document into raw VEVENTs. Components that aren't VEVENTs
/// (VTIMEZONE, VCALENDAR-level props, etc.) are ignored. Malformed VEVENTs
/// missing DTSTART are skipped silently — one bad event shouldn't poison the
/// whole feed.
pub fn parse_ics(text: &str) -> (r: Result<Vec<RawVevent>, String>)
    ensures
        match ics_read(text@) {
            Ok(parts) => r matches Ok(raws) && raw_views(raws@) == raws_of(parts),
            Err(message) => r matches Err(s) && s@ == "parsing ICS: "@ + message,
        },
{
    let calendar = match read_calendar(text) {
        Ok(calendar) => calendar,
        Err(message) => {
            let mut out = "parsing ICS: ".to_owned();
            out.append(message.as_str());
            return Err(out);
        },
    };
    let events = events_in(&calendar);
    let ghost parts = calendar_parts(calendar);
    let mut out: Vec<RawVevent> = Vec::new();
    assert(raw_views(out@) =~= raws_of(parts.take(0)));
    let mut i: usize = 0;
    while i < events.len()
        invariant
            i <= events.len(),
            events@.len() == parts.len(),
            forall|j: int|
                0 <= j < events@.len() ==> parts[j] == (match #[trigger] events@[j] {
                    Some(event) => Some(*event),
                    None => None,
                }),
            raw_views(out@) == raws_of(parts.take(i as int)),
        decreases events.len() - i,
    {
        let ghost before = raw_views(out@);
        let ghost now = parts.take(i + 1);
        assert(now.drop_last() =~= parts.take(i as int));
        assert(now.last() == parts[i as int]);
        if let Some(event) = events[i] {
            if let Some(raw) = raw_from_event(event) {
                out.push(raw);
                assert(raw_views(out@) =~= before.push(raw@));
            }
        }
        i += 1;
    }
    assert(parts.take(i as int) =~= parts);
    Ok(out)
}

/// An event without a start costs only itself: what comes before and after it in
/// the feed is read as without it.
pub proof fn lemma_bad_event_skipped(
    before: Seq<Option<Event>>,
    bad: Option<Event>,
    after: Seq<Option<Event>>,
)
    requires
        bad matches Some(event) ==> raw_of(props_of(event)) is None,
    ensures
        raws_of(before.push(bad) + after) == raws_of(before + after),
    decreases after.len(),
{
    if after.len() == 0 {
        assert(before.push(bad) + after =~= before.push(bad));
        assert(before + after =~= before);
        assert(before.push(bad).drop_last() =~= before);
    } else {
        lemma_bad_event_skipped(before, bad, after.drop_last());
        assert((before.push(bad) + after).drop_last() =~= before.push(bad) + after.drop_last());
        assert((before + after).drop_last() =~= before + after.drop_last());
    }
}

// ---------------------------------------------------------------------------
// Moments
// ---------------------------------------------------------------------------

/// A moment: the seconds since 1970 began in UTC, and nanoseconds.
#[derive(Debug, Clone, Copy, PartialEq, Eq, Structural)]
pub struct Moment {
    pub secs: i64,
    pub nanos: u32,
}

/// The number of the day on which 1970 began.
pub const DAY_1970: i32 = 719_163;

/// The seconds since 1970 that a clock shows.
pub open spec fn clock_secs(s: Stamp) -> int {
    (s.day - DAY_1970) * 86_400 + s.secs
}

/// The moment at which a clock on UTC shows `s`.
pub open spec fn utc_moment(s: Stamp) -> Moment {
    Moment { secs: clock_secs(s) as i64, nanos: s.nanos }
}

/// Midnight at the start of a day.
pub open spec fn midnight(day: i32) -> Stamp {
    Stamp { day, secs: 0, nanos: 0 }
}

/// Whether `m` is before `n`.
pub open spec fn is_before(m: Moment, n: Moment) -> bool {
    m.secs < n.secs || (m.secs == n.secs && m.nanos < n.nanos)
}

/// Whether `m` can be the moment at which a local clock shows `s`: no clock is a
/// day off. A clock may show `s` twice, or never; then there is no such moment.
pub open spec fn may_be_local(s: Stamp, m: Option<Moment>) -> bool {
    m matches Some(m) ==> {
        &&& -86_400 < m.secs - clock_secs(s) < 86_400
        &&& m.nanos == s.nanos
    }
}

/// The moment at which the clock of zone `tzid` shows `s`, if there is just one and
/// the zone is known.
pub uninterp spec fn zoned_moment(tzid: Seq<char>, s: Stamp) -> Option<Moment>;

/// `NaiveDateTime::and_local_timezone` with `chrono::Local`: the moment at which the
/// clock of this machine shows `s`, if there is just one. Which one that is rests
/// with the machine's time zone.
#[verifier::external_body]
fn local_moment(s: Stamp) -> (r: Option<Moment>)
    ensures
        may_be_local(s, r),
{
    let time = NaiveTime::from_num_seconds_from_midnight_opt(s.secs, s.nanos)?;
    let wall = NaiveDate::from_num_days_from_ce_opt(s.day)?.and_time(time);
    let t = wall.and_local_timezone(Local).single()?;
    Some(Moment { secs: t.timestamp(), nanos: t.timestamp_subsec_nanos() })
}

/// Whether the clock of this machine, asked for the moment at which it shows `s`, can
/// answer `m`.
pub closed spec fn local_reading(s: Stamp, m: Option<Moment>) -> bool {
    call_ensures(local_moment, (s,), m)
}

/// What the clock of this machine answers is what [`local_moment`] returns, and
/// nothing else.
proof fn lemma_local_reading(s: Stamp, m: Option<Moment>)
    ensures
        local_reading(s, m) == call_ensures(local_moment, (s,), m),
{
}

/// `TimeZone::from_local_datetime` with the `chrono_tz::Tz` called `tzid`: the moment
/// at which the clock of that zone shows `s`.
#[verifier::external_body]
fn moment_in_zone(tzid: &str, s: Stamp) -> (r: Option<Moment>)
    ensures
        r == zoned_moment(tzid@, s),
{
    let zone: Tz = tzid.parse().ok()?;
    let time = NaiveTime::from_num_seconds_from_midnight_opt(s.secs, s.nanos)?;
    let wall = NaiveDate::from_num_days_from_ce_opt(s.day)?.and_time(time);
    let t = zone.from_local_datetime(&wall).single()?;
    Some(Moment { secs: t.timestamp(), nanos: t.timestamp_subsec_nanos() })
}

/// Whether `m` is before `n`.
pub fn earlier(m: Moment, n: Moment) -> (r: bool)
    ensures
        r == is_before(m, n),
{
    m.secs < n.secs || (m.secs == n.secs && m.nanos < n.nanos)
}

/// The moment at which a clock on UTC shows `s`.
pub fn moment_in_utc(s: Stamp) -> (r: Moment)
    ensures
        r == utc_moment(s),
        r.secs == clock_secs(s),
{
    let secs: i64 = (s.day as i64 - DAY_1970 as i64) * 86_400 + s.secs as i64;
    Moment { secs, nanos: s.nanos }
}

/// What the local clock shows at the start of an event, if its time goes by that
/// clock.
pub open spec fn start_clock(start: TimeView) -> Option<Stamp> {
    match start {
        TimeView::Date(day) => Some(midnight(day)),
        TimeView::Floating(s) => Some(s),
        _ => None,
    }
}

/// What the local clock shows at the end of an event, if its time goes by that
/// clock. Without an end, an event of whole days lasts one day.
pub open spec fn end_clock(start: TimeView, end: Option<TimeView>) -> Option<Stamp> {
    match start {
        TimeView::Date(day) => match end {
            Some(TimeView::Date(end_day)) => Some(midnight(end_day)),
            _ => if day < date::MAX_DAY {
                Some(midnight((day + 1) as i32))
            } else {
                None
            },
        },
        _ => match end {
            Some(t) => start_clock(t),
            None => None,
        },
    }
}

/// The moment of a time, where `local` is the moment of what the local clock shows.
pub open spec fn moment_of(t: TimeView, local: Option<Moment>) -> Option<Moment> {
    match t {
        TimeView::Date(_) => local,
        TimeView::Floating(_) => local,
        TimeView::Utc(s) => Some(utc_moment(s)),
        TimeView::Zoned(s, tzid) => zoned_moment(tzid, s),
    }
}

/// The bounds of an event, and whether it is of whole days. `a` and `b` are the
/// moments of what the local clock shows at the start and at the end. Without an
/// end, an event with a time ends when it starts.
pub open spec fn resolved(
    start: TimeView,
    end: Option<TimeView>,
    a: Option<Moment>,
    b: Option<Moment>,
) -> Option<(Moment, Moment, bool)> {
    let first = moment_of(start, a);
    let last = match (start, end) {
        (TimeView::Date(day), Some(TimeView::Date(_))) => b,
        (TimeView::Date(day), _) => if day < date::MAX_DAY {
            b
        } else {
            None
        },
        (_, Some(t)) => moment_of(t, b),
        (_, None) => first,
    };
    match (first, last) {
        (Some(first), Some(last)) => Some((first, last, start is Date)),
        _ => None,
    }
}

/// What is known of the moments of what the local clock shows.
pub open spec fn may_be_bounds(
    start: TimeView,
    end: Option<TimeView>,
    a: Option<Moment>,
    b: Option<Moment>,
) -> bool {
    &&& start_clock(start) matches Some(s) ==> may_be_local(s, a) && local_reading(s, a)
    &&& end_clock(start, end) matches Some(s) ==> may_be_local(s, b) && local_reading(s, b)
}

fn start_of(t: &DatePerhapsTime) -> (r: Option<Stamp>)
    ensures
        r == start_clock(t@),
{
    match t {
        DatePerhapsTime::Date(day) => Some(Stamp { day: *day, secs: 0, nanos: 0 }),
        DatePerhapsTime::DateTime(s, Zone::Floating) => Some(*s),
        _ => None,
    }
}

fn end_of(start: &DatePerhapsTime, end: &Option<DatePerhapsTime>) -> (r: Option<Stamp>)
    ensures
        r == end_clock(start@, opt_time(*end)),
{
    match start {
        DatePerhapsTime::Date(day) => {
            if let Some(DatePerhapsTime::Date(end_day)) = end {
                return Some(Stamp { day: *end_day, secs: 0, nanos: 0 });
            }
            if *day < date::MAX_DAY {
                Some(Stamp { day: *day + 1, secs: 0, nanos: 0 })
            } else {
                None
            }
        },
        DatePerhapsTime::DateTime(_, _) => match end {
            Some(t) => start_of(t),
            None => None,
        },
    }
}

/// The moment of a time, where `local` is the moment of what the local clock shows.
pub fn time_to_moment(t: &DatePerhapsTime, local: Option<Moment>) -> (r: Option<Moment>)
    ensures
        r == moment_of(t@, local),
{
    match t {
        DatePerhapsTime::Date(_) => local,
        DatePerhapsTime::DateTime(s, Zone::Floating) => local,
        DatePerhapsTime::DateTime(s, Zone::Utc) => Some(moment_in_utc(*s)),
        DatePerhapsTime::DateTime(s, Zone::Named(tzid)) => moment_in_zone(tzid.as_str(), *s),
    }
}

/// The bounds of an event, and whether it is of whole days, where `a` and `b` are
/// the moments of what the local clock shows at the start and at the end.
pub fn resolve_from(
    start: &DatePerhapsTime,
    end: &Option<DatePerhapsTime>,
    a: Option<Moment>,
    b: Option<Moment>,
) -> (r: Option<(Moment, Moment, bool)>)
    ensures
        r == resolved(start@, opt_time(*end), a, b),
{
    let first = match time_to_moment(start, a) {
        Some(m) => m,
        None => {
            return None;
        },
    };
    let (last, all_day) = match start {
        DatePerhapsTime::Date(_) => (
            match end_of(start, end) {
                Some(_) => b,
                None => None,
            },
            true,
        ),
        DatePerhapsTime::DateTime(_, _) => (
            match end {
                Some(t) => time_to_moment(t, b),
                None => Some(first),
            },
            false,
        ),
    };
    match last {
        Some(m) => Some((first, m, all_day)),
        None => None,
    }
}

/// What `clock` says of `s`.
fn ask<F: Fn(Stamp) -> Option<Moment>>(clock: F, s: Stamp) -> (r: Option<Moment>)
    requires
        call_requires(clock, (s,)),
    ensures
        call_ensures(clock, (s,), r),
{
    clock(s)
}

fn local_of(clock: Option<Stamp>) -> (r: Option<Moment>)
    ensures
        clock matches Some(s) ==> may_be_local(s, r) && local_reading(s, r),
        clock is None ==> r is None,
{
    match clock {
        Some(s) => ask(local_moment, s),
        None => None,
    }
}

/// Convert a VEVENT's DTSTART/DTEND into local-time bounds. For all-day
/// events we synthesize a 1-day window when DTEND is missing (per RFC 5545
/// §3.6.1: a VEVENT with DTSTART as DATE and no DTEND lasts one day).
pub fn resolve_times(start: &DatePerhapsTime, end: &Option<DatePerhapsTime>) -> (r: Option<
    (Moment, Moment, bool),
>)
    ensures
        exists|a: Option<Moment>, b: Option<Moment>|
            may_be_bounds(start@, opt_time(*end), a, b) && r == #[trigger] resolved(
                start@,
                opt_time(*end),
                a,
                b,
            ),
{
    let a = local_of(start_of(start));
    let b = local_of(end_of(start, end));
    assert(may_be_bounds(start@, opt_time(*end), a, b));
    resolve_from(start, end, a, b)
}

// ---------------------------------------------------------------------------
// Events to show
// ---------------------------------------------------------------------------

/// A concrete calendar event instance, ready to render. For all-day events
/// `start`/`end` are the local-time midnight boundaries (`end` exclusive),
/// matching how iCalendar's DATE values behave.
#[derive(Debug, Clone, PartialEq, Eq)]
pub struct CalendarEvent {
    pub uid: String,
    pub start: Moment,
    pub end: Moment,
    pub all_day: bool,
    pub summary: String,
    pub location: Option<String>,
}

/// The view of a [`CalendarEvent`].
#[verifier::ext_equal]
pub struct CalendarView {
    pub uid: Seq<char>,
    pub start: Moment,
    pub end: Moment,
    pub all_day: bool,
    pub summary: Seq<char>,
    pub location: Option<Seq<char>>,
}

impl View for CalendarEvent {
    type V = CalendarView;

    open spec fn view(&self) -> CalendarView {
        CalendarView {
            uid: self.uid@,
            start: self.start,
            end: self.end,
            all_day: self.all_day,
            summary: self.summary@,
            location: text::opt_text(self.location),
        }
    }
}

/// The views of some events.
pub open spec fn event_views(events: Seq<CalendarEvent>) -> Seq<CalendarView> {
    Seq::new(events.len(), |i: int| events[i]@)
}

/// The moments of what the local clock shows at the start and at the end of an
/// event.
pub type LocalBounds = (Option<Moment>, Option<Moment>);

/// The event to show, if its bounds can be told.
pub open spec fn instance(raw: RawView, local: LocalBounds) -> Option<CalendarView> {
    match resolved(raw.start, raw.end, local.0, local.1) {
        Some((start, end, all_day)) => Some(
            CalendarView {
                uid: raw.uid,
                start,
                end,
                all_day,
                summary: raw.summary,
                location: raw.location,
            },
        ),
        None => None,
    }
}

/// The events to show: those that neither recur nor were cancelled.
pub open spec fn instances(raws: Seq<RawView>, local: Seq<LocalBounds>) -> Seq<CalendarView>
    decreases raws.len(),
{
    if raws.len() == 0 {
        seq![]
    } else {
        let before = instances(raws.drop_last(), local);
        let raw = raws.last();
        if raw.recurs() || raw.cancelled() {
            before
        } else {
            match instance(raw, local[raws.len() - 1]) {
                Some(event) => before.push(event),
                None => before,
            }
        }
    }
}

/// What is known of the moments of what the local clock shows, for each event.
pub open spec fn may_be_bounds_of(raws: Seq<RawView>, local: Seq<LocalBounds>) -> bool {
    &&& local.len() == raws.len()
    &&& forall|i: int|
        0 <= i < raws.len() ==> may_be_bounds(
            (#[trigger] raws[i]).start,
            raws[i].end,
            local[i].0,
            local[i].1,
        )
}

fn copy_text(o: &Option<String>) -> (r: Option<String>)
    ensures
        text::opt_text(r) == text::opt_text(*o),
{
    match o {
        Some(s) => Some(s.clone()),
        None => None,
    }
}

/// The event to show, if its bounds can be told, where `local` has the moments of
/// what the local clock shows.
pub fn materialize_one(raw: &RawVevent, local: LocalBounds) -> (r: Option<CalendarEvent>)
    ensures
        match r {
            Some(event) => instance(raw@, local) == Some(event@),
            None => instance(raw@, local) is None,
        },
{
    match resolve_from(&raw.start, &raw.end, local.0, local.1) {
        Some((start, end, all_day)) => Some(
            CalendarEvent {
                uid: raw.uid.clone(),
                start,
                end,
                all_day,
                summary: raw.summary.clone(),
                location: copy_text(&raw.location),
            },
        ),
        None => None,
    }
}

/// Materialise all non-recurring events from `raws`. Cancelled VEVENTs are
/// dropped. `local` has the moments of what the local clock shows for each event.
pub fn materialize_from(raws: &[RawVevent], local: &[LocalBounds]) -> (r: Vec<CalendarEvent>)
    requires
        local@.len() == raws@.len(),
    ensures
        event_views(r@) == instances(raw_views(raws@), local@),
{
    let ghost all = raw_views(raws@);
    let mut out: Vec<CalendarEvent> = Vec::new();
    assert(event_views(out@) =~= instances(all.take(0), local@));
    let mut i: usize = 0;
    while i < raws.len()
        invariant
            i <= raws.len(),
            local@.len() == raws@.len(),
            all == raw_views(raws@),
            event_views(out@) == instances(all.take(i as int), local@),
        decreases raws.len() - i,
    {
        let ghost before = event_views(out@);
        let ghost now = all.take(i + 1);
        assert(now.drop_last() =~= all.take(i as int));
        let raw = &raws[i];
        assert(now.last() == raw@);
        if !raw.is_recurring() && !raw.is_cancelled() {
            if let Some(event) = materialize_one(raw, local[i]) {
                out.push(event);
                assert(event_views(out@) =~= before.push(event@));
            }
        }
        i += 1;
    }
    assert(all.take(i as int) =~= all);
    out
}

/// Materialise all non-recurring events from `raws`. Cancelled VEVENTs are
/// dropped. Recurring events are left to be expanded.
pub fn materialize_non_recurring(raws: &[RawVevent]) -> (r: Vec<CalendarEvent>)
    ensures
        exists|local: Seq<LocalBounds>|
            may_be_bounds_of(raw_views(raws@), local) && event_views(r@) == #[trigger] instances(
                raw_views(raws@),
                local,
            ),
{
    let ghost all = raw_views(raws@);
    let mut local: Vec<LocalBounds> = Vec::new();
    let mut i: usize = 0;
    while i < raws.len()
        invariant
            i <= raws.len(),
            all == raw_views(raws@),
            local@.len() == i,
            forall|j: int|
                0 <= j < i ==> may_be_bounds(
                    (#[trigger] all[j]).start,
                    all[j].end,
                    local@[j].0,
                    local@[j].1,
                ),
        decreases raws.len() - i,
    {
        let raw = &raws[i];
        assert(all[i as int] == raw@);
        let a = local_of(start_of(&raw.start));
        let b = local_of(end_of(&raw.start, &raw.end));
        local.push((a, b));
        i += 1;
    }
    assert(may_be_bounds_of(all, local@));
    materialize_from(raws, local.as_slice())
}

// ---------------------------------------------------------------------------
// The events of a day
// ---------------------------------------------------------------------------

/// Whether an event has a part in the time from `from` on and before `to`.
pub open spec fn overlaps(e: CalendarView, from: Moment, to: Moment) -> bool {
    is_before(e.start, to) && is_before(from, e.end)
}

/// Whether `e` is to be shown after `f`: by start, then by end.
pub open spec fn comes_after(e: CalendarView, f: CalendarView) -> bool {
    is_before(f.start, e.start) || (f.start == e.start && is_before(f.end, e.end))
}

/// `list` with `e` put in behind all that need not come after it.
pub open spec fn put_in(list: Seq<CalendarView>, e: CalendarView) -> Seq<CalendarView>
    decreases list.len(),
{
    if list.len() > 0 && comes_after(list.last(), e) {
        put_in(list.drop_last(), e).push(list.last())
    } else {
        list.push(e)
    }
}

/// The events that overlap, in order; equals stay in the order that they have.
pub open spec fn overlapping(events: Seq<CalendarView>, from: Moment, to: Moment) -> Seq<
    CalendarView,
>
    decreases events.len(),
{
    if events.len() == 0 {
        seq![]
    } else {
        let before = overlapping(events.drop_last(), from, to);
        if overlaps(events.last(), from, to) {
            put_in(before, events.last())
        } else {
            before
        }
    }
}

/// The views of some events.
pub open spec fn ref_views(events: Seq<&CalendarEvent>) -> Seq<CalendarView> {
    Seq::new(events.len(), |i: int| events[i]@)
}

proof fn lemma_put_in(list: Seq<CalendarView>, e: CalendarView, p: int)
    requires
        0 <= p <= list.len(),
        forall|i: int| p <= i < list.len() ==> comes_after(#[trigger] list[i], e),
        p > 0 ==> !comes_after(list[p - 1], e),
    ensures
        put_in(list, e) == list.insert(p, e),
    decreases list.len(),
{
    if p < list.len() {
        assert(comes_after(list[list.len() - 1], e));
        lemma_put_in(list.drop_last(), e, p);
        assert(list.drop_last().insert(p, e).push(list.last()) =~= list.insert(p, e));
    } else {
        assert(list.push(e) =~= list.insert(p, e));
    }
}

fn after(e: &CalendarEvent, f: &CalendarEvent) -> (r: bool)
    ensures
        r == comes_after(e@, f@),
{
    earlier(f.start, e.start) || (f.start == e.start && earlier(f.end, e.end))
}

/// The events that have a part in the time from `from` on and before `to`, by
/// start and then by end.
pub fn events_between<'a>(events: &'a [CalendarEvent], from: Moment, to: Moment) -> (r: Vec<
    &'a CalendarEvent,
>)
    ensures
        ref_views(r@) == overlapping(event_views(events@), from, to),
{
    let ghost all = event_views(events@);
    let mut out: Vec<&'a CalendarEvent> = Vec::new();
    assert(ref_views(out@) =~= overlapping(all.take(0), from, to));
    let mut i: usize = 0;
    while i < events.len()
        invariant
            i <= events.len(),
            all == event_views(events@),
            ref_views(out@) == overlapping(all.take(i as int), from, to),
        decreases events.len() - i,
    {
        let ghost before = ref_views(out@);
        let ghost now = all.take(i + 1);
        assert(now.drop_last() =~= all.take(i as int));
        let event = &events[i];
        assert(now.last() == event@);
        if earlier(event.start, to) && earlier(from, event.end) {
            let mut p: usize = out.len();
            while p > 0 && after(out[p - 1], event)
                invariant
                    p <= out.len(),
                    before == ref_views(out@),
                    forall|j: int| p <= j < before.len() ==> comes_after(#[trigger] before[j], event@),
                decreases p,
            {
                assert(before[p - 1] == out@[p - 1]@);
                p -= 1;
            }
            proof {
                if p > 0 {
                    assert(before[p - 1] == out@[p - 1]@);
                }
                lemma_put_in(before, event@, p as int);
            }
            out.insert(p, event);
            assert(ref_views(out@) =~= before.insert(p as int, event@));
        }
        i += 1;
    }
    assert(all.take(i as int) =~= all);
    out
}

/// The events of the day `date`, which lasts from `from` to `to`; none where one of
/// the two cannot be told, and none on the last day of the calendar.
pub fn events_of_day<'a>(
    events: &'a [CalendarEvent],
    date: Date,
    from: Option<Moment>,
    to: Option<Moment>,
) -> (r: Vec<&'a CalendarEvent>)
    ensures
        ref_views(r@) == day_view(event_views(events@), date@, from, to),
{
    let r = match (from, to) {
        (Some(from), Some(to)) if date.days() < date::MAX_DAY => events_between(events, from, to),
        _ => Vec::new(),
    };
    assert(ref_views(r@) =~= day_view(event_views(events@), date@, from, to));
    r
}

/// Filter `events` to those whose `[start, end)` interval overlaps `date` in
/// local time. Multi-day events show up on every day they cover.
pub fn events_on<'a>(events: &'a [CalendarEvent], date: Date) -> (r: Vec<&'a CalendarEvent>)
    ensures
        exists|from: Option<Moment>, to: Option<Moment>|
            {
                &&& may_be_local(midnight(date@), from)
                &&& local_reading(Stamp { day: date@, secs: 0, nanos: 0 }, from)
                &&& date@ < date::MAX_DAY ==> may_be_local(midnight((date@ + 1) as i32), to)
                    && local_reading(Stamp { day: (date@ + 1) as i32, secs: 0, nanos: 0 }, to)
                &&& ref_views(r@) == #[trigger] day_view(event_views(events@), date@, from, to)
            },
{
    events_by(local_moment, events, date)
}

/// The events of the day `date` by `clock`, which gives the moment at which it shows a
/// time: those whose `[start, end)` interval overlaps the time from this midnight on
/// to the next.
pub fn events_by<'a, F: Fn(Stamp) -> Option<Moment>>(
    clock: F,
    events: &'a [CalendarEvent],
    date: Date,
) -> (r: Vec<&'a CalendarEvent>)
    requires
        forall|s: Stamp| call_requires(clock, (s,)),
    ensures
        exists|from: Option<Moment>, to: Option<Moment>|
            {
                &&& call_ensures(clock, (Stamp { day: date@, secs: 0, nanos: 0 },), from)
                &&& date@ < date::MAX_DAY ==> call_ensures(
                    clock,
                    (Stamp { day: (date@ + 1) as i32, secs: 0, nanos: 0 },),
                    to,
                )
                &&& ref_views(r@) == #[trigger] day_view(event_views(events@), date@, from, to)
            },
{
    let day: i32 = date.days();
    let from = clock(Stamp { day, secs: 0, nanos: 0 });
    let to = match date.succ() {
        Some(next) => clock(Stamp { day: next.days(), secs: 0, nanos: 0 }),
        None => None,
    };
    events_of_day(events, date, from, to)
}

/// The events of a day that lasts from `from` to `to`; none where one of the two
/// cannot be told.
pub open spec fn day_view(
    events: Seq<CalendarView>,
    day: i32,
    from: Option<Moment>,
    to: Option<Moment>,
) -> Seq<CalendarView> {
    match (from, to) {
        (Some(from), Some(to)) => if day < date::MAX_DAY {
            overlapping(events, from, to)
        } else {
            seq![]
        },
        _ => seq![],
    }
}

/// The address of a feed: `url` without white space around it.
pub fn feed_url(url: &str) -> (r: Result<String, String>)
    ensures
        match r {
            Ok(s) => text::trimmed(url@).len() > 0 && s@ == text::trimmed(url@),
            Err(message) => text::trimmed(url@).len() == 0 && message@ == "ICS URL is empty"@,
        },
{
    let trimmed = text::trim(url);
    if trimmed.unicode_len() == 0 {
        Err("ICS URL is empty".to_owned())
    } else {
        Ok(trimmed.to_owned())
    }
}

// ---------------------------------------------------------------------------
// Laws
// ---------------------------------------------------------------------------

/// What is shown comes from the feed, and neither recurs nor was cancelled.
pub proof fn lemma_instances_come_from_feed(
    raws: Seq<RawView>,
    local: Seq<LocalBounds>,
    e: CalendarView,
)
    ensures
        instances(raws, local).contains(e) == exists|i: int|
            0 <= i < raws.len() && !(#[trigger] raws[i]).recurs() && !raws[i].cancelled()
                && instance(raws[i], local[i]) == Some(e),
    decreases raws.len(),
{
    if raws.len() > 0 {
        let init = raws.drop_last();
        let before = instances(init, local);
        let now = instances(raws, local);
        let last = raws.len() - 1;
        lemma_instances_come_from_feed(init, local, e);
        if before.contains(e) {
            let i = choose|i: int|
                0 <= i < init.len() && !(#[trigger] init[i]).recurs() && !init[i].cancelled()
                    && instance(init[i], local[i]) == Some(e);
            assert(raws[i] == init[i]);
            let k = choose|k: int| 0 <= k < before.len() && before[k] == e;
            assert(now[k] == e);
        }
        if now.contains(e) && !before.contains(e) {
            let k = choose|k: int| 0 <= k < now.len() && now[k] == e;
            if k < before.len() {
                assert(before[k] == e);
            }
            assert(raws[last] == raws.last());
        }
        if exists|i: int|
            0 <= i < raws.len() && !(#[trigger] raws[i]).recurs() && !raws[i].cancelled()
                && instance(raws[i], local[i]) == Some(e) {
            let i = choose|i: int|
                0 <= i < raws.len() && !(#[trigger] raws[i]).recurs() && !raws[i].cancelled()
                    && instance(raws[i], local[i]) == Some(e);
            if i < last {
                assert(init[i] == raws[i]);
            } else {
                assert(now[before.len() as int] == e);
            }
        }
    }
}

proof fn lemma_put_in_contains(list: Seq<CalendarView>, e: CalendarView, x: CalendarView)
    ensures
        put_in(list, e).contains(x) == (list.contains(x) || x == e),
    decreases list.len(),
{
    let now = put_in(list, e);
    if list.len() > 0 && comes_after(list.last(), e) {
        let init = list.drop_last();
        lemma_put_in_contains(init, e, x);
        let rest = put_in(init, e);
        assert(now[rest.len() as int] == list.last());
        if rest.contains(x) {
            let k = choose|k: int| 0 <= k < rest.len() && rest[k] == x;
            assert(now[k] == x);
        }
        if init.contains(x) {
            let k = choose|k: int| 0 <= k < init.len() && init[k] == x;
            assert(list[k] == x);
        }
        if now.contains(x) && x != list.last() {
            let k = choose|k: int| 0 <= k < now.len() && now[k] == x;
            assert(rest[k] == x);
        }
        if list.contains(x) && x != list.last() {
            let k = choose|k: int| 0 <= k < list.len() && list[k] == x;
            assert(init[k] == x);
        }
        assert(list[list.len() - 1] == list.last());
    } else {
        assert(now[list.len() as int] == e);
        if list.contains(x) {
            let k = choose|k: int| 0 <= k < list.len() && list[k] == x;
            assert(now[k] == x);
        }
        if now.contains(x) && x != e {
            let k = choose|k: int| 0 <= k < now.len() && now[k] == x;
            assert(list[k] == x);
        }
    }
}

/// The events shown are those that overlap, no more and no fewer.
pub proof fn lemma_overlapping_complete(
    events: Seq<CalendarView>,
    from: Moment,
    to: Moment,
    e: CalendarView,
)
    ensures
        overlapping(events, from, to).contains(e) == (events.contains(e) && overlaps(e, from, to)),
    decreases events.len(),
{
    if events.len() > 0 {
        let init = events.drop_last();
        lemma_overlapping_complete(init, from, to, e);
        lemma_put_in_contains(overlapping(init, from, to), events.last(), e);
        if init.contains(e) {
            let k = choose|k: int| 0 <= k < init.len() && init[k] == e;
            assert(events[k] == e);
        }
        if events.contains(e) && e != events.last() {
            let k = choose|k: int| 0 <= k < events.len() && events[k] == e;
            assert(init[k] == e);
        }
        assert(events[events.len() - 1] == events.last());
    }
}

/// Whether no event comes before one that it must come after.
pub open spec fn in_order(list: Seq<CalendarView>) -> bool {
    forall|i: int, j: int| 0 <= i < j < list.len() ==> !comes_after(#[trigger] list[i], #[trigger] list[j])
}

proof fn lemma_put_in_in_order(list: Seq<CalendarView>, e: CalendarView)
    requires
        in_order(list),
    ensures
        in_order(put_in(list, e)),
        forall|x: CalendarView|
            !comes_after(e, x) && (forall|i: int|
                0 <= i < list.len() ==> !comes_after(#[trigger] list[i], x)) ==> forall|i: int|
                0 <= i < put_in(list, e).len() ==> !comes_after(#[trigger] put_in(list, e)[i], x),
    decreases list.len(),
{
    let now = put_in(list, e);
    if list.len() > 0 && comes_after(list.last(), e) {
        let init = list.drop_last();
        let last = list.last();
        assert forall|i: int, j: int| 0 <= i < j < init.len() implies !comes_after(
            #[trigger] init[i],
            #[trigger] init[j],
        ) by {
            assert(!comes_after(list[i], list[j]));
        }
        lemma_put_in_in_order(init, e);
        let rest = put_in(init, e);
        assert forall|i: int| 0 <= i < init.len() implies !comes_after(#[trigger] init[i], last) by {
            assert(!comes_after(list[i], list[list.len() - 1]));
        }
        assert(!comes_after(e, last));
        assert forall|i: int, j: int| 0 <= i < j < now.len() implies !comes_after(
            #[trigger] now[i],
            #[trigger] now[j],
        ) by {
            if j == rest.len() {
                assert(!comes_after(rest[i], last));
            } else {
                assert(!comes_after(rest[i], rest[j]));
            }
        }
        assert forall|x: CalendarView|
            !comes_after(e, x) && (forall|i: int|
                0 <= i < list.len() ==> !comes_after(#[trigger] list[i], x)) implies forall|i: int|
            0 <= i < now.len() ==> !comes_after(#[trigger] now[i], x) by {
            assert forall|i: int| 0 <= i < init.len() implies !comes_after(#[trigger] init[i], x) by {
                assert(!comes_after(list[i], x));
            }
            assert(!comes_after(list[list.len() - 1], x));
            assert forall|i: int| 0 <= i < now.len() implies !comes_after(#[trigger] now[i], x) by {
                if i < rest.len() {
                    assert(!comes_after(rest[i], x));
                }
            }
        }
    } else {
        assert forall|i: int, j: int| 0 <= i < j < now.len() implies !comes_after(
            #[trigger] now[i],
            #[trigger] now[j],
        ) by {
            if j < list.len() {
                assert(!comes_after(list[i], list[j]));
            } else if i < list.len() - 1 {
                assert(!comes_after(list[i], list[list.len() - 1]));
            }
        }
        assert forall|x: CalendarView|
            !comes_after(e, x) && (forall|i: int|
                0 <= i < list.len() ==> !comes_after(#[trigger] list[i], x)) implies forall|i: int|
            0 <= i < now.len() ==> !comes_after(#[trigger] now[i], x) by {
            assert forall|i: int| 0 <= i < now.len() implies !comes_after(#[trigger] now[i], x) by {
                if i < list.len() {
                    assert(!comes_after(list[i], x));
                }
            }
        }
    }
}

/// The events of a day are in order, by start and then by end.
pub proof fn lemma_overlapping_in_order(events: Seq<CalendarView>, from: Moment, to: Moment)
    ensures
        in_order(overlapping(events, from, to)),
    decreases events.len(),
{
    if events.len() > 0 {
        lemma_overlapping_in_order(events.drop_last(), from, to);
        if overlaps(events.last(), from, to) {
            lemma_put_in_in_order(
                overlapping(events.drop_last(), from, to),
                events.last(),
            );
        }
    }
}

/// An event of whole days shows on each of them, and neither on the day of its
/// exclusive end nor outside. `clock` has the moment at which each day starts, one
/// after another.
pub proof fn lemma_shows_on_covered_days(
    e: CalendarView,
    clock: spec_fn(int) -> Moment,
    first: int,
    end: int,
    day: int,
)
    requires
        forall|i: int, j: int| i < j ==> is_before(#[trigger] clock(i), #[trigger] clock(j)),
        e.start == clock(first),
        e.end == clock(end),
        first < end,
    ensures
        overlaps(e, clock(day), clock(day + 1)) == (first <= day < end),
{
    if first <= day {
        assert(is_before(clock(first), clock(day + 1)));
    } else {
        if day + 1 < first {
            assert(is_before(clock(day + 1), clock(first)));
        }
    }
    if day < end {
        assert(is_before(clock(day), clock(end)));
    } else if end < day {
        assert(is_before(clock(end), clock(day)));
    }
}

// ---------------------------------------------------------------------------
// Laws of what a feed says
// ---------------------------------------------------------------------------

/// A component gives an event just where it is one with a start that can be read. It
/// has the properties of these names, of which the title and the id may be missing.
pub proof fn lemma_event_of_component(event: Event)
    ensures
        raws_of(seq![Some(event)]).len() == if event_times(event).contains_key("DTSTART"@) {
            1int
        } else {
            0
        },
        raws_of(seq![None]).len() == 0,
        event_times(event).contains_key("DTSTART"@) ==> {
            let raw = raws_of(seq![Some(event)])[0];
            let values = event_values(event);
            let lists = event_lists(event);
            let times = event_times(event);
            &&& raw.start == times["DTSTART"@]
            &&& raw.end is Some == times.contains_key("DTEND"@)
            &&& raw.end matches Some(t) ==> t == times["DTEND"@]
            &&& raw.recurrence_id is Some == times.contains_key("RECURRENCE-ID"@)
            &&& raw.recurrence_id matches Some(t) ==> t == times["RECURRENCE-ID"@]
            &&& values.contains_key("UID"@) ==> raw.uid == values["UID"@]
            &&& !values.contains_key("UID"@) ==> raw.uid.len() == 0
            &&& values.contains_key("SUMMARY"@) ==> raw.summary == values["SUMMARY"@]
            &&& !values.contains_key("SUMMARY"@) ==> raw.summary == "(no title)"@
            &&& raw.location is Some == (values.contains_key("LOCATION"@)
                && values["LOCATION"@].len() > 0)
            &&& raw.location matches Some(place) ==> place == values["LOCATION"@]
            &&& raw.rrule is Some == values.contains_key("RRULE"@)
            &&& raw.rrule matches Some(rule) ==> rule == values["RRULE"@]
            &&& raw.status is Some == values.contains_key("STATUS"@)
            &&& raw.status matches Some(status) ==> status == values["STATUS"@]
            &&& lists.contains_key("EXDATE"@) ==> raw.exdates == lists["EXDATE"@]
            &&& !lists.contains_key("EXDATE"@) ==> raw.exdates.len() == 0
            &&& lists.contains_key("RDATE"@) ==> forall|x: Seq<char>|
                lists["RDATE"@].contains(x) ==> #[trigger] raw.rdates.contains(x)
            &&& values.contains_key("RDATE"@) ==> raw.rdates.contains(values["RDATE"@])
        },
{
    let parts = seq![Some(event)];
    let nothing: Seq<Option<Event>> = seq![None];
    assert(parts.drop_last() =~= Seq::<Option<Event>>::empty());
    assert(nothing.drop_last() =~= Seq::<Option<Event>>::empty());
    assert(raws_of(Seq::<Option<Event>>::empty()) =~= Seq::<RawView>::empty());
    reveal_strlit("");
    if event_times(event).contains_key("DTSTART"@) {
        let raw = raws_of(parts)[0];
        let values = event_values(event);
        let lists = event_lists(event);
        assert(raw == raw_of(props_of(event))->0);
        if values.contains_key("RDATE"@) {
            assert(raw.rdates[0] == values["RDATE"@]);
        }
        if lists.contains_key("RDATE"@) {
            assert forall|x: Seq<char>| lists["RDATE"@].contains(x) implies
                #[trigger] raw.rdates.contains(x) by {
                let i = choose|i: int| 0 <= i < lists["RDATE"@].len() && lists["RDATE"@][i] == x;
                let k = if values.contains_key("RDATE"@) {
                    i + 1
                } else {
                    i
                };
                assert(raw.rdates[k] == x);
            }
        }
    }
}

/// The events of two feeds one after the other are those of the one, then those of
/// the other.
pub proof fn lemma_events_add_up(a: Seq<Option<Event>>, b: Seq<Option<Event>>)
    ensures
        raws_of(a + b) == raws_of(a) + raws_of(b),
    decreases b.len(),
{
    if b.len() == 0 {
        assert(a + b =~= a);
        assert(raws_of(b) =~= Seq::<RawView>::empty());
        assert(raws_of(a) + raws_of(b) =~= raws_of(a));
    } else {
        lemma_events_add_up(a, b.drop_last());
        assert((a + b).drop_last() =~= a + b.drop_last());
        assert((a + b).last() == b.last());
        assert(raws_of(a + b) =~= raws_of(a) + raws_of(b));
    }
}

/// An event that neither recurs nor was cancelled is shown just where its bounds can
/// be told, with its own title, place and id, and with those bounds. Any other is not
/// shown.
pub proof fn lemma_one_instance(raw: RawView, local: LocalBounds)
    ensures
        ({
            let shown = instances(seq![raw], seq![local]);
            let bounds = resolved(raw.start, raw.end, local.0, local.1);
            &&& raw.rrule is Some || raw.status == Some("CANCELLED"@) || bounds is None
                ==> shown.len() == 0
            &&& raw.rrule is None && raw.status != Some("CANCELLED"@) && bounds is Some ==> {
                &&& shown.len() == 1
                &&& shown[0].uid == raw.uid
                &&& shown[0].summary == raw.summary
                &&& shown[0].location == raw.location
                &&& (shown[0].start, shown[0].end, shown[0].all_day) == bounds->0
            }
        }),
{
    let raws = seq![raw];
    assert(raws.drop_last() =~= Seq::<RawView>::empty());
    assert(instances(Seq::<RawView>::empty(), seq![local]) =~= Seq::<CalendarView>::empty());
}

/// What is shown of two lists of events is what is shown of the one, then what is
/// shown of the other.
pub proof fn lemma_instances_add_up(
    a: Seq<RawView>,
    b: Seq<RawView>,
    x: Seq<LocalBounds>,
    y: Seq<LocalBounds>,
)
    requires
        x.len() == a.len(),
        y.len() == b.len(),
    ensures
        instances(a + b, x + y) == instances(a, x) + instances(b, y),
    decreases b.len(),
{
    if b.len() == 0 {
        assert(a + b =~= a);
        assert(x + y =~= x);
        assert(instances(b, y) =~= Seq::<CalendarView>::empty());
        assert(instances(a, x) + instances(b, y) =~= instances(a, x));
    } else {
        let init = b.drop_last();
        lemma_instances_add_up(a, init, x, y.drop_last());
        lemma_instances_local(a + init, x + y, x + y.drop_last());
        lemma_instances_local(init, y, y.drop_last());
        assert((a + b).drop_last() =~= a + init);
        assert((a + b).last() == b.last());
        assert((x + y)[(a + b).len() - 1] == y[b.len() - 1]);
        assert(instances(a + b, x + y) =~= instances(a, x) + instances(b, y));
    }
}

proof fn lemma_instances_local(raws: Seq<RawView>, x: Seq<LocalBounds>, y: Seq<LocalBounds>)
    requires
        raws.len() <= x.len(),
        raws.len() <= y.len(),
        forall|i: int| 0 <= i < raws.len() ==> #[trigger] x[i] == #[trigger] y[i],
    ensures
        instances(raws, x) == instances(raws, y),
    decreases raws.len(),
{
    if raws.len() > 0 {
        lemma_instances_local(raws.drop_last(), x, y);
        assert(x[raws.len() - 1] == y[raws.len() - 1]);
    }
}

/// The bounds of an event of whole days are what the local clock answers for two
/// midnights: that of its first day, and that of its end, which without one is the day
/// after.
pub proof fn lemma_whole_days(
    day: i32,
    end: Option<TimeView>,
    a: Option<Moment>,
    b: Option<Moment>,
)
    requires
        may_be_bounds(TimeView::Date(day), end, a, b),
        day < date::MAX_DAY,
    ensures
        local_reading(Stamp { day, secs: 0, nanos: 0 }, a),
        end matches Some(TimeView::Date(last)) ==> local_reading(
            Stamp { day: last, secs: 0, nanos: 0 },
            b,
        ),
        end is None ==> local_reading(Stamp { day: (day + 1) as i32, secs: 0, nanos: 0 }, b),
        resolved(TimeView::Date(day), end, a, b) is Some == (a is Some && b is Some),
        resolved(TimeView::Date(day), end, a, b) matches Some((first, last, all_day)) ==> a == Some(
            first,
        ) && b == Some(last) && all_day,
{
}

/// The start of an event with a time is the moment at which its clock shows it: that
/// of UTC, that of its zone, or the local one. It ends when the clock of its end shows
/// that, and without an end when it starts.
pub proof fn lemma_timed_event(
    start: TimeView,
    end: Option<TimeView>,
    a: Option<Moment>,
    b: Option<Moment>,
)
    requires
        may_be_bounds(start, end, a, b),
        start !is Date,
        end matches Some(t) ==> t !is Date,
    ensures
        start matches TimeView::Floating(s) ==> local_reading(s, a),
        end matches Some(TimeView::Floating(s)) ==> local_reading(s, b),
        resolved(start, end, a, b) matches Some((first, last, all_day)) ==> {
            &&& !all_day
            &&& start is Floating ==> a == Some(first)
            &&& start matches TimeView::Zoned(s, tzid) ==> zoned_moment(tzid, s) == Some(first)
            &&& end is None ==> last == first
            &&& end matches Some(TimeView::Floating(s)) ==> b == Some(last)
            &&& end matches Some(TimeView::Zoned(s, tzid)) ==> zoned_moment(tzid, s) == Some(last)
        },
        start is Utc && end is None ==> resolved(start, end, a, b) is Some,
        start is Floating && end is None && a is Some ==> resolved(start, end, a, b) is Some,
{
}

/// A clock on UTC shows `s` so many seconds after 1970 began, of 86,400 a day, and with
/// the same nanoseconds.
pub proof fn lemma_utc_event(s: Stamp, t: Stamp, a: Option<Moment>, b: Option<Moment>)
    ensures
        resolved(TimeView::Utc(s), Some(TimeView::Utc(t)), a, b) matches Some((first, last, all_day))
            && !all_day && first.nanos == s.nanos && last.nanos == t.nanos && first.secs == (s.day
            - 719_163) * 86_400 + s.secs && last.secs == (t.day - 719_163) * 86_400 + t.secs,
{
    assert(-0x8000_0000 * 86_400 - 719_163 * 86_400 <= (s.day - 719_163) * 86_400 <= 0x8000_0000
        * 86_400);
    assert(-0x8000_0000 * 86_400 - 719_163 * 86_400 <= (t.day - 719_163) * 86_400 <= 0x8000_0000
        * 86_400);
}

// ---------------------------------------------------------------------------
// Laws of the events of a day
// ---------------------------------------------------------------------------

/// Whether `m` is before `n`, by seconds and then by nanoseconds.
pub open spec fn sooner(m: Moment, n: Moment) -> bool {
    m.secs * 0x1_0000_0000 + m.nanos < n.secs * 0x1_0000_0000 + n.nanos
}

proof fn lemma_sooner(m: Moment, n: Moment)
    ensures
        is_before(m, n) == sooner(m, n),
{
}

proof fn lemma_put_in_counts(list: Seq<CalendarView>, e: CalendarView)
    ensures
        put_in(list, e).to_multiset() == list.to_multiset().insert(e),
    decreases list.len(),
{
    broadcast use vstd::seq_lib::group_to_multiset_ensures;

    if list.len() > 0 && comes_after(list.last(), e) {
        lemma_put_in_counts(list.drop_last(), e);
        assert(list.drop_last().push(list.last()) =~= list);
        assert(put_in(list, e).to_multiset() =~= list.to_multiset().insert(e));
    } else {
        assert(put_in(list, e) =~= list.push(e));
    }
}

/// The events of a day that lasts from `from` to `to` are just those of `events` that
/// start before the one and end after the other, each as often as it is there; and
/// they come by their start, of the same start by their end.
pub proof fn lemma_day_view(events: Seq<CalendarView>, day: i32, from: Moment, to: Moment)
    requires
        day < date::MAX_DAY,
    ensures
        day_view(events, day, Some(from), Some(to)).to_multiset() == events.filter(
            |e: CalendarView| sooner(e.start, to) && sooner(from, e.end),
        ).to_multiset(),
        forall|i: int, j: int|
            0 <= i < j < day_view(events, day, Some(from), Some(to)).len() ==> {
                let e = #[trigger] day_view(events, day, Some(from), Some(to))[i];
                let f = #[trigger] day_view(events, day, Some(from), Some(to))[j];
                sooner(e.start, f.start) || (e.start == f.start && !sooner(f.end, e.end))
            },
{
    lemma_overlapping_counts(events, from, to);
    lemma_overlapping_in_order(events, from, to);
    let list = overlapping(events, from, to);
    assert forall|i: int, j: int| 0 <= i < j < list.len() implies ({
        let e = #[trigger] list[i];
        let f = #[trigger] list[j];
        sooner(e.start, f.start) || (e.start == f.start && !sooner(f.end, e.end))
    }) by {
        assert(!comes_after(list[i], list[j]));
        lemma_sooner(list[i].start, list[j].start);
        lemma_sooner(list[j].start, list[i].start);
        lemma_sooner(list[j].end, list[i].end);
    }
}

proof fn lemma_overlapping_counts(events: Seq<CalendarView>, from: Moment, to: Moment)
    ensures
        overlapping(events, from, to).to_multiset() == events.filter(
            |e: CalendarView| sooner(e.start, to) && sooner(from, e.end),
        ).to_multiset(),
    decreases events.len(),
{
    broadcast use vstd::seq_lib::group_to_multiset_ensures;

    reveal(Seq::filter);
    let wanted = |e: CalendarView| sooner(e.start, to) && sooner(from, e.end);
    if events.len() == 0 {
        assert(events.filter(wanted) =~= Seq::<CalendarView>::empty());
        assert(overlapping(events, from, to) =~= Seq::<CalendarView>::empty());
    } else {
        let init = events.drop_last();
        let e = events.last();
        lemma_overlapping_counts(init, from, to);
        lemma_sooner(e.start, to);
        lemma_sooner(from, e.end);
        if wanted(e) {
            lemma_put_in_counts(overlapping(init, from, to), e);
            assert(events.filter(wanted) =~= init.filter(wanted).push(e));
        } else {
            assert(events.filter(wanted) =~= init.filter(wanted));
        }
    }
}

/// Where one of the two midnights has no moment, or the day is the last of the
/// calendar, nothing is shown.
pub proof fn lemma_no_day_view(
    events: Seq<CalendarView>,
    day: i32,
    from: Option<Moment>,
    to: Option<Moment>,
)
    requires
        from is None || to is None || day == date::MAX_DAY,
    ensures
        day_view(events, day, from, to).len() == 0,
{
}

/// By a clock that goes forward, a meeting that starts on a day, at whatever time, and
/// ends after its start, is shown on that day.
pub proof fn lemma_meeting_of_the_day_is_shown(
    events: Seq<CalendarView>,
    e: CalendarView,
    clock: spec_fn(Stamp) -> Moment,
    s: Stamp,
    t: Stamp,
)
    requires
        events.contains(e),
        s.day < date::MAX_DAY,
        s.secs < 86_400,
        forall|x: Stamp, y: Stamp|
            x.day < y.day || (x.day == y.day && (x.secs < y.secs || (x.secs == y.secs && x.nanos
                < y.nanos))) ==> sooner(#[trigger] clock(x), #[trigger] clock(y)),
        e.start == clock(s),
        e.end == clock(t),
        sooner(e.start, e.end),
    ensures
        day_view(
            events,
            s.day,
            Some(clock(Stamp { day: s.day, secs: 0, nanos: 0 })),
            Some(clock(Stamp { day: (s.day + 1) as i32, secs: 0, nanos: 0 })),
        ).contains(e),
{
    let first = Stamp { day: s.day, secs: 0, nanos: 0 };
    let next = Stamp { day: (s.day + 1) as i32, secs: 0, nanos: 0 };
    let from = clock(first);
    let to = clock(next);
    assert(sooner(clock(s), clock(next)));
    assert(s == first || sooner(clock(first), clock(s)));
    lemma_overlapping_complete(events, from, to, e);
    lemma_sooner(e.start, to);
    lemma_sooner(from, e.end);
}

proof fn lemma_put_in_keeps_equals(list: Seq<CalendarView>, e: CalendarView, m: Moment, n: Moment)
    ensures
        ({
            let same = |x: CalendarView| x.start == m && x.end == n;
            put_in(list, e).filter(same) == if same(e) {
                list.filter(same).push(e)
            } else {
                list.filter(same)
            }
        }),
    decreases list.len(),
{
    reveal(Seq::filter);
    let same = |x: CalendarView| x.start == m && x.end == n;
    let now = put_in(list, e);
    if list.len() > 0 && comes_after(list.last(), e) {
        let init = list.drop_last();
        lemma_put_in_keeps_equals(init, e, m, n);
        let rest = put_in(init, e);
        assert(now.drop_last() =~= rest);
        assert(now.last() == list.last());
        assert(!(same(e) && same(list.last())));
    } else {
        assert(now.drop_last() =~= list);
        assert(now.last() == e);
    }
}

/// Events of a day that start and end at the same moments stay in the order that they
/// have.
pub proof fn lemma_equals_keep_order(
    events: Seq<CalendarView>,
    day: i32,
    from: Moment,
    to: Moment,
    m: Moment,
    n: Moment,
)
    requires
        day < date::MAX_DAY,
        sooner(m, to),
        sooner(from, n),
    ensures
        day_view(events, day, Some(from), Some(to)).filter(
            |x: CalendarView| x.start == m && x.end == n,
        ) == events.filter(|x: CalendarView| x.start == m && x.end == n),
    decreases events.len(),
{
    reveal(Seq::filter);
    let same = |x: CalendarView| x.start == m && x.end == n;
    if events.len() > 0 {
        let init = events.drop_last();
        let e = events.last();
        lemma_equals_keep_order(init, day, from, to, m, n);
        lemma_sooner(e.start, to);
        lemma_sooner(from, e.end);
        lemma_put_in_keeps_equals(overlapping(init, from, to), e, m, n);
    } else {
        assert(overlapping(events, from, to) =~= Seq::<CalendarView>::empty());
        assert(events =~= Seq::<CalendarView>::empty());
    }
}

/// What [`events_on`] returns goes by what the local clock answers for the midnight at
/// the start of the day and for the next: just the events that start before the one and
/// end after the other, each as often as it is there.
pub proof fn lemma_events_on<'a>(
    events: &'a [CalendarEvent],
    date: Date,
    r: Vec<&'a CalendarEvent>,
)
    requires
        call_ensures(events_on, (events, date), r),
        date@ < date::MAX_DAY,
    ensures
        exists|from: Option<Moment>, to: Option<Moment>|
            {
                &&& #[trigger] local_reading(Stamp { day: date@, secs: 0, nanos: 0 }, from)
                &&& #[trigger] local_reading(
                    Stamp { day: (date@ + 1) as i32, secs: 0, nanos: 0 },
                    to,
                )
                &&& from is None || to is None ==> r@.len() == 0
                &&& from is Some && to is Some ==> ref_views(r@).to_multiset() == event_views(
                    events@,
                ).filter(
                    |e: CalendarView| sooner(e.start, to->0) && sooner(from->0, e.end),
                ).to_multiset()
            },
{
    let (from, to) = choose|from: Option<Moment>, to: Option<Moment>|
        {
            &&& may_be_local(midnight(date@), from)
            &&& local_reading(Stamp { day: date@, secs: 0, nanos: 0 }, from)
            &&& date@ < date::MAX_DAY ==> may_be_local(midnight((date@ + 1) as i32), to)
                && local_reading(Stamp { day: (date@ + 1) as i32, secs: 0, nanos: 0 }, to)
            &&& ref_views(r@) == #[trigger] day_view(event_views(events@), date@, from, to)
        };
    assert(ref_views(r@).len() == r@.len());
    if from is Some && to is Some {
        lemma_day_view(event_views(events@), date@, from->0, to->0);
    }
    assert(local_reading(Stamp { day: date@, secs: 0, nanos: 0 }, from));
    assert(local_reading(Stamp { day: (date@ + 1) as i32, secs: 0, nanos: 0 }, to));
}

/// Whether the local clock goes forward: asked for a later time it answers with a later
/// moment, and asked again with the same.
pub open spec fn clock_goes_forward() -> bool {
    forall|x: Stamp, y: Stamp, m: Moment, n: Moment| #[trigger]
        local_reading(x, Some(m)) && #[trigger] local_reading(y, Some(n)) ==> {
            &&& x == y ==> m == n
            &&& x.day < y.day || (x.day == y.day && (x.secs < y.secs || (x.secs == y.secs && x.nanos
                < y.nanos))) ==> sooner(m, n)
        }
}

/// An event whose start is some time of the local clock on a day, and which ends after
/// its start, is among what [`events_on`] returns for that day, where the clock goes
/// forward and both midnights have a moment.
pub proof fn lemma_event_on_its_day<'a>(
    events: &'a [CalendarEvent],
    date: Date,
    r: Vec<&'a CalendarEvent>,
    e: CalendarView,
    s: Stamp,
)
    requires
        call_ensures(events_on, (events, date), r),
        date@ < date::MAX_DAY,
        clock_goes_forward(),
        !local_reading(Stamp { day: date@, secs: 0, nanos: 0 }, None),
        !local_reading(Stamp { day: (date@ + 1) as i32, secs: 0, nanos: 0 }, None),
        event_views(events@).contains(e),
        s.day == date@,
        local_reading(s, Some(e.start)),
        sooner(e.start, e.end),
    ensures
        ref_views(r@).contains(e),
{
    let first = Stamp { day: date@, secs: 0, nanos: 0 };
    let next = Stamp { day: (date@ + 1) as i32, secs: 0, nanos: 0 };
    let (from, to) = choose|from: Option<Moment>, to: Option<Moment>|
        {
            &&& may_be_local(midnight(date@), from)
            &&& local_reading(Stamp { day: date@, secs: 0, nanos: 0 }, from)
            &&& date@ < date::MAX_DAY ==> may_be_local(midnight((date@ + 1) as i32), to)
                && local_reading(Stamp { day: (date@ + 1) as i32, secs: 0, nanos: 0 }, to)
            &&& ref_views(r@) == #[trigger] day_view(event_views(events@), date@, from, to)
        };
    assert(from == Some(from->0) && to == Some(to->0));
    assert(local_reading(first, Some(from->0)));
    assert(local_reading(next, Some(to->0)));
    assert(sooner(e.start, to->0));
    assert(!sooner(e.start, from->0));
    lemma_overlapping_complete(event_views(events@), from->0, to->0, e);
    lemma_sooner(e.start, to->0);
    lemma_sooner(from->0, e.end);
}

/// Where start and end are of different kinds, each goes by its own clock: a timed event
/// may end with a day, whose midnight then counts, and an event of whole days with an end
/// that is no day lasts one day. On the last day of the calendar such an event has no end.
pub proof fn lemma_mixed_bounds(
    start: TimeView,
    end: TimeView,
    day: i32,
    a: Option<Moment>,
    b: Option<Moment>,
)
    requires
        start !is Date,
        end !is Date,
    ensures
        may_be_bounds(start, Some(TimeView::Date(day)), a, b) ==> local_reading(
            Stamp { day, secs: 0, nanos: 0 },
            b,
        ),
        resolved(start, Some(TimeView::Date(day)), a, b) matches Some((first, last, all_day))
            ==> b == Some(last) && !all_day,
        day < date::MAX_DAY && may_be_bounds(TimeView::Date(day), Some(end), a, b)
            ==> local_reading(Stamp { day: (day + 1) as i32, secs: 0, nanos: 0 }, b),
        day < date::MAX_DAY ==> resolved(TimeView::Date(day), Some(end), a, b) == resolved(
            TimeView::Date(day),
            None,
            a,
            b,
        ),
        resolved(TimeView::Date(date::MAX_DAY), Some(end), a, b) is None,
        resolved(TimeView::Date(date::MAX_DAY), None, a, b) is None,
{
}

/// The bounds of a timed event can be told just where both of its times have a moment.
pub proof fn lemma_bounds_told(
    s: Stamp,
    t: Stamp,
    zone: Seq<char>,
    end: Option<TimeView>,
    a: Option<Moment>,
    b: Option<Moment>,
)
    requires
        end is None || end == Some(TimeView::Floating(t)) || end == Some(TimeView::Utc(t)) || end
            == Some(TimeView::Zoned(t, zone)),
    ensures
        ({
            let ends = match end {
                Some(TimeView::Floating(_)) => b is Some,
                Some(TimeView::Zoned(_, _)) => zoned_moment(zone, t) is Some,
                _ => true,
            };
            &&& resolved(TimeView::Utc(s), end, a, b) is Some == ends
            &&& resolved(TimeView::Floating(s), end, a, b) is Some == (a is Some && ends)
            &&& resolved(TimeView::Zoned(s, zone), end, a, b) is Some == (zoned_moment(
                zone,
                s,
            ) is Some && ends)
        }),
{
}

/// The extra dates of an event are the one that stands alone, then the others.
pub proof fn lemma_extra_dates(p: PropsView)
    requires
        p.start is Some,
    ensures
        raw_of(p) is Some,
        p.rdate is None ==> raw_of(p)->0.rdates == p.rdates,
        p.rdate matches Some(value) ==> raw_of(p)->0.rdates == seq![value] + p.rdates,
        raw_of(p)->0.exdates == p.exdates,
{
}

} // verus!
