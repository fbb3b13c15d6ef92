//! The today screen: what was done yesterday and what is planned for today.

use crate::area;
use crate::area::{Area, Motion, Text};
use crate::date;
use crate::date::Date;
use crate::key::{KeyCode, KeyEvent};
use crate::storage;
use crate::storage::{EntryView, Store};
use crate::style;
use crate::style::{Colour, Line, Span, SpanView, Style};
use crate::text;
use vstd::prelude::*;

verus! {

/// The pane that keys go to.
#[derive(Debug, Clone, Copy, PartialEq, Eq, Structural)]
pub enum Pane {
    Did,
    Planning,
}

/// The today screen.
pub struct App<'a> {
    store: Store,
    today: Date,
    yesterday: Date,
    yesterday_planning: Vec<String>,
    did_buf: Area<'a>,
    planning_buf: Area<'a>,
    focus: Pane,
    quit: bool,
}

/// The view of an [`App`].
#[verifier::ext_equal]
pub struct AppView {
    pub store: Map<i32, EntryView>,
    pub today: i32,
    pub yesterday: i32,
    pub yesterday_planning: Seq<Seq<char>>,
    pub did: Text,
    pub planning: Text,
    pub focus: Pane,
    pub quit: bool,
}

impl<'a> View for App<'a> {
    type V = AppView;

    closed spec fn view(&self) -> AppView {
        AppView {
            store: self.store@,
            today: self.today@,
            yesterday: self.yesterday@,
            yesterday_planning: text::texts(self.yesterday_planning@),
            did: area::text_of(self.did_buf),
            planning: area::text_of(self.planning_buf),
            focus: self.focus,
            quit: self.quit,
        }
    }
}

// ---------------------------------------------------------------------------
// The log on the screen and back
// ---------------------------------------------------------------------------

/// `lines` with the cursor at the end.
pub open spec fn opened(lines: Seq<Seq<char>>) -> Text {
    Text::fresh(lines).moved(Motion::Bottom).moved(Motion::End)
}

/// The did of a day to start with: as recorded, else what was planned as a draft.
pub open spec fn draft(e: EntryView) -> Seq<Seq<char>> {
    if e.did.len() == 0 {
        e.planning
    } else {
        e.did
    }
}

/// The screen of day `today`.
pub open spec fn screen(m: Map<i32, EntryView>, today: i32) -> AppView {
    let yesterday = (today - storage::days_back(today as int)) as i32;
    AppView {
        store: m,
        today,
        yesterday,
        yesterday_planning: storage::entry_of(m, yesterday).planning,
        did: opened(draft(storage::entry_of(m, yesterday))),
        planning: opened(storage::entry_of(m, today).planning),
        focus: Pane::Did,
        quit: false,
    }
}

/// The lines with any text, trimmed.
pub open spec fn bullets_in(lines: Seq<Seq<char>>) -> Seq<Seq<char>>
    decreases lines.len(),
{
    if lines.len() == 0 {
        seq![]
    } else {
        let before = bullets_in(lines.drop_last());
        let bullet = text::trimmed(lines.last());
        if bullet.len() > 0 {
            before.push(bullet)
        } else {
            before
        }
    }
}

/// With `did` as what was done on a day. An entry is made only where there is
/// something to record.
pub open spec fn with_did(m: Map<i32, EntryView>, day: i32, did: Seq<Seq<char>>) -> Map<
    i32,
    EntryView,
> {
    if did.len() == 0 && !m.contains_key(day) {
        m
    } else {
        m.insert(day, EntryView { did, ..storage::entry_of(m, day) })
    }
}

/// With `planning` as what is planned for a day. An entry is made only where
/// there is something to record.
pub open spec fn with_planning(m: Map<i32, EntryView>, day: i32, planning: Seq<Seq<char>>) -> Map<
    i32,
    EntryView,
> {
    if planning.len() == 0 && !m.contains_key(day) {
        m
    } else {
        m.insert(day, EntryView { planning, ..storage::entry_of(m, day) })
    }
}

/// Whether `k` leaves the screen.
pub open spec fn is_quit(k: KeyEvent) -> bool {
    k.code == KeyCode::Char('q') && k.modifiers.control
}

/// Whether `k` goes to the other pane.
pub open spec fn is_switch(k: KeyEvent) -> bool {
    k.code == KeyCode::Tab && k.modifiers.empty()
}

/// Whether `k` deletes a word.
pub open spec fn is_word_delete(k: KeyEvent) -> bool {
    k.code == KeyCode::Backspace && k.modifiers.control
}

impl AppView {
    /// The log with what is on the screen.
    pub open spec fn persisted(self) -> Map<i32, EntryView> {
        with_planning(
            with_did(self.store, self.yesterday, bullets_in(self.did.lines)),
            self.today,
            bullets_in(self.planning.lines),
        )
    }

    /// The text that keys go to.
    pub open spec fn focused(self) -> Text {
        match self.focus {
            Pane::Did => self.did,
            Pane::Planning => self.planning,
        }
    }

    /// With another text in the pane that keys go to.
    pub open spec fn with_focused(self, t: Text) -> AppView {
        match self.focus {
            Pane::Did => AppView { did: t, ..self },
            Pane::Planning => AppView { planning: t, ..self },
        }
    }

    /// With a pane on the screen with so many columns and rows of text, if it is
    /// not too large for that.
    pub open spec fn shown(self, pane: Pane, width: u16, height: u16) -> AppView {
        match pane {
            Pane::Did => if area::can_show(self.did, width, height) {
                AppView { did: self.did.shown(width, height), ..self }
            } else {
                self
            },
            Pane::Planning => if area::can_show(self.planning, width, height) {
                AppView { planning: self.planning.shown(width, height), ..self }
            } else {
                self
            },
        }
    }

    /// Whether `after` is what `k` makes of the screen.
    pub open spec fn steps_to(self, k: KeyEvent, after: AppView) -> bool {
        if is_quit(k) {
            after == AppView { quit: true, ..self }
        } else if is_switch(k) {
            after == AppView {
                focus: match self.focus {
                    Pane::Did => Pane::Planning,
                    Pane::Planning => Pane::Did,
                },
                ..self
            }
        } else if is_word_delete(k) {
            after == self.with_focused(self.focused().word_deleted())
        } else {
            &&& area::typed(self.focused(), k, after.focused())
            &&& after == self.with_focused(after.focused())
        }
    }
}

/// An area with `lines` and the cursor at the end.
pub fn make_textarea<'a>(lines: Vec<String>) -> (r: Area<'a>)
    ensures
        area::text_of(r) == opened(text::texts(lines@)),
{
    let mut buf = Area::new(lines);
    area::move_cursor(&mut buf, Motion::Bottom);
    area::move_cursor(&mut buf, Motion::End);
    buf
}

/// The lines with any text, trimmed.
pub fn collect_bullets(lines: &[String]) -> (r: Vec<String>)
    ensures
        text::texts(r@) == bullets_in(text::texts(lines@)),
{
    let ghost all = text::texts(lines@);
    let mut out: Vec<String> = Vec::new();
    assert(text::texts(out@) =~= bullets_in(all.take(0)));
    let mut i: usize = 0;
    while i < lines.len()
        invariant
            i <= lines.len(),
            all == text::texts(lines@),
            text::texts(out@) == bullets_in(all.take(i as int)),
        decreases lines.len() - i,
    {
        let ghost before = text::texts(out@);
        let ghost now = all.take(i + 1);
        assert(now.drop_last() =~= all.take(i as int));
        assert(now.last() == lines@[i as int]@);
        let bullet = text::trim(lines[i].as_str());
        if bullet.unicode_len() > 0 {
            out.push(bullet.to_owned());
            assert(text::texts(out@) =~= before.push(bullet@));
        }
        i += 1;
    }
    assert(all.take(i as int) =~= all);
    out
}

fn lines_on(store: &Store, date: Date, of_did: bool) -> (r: Vec<String>)
    ensures
        text::texts(r@) == if of_did {
            storage::entry_of(store@, date@).did
        } else {
            storage::entry_of(store@, date@).planning
        },
{
    match store.get(date) {
        Some(e) => {
            if of_did {
                text::copy_lines(e.did.as_slice())
            } else {
                text::copy_lines(e.planning.as_slice())
            }
        },
        None => {
            let none: Vec<String> = Vec::new();
            assert(text::texts(none@) =~= Seq::<Seq<char>>::empty());
            none
        },
    }
}

impl<'a> App<'a> {
    /// The days of the log are days of the calendar.
    pub closed spec fn wf(self) -> bool {
        self.store.wf()
    }

    /// The screen of `today`, with the log as `store` has it.
    pub fn new(store: Store, today: Date) -> (r: Self)
        requires
            store.wf(),
            date::is_day(today@ - storage::days_back(today@ as int)),
        ensures
            r@ == screen(store@, today@),
            r.wf(),
    {
        let yesterday = storage::previous_workday(today);
        let yesterday_planning = lines_on(&store, yesterday, false);
        // Yesterday's `did`: use existing did, else fall back to its planning as a draft prompt.
        let mut did_lines = lines_on(&store, yesterday, true);
        if did_lines.len() == 0 {
            assert(text::texts(did_lines@).len() == 0);
            did_lines = lines_on(&store, yesterday, false);
        } else {
            assert(text::texts(did_lines@).len() > 0);
        }
        let planning_lines = lines_on(&store, today, false);
        let did_buf = make_textarea(did_lines);
        let planning_buf = make_textarea(planning_lines);
        App {
            store,
            today,
            yesterday,
            yesterday_planning,
            did_buf,
            planning_buf,
            focus: Pane::Did,
            quit: false,
        }
    }

    /// Deals with a key.
    pub fn handle_key(&mut self, k: KeyEvent)
        ensures
            old(self)@.steps_to(k, final(self)@),
            old(self).wf() ==> final(self).wf(),
    {
        // Quit: Ctrl-Q only for now (q is reserved for vim-normal-mode later).
        if k.is_char('q') && k.modifiers.control {
            self.quit = true;
            return;
        }
        if k.code == KeyCode::Tab && k.modifiers.is_empty() {
            self.focus = match self.focus {
                Pane::Did => Pane::Planning,
                Pane::Planning => Pane::Did,
            };
            return;
        }
        // Ctrl+Backspace → delete previous word; everything else goes to the
        // focused buffer.
        let word = k.code == KeyCode::Backspace && k.modifiers.control;
        match self.focus {
            Pane::Did => {
                if word {
                    area::delete_word(&mut self.did_buf);
                } else {
                    area::press(&mut self.did_buf, k);
                }
            },
            Pane::Planning => {
                if word {
                    area::delete_word(&mut self.planning_buf);
                } else {
                    area::press(&mut self.planning_buf, k);
                }
            },
        }
    }

    /// Says that a pane is on the screen with so many columns and rows of text,
    /// which keys that scroll go by.
    pub fn show(&mut self, pane: Pane, width: u16, height: u16)
        ensures
            final(self)@ == old(self)@.shown(pane, width, height),
            old(self).wf() ==> final(self).wf(),
    {
        match pane {
            Pane::Did => self.did_buf.show(width, height),
            Pane::Planning => self.planning_buf.show(width, height),
        }
    }

    /// Puts what is on the screen into the log.
    pub fn persist(&mut self)
        requires
            old(self).wf(),
        ensures
            final(self)@ == (AppView { store: old(self)@.persisted(), ..old(self)@ }),
            final(self).wf(),
    {
        let did = collect_bullets(area::lines_of(&self.did_buf));
        let planning = collect_bullets(area::lines_of(&self.planning_buf));
        assert(text::texts(did@).len() == did@.len());
        assert(text::texts(planning@).len() == planning@.len());
        record_did(&mut self.store, self.yesterday, did);
        record_planning(&mut self.store, self.today, planning);
    }
}

/// Sets what was done on `date`; only inserts an entry if there is something.
pub fn record_did(store: &mut Store, date: Date, did: Vec<String>)
    requires
        old(store).wf(),
    ensures
        final(store)@ == with_did(old(store)@, date@, text::texts(did@)),
        final(store).wf(),
{
    let ghost before = *store;
    let ghost list = text::texts(did@);
    if did.len() == 0 {
        if let Some(e) = storage::entry_at(&mut store.entries, date.days()) {
            e.did.clear();
        }
        proof {
            assert(list =~= Seq::<Seq<char>>::empty());
            if before@.contains_key(date@) {
                assert(text::texts(store.entries@[date@].did@) =~= list);
                assert(store@ =~= with_did(before@, date@, list));
            }
        }
    } else {
        store.entry_mut(date).did = did;
        assert(store@ =~= with_did(before@, date@, list));
    }
}

/// Sets what is planned for `date`; only inserts an entry if there is something.
pub fn record_planning(store: &mut Store, date: Date, planning: Vec<String>)
    requires
        old(store).wf(),
    ensures
        final(store)@ == with_planning(old(store)@, date@, text::texts(planning@)),
        final(store).wf(),
{
    let ghost before = *store;
    let ghost list = text::texts(planning@);
    if planning.len() == 0 {
        if let Some(e) = storage::entry_at(&mut store.entries, date.days()) {
            e.planning.clear();
        }
        proof {
            assert(list =~= Seq::<Seq<char>>::empty());
            if before@.contains_key(date@) {
                assert(text::texts(store.entries@[date@].planning@) =~= list);
                assert(store@ =~= with_planning(before@, date@, list));
            }
        }
    } else {
        store.entry_mut(date).planning = planning;
        assert(store@ =~= with_planning(before@, date@, list));
    }
}

// ---------------------------------------------------------------------------
// What is shown
// ---------------------------------------------------------------------------

fn dated(head: &str, day: Date, tail: &str) -> (r: String)
    ensures
        r@ == head@ + date::day_iso(day@) + tail@,
{
    let mut out = style::concat(head, day.iso().as_str());
    out.append(tail);
    out
}

/// The rows of yesterday's planning: a bullet per item, or that there is none.
pub open spec fn reference_rows(items: Seq<Seq<char>>) -> Seq<Seq<SpanView>> {
    if items.len() == 0 {
        seq![seq![style::span_of("(no planning recorded)"@, Style::coloured(Colour::DarkGray))]]
    } else {
        Seq::new(items.len(), |i: int| seq![style::raw_span("- "@ + items[i])])
    }
}

impl<'a> App<'a> {
    /// Whether to leave.
    pub fn should_quit(&self) -> (r: bool)
        ensures
            r == self@.quit,
    {
        self.quit
    }

    /// The pane that keys go to.
    pub fn focus(&self) -> (r: Pane)
        ensures
            r == self@.focus,
    {
        self.focus
    }

    /// The log.
    pub fn store(&self) -> (r: &Store)
        ensures
            r@ == self@.store,
            self.wf() ==> r.wf(),
    {
        &self.store
    }

    /// The lines of a pane.
    pub fn lines(&self, pane: Pane) -> (r: &[String])
        ensures
            text::texts(r@) == match pane {
                Pane::Did => self@.did.lines,
                Pane::Planning => self@.planning.lines,
            },
    {
        match pane {
            Pane::Did => area::lines_of(&self.did_buf),
            Pane::Planning => area::lines_of(&self.planning_buf),
        }
    }

    /// The place of the cursor of a pane.
    pub fn cursor(&self, pane: Pane) -> (r: (usize, usize))
        ensures
            (r.0 as int, r.1 as int) == match pane {
                Pane::Did => (self@.did.row, self@.did.col),
                Pane::Planning => (self@.planning.row, self@.planning.col),
            },
    {
        match pane {
            Pane::Did => area::cursor_of(&self.did_buf),
            Pane::Planning => area::cursor_of(&self.planning_buf),
        }
    }

    /// Where the selection of a pane starts and ends, if there is one.
    pub fn selection(&self, pane: Pane) -> (r: Option<((usize, usize), (usize, usize))>)
        ensures
            ({
                let t = match pane {
                    Pane::Did => self@.did,
                    Pane::Planning => self@.planning,
                };
                &&& r is Some == t.mark is Some
                &&& r matches Some((start, end)) ==> t.range() == (
                    area::place_of(start),
                    area::place_of(end),
                )
            }),
    {
        match pane {
            Pane::Did => area::selection_of(&self.did_buf),
            Pane::Planning => area::selection_of(&self.planning_buf),
        }
    }

    /// The title of a pane.
    pub fn title(&self, pane: Pane) -> (r: String)
        ensures
            r@ == match pane {
                Pane::Did => " Yesterday ("@ + date::day_iso(self@.yesterday)
                    + ") — what I did "@,
                Pane::Planning => " Today ("@ + date::day_iso(self@.today) + ") — planning "@,
            },
    {
        match pane {
            Pane::Did => dated(" Yesterday (", self.yesterday, ") — what I did "),
            Pane::Planning => dated(" Today (", self.today, ") — planning "),
        }
    }

    /// The colour of the border of a pane.
    pub fn border(&self, pane: Pane) -> (r: Colour)
        ensures
            r == if pane == self@.focus {
                Colour::Yellow
            } else {
                Colour::DarkGray
            },
    {
        if pane == self.focus {
            Colour::Yellow
        } else {
            Colour::DarkGray
        }
    }

    /// The title of the pane with yesterday's planning.
    pub fn reference_title(&self) -> (r: String)
        ensures
            r@ == " Yesterday ("@ + date::day_iso(self@.yesterday) + ") — planning (ref) "@,
    {
        dated(" Yesterday (", self.yesterday, ") — planning (ref) ")
    }

    /// The line at the top of the screen.
    pub fn header(&self) -> (r: String)
        ensures
            r@ == " standup — "@ + date::day_iso(self@.today) + " "@,
    {
        dated(" standup — ", self.today, " ")
    }

    /// The line at the bottom of the screen.
    pub fn status(&self) -> (r: &'static str)
        ensures
            r@ == " Tab: switch pane    Ctrl-Q: quit (saves) "@,
    {
        " Tab: switch pane    Ctrl-Q: quit (saves) "
    }

    /// Yesterday's planning: a bullet per item, or that there is none.
    pub fn reference(&self) -> (r: Vec<Line>)
        ensures
            style::lines_view(r@) == reference_rows(self@.yesterday_planning),
    {
        let items = self.yesterday_planning.as_slice();
        let ghost all = text::texts(items@);
        let mut out: Vec<Line> = Vec::new();
        assert(style::lines_view(out@) =~= Seq::<Seq<SpanView>>::empty());
        if items.len() == 0 {
            style::add_line(
                &mut out,
                Line::of(Span::styled("(no planning recorded)", Style::colour(Colour::DarkGray))),
            );
            assert(style::lines_view(out@) =~= reference_rows(all));
            return out;
        }
        let mut i: usize = 0;
        while i < items.len()
            invariant
                i <= items.len(),
                items@.len() > 0,
                all == text::texts(items@),
                style::lines_view(out@) == reference_rows(all).take(i as int),
            decreases items.len() - i,
        {
            let line = Line::of(Span::raw(style::concat("- ", items[i].as_str()).as_str()));
            assert(reference_rows(all)[i as int] =~= line@);
            style::add_line(&mut out, line);
            assert(reference_rows(all).take(i + 1) =~= reference_rows(all).take(i as int).push(
                line@,
            ));
            i += 1;
        }
        assert(reference_rows(all).take(i as int) =~= reference_rows(all));
        out
    }
}

// ---------------------------------------------------------------------------
// Laws
// ---------------------------------------------------------------------------

/// The screen opens with the cursors in the texts, at their ends.
pub proof fn lemma_opens_in_text(lines: Seq<Seq<char>>)
    ensures
        opened(lines).valid(),
        opened(lines).row == opened(lines).lines.len() - 1,
        opened(lines).col == opened(lines).lines.last().len(),
{
    let t = Text::fresh(lines);
    area::lemma_target_in_text(t, Motion::Bottom);
    area::lemma_target_in_text(t.moved(Motion::Bottom), Motion::End);
}

/// No key leads out of the texts, and only the pane that has the focus changes.
pub proof fn lemma_stays_in_text(s: AppView, k: KeyEvent, after: AppView)
    requires
        s.did.valid(),
        s.planning.valid(),
        s.steps_to(k, after),
    ensures
        after.did.valid(),
        after.planning.valid(),
        s.focus == Pane::Did ==> after.planning == s.planning,
        s.focus == Pane::Planning ==> after.did == s.did,
        after.store == s.store,
{
    area::lemma_edits_stay_in_text(s.focused(), seq![]);
    if !is_quit(k) && !is_switch(k) && !is_word_delete(k) {
        area::lemma_typing_stays_in_text(s.focused(), k, after.focused());
    }
}

/// Bullets are trimmed, and none is empty.
pub proof fn lemma_bullets_clean(lines: Seq<Seq<char>>, i: int)
    requires
        0 <= i < bullets_in(lines).len(),
    ensures
        bullets_in(lines)[i].len() > 0,
        text::trimmed(bullets_in(lines)[i]) == bullets_in(lines)[i],
    decreases lines.len(),
{
    let before = bullets_in(lines.drop_last());
    if i < before.len() {
        lemma_bullets_clean(lines.drop_last(), i);
    } else {
        text::lemma_trimmed(lines.last());
    }
}

proof fn lemma_bullets_of_clean(list: Seq<Seq<char>>)
    requires
        forall|i: int|
            0 <= i < list.len() ==> #[trigger] list[i].len() > 0 && text::trimmed(list[i])
                == list[i],
    ensures
        bullets_in(list) == list,
    decreases list.len(),
{
    if list.len() > 0 {
        let before = list.drop_last();
        assert forall|i: int| 0 <= i < before.len() implies #[trigger] before[i].len() > 0
            && text::trimmed(before[i]) == before[i] by {
            assert(list[i].len() > 0);
        }
        lemma_bullets_of_clean(before);
        assert(list.last() == list[list.len() - 1]);
        assert(before.push(list.last()) =~= list);
    }
}

/// The bullets of bullets are the bullets.
pub proof fn lemma_bullets_again(lines: Seq<Seq<char>>)
    ensures
        bullets_in(bullets_in(lines)) == bullets_in(lines),
{
    let list = bullets_in(lines);
    assert forall|i: int| 0 <= i < list.len() implies #[trigger] list[i].len() > 0 && text::trimmed(
        list[i],
    ) == list[i] by {
        lemma_bullets_clean(lines, i);
    }
    lemma_bullets_of_clean(list);
}

/// Saving changes what was done yesterday and what is planned for today, and
/// nothing else: neither yesterday's planning nor today's did nor another day.
pub proof fn lemma_persist_changes_two_lists(s: AppView, day: i32)
    requires
        s.yesterday != s.today,
    ensures
        storage::entry_of(s.persisted(), day) == (EntryView {
            did: if day == s.yesterday {
                bullets_in(s.did.lines)
            } else {
                storage::entry_of(s.store, day).did
            },
            planning: if day == s.today {
                bullets_in(s.planning.lines)
            } else {
                storage::entry_of(s.store, day).planning
            },
        }),
        day != s.yesterday && day != s.today ==> s.persisted().contains_key(day)
            == s.store.contains_key(day),
{
    let did = bullets_in(s.did.lines);
    let planning = bullets_in(s.planning.lines);
    if did.len() == 0 {
        assert(did =~= Seq::<Seq<char>>::empty());
    }
    if planning.len() == 0 {
        assert(planning =~= Seq::<Seq<char>>::empty());
    }
    assert(storage::entry_of(s.persisted(), day) =~= (EntryView {
        did: if day == s.yesterday {
            did
        } else {
            storage::entry_of(s.store, day).did
        },
        planning: if day == s.today {
            planning
        } else {
            storage::entry_of(s.store, day).planning
        },
    }));
}

/// Saving does not make entries for days with nothing to record.
pub proof fn lemma_persist_makes_no_blank_entry(s: AppView, day: i32)
    requires
        s.persisted().contains_key(day),
        !s.store.contains_key(day),
    ensures
        !s.persisted()[day].is_blank(),
{
}

/// What was saved is on the screen when it is opened again: what is planned, and
/// what was done unless that is empty.
pub proof fn lemma_reopen_after_persist(s: AppView)
    requires
        s.yesterday == s.today - storage::days_back(s.today as int),
    ensures
        screen(s.persisted(), s.today).planning == opened(bullets_in(s.planning.lines)),
        bullets_in(s.did.lines).len() > 0 ==> screen(s.persisted(), s.today).did == opened(
            bullets_in(s.did.lines),
        ),
{
    storage::lemma_previous_workday(s.today as int);
    lemma_persist_changes_two_lists(s, s.today);
    lemma_persist_changes_two_lists(s, s.yesterday);
}

/// Saving twice is saving once.
pub proof fn lemma_persist_twice(s: AppView)
    requires
        s.yesterday != s.today,
    ensures
        (AppView { store: s.persisted(), ..s }).persisted() == s.persisted(),
{
    let t = AppView { store: s.persisted(), ..s };
    let did = bullets_in(s.did.lines);
    let planning = bullets_in(s.planning.lines);
    lemma_persist_changes_two_lists(s, s.today);
    lemma_persist_changes_two_lists(s, s.yesterday);
    lemma_persist_changes_two_lists(t, s.today);
    lemma_persist_changes_two_lists(t, s.yesterday);
    assert forall|day: i32| t.persisted().contains_key(day) == s.persisted().contains_key(day) by {
        lemma_persist_changes_two_lists(t, day);
    }
    assert forall|day: i32| t.persisted().contains_key(day) implies t.persisted()[day]
        == s.persisted()[day] by {
        lemma_persist_changes_two_lists(t, day);
        lemma_persist_changes_two_lists(s, day);
        assert(storage::entry_of(t.persisted(), day) == storage::entry_of(s.persisted(), day));
    }
    assert(t.persisted() =~= s.persisted());
}

// ---------------------------------------------------------------------------
// Laws of what is on the screen and what is saved
// ---------------------------------------------------------------------------

/// The bullets of lines one below the other are those of the one part, then those of the
/// other. A line gives one bullet, itself trimmed, just where anything but white space is
/// in it, whatever it starts with; so no such line is lost.
pub proof fn lemma_every_line_is_kept(a: Seq<Seq<char>>, b: Seq<Seq<char>>, line: Seq<char>)
    ensures
        bullets_in(a + b) == bullets_in(a) + bullets_in(b),
        (exists|i: int| 0 <= i < line.len() && !text::is_white(#[trigger] line[i])) ==> bullets_in(
            seq![line],
        ) == seq![text::trimmed(line)],
        (forall|i: int| 0 <= i < line.len() ==> text::is_white(#[trigger] line[i])) ==> bullets_in(
            seq![line],
        ).len() == 0,
    decreases b.len(),
{
    text::lemma_trim_takes_white(line);
    let one = seq![line];
    assert(one.drop_last() =~= Seq::<Seq<char>>::empty());
    assert(bullets_in(Seq::<Seq<char>>::empty()) =~= Seq::<Seq<char>>::empty());
    assert(Seq::<Seq<char>>::empty().push(text::trimmed(line)) =~= seq![text::trimmed(line)]);
    if b.len() == 0 {
        assert(a + b =~= a);
        assert(bullets_in(a) + bullets_in(b) =~= bullets_in(a));
    } else {
        lemma_every_line_is_kept(a, b.drop_last(), line);
        assert((a + b).drop_last() =~= a + b.drop_last());
        assert((a + b).last() == b.last());
        assert(bullets_in(a + b) =~= bullets_in(a) + bullets_in(b));
    }
}

/// How many of `lines` have anything but white space in them.
pub open spec fn written_lines(lines: Seq<Seq<char>>) -> nat
    decreases lines.len(),
{
    if lines.len() == 0 {
        0
    } else {
        written_lines(lines.drop_first()) + if exists|i: int|
            0 <= i < lines[0].len() && !text::is_white(#[trigger] lines[0][i]) {
            1nat
        } else {
            0nat
        }
    }
}

/// There are as many bullets as lines with anything but white space in them.
pub proof fn lemma_bullet_count(lines: Seq<Seq<char>>)
    ensures
        bullets_in(lines).len() == written_lines(lines),
    decreases lines.len(),
{
    if lines.len() > 0 {
        lemma_bullet_count(lines.drop_first());
        lemma_every_line_is_kept(seq![lines[0]], lines.drop_first(), lines[0]);
        assert(seq![lines[0]] + lines.drop_first() =~= lines);
    }
}

/// The screen of a day opens with what was done on the workday before, or where nothing
/// was, with what was planned for it as a draft; beside that with what was planned for it,
/// and with what is planned for the day.
pub proof fn lemma_screen_opens(m: Map<i32, EntryView>, today: i32)
    requires
        date::is_day(today - storage::days_back(today as int)),
        date::is_day(today as int),
    ensures
        ({
            let s = screen(m, today);
            let day = (today - storage::days_back(today as int)) as i32;
            let none = seq![Seq::<char>::empty()];
            &&& s.today == today && s.yesterday == day && s.store == m && !s.quit
            &&& s.focus == Pane::Did
            &&& m.contains_key(day) && m[day].did.len() > 0 ==> s.did.lines == m[day].did
            &&& m.contains_key(day) && m[day].did.len() == 0 && m[day].planning.len() > 0
                ==> s.did.lines == m[day].planning
            &&& !m.contains_key(day) ==> s.did.lines == none && s.yesterday_planning.len() == 0
            &&& m.contains_key(day) ==> s.yesterday_planning == m[day].planning
            &&& m.contains_key(today) && m[today].planning.len() > 0 ==> s.planning.lines
                == m[today].planning
            &&& !m.contains_key(today) ==> s.planning.lines == none
        }),
{
}

/// Saving records the bullets of the did pane as done on the workday before, and those of
/// the planning pane as planned for the day. What was planned for the one and done on the
/// other stays, and so does every other day.
pub proof fn lemma_save(s: AppView, day: i32)
    requires
        s.yesterday != s.today,
    ensures
        ({
            let m = s.persisted();
            let did = bullets_in(s.did.lines);
            let planning = bullets_in(s.planning.lines);
            &&& did.len() > 0 ==> m.contains_key(s.yesterday) && m[s.yesterday].did == did
            &&& planning.len() > 0 ==> m.contains_key(s.today) && m[s.today].planning == planning
            &&& did.len() == 0 && s.store.contains_key(s.yesterday) ==> m[s.yesterday].did.len() == 0
            &&& planning.len() == 0 && s.store.contains_key(s.today) ==> m[s.today].planning.len()
                == 0
            &&& s.store.contains_key(s.yesterday) ==> m.contains_key(s.yesterday)
                && m[s.yesterday].planning == s.store[s.yesterday].planning
            &&& s.store.contains_key(s.today) ==> m.contains_key(s.today) && m[s.today].did
                == s.store[s.today].did
            &&& day != s.yesterday && day != s.today ==> m.contains_key(day)
                == s.store.contains_key(day)
            &&& day != s.yesterday && day != s.today && m.contains_key(day) ==> m[day]
                == s.store[day]
        }),
{
}

/// Control and `q` leaves the screen, and no other key does. Tab goes to the other pane,
/// and no other key does. Only the text of the pane with the focus can change, and the log
/// changes by no key.
pub proof fn lemma_screen_keys(s: AppView, k: KeyEvent, after: AppView)
    requires
        s.steps_to(k, after),
    ensures
        ({
            let quits = k.code == KeyCode::Char('q') && k.modifiers.control;
            let switches = k.code == KeyCode::Tab && !k.modifiers.shift && !k.modifiers.control
                && !k.modifiers.alt && !k.modifiers.other;
            &&& after.quit == (s.quit || quits)
            &&& (after.focus == s.focus) == !switches
            &&& quits || switches ==> after.did == s.did && after.planning == s.planning
            &&& s.focus == Pane::Did ==> after.planning == s.planning
            &&& s.focus == Pane::Planning ==> after.did == s.did
            &&& after.store == s.store && after.today == s.today && after.yesterday == s.yesterday
            &&& after.yesterday_planning == s.yesterday_planning
        }),
{
}

/// Any other key does to the pane with the focus what it does to a text area, but control
/// and backspace, which deletes the word before the cursor.
pub proof fn lemma_screen_typing(s: AppView, k: KeyEvent, after: AppView, c: char)
    requires
        s.steps_to(k, after),
        s.focused().valid(),
        s.focused().mark is None,
        k.code == KeyCode::Char(c),
        c != '\n' && c != '\r',
        !k.modifiers.control && !k.modifiers.alt,
    ensures
        ({
            let before = match s.focus {
                Pane::Did => s.did,
                Pane::Planning => s.planning,
            };
            let now = match s.focus {
                Pane::Did => after.did,
                Pane::Planning => after.planning,
            };
            &&& now.lines == before.lines.update(
                before.row,
                before.lines[before.row].insert(before.col, c),
            )
            &&& now.row == before.row && now.col == before.col + 1
        }),
{
    let t = s.focused();
    let line = t.lines[t.row];
    assert(line.take(t.col) + seq![c] + line.skip(t.col) =~= line.insert(t.col, c));
}

/// A bullet for each item of the reference, with a dash and a blank before it; a note where
/// there is none.
pub proof fn lemma_reference_rows(items: Seq<Seq<char>>, i: int)
    requires
        0 <= i < items.len(),
    ensures
        reference_rows(items).len() == items.len(),
        reference_rows(items)[i].len() == 1,
        reference_rows(items)[i][0].text == "- "@ + items[i],
        reference_rows(Seq::empty()).len() == 1,
        reference_rows(Seq::empty())[0][0].text == "(no planning recorded)"@,
{
}

/// What [`collect_bullets`] returns: as many bullets as there are lines with anything but
/// white space, and of lines one below the other those of the one part, then those of the
/// other.
pub proof fn lemma_collect_bullets(
    a: &[String],
    b: &[String],
    both: &[String],
    r: Vec<String>,
    s: Vec<String>,
    all: Vec<String>,
)
    requires
        call_ensures(collect_bullets, (a,), r),
        call_ensures(collect_bullets, (b,), s),
        call_ensures(collect_bullets, (both,), all),
        text::texts(both@) == text::texts(a@) + text::texts(b@),
    ensures
        r@.len() == written_lines(text::texts(a@)),
        text::texts(all@) == text::texts(r@) + text::texts(s@),
        a@.len() == 1 && written_lines(text::texts(a@)) == 1 ==> r@[0]@ == text::trimmed(a@[0]@),
{
    let lines = text::texts(a@);
    lemma_bullet_count(lines);
    assert(text::texts(r@).len() == r@.len());
    lemma_every_line_is_kept(lines, text::texts(b@), seq![]);
    if a@.len() == 1 && written_lines(lines) == 1 {
        assert(lines =~= seq![a@[0]@]);
        assert(lines.drop_first() =~= Seq::<Seq<char>>::empty());
        lemma_every_line_is_kept(lines, lines, a@[0]@);
        assert(text::texts(r@)[0] == r@[0]@);
    }
}

/// A pane without anything to show opens with one empty line.
pub proof fn lemma_screen_opens_empty(m: Map<i32, EntryView>, today: i32)
    ensures
        ({
            let s = screen(m, today);
            let day = (today - storage::days_back(today as int)) as i32;
            let none = seq![Seq::<char>::empty()];
            &&& m.contains_key(day) && m[day].did.len() == 0 && m[day].planning.len() == 0
                ==> s.did.lines == none
            &&& m.contains_key(today) && m[today].planning.len() == 0 ==> s.planning.lines == none
            &&& s.did.mark is None && s.planning.mark is None
            &&& s.did.row == s.did.lines.len() - 1 && s.did.col == s.did.lines.last().len()
            &&& s.planning.row == s.planning.lines.len() - 1 && s.planning.col
                == s.planning.lines.last().len()
        }),
{
    let day = (today - storage::days_back(today as int)) as i32;
    lemma_opens_in_text(draft(storage::entry_of(m, day)));
    lemma_opens_in_text(storage::entry_of(m, today).planning);
}

/// Control and backspace deletes the word before the cursor of the pane with the focus;
/// every other key that neither leaves nor switches does to it what it does to a text area.
pub proof fn lemma_keys_reach_pane(s: AppView, k: KeyEvent, after: AppView)
    requires
        s.steps_to(k, after),
        !(k.code == KeyCode::Char('q') && k.modifiers.control),
        !(k.code == KeyCode::Tab && k.modifiers.empty()),
    ensures
        ({
            let before = match s.focus {
                Pane::Did => s.did,
                Pane::Planning => s.planning,
            };
            let now = match s.focus {
                Pane::Did => after.did,
                Pane::Planning => after.planning,
            };
            &&& k.code == KeyCode::Backspace && k.modifiers.control ==> now == before.word_deleted()
            &&& !(k.code == KeyCode::Backspace && k.modifiers.control) ==> area::typed(
                before,
                k,
                now,
            )
        }),
{
}

/// Putting a pane on the screen changes neither a text nor a cursor.
pub proof fn lemma_show_keeps_text(s: AppView, pane: Pane, width: u16, height: u16)
    ensures
        ({
            let t = s.shown(pane, width, height);
            &&& t.did.lines == s.did.lines && t.planning.lines == s.planning.lines
            &&& t.did.row == s.did.row && t.did.col == s.did.col
            &&& t.planning.row == s.planning.row && t.planning.col == s.planning.col
            &&& t.store == s.store && t.focus == s.focus && t.quit == s.quit
            &&& pane == Pane::Did ==> t.planning == s.planning
            &&& pane == Pane::Planning ==> t.did == s.did
        }),
{
}

/// The titles name the day that a pane is about, and the pane with the focus has the
/// yellow border.
pub proof fn lemma_titles<'a>(
    app: &App<'a>,
    did: String,
    planning: String,
    reference: String,
    header: String,
    pane: Pane,
    border: Colour,
)
    requires
        call_ensures(App::title, (app, Pane::Did), did),
        call_ensures(App::title, (app, Pane::Planning), planning),
        call_ensures(App::reference_title, (app,), reference),
        call_ensures(App::header, (app,), header),
        call_ensures(App::border, (app, pane), border),
    ensures
        did@ == " Yesterday ("@ + date::day_iso(app@.yesterday) + ") — what I did "@,
        planning@ == " Today ("@ + date::day_iso(app@.today) + ") — planning "@,
        reference@ == " Yesterday ("@ + date::day_iso(app@.yesterday) + ") — planning (ref) "@,
        header@ == " standup — "@ + date::day_iso(app@.today) + " "@,
        (border == Colour::Yellow) == (pane == app@.focus),
        (border == Colour::DarkGray) == (pane != app@.focus),
{
}

} // verus!
