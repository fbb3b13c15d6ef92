//! The log: what was done and what was planned, by day.

use crate::date;
use crate::date::Date;
use crate::text;
use std::collections::BTreeMap;
use vstd::prelude::*;
use vstd::std_specs::cmp::OrdSpec;
use vstd::std_specs::iter::IteratorSpec;

verus! {

broadcast use {vstd::std_specs::btree::group_btree_axioms, vstd::laws_cmp::group_laws_cmp};

/// What is recorded of a day.
#[derive(Debug, Clone, PartialEq, Eq)]
pub struct Entry {
    pub did: Vec<String>,
    pub planning: Vec<String>,
}

/// The view of an entry.
#[verifier::ext_equal]
pub struct EntryView {
    pub did: Seq<Seq<char>>,
    pub planning: Seq<Seq<char>>,
}

impl View for Entry {
    type V = EntryView;

    open spec fn view(&self) -> EntryView {
        EntryView { did: text::texts(self.did@), planning: text::texts(self.planning@) }
    }
}

impl EntryView {
    /// Nothing recorded.
    pub open spec fn blank() -> EntryView {
        EntryView { did: Seq::empty(), planning: Seq::empty() }
    }

    /// Whether nothing is recorded.
    pub open spec fn is_blank(self) -> bool {
        self.did.len() == 0 && self.planning.len() == 0
    }
}

impl Default for Entry {
    fn default() -> (r: Self)
        ensures
            r@ == EntryView::blank(),
    {
        let r = Entry { did: Vec::new(), planning: Vec::new() };
        assert(r@ =~= EntryView::blank());
        r
    }
}

impl Entry {
    /// Whether nothing is recorded.
    pub fn is_empty(&self) -> (r: bool)
        ensures
            r == self@.is_blank(),
    {
        self.did.len() == 0 && self.planning.len() == 0
    }
}

/// The log, by day; a day is counted as [`Date::days`] does.
#[derive(Debug, Clone, PartialEq, Eq)]
pub struct Store {
    pub entries: BTreeMap<i32, Entry>,
}

impl View for Store {
    type V = Map<i32, EntryView>;

    open spec fn view(&self) -> Map<i32, EntryView> {
        self.entries@.map_values(|e: Entry| e@)
    }
}

impl Default for Store {
    fn default() -> (r: Self)
        ensures
            r@ == Map::<i32, EntryView>::empty(),
            r.wf(),
    {
        let r = Store { entries: BTreeMap::new() };
        assert(r@ =~= Map::<i32, EntryView>::empty());
        r
    }
}

impl Store {
    /// Every key is a day of the calendar.
    pub open spec fn wf(self) -> bool {
        forall|k: i32| #[trigger] self.entries@.contains_key(k) ==> date::is_day(k as int)
    }
}

/// The days of a list of dates.
pub open spec fn days_of(dates: Seq<Date>) -> Seq<i32> {
    Seq::new(dates.len(), |i: int| dates[i]@)
}

/// What is recorded of a day; nothing where there is no entry.
pub open spec fn entry_of(m: Map<i32, EntryView>, day: i32) -> EntryView {
    if m.contains_key(day) {
        m[day]
    } else {
        EntryView::blank()
    }
}

/// Whether something is recorded of day `d`.
pub open spec fn recorded(m: Map<i32, EntryView>, d: i32) -> bool {
    m.contains_key(d) && !m[d].is_blank()
}

/// The first day of which something is recorded.
pub open spec fn first_day(m: Map<i32, EntryView>) -> Option<i32> {
    if exists|d: i32| #[trigger] recorded(m, d) {
        Some(choose|d: i32| #[trigger] recorded(m, d) && no_earlier(m, d))
    } else {
        None
    }
}

/// Whether nothing is recorded before day `d`.
pub open spec fn no_earlier(m: Map<i32, EntryView>, d: i32) -> bool {
    forall|e: i32| #[trigger] recorded(m, e) ==> d <= e
}

/// The entry at `key`, to change: `BTreeMap::get_mut`.
#[verifier::external_body]
pub(crate) fn entry_at<'a>(entries: &'a mut BTreeMap<i32, Entry>, key: i32) -> (r: Option<&'a mut Entry>)
    ensures
        match r {
            Some(e) => {
                &&& old(entries)@.contains_key(key)
                &&& *e == old(entries)@[key]
                &&& final(entries)@ == old(entries)@.insert(key, *final(e))
            },
            None => !old(entries)@.contains_key(key) && final(entries)@ == old(entries)@,
        },
{
    entries.get_mut(&key)
}

/// The keys in order.
fn keys_in_order(entries: &BTreeMap<i32, Entry>) -> (r: Vec<i32>)
    ensures
        forall|i: int, j: int| 0 <= i < j < r@.len() ==> r@[i] < r@[j],
        forall|k: i32| #[trigger] r@.contains(k) == entries@.contains_key(k),
{
    let mut out: Vec<i32> = Vec::new();
    let all = entries.iter();
    let ghost pairs = all.remaining();
    let ghost keys = pairs.map_values(|kv: (&i32, &Entry)| *kv.0);
    assert(vstd::std_specs::btree::increasing_seq(keys));
    for kv in it: all
        invariant
            it.seq() == pairs,
            out@.len() == it.index(),
            keys == pairs.map_values(|kv: (&i32, &Entry)| *kv.0),
            forall|j: int| 0 <= j < out@.len() ==> out@[j] == keys[j],
    {
        out.push(*kv.0);
    }
    proof {
        assert(out@ =~= keys);
        assert forall|i: int, j: int| 0 <= i < j < out@.len() implies out@[i] < out@[j] by {
            assert(keys[i].cmp_spec(&keys[j]) is Less);
        }
        assert forall|k: i32| #[trigger] out@.contains(k) == entries@.contains_key(k) by {
            if entries@.contains_key(k) {
                assert(pairs.contains((&k, &entries@[k])));
                let i = choose|i: int| 0 <= i < pairs.len() && pairs[i] == (&k, &entries@[k]);
                assert(out@[i] == k);
            }
            if out@.contains(k) {
                let i = choose|i: int| 0 <= i < out@.len() && out@[i] == k;
                assert(entries@.contains_key(*pairs[i].0));
            }
        }
    }
    out
}

impl Store {
    /// What is recorded of `date`, if there is an entry.
    pub fn get(&self, date: Date) -> (r: Option<&Entry>)
        ensures
            r is Some == self@.contains_key(date@),
            r matches Some(e) ==> e@ == self@[date@],
    {
        self.entries.get(&date.days())
    }

    /// The entry of `date`, to change; an empty one is made where there is none.
    pub fn entry_mut(&mut self, date: Date) -> (r: &mut Entry)
        ensures
            (*r)@ == if old(self)@.contains_key(date@) {
                old(self)@[date@]
            } else {
                EntryView::blank()
            },
            final(self)@ == old(self)@.insert(date@, (*final(r))@),
            old(self).wf() ==> final(self).wf(),
    {
        let ghost before = *self;
        let key: i32 = date.days();
        if !self.entries.contains_key(&key) {
            self.entries.insert(key, Entry::default());
        }
        let ghost held = self.entries@;
        match entry_at(&mut self.entries, key) {
            Some(e) => {
                assert(held.insert(key, *final(e)).map_values(|x: Entry| x@)
                    =~= before@.insert(key, (*final(e))@));
                e
            },
            None => vstd::pervasive::unreached(),
        }
    }

    /// Takes out the entry of `date`, if there is one.
    pub fn remove(&mut self, date: Date) -> (r: Option<Entry>)
        ensures
            r is Some == old(self)@.contains_key(date@),
            r matches Some(e) ==> e@ == old(self)@[date@],
            final(self)@ == old(self)@.remove(date@),
            old(self).wf() ==> final(self).wf(),
    {
        let ghost before = *self;
        let r = self.entries.remove(&date.days());
        assert(self@ =~= before@.remove(date@));
        r
    }
}

impl Store {
    /// Dates with any content, newest first.
    pub fn dates_desc(&self) -> (r: Vec<Date>)
        requires
            self.wf(),
        ensures
            forall|i: int, j: int| 0 <= i < j < r@.len() ==> days_of(r@)[i] > days_of(r@)[j],
            forall|d: i32| #[trigger] days_of(r@).contains(d) == recorded(self@, d),
    {
        let keys = keys_in_order(&self.entries);
        let mut out: Vec<Date> = Vec::new();
        let mut i: usize = keys.len();
        while i > 0
            invariant
                i <= keys.len(),
                self.wf(),
                forall|a: int, b: int| 0 <= a < b < keys@.len() ==> keys@[a] < keys@[b],
                forall|k: i32| #[trigger] keys@.contains(k) == self.entries@.contains_key(k),
                forall|a: int, b: int|
                    0 <= a < b < out@.len() ==> days_of(out@)[a] > days_of(out@)[b],
                forall|d: i32| #[trigger]
                    days_of(out@).contains(d) == (recorded(self@, d) && keys@.skip(
                        i as int,
                    ).contains(d)),
            decreases i,
        {
            let ghost before = days_of(out@);
            let ghost rest = keys@.skip(i as int);
            i -= 1;
            let k: i32 = keys[i];
            assert(keys@.contains(k));
            proof {
                let now = keys@.skip(i as int);
                assert forall|d: i32| #[trigger] now.contains(d) == (rest.contains(d) || d == k) by {
                    assert(now[0] == k);
                    if rest.contains(d) {
                        let n = choose|n: int| 0 <= n < rest.len() && rest[n] == d;
                        assert(now[n + 1] == d);
                    }
                    if now.contains(d) && d != k {
                        let n = choose|n: int| 0 <= n < now.len() && now[n] == d;
                        assert(rest[n - 1] == d);
                    }
                }
            }
            let mut keep = false;
            if let Some(e) = self.entries.get(&k) {
                keep = !e.is_empty();
            }
            assert(keep == recorded(self@, k));
            if keep {
                if let Some(date) = Date::from_days(k) {
                    out.push(date);
                    proof {
                        let now = days_of(out@);
                        assert(now =~= before.push(k));
                        assert forall|d: i32| #[trigger] now.contains(d) == (before.contains(d) || d
                            == k) by {
                            assert(now[before.len() as int] == k);
                            if before.contains(d) {
                                let n = choose|n: int| 0 <= n < before.len() && before[n] == d;
                                assert(now[n] == d);
                            }
                        }
                        assert forall|a: int| 0 <= a < before.len() implies before[a] > k by {
                            assert(before.contains(before[a]));
                            let n = choose|n: int| 0 <= n < rest.len() && rest[n] == before[a];
                            assert(keys@[i + 1 + n] == before[a]);
                        }
                    }
                }
            }
        }
        assert(keys@.skip(0) =~= keys@);
        out
    }

    /// The earliest date with any content.
    pub fn first_recorded(&self) -> (r: Option<Date>)
        requires
            self.wf(),
        ensures
            match r {
                Some(date) => recorded(self@, date@) && no_earlier(self@, date@),
                None => forall|d: i32| !#[trigger] recorded(self@, d),
            },
            first_day(self@) == match r {
                Some(date) => Some(date@),
                None => None::<i32>,
            },
    {
        let dates = self.dates_desc();
        let ghost days = days_of(dates@);
        if dates.len() == 0 {
            assert forall|d: i32| !#[trigger] recorded(self@, d) by {
                assert(!days.contains(d));
            }
            return None;
        }
        let first = dates[dates.len() - 1];
        proof {
            let last = days.len() - 1;
            assert(days.contains(days[last]));
            assert forall|d: i32| #[trigger] recorded(self@, d) implies first@ <= d by {
                assert(days.contains(d));
                let n = choose|n: int| 0 <= n < days.len() && days[n] == d;
                if n < last {
                    assert(days[n] > days[last]);
                }
            }
        }
        Some(first)
    }
}

// ---------------------------------------------------------------------------
// Rows
// ---------------------------------------------------------------------------

/// The views of some rows.
pub open spec fn row_views(rows: Seq<(i32, Entry)>) -> Seq<(i32, EntryView)> {
    Seq::new(rows.len(), |i: int| (rows[i].0, rows[i].1@))
}

/// Whether `rows` are the days of `m` with their entries, from the first to the
/// last.
pub open spec fn lists(rows: Seq<(i32, EntryView)>, m: Map<i32, EntryView>) -> bool {
    &&& forall|i: int, j: int| 0 <= i < j < rows.len() ==> rows[i].0 < rows[j].0
    &&& forall|i: int|
        0 <= i < rows.len() ==> m.contains_key((#[trigger] rows[i]).0) && m[rows[i].0] == rows[i].1
    &&& forall|day: i32| #[trigger]
        m.contains_key(day) ==> exists|i: int| 0 <= i < rows.len() && (#[trigger] rows[i]).0 == day
}

/// The log that some rows make: of two for one day the later counts, and what is
/// no day is left out.
pub open spec fn log_of(rows: Seq<(i32, EntryView)>) -> Map<i32, EntryView>
    decreases rows.len(),
{
    if rows.len() == 0 {
        Map::empty()
    } else if date::is_day(rows.last().0 as int) {
        log_of(rows.drop_last()).insert(rows.last().0, rows.last().1)
    } else {
        log_of(rows.drop_last())
    }
}

impl Store {
    /// The days with their entries, from the first to the last.
    pub fn rows(&self) -> (r: Vec<(i32, Entry)>)
        ensures
            lists(row_views(r@), self@),
    {
        let keys = keys_in_order(&self.entries);
        let mut out: Vec<(i32, Entry)> = Vec::new();
        let mut i: usize = 0;
        while i < keys.len()
            invariant
                i <= keys.len(),
                forall|a: int, b: int| 0 <= a < b < keys@.len() ==> keys@[a] < keys@[b],
                forall|k: i32| #[trigger] keys@.contains(k) == self.entries@.contains_key(k),
                out@.len() == i,
                forall|j: int|
                    0 <= j < i ==> (#[trigger] out@[j]).0 == keys@[j] && out@[j].1@
                        == self@[keys@[j]],
            decreases keys.len() - i,
        {
            let day: i32 = keys[i];
            assert(keys@.contains(day));
            if let Some(e) = self.entries.get(&day) {
                out.push(
                    (
                        day,
                        Entry {
                            did: text::copy_lines(e.did.as_slice()),
                            planning: text::copy_lines(e.planning.as_slice()),
                        },
                    ),
                );
            }
            i += 1;
        }
        proof {
            let rows = row_views(out@);
            assert forall|j: int| 0 <= j < rows.len() implies self@.contains_key(
                (#[trigger] rows[j]).0,
            ) && self@[rows[j].0] == rows[j].1 by {
                assert(out@[j].0 == keys@[j]);
                assert(keys@.contains(keys@[j]));
            }
            assert forall|a: int, b: int| 0 <= a < b < rows.len() implies rows[a].0 < rows[b].0 by {
                assert(out@[a].0 == keys@[a] && out@[b].0 == keys@[b]);
            }
            assert forall|day: i32| #[trigger] self@.contains_key(day) implies exists|j: int|
                0 <= j < rows.len() && (#[trigger] rows[j]).0 == day by {
                assert(keys@.contains(day));
                let j = choose|j: int| 0 <= j < keys@.len() && keys@[j] == day;
                assert(out@[j].0 == keys@[j]);
                assert(rows[j].0 == day);
            }
        }
        out
    }

    /// The log that some rows make.
    pub fn from_rows(rows: &[(i32, Entry)]) -> (r: Self)
        ensures
            r@ == log_of(row_views(rows@)),
            r.wf(),
    {
        let ghost all = row_views(rows@);
        let mut store = Store::default();
        assert(store@ =~= log_of(all.take(0)));
        let mut i: usize = 0;
        while i < rows.len()
            invariant
                i <= rows.len(),
                all == row_views(rows@),
                store.wf(),
                store@ == log_of(all.take(i as int)),
            decreases rows.len() - i,
        {
            let ghost now = all.take(i + 1);
            assert(now.drop_last() =~= all.take(i as int));
            assert(now.last() == (rows@[i as int].0, rows@[i as int].1@));
            let row = &rows[i];
            if let Some(date) = Date::from_days(row.0) {
                let entry = Entry {
                    did: text::copy_lines(row.1.did.as_slice()),
                    planning: text::copy_lines(row.1.planning.as_slice()),
                };
                *store.entry_mut(date) = entry;
            }
            i += 1;
        }
        assert(all.take(i as int) =~= all);
        store
    }
}

proof fn lemma_log_of(rows: Seq<(i32, EntryView)>, day: i32)
    requires
        forall|i: int, j: int| 0 <= i < j < rows.len() ==> rows[i].0 < rows[j].0,
        forall|i: int| 0 <= i < rows.len() ==> date::is_day((#[trigger] rows[i]).0 as int),
    ensures
        log_of(rows).contains_key(day) == exists|i: int|
            0 <= i < rows.len() && (#[trigger] rows[i]).0 == day,
        forall|i: int|
            0 <= i < rows.len() && (#[trigger] rows[i]).0 == day ==> log_of(rows)[day] == rows[i].1,
    decreases rows.len(),
{
    if rows.len() > 0 {
        let init = rows.drop_last();
        let last = rows.len() - 1;
        assert(date::is_day(rows[last].0 as int));
        lemma_log_of(init, day);
        if log_of(init).contains_key(day) {
            let i = choose|i: int| 0 <= i < init.len() && (#[trigger] init[i]).0 == day;
            assert(rows[i].0 == day);
        }
        assert forall|i: int| 0 <= i < rows.len() && (#[trigger] rows[i]).0 == day implies log_of(
            rows,
        )[day] == rows[i].1 && log_of(rows).contains_key(day) by {
            if i < last {
                assert(init[i].0 == day);
                assert(rows[i].0 < rows[last].0);
            }
        }
    }
}

/// The rows of a log make the log again.
pub proof fn lemma_rows_round_trip(rows: Seq<(i32, EntryView)>, m: Map<i32, EntryView>)
    requires
        lists(rows, m),
        forall|day: i32| #[trigger] m.contains_key(day) ==> date::is_day(day as int),
    ensures
        log_of(rows) == m,
{
    assert forall|i: int| 0 <= i < rows.len() implies date::is_day((#[trigger] rows[i]).0 as int) by {
        assert(m.contains_key(rows[i].0));
    }
    assert forall|day: i32|
        #![trigger log_of(rows).contains_key(day)]
        #![trigger m.contains_key(day)]
        log_of(rows).contains_key(day) == m.contains_key(day) && (m.contains_key(day) ==> log_of(
            rows,
        )[day] == m[day]) by {
        lemma_log_of(rows, day);
        if m.contains_key(day) {
            let i = choose|i: int| 0 <= i < rows.len() && (#[trigger] rows[i]).0 == day;
            assert(rows[i].0 == day);
        }
        if log_of(rows).contains_key(day) {
            let i = choose|i: int| 0 <= i < rows.len() && (#[trigger] rows[i]).0 == day;
            assert(m.contains_key(rows[i].0));
        }
    }
    assert(log_of(rows) =~= m);
}

// ---------------------------------------------------------------------------
// Files
// ---------------------------------------------------------------------------

/// The text to read, of a file that holds `data` or is not there: nothing is
/// read where it is blank.
pub fn text_to_read(data: Option<&str>) -> (r: Option<&str>)
    ensures
        r is Some == (data is Some && text::trimmed(data->0@).len() > 0),
        r is Some ==> r == data,
{
    match data {
        Some(s) => {
            if text::trim(s).unicode_len() == 0 {
                None
            } else {
                Some(s)
            }
        },
        None => None,
    }
}

// ---------------------------------------------------------------------------
// Workdays
// ---------------------------------------------------------------------------

/// Whether day `n` is from Monday to Friday.
pub open spec fn is_workday(n: int) -> bool {
    date::weekday(n) < 5
}

/// How many days before day `n` the last workday is.
pub open spec fn days_back(n: int) -> int {
    if date::weekday(n) == 0 {
        3
    } else if date::weekday(n) == 6 {
        2
    } else {
        1
    }
}

/// Previous *work* day. Mon -> Fri, Sun -> Fri, Sat -> Fri, else day - 1.
pub fn previous_workday(d: Date) -> (r: Date)
    requires
        date::is_day(d@ - days_back(d@ as int)),
    ensures
        r@ == d@ - days_back(d@ as int),
{
    let back: i64 = match d.weekday() {
        0 => 3,
        6 => 2,
        _ => 1,
    };
    d.plus(-back)
}

/// [`previous_workday`], or `None` where the calendar has no such day.
pub fn try_previous_workday(d: Date) -> (r: Option<Date>)
    ensures
        r is Some == date::is_day(d@ - days_back(d@ as int)),
        r matches Some(p) ==> p@ == d@ - days_back(d@ as int),
{
    let back: i32 = match d.weekday() {
        0 => 3,
        6 => 2,
        _ => 1,
    };
    Date::from_days(d.days() - back)
}

/// The previous workday is a workday before the day, and there is none in
/// between.
pub proof fn lemma_previous_workday(n: int)
    ensures
        is_workday(n - days_back(n)),
        1 <= days_back(n) <= 3,
        forall|m: int| n - days_back(n) < m < n ==> !#[trigger] is_workday(m),
{
}

/// The previous workday is from Monday to Friday, and the days between it and the day are
/// a Saturday or a Sunday.
pub proof fn lemma_workday_by_week(n: int)
    ensures
        0 < days_back(n),
        (n - days_back(n) - 1) % 7 < 5,
        forall|m: int| #![trigger is_workday(m)] n - days_back(n) < m < n ==> (m - 1) % 7 >= 5,
{
}

/// What is recorded of a day is its entry, as it is, and nothing where there is no entry.
pub proof fn lemma_recorded_entries(m: Map<i32, EntryView>, day: i32)
    ensures
        m.contains_key(day) ==> entry_of(m, day) == m[day],
        !m.contains_key(day) ==> entry_of(m, day).did.len() == 0 && entry_of(m, day).planning.len()
            == 0,
        recorded(m, day) == (entry_of(m, day).did.len() > 0 || entry_of(m, day).planning.len() > 0),
{
}

/// Every row of a day of the calendar is in the log, unless a later row is of the same
/// day, and nothing else is.
pub proof fn lemma_row_is_logged(rows: Seq<(i32, EntryView)>, i: int)
    requires
        0 <= i < rows.len(),
        date::MIN_DAY <= rows[i].0 <= date::MAX_DAY,
        forall|j: int| i < j < rows.len() ==> (#[trigger] rows[j]).0 != rows[i].0,
    ensures
        log_of(rows).contains_key(rows[i].0),
        log_of(rows)[rows[i].0] == rows[i].1,
    decreases rows.len(),
{
    if i < rows.len() - 1 {
        let init = rows.drop_last();
        assert forall|j: int| i < j < init.len() implies (#[trigger] init[j]).0 != init[i].0 by {
            assert(rows[j].0 != rows[i].0);
        }
        assert(rows[rows.len() - 1].0 != rows[i].0);
        lemma_row_is_logged(init, i);
    }
}

/// Every entry of the log comes from a row.
pub proof fn lemma_logged_from_row(rows: Seq<(i32, EntryView)>, day: i32)
    requires
        log_of(rows).contains_key(day),
    ensures
        exists|i: int| 0 <= i < rows.len() && #[trigger] rows[i] == (day, log_of(rows)[day]),
        date::MIN_DAY <= day <= date::MAX_DAY,
    decreases rows.len(),
{
    if rows.len() > 0 {
        let init = rows.drop_last();
        if rows.last().0 == day && date::is_day(day as int) {
            assert(rows[rows.len() - 1] == (day, log_of(rows)[day]));
        } else {
            lemma_logged_from_row(init, day);
            let i = choose|i: int| 0 <= i < init.len() && #[trigger] init[i] == (day, log_of(init)[day]);
            assert(rows[i] == init[i]);
        }
    }
}

/// The first day of which something is recorded has an item in one of its lists, and no
/// day before it has; where there is no such day, none has.
pub proof fn lemma_first_day(store: &Store, r: Option<Date>, day: i32)
    requires
        call_ensures(Store::first_recorded, (store,), r),
        store@.contains_key(day),
        store@[day].did.len() > 0 || store@[day].planning.len() > 0,
    ensures
        first_day(store@) is Some,
        r is Some,
        first_day(store@) == Some(r->0@),
        r->0@ <= day,
        store@.contains_key(r->0@),
        store@[r->0@].did.len() > 0 || store@[r->0@].planning.len() > 0,
{
    assert(recorded(store@, day));
}

/// What [`Store::dates_desc`] returns: the days with an item in one of their lists, each
/// once, and the later before the earlier.
pub proof fn lemma_dates(store: &Store, r: Vec<Date>, day: i32)
    requires
        call_ensures(Store::dates_desc, (store,), r),
    ensures
        (exists|i: int| 0 <= i < r@.len() && (#[trigger] r@[i])@ == day) == (store@.contains_key(day)
            && (store@[day].did.len() > 0 || store@[day].planning.len() > 0)),
        forall|i: int, j: int|
            0 <= i < j < r@.len() ==> (#[trigger] r@[i])@ > (#[trigger] r@[j])@,
{
    let days = days_of(r@);
    assert(days.contains(day) == recorded(store@, day));
    if exists|i: int| 0 <= i < r@.len() && (#[trigger] r@[i])@ == day {
        let i = choose|i: int| 0 <= i < r@.len() && (#[trigger] r@[i])@ == day;
        assert(days[i] == day);
    }
    if days.contains(day) {
        let i = choose|i: int| 0 <= i < days.len() && days[i] == day;
        assert(r@[i]@ == day);
    }
    assert forall|i: int, j: int| 0 <= i < j < r@.len() implies (#[trigger] r@[i])@ > (
    #[trigger] r@[j])@ by {
        assert(days[i] > days[j]);
    }
}

/// What [`Store::rows`] returns is every day with its entry, earlier days first, and
/// [`Store::from_rows`] makes the same log of it again.
pub proof fn lemma_save_and_load(
    store: &Store,
    rows: Vec<(i32, Entry)>,
    saved: &[(i32, Entry)],
    loaded: Store,
    day: i32,
)
    requires
        call_ensures(Store::rows, (store,), rows),
        saved@ == rows@,
        call_ensures(Store::from_rows, (saved,), loaded),
        store.wf(),
    ensures
        loaded@ == store@,
        loaded.wf(),
        forall|i: int, j: int| 0 <= i < j < rows@.len() ==> (#[trigger] rows@[i]).0 < (
        #[trigger] rows@[j]).0,
        store@.contains_key(day) ==> exists|i: int|
            0 <= i < rows@.len() && (#[trigger] rows@[i]).0 == day && rows@[i].1@ == store@[day],
{
    let views = row_views(rows@);
    assert(lists(views, store@));
    assert forall|d: i32| #[trigger] store@.contains_key(d) implies date::is_day(d as int) by {
        assert(store.entries@.contains_key(d));
    }
    lemma_rows_round_trip(views, store@);
    assert forall|i: int, j: int| 0 <= i < j < rows@.len() implies (#[trigger] rows@[i]).0 < (
    #[trigger] rows@[j]).0 by {
        assert(views[i].0 < views[j].0);
    }
    if store@.contains_key(day) {
        let i = choose|i: int| 0 <= i < views.len() && (#[trigger] views[i]).0 == day;
        assert(rows@[i].0 == day && rows@[i].1@ == store@[day]);
    }
}

/// What [`Store::get`] and [`Entry::is_empty`] return: the entry of the day just where there
/// is one, and whether both lists are empty.
pub proof fn lemma_get(store: &Store, date: Date, r: Option<&Entry>, entry: &Entry, empty: bool)
    requires
        call_ensures(Store::get, (store, date), r),
        call_ensures(Entry::is_empty, (entry,), empty),
    ensures
        r is Some == store@.contains_key(date@),
        r matches Some(e) ==> e@ == store@[date@],
        empty == (entry@.did.len() == 0 && entry@.planning.len() == 0),
{
}

/// What [`previous_workday`] returns: the latest day before `d` that is neither a Saturday
/// nor a Sunday.
pub proof fn lemma_workday_before(d: Date, r: Date, m: int)
    requires
        call_ensures(previous_workday, (d,), r),
    ensures
        r@ < d@,
        (r@ - 1) % 7 < 5,
        r@ < m < d@ ==> (m - 1) % 7 >= 5,
{
    lemma_workday_by_week(d@ as int);
    assert(r@ < m < d@ ==> !is_workday(m));
}

} // verus!
