//! Calendars, days and events, and the aggregate height queries over them.
use std::collections::HashMap;
use vstd::prelude::*;
use vstd::std_specs::iter::IteratorSpec;

verus! {

broadcast use vstd::std_specs::hash::group_hash_axioms;

/// Encodes a calendar date as the integer `YYYYMMDD`.
pub open spec fn date_key_of(year: int, month: int, day: int) -> int {
    day + month * 100 + year * 10000
}

/// The date key of a date; `None` for a year before year 0.
pub fn date_key(year: i32, month: u8, day: u8) -> (r: Option<u64>)
    ensures
        r is Some <==> year >= 0,
        r is Some ==> r->Some_0 == date_key_of(year as int, month as int, day as int),
{
    if year < 0 {
        None
    } else {
        Some(day as u64 + month as u64 * 100 + year as u64 * 10000)
    }
}

/// Relies on `time::OffsetDateTime::now_local`: today's date in the local
/// time zone as year, month (1 to 12) and day (1 to 31), where the local
/// offset can be found.
#[verifier::external_body]
fn local_date_now() -> (r: Option<(i32, u8, u8)>)
    ensures
        r is Some ==> 1 <= r->Some_0.1 <= 12 && 1 <= r->Some_0.2 <= 31,
{
    time::OffsetDateTime::now_local().ok().map(|d| (d.year(), u8::from(d.month()), d.day()))
}

/// Relies on `time::OffsetDateTime::now_utc`: today's date in UTC as year,
/// month (1 to 12) and day (1 to 31).
#[verifier::external_body]
fn utc_date_now() -> (r: (i32, u8, u8))
    ensures
        1 <= r.1 <= 12,
        1 <= r.2 <= 31,
{
    let d = time::OffsetDateTime::now_utc();
    (d.year(), u8::from(d.month()), d.day())
}

/// Today's date key, in the local time zone where its offset can be found
/// and in UTC otherwise; `None` for a year before year 0.
pub fn today() -> (r: Option<u64>)
    ensures
        r is Some ==> exists|y: int, m: int, d: int|
            0 <= y && 1 <= m <= 12 && 1 <= d <= 31 && r->Some_0 == date_key_of(y, m, d),
{
    let (y, m, d) = match local_date_now() {
        Some(now) => now,
        None => utc_date_now(),
    };
    let r = date_key(y, m, d);
    assert(r is Some ==> r->Some_0 == date_key_of(y as int, m as int, d as int));
    r
}

/// A color as the drawing layer knows it.
#[derive(Clone, Copy, Debug, PartialEq, Eq, Structural)]
pub enum Color {
    Reset,
    Black,
    Red,
    Green,
    Yellow,
    Blue,
    Magenta,
    Cyan,
    Gray,
    DarkGray,
    LightRed,
    LightGreen,
    LightYellow,
    LightBlue,
    LightMagenta,
    LightCyan,
    White,
    Rgb(u8, u8, u8),
    Indexed(u8),
}

/// Foreground and background color of a piece of text.
#[derive(Clone, Copy, Debug, PartialEq, Eq, Structural)]
pub struct Style {
    pub fg: Color,
    pub bg: Color,
}

/// The style a freshly parsed event carries: black on white.
pub open spec fn spec_event_default_style() -> Style {
    Style { fg: Color::Rgb(0, 0, 0), bg: Color::Rgb(255, 255, 255) }
}

pub fn event_default_style() -> (r: Style)
    ensures
        r == spec_event_default_style(),
{
    Style { fg: Color::Rgb(0, 0, 0), bg: Color::Rgb(255, 255, 255) }
}

/// The palette that tells calendars apart: five entries, and black on
/// white for every other index.
pub open spec fn spec_style_from_idx(index: usize) -> Style {
    if index == 0 {
        Style { fg: Color::White, bg: Color::Rgb(50, 50, 215) }
    } else if index == 1 {
        Style { fg: Color::White, bg: Color::Rgb(190, 50, 50) }
    } else if index == 2 {
        Style { fg: Color::White, bg: Color::Rgb(200, 110, 20) }
    } else if index == 3 {
        Style { fg: Color::White, bg: Color::Rgb(150, 10, 200) }
    } else if index == 4 {
        Style { fg: Color::White, bg: Color::Rgb(30, 175, 50) }
    } else {
        Style { fg: Color::Black, bg: Color::White }
    }
}

pub fn get_style_from_idx(index: usize) -> (r: Style)
    ensures
        r == spec_style_from_idx(index),
{
    match index {
        0 => Style { fg: Color::White, bg: Color::Rgb(50, 50, 215) },
        1 => Style { fg: Color::White, bg: Color::Rgb(190, 50, 50) },
        2 => Style { fg: Color::White, bg: Color::Rgb(200, 110, 20) },
        3 => Style { fg: Color::White, bg: Color::Rgb(150, 10, 200) },
        4 => Style { fg: Color::White, bg: Color::Rgb(30, 175, 50) },
        _ => Style { fg: Color::Black, bg: Color::White },
    }
}

/// One calendar entry. `date` is the date key `YYYYMMDD`.
#[derive(Debug)]
pub struct Event {
    pub name: String,
    pub description: String,
    pub date: u64,
    pub style: Style,
}

pub struct EventView {
    pub name: Seq<char>,
    pub description: Seq<char>,
    pub date: u64,
    pub style: Style,
}

impl View for Event {
    type V = EventView;

    open spec fn view(&self) -> EventView {
        EventView {
            name: self.name@,
            description: self.description@,
            date: self.date,
            style: self.style,
        }
    }
}

impl Clone for Event {
    fn clone(&self) -> (r: Self)
        ensures
            r@ == self@,
    {
        Event {
            name: self.name.clone(),
            description: self.description.clone(),
            date: self.date,
            style: self.style,
        }
    }
}

pub open spec fn events_view(v: Seq<Event>) -> Seq<EventView> {
    v.map_values(|e: Event| e@)
}

/// All events of one date, in the order they were added.
#[derive(Debug)]
pub struct Day {
    pub date: u64,
    pub events: Vec<Event>,
}

pub struct DayView {
    pub date: u64,
    pub events: Seq<EventView>,
}

impl View for Day {
    type V = DayView;

    open spec fn view(&self) -> DayView {
        DayView { date: self.date, events: events_view(self.events@) }
    }
}

impl Day {
    /// A day with no events.
    pub fn empty(date: u64) -> (r: Day)
        ensures
            r@.date == date,
            r@.events.len() == 0,
    {
        Day { date, events: Vec::new() }
    }
}

impl Day {
    /// Gives every event of the day the style `style`.
    pub fn set_style(&mut self, style: Style)
        ensures
            final(self)@.date == old(self)@.date,
            final(self)@.events == restyled(old(self)@.events, style),
    {
        let ghost before = self@.events;
        let ghost date = self.date;
        let mut i: usize = 0;
        while i < self.events.len()
            invariant
                i <= self.events.len(),
                self.date == date,
                self.events.len() == before.len(),
                forall|m: int|
                    0 <= m < self.events.len() ==> #[trigger] self.events@[m]@ == (if m < i {
                        EventView { style, ..before[m] }
                    } else {
                        before[m]
                    }),
            decreases self.events.len() - i,
        {
            let ghost prev = self.events@;
            assert(prev[i as int]@ == before[i as int]);
            self.events[i].style = style;
            assert forall|m: int| 0 <= m < self.events.len() implies #[trigger] self.events@[m]@
                == (if m < i + 1 {
                EventView { style, ..before[m] }
            } else {
                before[m]
            }) by {
                if m != i {
                    assert(self.events@[m] == prev[m]);
                    assert(prev[m]@ == (if m < i {
                        EventView { style, ..before[m] }
                    } else {
                        before[m]
                    }));
                }
            }
            i = i + 1;
        }
        assert(self@.events =~= restyled(before, style));
    }
}

impl Clone for Day {
    fn clone(&self) -> (r: Self)
        ensures
            r@ == self@,
    {
        let mut events: Vec<Event> = Vec::new();
        let mut i: usize = 0;
        while i < self.events.len()
            invariant
                i <= self.events.len(),
                events_view(events@) == events_view(self.events@).take(i as int),
            decreases self.events.len() - i,
        {
            let e = self.events[i].clone();
            let ghost prev = events@;
            events.push(e);
            assert(events@ == prev.push(e));
            assert(events_view(events@) =~= events_view(self.events@).take(i + 1)) by {
                assert(events_view(prev).len() == i);
            }
            i = i + 1;
        }
        assert(events_view(self.events@).take(self.events.len() as int) =~= events_view(
            self.events@,
        ));
        Day { date: self.date, events }
    }
}

/// The events of `s` that fall on date `d`, in order.
pub open spec fn events_on(s: Seq<EventView>, d: u64) -> Seq<EventView>
    decreases s.len(),
{
    if s.len() == 0 {
        Seq::empty()
    } else if s.last().date == d {
        events_on(s.drop_last(), d).push(s.last())
    } else {
        events_on(s.drop_last(), d)
    }
}

/// Whether some event of `s` falls on date `d`.
pub open spec fn has_date(s: Seq<EventView>, d: u64) -> bool {
    exists|i: int| 0 <= i < s.len() && s[i].date == d
}

/// The day-indexed view of a sequence of events: each date that occurs
/// maps to its events in input order.
pub open spec fn bucketed(s: Seq<EventView>) -> Map<u64, Seq<EventView>> {
    Map::new(|d: u64| has_date(s, d), |d: u64| events_on(s, d))
}

/// A full day-indexed collection of events from one source.
#[derive(Debug)]
pub struct Calendar {
    pub days: HashMap<u64, Day>,
}

impl View for Calendar {
    type V = Map<u64, Seq<EventView>>;

    open spec fn view(&self) -> Map<u64, Seq<EventView>> {
        Map::new(|d: u64| self.days@.contains_key(d), |d: u64| self.days@[d]@.events)
    }
}

impl Calendar {
    /// Every day sits under its own date.
    pub open spec fn wf(&self) -> bool {
        forall|d: u64| #[trigger] self.days@.contains_key(d) ==> self.days@[d].date == d
    }

    /// The number of events on date `d`.
    pub open spec fn count_on(&self, d: int) -> int {
        if 0 <= d <= u64::MAX && self.days@.contains_key(d as u64) {
            self.days@[d as u64].events@.len() as int
        } else {
            0
        }
    }

    /// Buckets events by date; each day keeps its events in input order.
    pub fn from_events(events: &Vec<Event>) -> (r: Calendar)
        ensures
            r.wf(),
            r@ == bucketed(events_view(events@)),
    {
        let mut days: HashMap<u64, Day> = HashMap::new();
        let ghost s = events_view(events@);
        let mut i: usize = 0;
        while i < events.len()
            invariant
                i <= events.len(),
                s == events_view(events@),
                forall|d: u64| #[trigger] days@.contains_key(d) ==> days@[d].date == d,
                forall|d: u64|
                    #[trigger] days@.contains_key(d) == has_date(s.take(i as int), d),
                forall|d: u64|
                    #[trigger] days@.contains_key(d) ==> days@[d]@.events == events_on(
                        s.take(i as int),
                        d,
                    ),
            decreases events.len() - i,
        {
            let e = &events[i];
            let ghost pre = s.take(i as int);
            let ghost post = s.take(i + 1);
            assert(post.drop_last() =~= pre);
            assert(post.last() == e@);
            let removed = days.remove(&e.date);
            match removed {
                Some(mut day) => {
                    day.events.push(e.clone());
                    assert(events_view(day.events@) =~= events_on(pre, e.date).push(e@));
                    days.insert(e.date, day);
                },
                None => {
                    let mut day = Day::empty(e.date);
                    day.events.push(e.clone());
                    assert(!has_date(pre, e.date));
                    assert(events_on(pre, e.date) =~= Seq::empty()) by {
                        lemma_events_on_absent(pre, e.date);
                    }
                    assert(events_view(day.events@) =~= events_on(pre, e.date).push(e@));
                    days.insert(e.date, day);
                },
            }
            assert forall|d: u64| #[trigger] days@.contains_key(d) == has_date(post, d) by {
                if has_date(pre, d) {
                    let j = choose|j: int| 0 <= j < pre.len() && pre[j].date == d;
                    assert(post[j] == pre[j]);
                }
                if has_date(post, d) && d != e.date {
                    let j = choose|j: int| 0 <= j < post.len() && post[j].date == d;
                    assert(pre[j] == post[j]);
                }
            }
            i = i + 1;
        }
        assert(s.take(events.len() as int) =~= s);
        let cal = Calendar { days };
        assert(cal@ =~= bucketed(s));
        cal
    }
}

impl Calendar {
    /// Gives every event of the calendar the palette entry `index`.
    pub fn set_event_style(&mut self, index: usize)
        ensures
            old(self).wf() ==> final(self).wf(),
            final(self).days@.dom() == old(self).days@.dom(),
            forall|d: u64| #[trigger]
                old(self).days@.contains_key(d) ==> final(self).days@[d].date == old(
                    self,
                ).days@[d].date,
            final(self)@.dom() == old(self)@.dom(),
            forall|d: u64| #[trigger]
                old(self)@.contains_key(d) ==> final(self)@[d] == restyled(
                    old(self)@[d],
                    spec_style_from_idx(index),
                ),
    {
        let style = get_style_from_idx(index);
        let ghost ks = vstd::std_specs::hash::spec_keys_iter(&self.days).remaining().unref();
        let mut keys: Vec<u64> = Vec::new();
        for k in it: self.days.keys()
            invariant
                it.seq().unref() == ks,
                keys@ == ks.take(it.index()),
        {
            keys.push(*k);
        }
        assert(keys@ == ks);
        let ghost before = self.days@;
        let ghost old_view = self@;
        let mut j: usize = 0;
        while j < keys.len()
            invariant
                j <= keys.len(),
                keys@ == ks,
                ks.to_set() == before.dom(),
                ks.no_duplicates(),
                self.days@.dom() == before.dom(),
                old_view == Map::new(|d: u64| before.contains_key(d), |d: u64| before[d]@.events),
                forall|d: u64| #[trigger]
                    self.days@.contains_key(d) ==> self.days@[d].date == before[d].date,
                forall|d: u64| #[trigger]
                    self.days@.contains_key(d) ==> self.days@[d]@.events == (if ks.take(
                        j as int,
                    ).contains(d) {
                        restyled(before[d]@.events, style)
                    } else {
                        before[d]@.events
                    }),
            decreases keys.len() - j,
        {
            let k = keys[j];
            assert(before.contains_key(k)) by {
                assert(ks.to_set().contains(ks[j as int]));
            }
            assert(!ks.take(j as int).contains(k)) by {
                if ks.take(j as int).contains(k) {
                    let m = choose|m: int| 0 <= m < j && ks.take(j as int)[m] == k;
                    assert(ks[m] == ks[j as int]);
                }
            }
            let removed = self.days.remove(&k);
            if let Some(mut day) = removed {
                day.set_style(style);
                self.days.insert(k, day);
            }
            assert forall|d: u64| #[trigger] ks.take(j + 1).contains(d) == (ks.take(
                j as int,
            ).contains(d) || d == k) by {
                let t = ks.take(j as int);
                assert(ks.take(j + 1) =~= t.push(k));
                let u = ks.take(j + 1);
                if u.contains(d) {
                    let m = choose|m: int| 0 <= m < j + 1 && u[m] == d;
                    if m < j {
                        assert(t[m] == d);
                    }
                }
                if t.contains(d) {
                    let m = choose|m: int| 0 <= m < j && t[m] == d;
                    assert(ks.take(j + 1)[m] == d);
                }
                if d == k {
                    assert(ks.take(j + 1)[j as int] == d);
                }
            }
            j = j + 1;
        }
        assert(ks.take(keys.len() as int) =~= ks);
        assert forall|d: u64| #[trigger] old_view.contains_key(d) implies ks.contains(d) by {
            assert(ks.to_set().contains(d));
        }
        assert(self@.dom() =~= old_view.dom());
    }
}

/// Every event of `s`, in order, with its style replaced by `st`.
pub open spec fn restyled(s: Seq<EventView>, st: Style) -> Seq<EventView> {
    s.map_values(|e: EventView| EventView { style: st, ..e })
}

/// `x` capped at the largest `u16`.
pub open spec fn clamp_u16(x: int) -> int {
    if x > u16::MAX {
        u16::MAX as int
    } else {
        x
    }
}

/// The largest of `f(from)`, ..., `f(from + n - 1)`, and 0 for an empty window.
pub open spec fn window_max(f: spec_fn(int) -> int, from: int, n: nat) -> int
    decreases n,
{
    if n == 0 {
        0
    } else {
        let m = window_max(f, from, (n - 1) as nat);
        let last = f(from + n - 1);
        if last > m {
            last
        } else {
            m
        }
    }
}

/// The number of events on date `d`, summed over the calendars of `cals`.
pub open spec fn total_on(cals: Seq<Calendar>, d: int) -> int
    decreases cals.len(),
{
    if cals.len() == 0 {
        0
    } else {
        total_on(cals.drop_last(), d) + cals.last().count_on(d)
    }
}

/// An event count as a `u16`, capped at its largest value.
fn count_u16(n: usize) -> (r: u16)
    ensures
        r == clamp_u16(n as int),
{
    if n > 65535 {
        65535
    } else {
        n as u16
    }
}

impl Calendar {
    /// The largest number of events on one day among the `number` dates
    /// from `from` on, capped at the largest `u16`.
    pub open spec fn spec_max_height(&self, from: int, number: int) -> int {
        clamp_u16(window_max(|d: int| self.count_on(d), from, number as nat))
    }

    /// The number of events on date `date`, capped at the largest `u16`.
    fn count_u16_on(&self, date: u64) -> (r: u16)
        ensures
            r == clamp_u16(self.count_on(date as int)),
    {
        match self.days.get(&date) {
            None => 0,
            Some(day) => count_u16(day.events.len()),
        }
    }

    /// Get the max height, starting from a given date, up til
    /// a given number of days.
    pub fn max_height(&self, from: u64, number: usize) -> (r: u16)
        requires
            number > 0,
            from + number <= u64::MAX + 1,
        ensures
            r == self.spec_max_height(from as int, number as int),
    {
        let ghost f = |d: int| self.count_on(d);
        let mut max: u16 = 0;
        let mut i: usize = 0;
        while i < number
            invariant
                i <= number,
                from + number <= u64::MAX + 1,
                f == (|d: int| self.count_on(d)),
                max == clamp_u16(window_max(f, from as int, i as nat)),
            decreases number - i,
        {
            let c = self.count_u16_on(from + i as u64);
            if c > max {
                max = c;
            }
            i = i + 1;
        }
        max
    }
}

/// Determines the maximum height of this element.
pub trait MaxHeight {
    /// The largest number of events on one date among the `number` dates
    /// from `from` on, capped at the largest `u16`.
    spec fn spec_max_height(&self, from: int, number: int) -> int;

    /// Get the max height, starting from a given date, up til
    /// a given number of days.
    fn max_height(&self, from: u64, number: usize) -> (r: u16)
        requires
            number > 0,
            from + number <= u64::MAX + 1,
        ensures
            r == self.spec_max_height(from as int, number as int),
    ;
}

impl MaxHeight for Vec<Calendar> {
    /// Per date, the events of all calendars are added up.
    open spec fn spec_max_height(&self, from: int, number: int) -> int {
        clamp_u16(window_max(|d: int| total_on(self@, d), from, number as nat))
    }

    fn max_height(&self, from: u64, number: usize) -> (r: u16) {
        let ghost f = |d: int| total_on(self@, d);
        let mut max: u16 = 0;
        let mut i: usize = 0;
        while i < number
            invariant
                i <= number,
                from + number <= u64::MAX + 1,
                f == (|d: int| total_on(self@, d)),
                max == clamp_u16(window_max(f, from as int, i as nat)),
            decreases number - i,
        {
            let date = from + i as u64;
            let mut day_max: u16 = 0;
            let mut j: usize = 0;
            while j < self.len()
                invariant
                    j <= self.len(),
                    day_max == clamp_u16(total_on(self@.take(j as int), date as int)),
                decreases self.len() - j,
            {
                assert(self@.take(j + 1).drop_last() =~= self@.take(j as int));
                day_max = day_max.saturating_add(self[j].count_u16_on(date));
                j = j + 1;
            }
            assert(self@.take(self.len() as int) =~= self@);
            if day_max > max {
                max = day_max;
            }
            i = i + 1;
        }
        max
    }
}

/// A date that no event carries has no events.
pub proof fn lemma_events_on_absent(s: Seq<EventView>, d: u64)
    requires
        !has_date(s, d),
    ensures
        events_on(s, d) == Seq::<EventView>::empty(),
    decreases s.len(),
{
    if s.len() > 0 {
        assert(s.last() == s[s.len() - 1]);
        assert(!has_date(s.drop_last(), d)) by {
            if has_date(s.drop_last(), d) {
                let j = choose|j: int| 0 <= j < s.drop_last().len() && s.drop_last()[j].date == d;
                assert(s[j] == s.drop_last()[j]);
            }
        }
        lemma_events_on_absent(s.drop_last(), d);
    }
}

/// The number of events listed under the dates `ks` of `m`.
pub open spec fn sum_lens(m: Map<u64, Seq<EventView>>, ks: Seq<u64>) -> int
    decreases ks.len(),
{
    if ks.len() == 0 {
        0
    } else {
        sum_lens(m, ks.drop_last()) + m[ks.last()].len()
    }
}

/// How often `x` occurs in `ks`.
pub open spec fn occurrences(ks: Seq<u64>, x: u64) -> int
    decreases ks.len(),
{
    if ks.len() == 0 {
        0
    } else {
        occurrences(ks.drop_last(), x) + if ks.last() == x {
            1int
        } else {
            0int
        }
    }
}

/// The events of `s` on the dates `ks`, counted date by date.
pub open spec fn sum_on(s: Seq<EventView>, ks: Seq<u64>) -> int
    decreases ks.len(),
{
    if ks.len() == 0 {
        0
    } else {
        sum_on(s, ks.drop_last()) + events_on(s, ks.last()).len()
    }
}

proof fn lemma_sum_on_empty(ks: Seq<u64>)
    ensures
        sum_on(Seq::empty(), ks) == 0,
    decreases ks.len(),
{
    if ks.len() > 0 {
        lemma_sum_on_empty(ks.drop_last());
    }
}

proof fn lemma_sum_on_push(t: Seq<EventView>, e: EventView, ks: Seq<u64>)
    ensures
        sum_on(t.push(e), ks) == sum_on(t, ks) + occurrences(ks, e.date),
    decreases ks.len(),
{
    assert(t.push(e).drop_last() =~= t);
    if ks.len() > 0 {
        lemma_sum_on_push(t, e, ks.drop_last());
    }
}

proof fn lemma_occurrences_once(ks: Seq<u64>, x: u64)
    requires
        ks.no_duplicates(),
        ks.contains(x),
    ensures
        occurrences(ks, x) == 1,
    decreases ks.len(),
{
    let t = ks.drop_last();
    if ks.last() == x {
        assert(!t.contains(x)) by {
            if t.contains(x) {
                let m = choose|m: int| 0 <= m < t.len() && t[m] == x;
                assert(ks[m] == ks[ks.len() - 1]);
            }
        }
        lemma_occurrences_absent(t, x);
    } else {
        let m = choose|m: int| 0 <= m < ks.len() && ks[m] == x;
        assert(t[m] == x);
        lemma_occurrences_once(t, x);
    }
}

proof fn lemma_occurrences_absent(ks: Seq<u64>, x: u64)
    requires
        !ks.contains(x),
    ensures
        occurrences(ks, x) == 0,
    decreases ks.len(),
{
    if ks.len() > 0 {
        assert(ks.last() == ks[ks.len() - 1]);
        assert(!ks.drop_last().contains(x)) by {
            if ks.drop_last().contains(x) {
                let m = choose|m: int| 0 <= m < ks.len() - 1 && ks.drop_last()[m] == x;
                assert(ks[m] == x);
            }
        }
        lemma_occurrences_absent(ks.drop_last(), x);
    }
}

proof fn lemma_sum_on_covers(s: Seq<EventView>, ks: Seq<u64>)
    requires
        ks.no_duplicates(),
        forall|i: int| 0 <= i < s.len() ==> ks.contains(#[trigger] s[i].date),
    ensures
        sum_on(s, ks) == s.len(),
    decreases s.len(),
{
    if s.len() == 0 {
        assert(s =~= Seq::empty());
        lemma_sum_on_empty(ks);
    } else {
        let t = s.drop_last();
        assert(t.push(s.last()) =~= s);
        assert forall|i: int| 0 <= i < t.len() implies ks.contains(#[trigger] t[i].date) by {
            assert(t[i] == s[i]);
        }
        lemma_sum_on_covers(t, ks);
        lemma_sum_on_push(t, s.last(), ks);
        assert(ks.contains(s[s.len() - 1].date));
        lemma_occurrences_once(ks, s.last().date);
    }
}

proof fn lemma_sum_lens_bucketed(s: Seq<EventView>, ks: Seq<u64>)
    requires
        forall|i: int| 0 <= i < ks.len() ==> bucketed(s).contains_key(#[trigger] ks[i]),
    ensures
        sum_lens(bucketed(s), ks) == sum_on(s, ks),
    decreases ks.len(),
{
    if ks.len() > 0 {
        assert(bucketed(s).contains_key(ks[ks.len() - 1]));
        assert forall|i: int| 0 <= i < ks.len() - 1 implies bucketed(s).contains_key(
            #[trigger] ks.drop_last()[i],
        ) by {
            assert(ks.drop_last()[i] == ks[i]);
        }
        lemma_sum_lens_bucketed(s, ks.drop_last());
    }
}

/// Every event that bucketing puts under date `d` carries date `d`.
pub proof fn lemma_bucketed_dates(s: Seq<EventView>, d: u64, i: int)
    requires
        bucketed(s).contains_key(d),
        0 <= i < bucketed(s)[d].len(),
    ensures
        bucketed(s)[d][i].date == d,
{
    lemma_events_on_dates(s, d);
}

proof fn lemma_events_on_dates(s: Seq<EventView>, d: u64)
    ensures
        forall|i: int| 0 <= i < events_on(s, d).len() ==> (#[trigger] events_on(s, d)[i]).date == d,
    decreases s.len(),
{
    if s.len() > 0 {
        lemma_events_on_dates(s.drop_last(), d);
    }
}

/// Bucketing neither drops nor duplicates an event: over any list of
/// distinct dates that names exactly the days, the day sizes add up to the
/// number of events.
pub proof fn lemma_bucketed_total(s: Seq<EventView>, ks: Seq<u64>)
    requires
        ks.no_duplicates(),
        ks.to_set() == bucketed(s).dom(),
    ensures
        sum_lens(bucketed(s), ks) == s.len(),
{
    assert forall|i: int| 0 <= i < ks.len() implies bucketed(s).contains_key(#[trigger] ks[i]) by {
        assert(ks.to_set().contains(ks[i]));
    }
    lemma_sum_lens_bucketed(s, ks);
    assert forall|i: int| 0 <= i < s.len() implies ks.contains(#[trigger] s[i].date) by {
        assert(has_date(s, s[i].date));
        assert(ks.to_set().contains(s[i].date));
    }
    lemma_sum_on_covers(s, ks);
}

proof fn lemma_window_max_bounds(f: spec_fn(int) -> int, from: int, n: nat)
    requires
        forall|d: int| #[trigger] f(d) >= 0,
    ensures
        forall|i: int| 0 <= i < n ==> window_max(f, from, n) >= #[trigger] f(from + i),
        n > 0 ==> exists|i: int| 0 <= i < n && window_max(f, from, n) == #[trigger] f(from + i),
    decreases n,
{
    if n > 0 {
        lemma_window_max_bounds(f, from, (n - 1) as nat);
        let m = window_max(f, from, (n - 1) as nat);
        if f(from + n - 1) <= m && n > 1 {
            let i = choose|i: int| 0 <= i < n - 1 && m == #[trigger] f(from + i);
            assert(window_max(f, from, n) == f(from + i));
        }
        if n == 1 {
            assert(window_max(f, from, n) == f(from + 0));
        }
    }
}

proof fn lemma_total_on_nonneg(cals: Seq<Calendar>, d: int)
    ensures
        total_on(cals, d) >= 0,
    decreases cals.len(),
{
    if cals.len() > 0 {
        lemma_total_on_nonneg(cals.drop_last(), d);
    }
}

/// The maximum height over a window is at least the (capped) event count of
/// every single day in the window.
pub proof fn lemma_max_height_bounds_each_day(cal: Calendar, from: int, number: int, i: int)
    requires
        0 <= i < number,
    ensures
        cal.spec_max_height(from, number) >= clamp_u16(cal.count_on(from + i)),
{
    let f = |d: int| cal.count_on(d);
    lemma_window_max_bounds(f, from, number as nat);
    assert(f(from + i) == cal.count_on(from + i));
}

/// For a collection of calendars, the maximum height over a window is the
/// per-date sum of event counts across the calendars, maximized over the
/// window (and capped at the largest `u16`).
pub proof fn lemma_max_height_sums_calendars(cals: Vec<Calendar>, from: int, number: int)
    requires
        number > 0,
    ensures
        forall|i: int|
            0 <= i < number ==> cals.spec_max_height(from, number) >= clamp_u16(
                #[trigger] total_on(cals@, from + i),
            ),
        exists|i: int|
            0 <= i < number && cals.spec_max_height(from, number) == clamp_u16(
                #[trigger] total_on(cals@, from + i),
            ),
{
    let f = |d: int| total_on(cals@, d);
    assert forall|d: int| #[trigger] f(d) >= 0 by {
        lemma_total_on_nonneg(cals@, d);
    }
    lemma_window_max_bounds(f, from, number as nat);
    assert forall|i: int|
        0 <= i < number implies cals.spec_max_height(from, number) >= clamp_u16(
        #[trigger] total_on(cals@, from + i),
    ) by {
        assert(f(from + i) == total_on(cals@, from + i));
    }
    let i = choose|i: int| 0 <= i < number && window_max(f, from, number as nat) == #[trigger] f(
        from + i,
    );
    assert(cals.spec_max_height(from, number) == clamp_u16(total_on(cals@, from + i)));
}

} // verus!
