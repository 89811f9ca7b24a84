//! Turning a stream of calendar properties into events.
use vstd::prelude::*;

use crate::model::{bucketed, event_default_style, spec_event_default_style, Calendar, Event, EventView};

verus! {

/// The separator between the date and the time of a start timestamp.
pub open spec fn is_time_sep(c: char) -> bool {
    c == 'T'
}

/// The position of the first time separator in `v`, or its length.
pub open spec fn sep_index(v: Seq<char>) -> nat
    decreases v.len(),
{
    if v.len() == 0 {
        0
    } else if is_time_sep(v[0]) {
        0
    } else {
        sep_index(v.drop_first()) + 1
    }
}

/// The date-bearing part of a start timestamp: all before the first
/// time separator.
pub open spec fn date_fragment(v: Seq<char>) -> Seq<char> {
    v.take(sep_index(v) as int)
}

pub open spec fn is_digit(c: char) -> bool {
    '0' <= c <= '9'
}

/// The number that the decimal digits `s` spell.
pub open spec fn decimal_value(s: Seq<char>) -> int
    decreases s.len(),
{
    if s.len() == 0 {
        0
    } else {
        decimal_value(s.drop_last()) * 10 + (s.last() as int - '0' as int)
    }
}

/// The date key that a date fragment spells: one or more decimal digits
/// whose value fits a `u64`.
pub open spec fn spec_date_key(s: Seq<char>) -> Option<u64> {
    if s.len() > 0 && (forall|i: int| 0 <= i < s.len() ==> is_digit(#[trigger] s[i]))
        && decimal_value(s) <= u64::MAX {
        Some(decimal_value(s) as u64)
    } else {
        None
    }
}

proof fn lemma_sep_index(v: Seq<char>, i: int)
    requires
        0 <= i <= v.len(),
        forall|j: int| 0 <= j < i ==> !is_time_sep(#[trigger] v[j]),
        i < v.len() ==> is_time_sep(v[i]),
    ensures
        sep_index(v) == i,
    decreases v.len(),
{
    if v.len() > 0 && i > 0 {
        assert(!is_time_sep(v[0]));
        assert forall|j: int| 0 <= j < i - 1 implies !is_time_sep(#[trigger] v.drop_first()[j]) by {
            assert(v.drop_first()[j] == v[j + 1]);
        }
        if i < v.len() {
            assert(v.drop_first()[i - 1] == v[i]);
        }
        lemma_sep_index(v.drop_first(), i - 1);
    }
}

proof fn lemma_decimal_prefix(s: Seq<char>, i: int)
    requires
        0 <= i <= s.len(),
        forall|j: int| 0 <= j < s.len() ==> is_digit(#[trigger] s[j]),
    ensures
        decimal_value(s.take(i)) <= decimal_value(s),
        decimal_value(s.take(i)) >= 0,
    decreases s.len(),
{
    if i < s.len() {
        let t = s.drop_last();
        assert(s.take(i) =~= t.take(i));
        assert forall|j: int| 0 <= j < t.len() implies is_digit(#[trigger] t[j]) by {
            assert(t[j] == s[j]);
        }
        lemma_decimal_prefix(t, i);
        assert(is_digit(s[s.len() - 1]));
    } else {
        assert(s.take(i) =~= s);
        lemma_decimal_nonneg(s);
    }
}

proof fn lemma_decimal_nonneg(s: Seq<char>)
    requires
        forall|j: int| 0 <= j < s.len() ==> is_digit(#[trigger] s[j]),
    ensures
        decimal_value(s) >= 0,
    decreases s.len(),
{
    if s.len() > 0 {
        let t = s.drop_last();
        assert forall|j: int| 0 <= j < t.len() implies is_digit(#[trigger] t[j]) by {
            assert(t[j] == s[j]);
        }
        lemma_decimal_nonneg(t);
        assert(is_digit(s[s.len() - 1]));
    }
}

/// The date key that a start timestamp carries, if its date fragment
/// is numeric.
pub fn parse_date_key(v: &str) -> (r: Option<u64>)
    ensures
        r == spec_date_key(date_fragment(v@)),
{
    let n = v.unicode_len();
    let mut end: usize = 0;
    while end < n
        invariant
            n == v@.len(),
            end <= n,
            forall|j: int| 0 <= j < end ==> !is_time_sep(#[trigger] v@[j]),
        ensures
            end <= n,
            forall|j: int| 0 <= j < end ==> !is_time_sep(#[trigger] v@[j]),
            end < n ==> is_time_sep(v@[end as int]),
        decreases n - end,
    {
        if v.get_char(end) == 'T' {
            break;
        }
        end = end + 1;
    }
    proof {
        lemma_sep_index(v@, end as int);
    }
    let ghost frag = date_fragment(v@);
    assert(frag.len() == end);
    if end == 0 {
        return None;
    }
    let mut acc: u64 = 0;
    let mut i: usize = 0;
    while i < end
        invariant
            n == v@.len(),
            end <= n,
            frag == v@.take(end as int),
            frag == date_fragment(v@),
            i <= end,
            forall|j: int| 0 <= j < i ==> is_digit(#[trigger] frag[j]),
            acc == decimal_value(frag.take(i as int)),
        decreases end - i,
    {
        let c = v.get_char(i);
        assert(c == frag[i as int]);
        if c < '0' || c > '9' {
            assert(!is_digit(frag[i as int]));
            return None;
        }
        let d = (c as u32 - '0' as u32) as u64;
        assert(frag.take(i + 1).drop_last() =~= frag.take(i as int));
        if acc > (u64::MAX - d) / 10 {
            proof {
                let x = acc as int;
                let dd = d as int;
                assert(x * 10 + dd > u64::MAX) by (nonlinear_arith)
                    requires
                        x > (u64::MAX - dd) / 10,
                        0 <= dd <= 9,
                ;
                assert forall|j: int| 0 <= j < i + 1 implies is_digit(
                    #[trigger] frag.take(i + 1)[j],
                ) by {}
                if forall|j: int| 0 <= j < frag.len() ==> is_digit(#[trigger] frag[j]) {
                    lemma_decimal_prefix(frag, i + 1);
                }
            }
            return None;
        }
        acc = acc * 10 + d;
        i = i + 1;
    }
    assert(frag.take(end as int) =~= frag);
    Some(acc)
}

/// One `name:value` entry of a property list. A value may be absent.
#[derive(Debug)]
pub struct Property {
    pub name: String,
    pub value: Option<String>,
}

/// A property as plain text: its name and, if present, its value.
pub type PropertyView = (Seq<char>, Option<Seq<char>>);

impl View for Property {
    type V = PropertyView;

    open spec fn view(&self) -> PropertyView {
        (
            self.name@,
            match self.value {
                Some(v) => Some(v@),
                None => None,
            },
        )
    }
}

pub open spec fn properties_view(v: Seq<Property>) -> Seq<PropertyView> {
    v.map_values(|p: Property| p@)
}

/// What can make a property list unusable.
#[derive(Clone, Copy, Debug, PartialEq, Eq, Structural)]
pub enum ParseError {
    /// The text is not a property list.
    Syntax,
    /// A start timestamp whose date part is not a number.
    BadDate,
}

/// An event under construction; `date` is set by the first start timestamp.
pub struct PendingEvent {
    pub name: String,
    pub description: String,
    pub date: Option<u64>,
}

pub struct PendingView {
    pub name: Seq<char>,
    pub description: Seq<char>,
    pub date: Option<u64>,
}

impl View for PendingEvent {
    type V = PendingView;

    open spec fn view(&self) -> PendingView {
        PendingView { name: self.name@, description: self.description@, date: self.date }
    }
}

/// The parser's state: whether the preamble is over, and the event under
/// construction, if any.
pub struct EventParser {
    pub started: bool,
    pub current: Option<PendingEvent>,
}

pub struct ParserView {
    pub started: bool,
    pub current: Option<PendingView>,
}

impl View for EventParser {
    type V = ParserView;

    open spec fn view(&self) -> ParserView {
        ParserView {
            started: self.started,
            current: match self.current {
                Some(p) => Some(p@),
                None => None,
            },
        }
    }
}

pub open spec fn empty_pending() -> PendingView {
    PendingView { name: Seq::empty(), description: Seq::empty(), date: None }
}

/// The event that a finished pending event becomes; without a start
/// timestamp its date key is 0.
pub open spec fn finish(p: PendingView) -> EventView {
    EventView {
        name: p.name,
        description: p.description,
        date: match p.date {
            Some(d) => d,
            None => 0,
        },
        style: spec_event_default_style(),
    }
}

pub open spec fn is_marker(name: Seq<char>, v: Seq<char>, kind: Seq<char>) -> bool {
    name == kind && v == "VEVENT"@
}

/// One transition: the next state and the event completed by the entry, or
/// `None` where a start timestamp's date is malformed.
pub open spec fn step_spec(st: ParserView, name: Seq<char>, value: Option<Seq<char>>) -> Option<
    (ParserView, Option<EventView>),
> {
    if !st.started && value is None {
        Some((st, None))
    } else {
        let v = match value {
            Some(v) => v,
            None => Seq::empty(),
        };
        if is_marker(name, v, "BEGIN"@) {
            Some((ParserView { started: true, current: Some(empty_pending()) }, None))
        } else if is_marker(name, v, "END"@) {
            match st.current {
                Some(p) => Some((ParserView { started: true, current: None }, Some(finish(p)))),
                None => Some((ParserView { started: true, current: None }, None)),
            }
        } else {
            match st.current {
                None => Some((ParserView { started: true, current: None }, None)),
                Some(p) => if name == "SUMMARY"@ {
                    Some((ParserView { started: true, current: Some(PendingView { name: v, ..p }) }, None))
                } else if name == "DESCRIPTION"@ {
                    Some((ParserView { started: true, current: Some(PendingView { description: v, ..p }) }, None))
                } else if name == "DTSTART"@ {
                    match spec_date_key(date_fragment(v)) {
                        Some(k) => Some((ParserView { started: true, current: Some(if p.date is None {
                            PendingView { date: Some(k), ..p }
                        } else {
                            p
                        }) }, None)),
                        None => None,
                    }
                } else {
                    Some((ParserView { started: true, current: Some(p) }, None))
                },
            }
        }
    }
}

pub open spec fn initial_parser() -> ParserView {
    ParserView { started: false, current: None }
}

/// The parser's state and the events completed after the entries `ps`, or
/// `None` where one of them is a malformed start timestamp.
pub open spec fn run(ps: Seq<PropertyView>) -> Option<(ParserView, Seq<EventView>)>
    decreases ps.len(),
{
    if ps.len() == 0 {
        Some((initial_parser(), Seq::empty()))
    } else {
        match run(ps.drop_last()) {
            None => None,
            Some(r) => match step_spec(r.0, ps.last().0, ps.last().1) {
                None => None,
                Some(t) => Some(
                    (
                        t.0,
                        match t.1 {
                            Some(e) => r.1.push(e),
                            None => r.1,
                        },
                    ),
                ),
            },
        }
    }
}

/// The events that a property list describes, in order.
pub open spec fn spec_parse_events(ps: Seq<PropertyView>) -> Option<Seq<EventView>> {
    match run(ps) {
        Some(r) => Some(r.1),
        None => None,
    }
}

/// `s@ == lit@`, decided.
fn text_is(s: &String, lit: &str) -> (r: bool)
    ensures
        r == (s@ == lit@),
{
    *s == lit.to_owned()
}

impl EventParser {
    pub fn new() -> (r: EventParser)
        ensures
            r@ == initial_parser(),
    {
        EventParser { started: false, current: None }
    }

    /// Feeds one property to the parser; returns the event that it completes.
    pub fn step(&mut self, p: &Property) -> (r: Result<Option<Event>, ParseError>)
        ensures
            match step_spec(old(self)@, p@.0, p@.1) {
                None => r == Err::<Option<Event>, ParseError>(ParseError::BadDate),
                Some(t) => r is Ok && final(self)@ == t.0 && match r {
                    Ok(Some(e)) => t.1 == Some(e@),
                    _ => t.1 is None,
                },
            },
    {
        if !self.started && p.value.is_none() {
            return Ok(None);
        }
        let v = match &p.value {
            Some(v) => v.clone(),
            None => String::new(),
        };
        self.started = true;
        let is_event = text_is(&v, "VEVENT");
        if is_event && text_is(&p.name, "BEGIN") {
            self.current = Some(
                PendingEvent { name: String::new(), description: String::new(), date: None },
            );
            return Ok(None);
        }
        if is_event && text_is(&p.name, "END") {
            let done = match self.current.take() {
                Some(c) => Some(
                    Event {
                        name: c.name,
                        description: c.description,
                        date: match c.date {
                            Some(d) => d,
                            None => 0,
                        },
                        style: event_default_style(),
                    },
                ),
                None => None,
            };
            return Ok(done);
        }
        match &mut self.current {
            None => {},
            Some(c) => {
                if text_is(&p.name, "SUMMARY") {
                    c.name = v;
                } else if text_is(&p.name, "DESCRIPTION") {
                    c.description = v;
                } else if text_is(&p.name, "DTSTART") {
                    match parse_date_key(v.as_str()) {
                        Some(k) => if c.date.is_none() {
                            c.date = Some(k);
                        },
                        None => return Err(ParseError::BadDate),
                    }
                }
            },
        }
        Ok(None)
    }
}

/// Turns a property list into the events it describes, in order.
pub fn parse_events(props: &Vec<Property>) -> (r: Result<Vec<Event>, ParseError>)
    ensures
        match spec_parse_events(properties_view(props@)) {
            Some(evs) => r is Ok && crate::model::events_view(r->Ok_0@) == evs,
            None => r == Err::<Vec<Event>, ParseError>(ParseError::BadDate),
        },
{
    let ghost ps = properties_view(props@);
    let mut parser = EventParser::new();
    let mut out: Vec<Event> = Vec::new();
    let mut i: usize = 0;
    while i < props.len()
        invariant
            i <= props.len(),
            ps == properties_view(props@),
            run(ps.take(i as int)) == Some((parser@, crate::model::events_view(out@))),
        decreases props.len() - i,
    {
        let ghost pre = ps.take(i as int);
        assert(ps.take(i + 1).drop_last() =~= pre);
        assert(ps.take(i + 1).last() == props@[i as int]@);
        match parser.step(&props[i]) {
            Err(e) => {
                proof {
                    lemma_run_stuck(ps, i + 1);
                }
                return Err(e);
            },
            Ok(None) => {},
            Ok(Some(e)) => {
                let ghost prev = out@;
                out.push(e);
                assert(crate::model::events_view(out@) =~= crate::model::events_view(prev).push(
                    e@,
                ));
            },
        }
        i = i + 1;
    }
    assert(ps.take(props.len() as int) =~= ps);
    Ok(out)
}

/// Once a prefix fails, the whole list fails.
proof fn lemma_run_stuck(ps: Seq<PropertyView>, n: int)
    requires
        0 <= n <= ps.len(),
        run(ps.take(n)) is None,
    ensures
        run(ps) is None,
    decreases ps.len() - n,
{
    if n < ps.len() {
        assert(ps.take(n + 1).drop_last() =~= ps.take(n));
        lemma_run_stuck(ps, n + 1);
    } else {
        assert(ps.take(n) =~= ps);
    }
}

/// An entry that opens an event.
pub open spec fn is_begin(p: PropertyView) -> bool {
    p.0 == "BEGIN"@ && p.1 == Some("VEVENT"@)
}

/// An entry that closes an event.
pub open spec fn is_end(p: PropertyView) -> bool {
    p.0 == "END"@ && p.1 == Some("VEVENT"@)
}

/// How many events are open after `ps`, or `None` where the markers do not
/// alternate between opening and closing, starting with an opening one.
pub open spec fn marker_depth(ps: Seq<PropertyView>) -> Option<nat>
    decreases ps.len(),
{
    if ps.len() == 0 {
        Some(0)
    } else {
        match marker_depth(ps.drop_last()) {
            None => None,
            Some(d) => if is_begin(ps.last()) {
                if d == 0 {
                    Some(1)
                } else {
                    None
                }
            } else if is_end(ps.last()) {
                if d == 1 {
                    Some(0)
                } else {
                    None
                }
            } else {
                Some(d)
            },
        }
    }
}

/// The number of entries of `ps` that close an event.
pub open spec fn count_ends(ps: Seq<PropertyView>) -> nat
    decreases ps.len(),
{
    if ps.len() == 0 {
        0
    } else {
        count_ends(ps.drop_last()) + if is_end(ps.last()) {
            1nat
        } else {
            0nat
        }
    }
}

/// The number of entries of `ps` that open an event.
pub open spec fn count_begins(ps: Seq<PropertyView>) -> nat
    decreases ps.len(),
{
    if ps.len() == 0 {
        0
    } else {
        count_begins(ps.drop_last()) + if is_begin(ps.last()) {
            1nat
        } else {
            0nat
        }
    }
}

/// A property list whose event markers pair up (each opening followed by
/// its closing before the next opening) and whose start timestamps parse.
pub open spec fn well_formed(ps: Seq<PropertyView>) -> bool {
    marker_depth(ps) == Some(0nat) && spec_parse_events(ps) is Some
}

proof fn lemma_run_counts(ps: Seq<PropertyView>)
    requires
        run(ps) is Some,
        marker_depth(ps) is Some,
    ensures
        run(ps)->Some_0.1.len() == count_ends(ps),
        run(ps)->Some_0.0.current is Some <==> marker_depth(ps)->Some_0 == 1,
        marker_depth(ps)->Some_0 <= 1,
        count_begins(ps) == count_ends(ps) + marker_depth(ps)->Some_0,
    decreases ps.len(),
{
    if ps.len() > 0 {
        let t = ps.drop_last();
        let p = ps.last();
        lemma_run_counts(t);
        reveal_strlit("BEGIN");
        reveal_strlit("END");
        reveal_strlit("VEVENT");
        assert("BEGIN"@ != "END"@) by {
            assert("BEGIN"@.len() != "END"@.len());
        }
        assert(Seq::<char>::empty() != "VEVENT"@) by {
            assert("VEVENT"@.len() == 6);
        }
    }
}

/// Parsing a well-formed property list yields one event per pair of
/// opening and closing markers.
pub proof fn lemma_one_event_per_marker_pair(ps: Seq<PropertyView>)
    requires
        well_formed(ps),
    ensures
        spec_parse_events(ps)->Some_0.len() == count_begins(ps),
        count_begins(ps) == count_ends(ps),
{
    lemma_run_counts(ps);
}

#[verifier::external_type_specification]
#[verifier::external_body]
pub struct ExPropertyError(ical::property::PropertyError);

/// The properties that the iCalendar property reader finds in `text`, or
/// `None` where it rejects a line.
pub uninterp spec fn ical_properties(text: Seq<char>) -> Option<Seq<PropertyView>>;

/// Relies on `ical::PropertyParser`: reads the (unfolded) content lines of
/// `text` as properties, in order, and fails on the first line it rejects.
/// The outcome depends on the text alone.
#[verifier::external_body]
fn read_properties(text: &str) -> (r: Result<Vec<Property>, ical::property::PropertyError>)
    ensures
        match r {
            Ok(v) => ical_properties(text@) == Some(properties_view(v@)),
            Err(_) => ical_properties(text@) is None,
        },
{
    ical::PropertyParser::from_reader(text.as_bytes())
        .map(|r| r.map(|p| Property { name: p.name, value: p.value }))
        .collect()
}

impl Calendar {
    /// The calendar of the events that a property list describes.
    pub fn from_properties(props: &Vec<Property>) -> (r: Result<Calendar, ParseError>)
        ensures
            match spec_parse_events(properties_view(props@)) {
                None => r == Err::<Calendar, ParseError>(ParseError::BadDate),
                Some(evs) => r is Ok && r->Ok_0.wf() && r->Ok_0@ == bucketed(evs),
            },
    {
        let events = parse_events(props)?;
        Ok(Calendar::from_events(&events))
    }

    /// Reads a calendar from the text of an iCalendar source.
    pub fn from_text(text: &str) -> (r: Result<Calendar, ParseError>)
        ensures
            match ical_properties(text@) {
                None => r == Err::<Calendar, ParseError>(ParseError::Syntax),
                Some(ps) => match spec_parse_events(ps) {
                    None => r == Err::<Calendar, ParseError>(ParseError::BadDate),
                    Some(evs) => r is Ok && r->Ok_0.wf() && r->Ok_0@ == bucketed(evs),
                },
            },
    {
        match read_properties(text) {
            Err(_) => Err(ParseError::Syntax),
            Ok(props) => Calendar::from_properties(&props),
        }
    }
}

} // verus!
