//! Laying a calendar view out on a terminal of a given size.
use vstd::prelude::*;

use crate::model::{Calendar, Day, EventView, MaxHeight, Style};
use tui::layout::{Constraint, Direction, Layout, Rect};

verus! {

/// The width, in character columns, that one day is given when the number
/// of days follows from the terminal's width.
pub const COLUMN_WIDTH: u16 = 26;

/// The margin, in cells, around the columns of the default view.
pub const VIEW_MARGIN: u16 = 1;

/// Lines taken by a block's borders and title.
pub const BLOCK_CHROME: u16 = 4;

/// A rectangle of terminal cells.
#[derive(Clone, Copy, Debug, PartialEq, Eq, Structural)]
pub struct Area {
    pub x: u16,
    pub y: u16,
    pub width: u16,
    pub height: u16,
}

pub open spec fn sat_u16(x: int) -> int {
    if x > u16::MAX {
        u16::MAX as int
    } else if x < 0 {
        0
    } else {
        x
    }
}

pub open spec fn min_int(a: int, b: int) -> int {
    if a < b {
        a
    } else {
        b
    }
}

/// The first row below the area (capped at the largest `u16`).
pub open spec fn bottom(a: Area) -> int {
    sat_u16(a.y + a.height)
}

/// The first column right of the area (capped at the largest `u16`).
pub open spec fn right(a: Area) -> int {
    sat_u16(a.x + a.width)
}

/// The interior of a block that has a border on every side.
pub open spec fn spec_block_inner(a: Area) -> Area {
    Area {
        x: min_int(sat_u16(a.x + 1), right(a)) as u16,
        y: min_int(sat_u16(a.y + 1), bottom(a)) as u16,
        width: sat_u16(a.width - 2) as u16,
        height: sat_u16(a.height - 2) as u16,
    }
}

/// The interior of a block that has a border on every side.
pub fn block_inner(a: Area) -> (r: Area)
    ensures
        r == spec_block_inner(a),
{
    let right = a.x.saturating_add(a.width);
    let bottom = a.y.saturating_add(a.height);
    let x = a.x.saturating_add(1);
    let y = a.y.saturating_add(1);
    Area {
        x: if x < right {
            x
        } else {
            right
        },
        y: if y < bottom {
            y
        } else {
            bottom
        },
        width: a.width.saturating_sub(2),
        height: a.height.saturating_sub(2),
    }
}

/// How many one-line rows fit in `inner` above its bottom.
pub open spec fn row_capacity(inner: Area) -> int {
    bottom(inner) - inner.y
}

/// The `j`-th one-line row of `inner`.
pub open spec fn row_area(inner: Area, j: int) -> Area {
    Area { x: inner.x, y: (inner.y + j) as u16, width: inner.width, height: 1 }
}

/// One line of a block: an event's name in the event's style.
#[derive(Debug)]
pub struct Row {
    pub area: Area,
    pub text: String,
    pub style: Style,
}

/// A bordered block for one day, titled with its date key.
#[derive(Debug)]
pub struct DayBlock {
    pub area: Area,
    pub date: u64,
    pub rows: Vec<Row>,
}

/// `rows` shows `events` in order, one per line inside `area`'s borders,
/// as many as fit.
pub open spec fn rows_match(rows: Seq<Row>, area: Area, events: Seq<EventView>) -> bool {
    let inner = spec_block_inner(area);
    &&& rows.len() == min_int(events.len() as int, row_capacity(inner))
    &&& forall|j: int|
        0 <= j < rows.len() ==> {
            &&& (#[trigger] rows[j]).area == row_area(inner, j)
            &&& rows[j].text@ == events[j].name
            &&& rows[j].style == events[j].style
        }
}

/// `b` is the block of date `date` with `events`, drawn at `area`.
pub open spec fn block_matches(b: DayBlock, area: Area, date: u64, events: Seq<EventView>) -> bool {
    &&& b.area == area
    &&& b.date == date
    &&& rows_match(b.rows@, area, events)
}

/// Lays out the rows of a day's block at `area`: one line per event, top to
/// bottom in stored order; the events that would reach the bottom border
/// are left out.
pub fn render_vertical_paragraphs(day: &Day, area: Area) -> (r: Vec<Row>)
    ensures
        rows_match(r@, area, day@.events),
{
    let inner = block_inner(area);
    let limit = inner.y.saturating_add(inner.height);
    let mut rows: Vec<Row> = Vec::new();
    let mut j: usize = 0;
    while j < day.events.len()
        invariant
            j <= day.events.len(),
            inner == spec_block_inner(area),
            limit == bottom(inner),
            inner.y <= limit,
            j <= row_capacity(inner),
            rows.len() == j,
            forall|m: int|
                0 <= m < j ==> {
                    &&& (#[trigger] rows@[m]).area == row_area(inner, m)
                    &&& rows@[m].text@ == day@.events[m].name
                    &&& rows@[m].style == day@.events[m].style
                },
        ensures
            j == day.events.len() || j == row_capacity(inner),
            j <= day.events.len(),
            j <= row_capacity(inner),
            rows.len() == j,
            forall|m: int|
                0 <= m < j ==> {
                    &&& (#[trigger] rows@[m]).area == row_area(inner, m)
                    &&& rows@[m].text@ == day@.events[m].name
                    &&& rows@[m].style == day@.events[m].style
                },
        decreases day.events.len() - j,
    {
        if j >= (limit - inner.y) as usize {
            break;
        }
        let e = &day.events[j];
        assert(e@ == day@.events[j as int]);
        rows.push(
            Row {
                area: Area { x: inner.x, y: inner.y + j as u16, width: inner.width, height: 1 },
                text: e.name.clone(),
                style: e.style,
            },
        );
        j = j + 1;
    }
    rows
}

/// The block of a day, drawn at `area`.
pub fn render_default_block(day: &Day, area: Area) -> (r: DayBlock)
    ensures
        block_matches(r, area, day@.date, day@.events),
{
    DayBlock { area, date: day.date, rows: render_vertical_paragraphs(day, area) }
}

/// The area that the terminal layer gives a viewport of `width` by
/// `height` cells at the top left corner.
pub uninterp spec fn clipped_area(width: u16, height: u16) -> Area;

/// Relies on `tui::layout::Rect::new`: a rectangle at (0, 0); it keeps
/// width and height where their product fits a `u16` and shrinks them
/// otherwise.
#[verifier::external_body]
fn viewport_area(width: u16, height: u16) -> (r: Area)
    ensures
        r == clipped_area(width, height),
        r.x == 0,
        r.y == 0,
        width * height <= u16::MAX ==> r.width == width && r.height == height,
{
    let r = tui::layout::Rect::new(0, 0, width, height);
    Area { x: r.x, y: r.y, width: r.width, height: r.height }
}

/// Relies on `tui::layout::Layout::split`, horizontal, with a margin and
/// `n` constraints `Ratio(1, n)`: one area per constraint. Which areas come
/// back is left open: the solver's choices may differ from one process to
/// the next.
#[verifier::external_body]
fn split_even(area: Area, margin: u16, n: usize) -> (r: Vec<Area>)
    requires
        0 < n <= u32::MAX,
        2 * margin <= u16::MAX,
        area.x + margin <= u16::MAX,
        area.y + margin <= u16::MAX,
    ensures
        r@.len() == n,
{
    let rect = Rect { x: area.x, y: area.y, width: area.width, height: area.height };
    Layout::default()
        .direction(Direction::Horizontal)
        .margin(margin)
        .constraints(vec![Constraint::Ratio(1, n as u32); n])
        .split(rect)
        .into_iter()
        .map(|c| Area { x: c.x, y: c.y, width: c.width, height: c.height })
        .collect()
}

/// Maximum number of default blocks that should be drawn, depending
/// on the terminal width.
pub fn max_default_blocks(width: u16) -> (r: u16)
    ensures
        r == width / COLUMN_WIDTH,
{
    width / COLUMN_WIDTH
}

/// The number of days to show: `days`, or as many as the terminal's width
/// allows where `days` is zero.
pub open spec fn spec_day_count(days: usize, width: u16) -> int {
    if days == 0 {
        (width / COLUMN_WIDTH) as int
    } else {
        days as int
    }
}

pub fn day_count(days: usize, width: u16) -> (r: usize)
    ensures
        r == spec_day_count(days, width),
{
    if days == 0 {
        max_default_blocks(width) as usize
    } else {
        days
    }
}

/// The viewport's height: room for the busiest day of the window in all
/// calendars together plus the blocks' chrome, but at most one line less
/// than the terminal, which keeps a line for the command line.
pub open spec fn spec_viewport_height(cals: Vec<Calendar>, today: u64, n: usize, term_height: u16) -> int {
    min_int(cals.spec_max_height(today as int, n as int) + BLOCK_CHROME, term_height - 1)
}

pub fn viewport_height(cals: &Vec<Calendar>, today: u64, n: usize, term_height: u16) -> (r: u16)
    requires
        n > 0,
        today + n <= u64::MAX + 1,
        term_height > 0,
    ensures
        r == spec_viewport_height(*cals, today, n, term_height),
{
    let h = cals.max_height(today, n).saturating_add(BLOCK_CHROME);
    let limit = term_height - 1;
    if h < limit {
        h
    } else {
        limit
    }
}

/// The events of date `d` in `cal`, none where it has no such day.
pub open spec fn events_of(cal: Calendar, d: u64) -> Seq<EventView> {
    if cal@.contains_key(d) {
        cal@[d]
    } else {
        Seq::empty()
    }
}

/// The day of date `date`, empty where the calendar has none.
pub fn day_or_empty(cal: &Calendar, date: u64) -> (r: Day)
    requires
        cal.wf(),
    ensures
        r@.date == date,
        r@.events == events_of(*cal, date),
{
    match cal.days.get(&date) {
        None => Day::empty(date),
        Some(day) => day.clone(),
    }
}

/// Lays out the blocks of the `columns.len()` days from date key `today`
/// on: block `i` stands in `columns[i]` and shows the events of date
/// `today + i` of `cal`.
pub fn layout_blocks(cal: &Calendar, columns: &Vec<Area>, today: u64) -> (r: Vec<DayBlock>)
    requires
        cal.wf(),
        today + columns.len() <= u64::MAX + 1,
    ensures
        r.len() == columns.len(),
        forall|i: int|
            0 <= i < columns.len() ==> block_matches(
                #[trigger] r@[i],
                columns@[i],
                (today + i) as u64,
                events_of(*cal, (today + i) as u64),
            ),
{
    let mut blocks: Vec<DayBlock> = Vec::new();
    let mut i: usize = 0;
    while i < columns.len()
        invariant
            i <= columns.len(),
            today + columns.len() <= u64::MAX + 1,
            cal.wf(),
            blocks.len() == i,
            forall|m: int|
                0 <= m < i ==> block_matches(
                    #[trigger] blocks@[m],
                    columns@[m],
                    (today + m) as u64,
                    events_of(*cal, (today + m) as u64),
                ),
        decreases columns.len() - i,
    {
        let date = today + i as u64;
        let day = day_or_empty(cal, date);
        blocks.push(render_default_block(&day, columns[i]));
        i = i + 1;
    }
    blocks
}

/// A laid-out view: the viewport, the columns that the terminal layer made
/// of it, and one block per day, block `i` in column `i`.
#[derive(Debug)]
pub struct ViewPlan {
    pub viewport: Area,
    pub columns: Vec<Area>,
    pub blocks: Vec<DayBlock>,
}

/// What the default view of `cals` is on a `width` by `height` terminal on
/// day `today`: as many columns as `spec_day_count` gives, and block `i`,
/// standing in column `i`, the block of date `today + i` of the first
/// calendar.
pub open spec fn view_matches(
    plan: ViewPlan,
    cals: Vec<Calendar>,
    days: usize,
    width: u16,
    height: u16,
    today: u64,
) -> bool {
    let n = spec_day_count(days, width);
    let viewport = clipped_area(width, spec_viewport_height(cals, today, n as usize, height) as u16);
    &&& plan.viewport == viewport
    &&& plan.columns.len() == n
    &&& plan.blocks.len() == n
    &&& forall|i: int|
        0 <= i < n ==> block_matches(
            #[trigger] plan.blocks@[i],
            plan.columns@[i],
            (today + i) as u64,
            events_of(cals@[0], (today + i) as u64),
        )
}

/// Lays out the default view: `days` columns (or as many as the width
/// allows where `days` is zero) starting at date key `today`, each showing
/// that date's events of the first calendar; the height fits the busiest
/// date of all calendars together.
pub fn render_view_default(cals: &Vec<Calendar>, days: usize, width: u16, height: u16, today: u64) -> (r: ViewPlan)
    requires
        cals.len() > 0,
        forall|i: int| 0 <= i < cals.len() ==> (#[trigger] cals@[i]).wf(),
        spec_day_count(days, width) > 0,
        spec_day_count(days, width) <= u32::MAX,
        today + spec_day_count(days, width) <= u64::MAX + 1,
        height > 0,
    ensures
        view_matches(r, *cals, days, width, height, today),
{
    let n = day_count(days, width);
    let h = viewport_height(cals, today, n, height);
    let viewport = viewport_area(width, h);
    let columns = split_even(viewport, VIEW_MARGIN, n);
    let blocks = layout_blocks(&cals[0], &columns, today);
    ViewPlan { viewport, columns, blocks }
}

/// A calendar without events lays out as one block per day of the window,
/// each titled with its own date and holding no rows.
pub proof fn lemma_empty_calendar_view(
    plan: ViewPlan,
    cals: Vec<Calendar>,
    days: usize,
    width: u16,
    height: u16,
    today: u64,
)
    requires
        view_matches(plan, cals, days, width, height, today),
        cals.len() > 0,
        today + spec_day_count(days, width) <= u64::MAX + 1,
        forall|d: u64| #[trigger] events_of(cals@[0], d).len() == 0,
    ensures
        plan.blocks.len() == spec_day_count(days, width),
        forall|i: int|
            0 <= i < plan.blocks.len() ==> (#[trigger] plan.blocks@[i]).date == today + i
                && plan.blocks@[i].rows.len() == 0,
{
    assert forall|i: int| 0 <= i < plan.blocks.len() implies (#[trigger] plan.blocks@[i]).date
        == today + i && plan.blocks@[i].rows.len() == 0 by {
        let d = (today + i) as u64;
        assert(events_of(cals@[0], d).len() == 0);
    }
}

/// A day with more events than its block has interior lines shows exactly
/// as many rows as fit: the first events, in stored order, each row inside
/// the block above its bottom border.
pub proof fn lemma_truncation(b: DayBlock, area: Area, date: u64, events: Seq<EventView>)
    requires
        block_matches(b, area, date, events),
        row_capacity(spec_block_inner(area)) < events.len(),
    ensures
        b.rows.len() == row_capacity(spec_block_inner(area)),
        forall|j: int|
            0 <= j < b.rows.len() ==> {
                &&& (#[trigger] b.rows@[j]).text@ == events[j].name
                &&& b.rows@[j].style == events[j].style
                &&& spec_block_inner(area).y <= b.rows@[j].area.y
                &&& b.rows@[j].area.y + b.rows@[j].area.height <= bottom(spec_block_inner(area))
            },
        spec_block_inner(area).y + spec_block_inner(area).height <= u16::MAX ==> row_capacity(
            spec_block_inner(area),
        ) == spec_block_inner(area).height,
{
}

/// In a block at least two cells wide and high that ends within the
/// terminal's coordinates, a day with more events than the `area.height - 2`
/// interior lines shows exactly that many: row `j` on line `area.y + 1 + j`
/// holds event `j`, every row lies between the side borders and above the
/// bottom border, and the later events are not shown.
pub proof fn lemma_truncation_in_block(b: DayBlock, area: Area, date: u64, events: Seq<EventView>)
    requires
        block_matches(b, area, date, events),
        area.height >= 2,
        area.width >= 2,
        area.y + area.height <= u16::MAX,
        area.x + area.width <= u16::MAX,
        area.height - 2 < events.len(),
    ensures
        b.rows.len() == area.height - 2,
        forall|j: int|
            0 <= j < b.rows.len() ==> {
                &&& (#[trigger] b.rows@[j]).text@ == events[j].name
                &&& b.rows@[j].style == events[j].style
                &&& b.rows@[j].area.y == area.y + 1 + j
                &&& b.rows@[j].area.height == 1
                &&& b.rows@[j].area.y < area.y + area.height - 1
                &&& b.rows@[j].area.x == area.x + 1
                &&& b.rows@[j].area.x + b.rows@[j].area.width == area.x + area.width - 1
            },
{
}

} // verus!
