use crate::app::{calendar_with_id, starts_on_sunday, week_offset, App, EditorField, EventEditor, Mode, View};
use crate::event_details::{meeting_url, meeting_url_spec};
use crate::date::{ymd_of, Day, MAX_DAY, MIN_DAY};
use crate::date::{date_format_text, format_date_with, iso_week_number, iso_week_of, year_text};
use crate::format::{decimal, digit, less, month_name, padded2, push_decimal, push_padded2, push_str, Rect};
use crate::model::opt_view;
use crate::geometry::EventLayout;
use crate::keys::selected_recurring;
use crate::mock::event_views;
use crate::model::{Event, EventView};
use crate::text::lower;
use vstd::prelude::*;
use vstd::view::View as _;

verus! {

/// Columns of the time gutter left of the week grid.
pub const GUTTER_WIDTH: u16 = 7;

/// Rows above the week's time grid: the day names and two rows of all-day events.
pub const HEADER_HEIGHT: u16 = 3;

/// The days of the week that the grids show, as offsets from the week's first day: all
/// seven, or Monday to Friday when weekends are hidden (offsets 1 to 5 in a Sunday week).
pub open spec fn day_offsets(show_weekends: bool, sunday: bool) -> Seq<u16> {
    if show_weekends {
        seq![0u16, 1, 2, 3, 4, 5, 6]
    } else if sunday {
        seq![1u16, 2, 3, 4, 5]
    } else {
        seq![0u16, 1, 2, 3, 4]
    }
}

/// The shown days of the week (see `day_offsets`).
pub fn week_day_offsets(app: &App) -> (r: Vec<u16>)
    ensures
        r@ == day_offsets(app.config.show_weekends, app.sunday_first()),
{
    let r = if app.config.show_weekends {
        vec![0u16, 1, 2, 3, 4, 5, 6]
    } else if starts_on_sunday(&app.config) {
        vec![1u16, 2, 3, 4, 5]
    } else {
        vec![0u16, 1, 2, 3, 4]
    };
    assert(r@ =~= day_offsets(app.config.show_weekends, app.sunday_first()));
    r
}

/// One day's column of the week grid.
#[derive(Clone, Copy, Debug, PartialEq, Eq, Structural)]
pub struct Column {
    pub day: Day,
    pub x: u16,
    pub width: u16,
}

/// Adding one more column of a width that divides the space evenly still fits the space.
proof fn lemma_columns_fit(c: int, count: int, space: int)
    requires
        0 <= c < count,
        0 <= space,
    ensures
        c * (space / count) + space / count <= space,
        0 <= c * (space / count),
{
    let q = space / count;
    vstd::arithmetic::div_mod::lemma_fundamental_div_mod(space, count);
    assert(0 <= space % count);
    assert(c * q + q <= count * q) by (nonlinear_arith)
        requires
            0 <= c < count,
            0 <= q,
    ;
    assert(0 <= c * q) by (nonlinear_arith)
        requires
            0 <= c,
            0 <= q,
    ;
}

/// The columns of the week grid in `area`: the shown days, each as wide as the space right
/// of the gutter divided evenly, the last one reaching the area's right edge.
pub open spec fn columns_placed(app: App, area: Rect, r: Seq<Column>) -> bool {
    let offsets = day_offsets(app.config.show_weekends, app.sunday_first());
    let count = offsets.len() as int;
    let base = less(area.width as int, GUTTER_WIDTH as int) / count;
    let start = app.cursor_date.n - week_offset(app.sunday_first(), app.cursor_date.n as int);
    &&& r.len() == count
    &&& forall|c: int|
        0 <= c < count ==> {
            let col = #[trigger] r[c];
            &&& col.day.n == start + offsets[c]
            &&& col.x == area.x + GUTTER_WIDTH + c * base
            &&& col.width == if c + 1 == count {
                less(area.x + area.width, col.x as int)
            } else {
                base
            }
        }
}

/// The columns of the week grid (see `columns_placed`).
pub fn week_columns(app: &App, area: Rect) -> (r: Vec<Column>)
    requires
        app.wf(),
        area.x + GUTTER_WIDTH + less(area.width as int, GUTTER_WIDTH as int) <= u16::MAX,
        ({
            let n = app.cursor_date.n as int;
            let s = n - week_offset(app.sunday_first(), n);
            s >= MIN_DAY && s + 6 <= MAX_DAY
        }),
    ensures
        columns_placed(*app, area, r@),
{
    let offsets = week_day_offsets(app);
    let start = app.week_start();
    let count = offsets.len() as u16;
    let usable = if area.width >= GUTTER_WIDTH {
        area.width - GUTTER_WIDTH
    } else {
        0
    };
    let base = usable / count;
    let right: u32 = area.x as u32 + area.width as u32;
    let mut r: Vec<Column> = Vec::new();
    let mut c: usize = 0;
    while c < offsets.len()
        invariant
            c <= offsets.len(),
            offsets@ == day_offsets(app.config.show_weekends, app.sunday_first()),
            count == offsets.len(),
            base == usable / count,
            usable == less(area.width as int, GUTTER_WIDTH as int),
            area.x + GUTTER_WIDTH + usable <= u16::MAX,
            right == area.x + area.width,
            start.n == app.cursor_date.n - week_offset(app.sunday_first(), app.cursor_date.n as int),
            start.n >= MIN_DAY,
            start.n + 6 <= MAX_DAY,
            r.len() == c,
            forall|k: int|
                0 <= k < c ==> {
                    let col = #[trigger] r@[k];
                    &&& col.day.n == start.n + offsets@[k]
                    &&& col.x == area.x + GUTTER_WIDTH + k * base
                    &&& col.width == if k + 1 == count {
                        less(area.x + area.width, col.x as int)
                    } else {
                        base as int
                    }
                },
        decreases offsets.len() - c,
    {
        proof {
            lemma_columns_fit(c as int, count as int, usable as int);
        }
        let x: u16 = area.x + GUTTER_WIDTH + (c as u16) * base;
        let width: u16 = if c + 1 == offsets.len() {
            if right >= x as u32 {
                (right - x as u32) as u16
            } else {
                0
            }
        } else {
            base
        };
        r.push(Column { day: Day { n: start.n + offsets[c] as i32 }, x, width });
        c = c + 1;
    }
    r
}

/// The row of the grid at `minutes`: its share of the grid's height, counted from the top,
/// of the way through the visible span (0 when that share does not fit 16 bits).
pub open spec fn grid_row_at(minutes: int, visible_start: int, grid_top: int, grid_height: int, span: int) -> int {
    let offset = (minutes - visible_start) * grid_height / span;
    grid_top + if offset <= u16::MAX {
        offset
    } else {
        0
    }
}

/// The row of the grid at `minutes` (see `grid_row_at`).
pub fn grid_row(minutes: u16, visible_start: u16, grid_top: u16, grid_height: u16, span: u32) -> (r: u16)
    requires
        visible_start <= minutes,
        span >= 1,
        grid_row_at(minutes as int, visible_start as int, grid_top as int, grid_height as int, span as int)
            <= u16::MAX,
    ensures
        r == grid_row_at(minutes as int, visible_start as int, grid_top as int, grid_height as int, span as int),
{
    let d: u64 = (minutes - visible_start) as u64;
    assert(d * (grid_height as u64) <= 65535 * 65535) by (nonlinear_arith)
        requires
            d <= 65535,
            grid_height <= 65535,
    ;
    let product: u64 = d * grid_height as u64;
    let offset: u64 = product / span as u64;
    grid_top + if offset <= 65535 {
        offset as u16
    } else {
        0
    }
}

/// Where a laid-out event goes in its column: inside the column's border, in its slot of the
/// column's width (at least a cell wide; the last slot reaching the column's edge), from its
/// top row, at least a row high. As `(x, y, width, height)`.
pub open spec fn event_rect(col: Column, l: EventLayout, grid_top: int) -> (int, int, int, int) {
    let inner = less(col.width as int, 1);
    let slot_count = if l.slot_count <= u16::MAX && l.slot_count >= 1 {
        l.slot_count as int
    } else {
        1
    };
    let slot_width = if inner / slot_count >= 1 {
        inner / slot_count
    } else {
        1
    };
    let slot = if l.x_slot <= u16::MAX {
        l.x_slot as int
    } else {
        0
    };
    let product = if slot * slot_width <= u16::MAX {
        slot * slot_width
    } else {
        u16::MAX as int
    };
    let offset = if product <= less(inner, 1) {
        product
    } else {
        less(inner, 1)
    };
    let x = col.x + 1 + offset;
    let right = if col.x + col.width <= u16::MAX {
        col.x + col.width
    } else {
        u16::MAX as int
    };
    let available = if less(right, x) >= 1 {
        less(right, x)
    } else {
        1
    };
    let width = if slot + 1 == l.slot_count {
        available
    } else if slot_width < available {
        slot_width
    } else {
        available
    };
    (x, grid_top + l.top, if width >= 1 { width } else { 1 }, if l.height >= 1 { l.height as int } else { 1 })
}

/// Where a laid-out event goes (see `event_rect`).
pub fn event_box(column: &Column, layout: &EventLayout, grid_top: u16) -> (r: Rect)
    requires
        column.x + 1 + less(less(column.width as int, 1), 1) <= u16::MAX,
        grid_top + layout.top <= u16::MAX,
        layout.x_slot != u16::MAX,
    ensures
        (r.x as int, r.y as int, r.width as int, r.height as int) == event_rect(*column, *layout, grid_top as int),
{
    let inner: u16 = if column.width >= 1 {
        column.width - 1
    } else {
        0
    };
    let slot_count: u16 = if layout.slot_count <= 65535 && layout.slot_count >= 1 {
        layout.slot_count as u16
    } else {
        1
    };
    let slot_width: u16 = if inner / slot_count >= 1 {
        inner / slot_count
    } else {
        1
    };
    let slot: u16 = if layout.x_slot <= 65535 {
        layout.x_slot as u16
    } else {
        0
    };
    assert((slot as u32) * (slot_width as u32) <= 65535 * 65535) by (nonlinear_arith)
        requires
            slot <= 65535,
            slot_width <= 65535,
    ;
    let wide: u32 = slot as u32 * slot_width as u32;
    let product: u16 = if wide <= 65535 {
        wide as u16
    } else {
        65535
    };
    let limit: u16 = if inner >= 1 {
        inner - 1
    } else {
        0
    };
    let offset = if product <= limit {
        product
    } else {
        limit
    };
    let x: u16 = column.x + 1 + offset;
    let edge: u32 = column.x as u32 + column.width as u32;
    let right: u16 = if edge <= 65535 {
        edge as u16
    } else {
        65535
    };
    let available: u16 = if right >= x && right - x >= 1 {
        right - x
    } else {
        1
    };
    let width: u16 = if slot as usize + 1 == layout.slot_count {
        available
    } else if slot_width < available {
        slot_width
    } else {
        available
    };
    Rect {
        x,
        y: grid_top + layout.top,
        width: if width >= 1 {
            width
        } else {
            1
        },
        height: if layout.height >= 1 {
            layout.height
        } else {
            1
        },
    }
}

/// The indexes of the all-day events of `s` that show on day `date`, in order.
pub open spec fn all_day_indexes(s: Seq<EventView>, date: int) -> Seq<int>
    decreases s.len(),
{
    if s.len() == 0 {
        Seq::empty()
    } else {
        let prev = all_day_indexes(s.drop_last(), date);
        if s.last().all_day && crate::app::occurs_on(s.last(), date) {
            prev.push(s.len() - 1)
        } else {
            prev
        }
    }
}

/// Whether the event at the `i`-th of `at` in `s` has the identifier `id`.
pub open spec fn id_at(s: Seq<EventView>, at: Seq<int>, id: Seq<char>) -> spec_fn(int) -> bool {
    |i: int| s[at[i]].id == id
}

/// Whether one of the events at `at` in `s` has the identifier `id`.
pub open spec fn listed_among(s: Seq<EventView>, at: Seq<int>, id: Seq<char>) -> bool {
    exists|j: int| 0 <= j < at.len() && s[at[j]].id == id
}

/// The all-day events that a day's two header rows show: the first two; when the selected
/// event is among the day's all-day events but not among those two, it takes the second row.
pub open spec fn all_day_shown(s: Seq<EventView>, date: int, selected: Option<Seq<char>>) -> Seq<int> {
    let all = all_day_indexes(s, date);
    let first = all.take(if all.len() < 2 { all.len() as int } else { 2 });
    match selected {
        Some(id) => {
            let k = crate::model::first_where(all.len() as int, id_at(s, all, id));
            if k >= 0 && !listed_among(s, first, s[all[k]].id) && first.len() == 2 {
                first.update(1, all[k])
            } else {
                first
            }
        },
        None => first,
    }
}

/// `all_day_shown` for a selected identifier, from the position of the first all-day event
/// with it and whether that event is already among the first two.
proof fn lemma_all_day_shown_some(
    s: Seq<EventView>,
    d: int,
    id: Seq<char>,
    all: Seq<int>,
    first: Seq<int>,
    k: int,
    listed: bool,
)
    requires
        all == all_day_indexes(s, d),
        first == all.take(if all.len() < 2 { all.len() as int } else { 2 }),
        k == crate::model::first_where(all.len() as int, id_at(s, all, id)),
        listed == listed_among(s, first, s[all[k]].id),
    ensures
        all_day_shown(s, d, Some(id)) == if k >= 0 && !listed && first.len() == 2 {
            first.update(1, all[k])
        } else {
            first
        },
{
}

/// The indexes into `visible` of the all-day events shown for `date` (see `all_day_shown`),
/// and how many all-day events the day has.
pub fn all_day_rows(visible: &Vec<Event>, date: Day, selected: &Option<crate::model::EventId>) -> (r: (Vec<usize>, usize))
    ensures
        r.0@.map_values(|i: usize| i as int) == all_day_shown(
            event_views(visible@),
            date.n as int,
            match selected {
                Some(id) => Some(id@),
                None => None,
            },
        ),
        r.1 == all_day_indexes(event_views(visible@), date.n as int).len(),
{
    let ghost s = event_views(visible@);
    let mut all: Vec<usize> = Vec::new();
    let mut k: usize = 0;
    assert(s.take(0) =~= Seq::<EventView>::empty());
    while k < visible.len()
        invariant
            k <= visible.len(),
            s == event_views(visible@),
            all@.map_values(|i: usize| i as int) == all_day_indexes(s.take(k as int), date.n as int),
            forall|j: int| 0 <= j < all.len() ==> all@[j] < k,
        decreases visible.len() - k,
    {
        let ghost before = all@.map_values(|i: usize| i as int);
        let e = &visible[k];
        assert(s.take(k + 1).drop_last() =~= s.take(k as int));
        assert(s.take(k + 1).last() == s[k as int]);
        if e.all_day && crate::app::event_occurs_on(e, date) {
            all.push(k);
            assert(all@.map_values(|i: usize| i as int) =~= before.push(k as int));
        }
        k = k + 1;
    }
    assert(s.take(k as int) =~= s);
    let ghost allv = all@.map_values(|i: usize| i as int);
    let mut shown: Vec<usize> = Vec::new();
    if all.len() > 0 {
        shown.push(all[0]);
    }
    if all.len() > 1 {
        shown.push(all[1]);
    }
    let ghost first = allv.take(if allv.len() < 2 { allv.len() as int } else { 2 });
    assert(shown@.map_values(|i: usize| i as int) =~= first);
    if let Some(id) = selected {
        let ghost p = id_at(s, allv, id@);
        let mut j: usize = 0;
        let mut found: Option<usize> = None;
        while j < all.len()
            invariant_except_break
                crate::model::first_where(j as int, p) == -1,
                found is None,
            invariant
                j <= all.len(),
                s == event_views(visible@),
                allv == all@.map_values(|i: usize| i as int),
                forall|t: int| 0 <= t < all.len() ==> all@[t] < visible.len(),
                p == id_at(s, allv, id@),
            ensures
                match found {
                    Some(f) => f == crate::model::first_where(all.len() as int, p) && f < all.len(),
                    None => crate::model::first_where(all.len() as int, p) == -1,
                },
            decreases all.len() - j,
        {
            proof {
                crate::model::lemma_first_where_step(j as int, p);
            }
            assert(s[allv[j as int]] == visible@[all@[j as int] as int]@);
            if visible[all[j]].id.same(id) {
                assert(p(j as int));
                proof {
                    crate::model::lemma_first_where(j as int, p);
                    crate::model::lemma_first_where(all.len() as int, p);
                }
                found = Some(j);
                break;
            }
            j = j + 1;
        }
        if let Some(f) = found {
            let target = all[f];
            let mut listed = false;
            let mut t: usize = 0;
            while t < shown.len()
                invariant
                    t <= shown.len(),
                    shown.len() <= 2,
                    s == event_views(visible@),
                    target < visible.len(),
                    shown@.map_values(|i: usize| i as int) == first,
                    forall|u: int| 0 <= u < shown.len() ==> shown@[u] < visible.len(),
                    listed == exists|u: int| 0 <= u < t && s[first[u]].id == s[target as int].id,
                decreases shown.len() - t,
            {
                assert(s[first[t as int]] == visible@[shown@[t as int] as int]@);
                if visible[shown[t]].id.same(&visible[target].id) {
                    listed = true;
                }
                t = t + 1;
            }
            proof {
                lemma_all_day_shown_some(s, date.n as int, id@, allv, first, f as int, listed);
            }
            if !listed && shown.len() == 2 {
                shown.set(1, target);
                assert(shown@.map_values(|i: usize| i as int) =~= first.update(1, allv[f as int]));
            }
        }
    }
    (shown, all.len())
}

/// A month cell with `count` events and `height` rows: the events it lists, and the number
/// on its "+N more" line when not all fit (the line takes the last event row).
pub open spec fn month_cell_fill(count: int, height: int) -> (int, Option<int>) {
    let capacity = less(height, 2);
    if count > capacity && capacity > 0 {
        (capacity - 1, Some(count - capacity + 1))
    } else {
        (if count < capacity { count } else { capacity }, None)
    }
}

/// What a month cell lists (see `month_cell_fill`).
pub fn month_cell(count: usize, height: u16) -> (r: (usize, Option<usize>))
    ensures
        (r.0 as int, match r.1 {
            Some(m) => Some(m as int),
            None => None,
        }) == month_cell_fill(count as int, height as int),
{
    let capacity: usize = if height >= 2 {
        (height - 2) as usize
    } else {
        0
    };
    if count > capacity && capacity > 0 {
        (capacity - 1, Some(count - capacity + 1))
    } else {
        (if count < capacity { count } else { capacity }, None)
    }
}

/// The agenda's scroll: enough lines that the selected line stays three lines above the
/// bottom of the area's inner rows.
pub open spec fn agenda_scroll_of(selected_line: int, height: int) -> int {
    let available = if less(height, 2) >= 1 {
        less(height, 2)
    } else {
        1
    };
    less(selected_line, less(available, 3))
}

/// The agenda's scroll (see `agenda_scroll_of`).
pub fn agenda_scroll(selected_line: usize, height: u16) -> (r: usize)
    ensures
        r == agenda_scroll_of(selected_line as int, height as int),
{
    let inner: usize = if height >= 2 {
        (height - 2) as usize
    } else {
        0
    };
    let available: usize = if inner >= 1 {
        inner
    } else {
        1
    };
    let keep: usize = if available >= 3 {
        available - 3
    } else {
        0
    };
    if selected_line >= keep {
        selected_line - keep
    } else {
        0
    }
}

/// The footer's hints for the mode: with a meeting link to join, the normal mode and the
/// details offer `o join`; a repeating event's deletion offers the two scopes.
pub open spec fn footer_hint_for(app: App) -> Seq<char> {
    match app.mode {
        Mode::Normal => if app.selected_meeting() is Some {
            "o join   Enter details   n new   / search   c calendars   ? help   q quit"@
        } else {
            "1 agenda  2 week  3 month   n new   / search   c calendars   ? help   q quit"@
        },
        Mode::EventDetail => if app.selected_meeting() is Some {
            "o join   e edit   d delete   Esc close"@
        } else {
            "e edit   d delete   Esc close"@
        },
        Mode::EventEditor => "Tab next   ←/→ choose/toggle   Ctrl+S save   Esc cancel"@,
        Mode::CalendarPicker => "↑/↓ move   Space toggle   Enter apply   Esc cancel"@,
        Mode::Search => "type to search   ↑/↓ results   Enter jump   Esc close"@,
        Mode::ConfirmDelete => if selected_recurring(app) {
            "y/1 this event   2 this and future   Esc cancel"@
        } else {
            "y confirm   Esc cancel"@
        },
        Mode::ConfirmUpdate => "y/1 this event   2 this and future   Esc back"@,
        Mode::Help => "Esc close"@,
    }
}

/// The footer's hints (see `footer_hint_for`).
pub fn footer_hint(app: &App) -> (r: &'static str)
    ensures
        r@ == footer_hint_for(*app),
{
    let meeting = app.selected_meeting_url().is_some();
    match app.mode {
        Mode::Normal => if meeting {
            "o join   Enter details   n new   / search   c calendars   ? help   q quit"
        } else {
            "1 agenda  2 week  3 month   n new   / search   c calendars   ? help   q quit"
        },
        Mode::EventDetail => if meeting {
            "o join   e edit   d delete   Esc close"
        } else {
            "e edit   d delete   Esc close"
        },
        Mode::EventEditor => "Tab next   ←/→ choose/toggle   Ctrl+S save   Esc cancel",
        Mode::CalendarPicker => "↑/↓ move   Space toggle   Enter apply   Esc cancel",
        Mode::Search => "type to search   ↑/↓ results   Enter jump   Esc close",
        Mode::ConfirmDelete => {
            let recurring = match app.selected() {
                Some(event) => event.recurrence.is_some(),
                None => false,
            };
            if recurring {
                "y/1 this event   2 this and future   Esc cancel"
            } else {
                "y confirm   Esc cancel"
            }
        },
        Mode::ConfirmUpdate => "y/1 this event   2 this and future   Esc back",
        Mode::Help => "Esc close",
    }
}

/// The label of a row of the event details.
#[derive(Clone, Copy, Debug, PartialEq, Eq, Structural)]
pub enum DetailLabel {
    Calendar,
    Location,
    Repeats,
    Url,
    Meeting,
}

/// The text of a details label, padded to the width of the label column.
pub fn detail_label_text(label: DetailLabel) -> (r: &'static str)
    ensures
        r@ == match label {
            DetailLabel::Calendar => "Calendar   "@,
            DetailLabel::Location => "Location   "@,
            DetailLabel::Repeats => "Repeats    "@,
            DetailLabel::Url => "URL        "@,
            DetailLabel::Meeting => "Meeting    "@,
        },
{
    match label {
        DetailLabel::Calendar => "Calendar   ",
        DetailLabel::Location => "Location   ",
        DetailLabel::Repeats => "Repeats    ",
        DetailLabel::Url => "URL        ",
        DetailLabel::Meeting => "Meeting    ",
    }
}

/// The name of the calendar with identifier `id`, or "Unknown" when the app has none.
pub open spec fn calendar_name_of(app: App, id: Seq<char>) -> Seq<char> {
    let k = crate::model::first_where(app.calendars@.len() as int, calendar_with_id(app.calendars@, id));
    if k >= 0 {
        app.calendars@[k].name@
    } else {
        "Unknown"@
    }
}

/// The rows of an event's details: its calendar; its location and repetition when it has
/// them; its link, labelled as the meeting when it is the meeting link; and the meeting
/// link found elsewhere in the event when it differs from the link.
pub open spec fn detail_rows_of(e: EventView, calendar: Seq<char>, meeting: Option<Seq<char>>) -> Seq<(DetailLabel, Seq<char>)> {
    let rows = seq![(DetailLabel::Calendar, calendar)];
    let rows = match e.location {
        Some(l) => rows.push((DetailLabel::Location, l)),
        None => rows,
    };
    let rows = match e.recurrence {
        Some(r) => rows.push((DetailLabel::Repeats, r)),
        None => rows,
    };
    let rows = match e.url {
        Some(u) => rows.push((if meeting == Some(u) { DetailLabel::Meeting } else { DetailLabel::Url }, u)),
        None => rows,
    };
    match meeting {
        Some(m) => if e.url == Some(m) {
            rows
        } else {
            rows.push((DetailLabel::Meeting, m))
        },
        None => rows,
    }
}

/// The plain-value form of labelled rows.
pub open spec fn row_views(r: Seq<(DetailLabel, String)>) -> Seq<(DetailLabel, Seq<char>)> {
    r.map_values(|p: (DetailLabel, String)| (p.0, p.1@))
}

/// The rows of the selected event's details (see `detail_rows_of`).
pub fn detail_rows(app: &App, event: &Event) -> (r: Vec<(DetailLabel, String)>)
    ensures
        row_views(r@) == detail_rows_of(
            event@,
            calendar_name_of(*app, event.calendar_id@),
            meeting_url_spec(event@),
        ),
{
    let ghost meeting_v = meeting_url_spec(event@);
    let mut rows: Vec<(DetailLabel, String)> = Vec::new();
    let name = match app.calendar(&event.calendar_id) {
        Some(c) => c.name.clone(),
        None => String::from_str("Unknown"),
    };
    proof {
        reveal_strlit("Unknown");
    }
    rows.push((DetailLabel::Calendar, name));
    let ghost mut expected = seq![(DetailLabel::Calendar, calendar_name_of(*app, event.calendar_id@))];
    assert(row_views(rows@) =~= expected);
    if let Some(l) = &event.location {
        rows.push((DetailLabel::Location, l.clone()));
        proof {
            expected = expected.push((DetailLabel::Location, l@));
        }
        assert(row_views(rows@) =~= expected);
    }
    if let Some(rec) = &event.recurrence {
        rows.push((DetailLabel::Repeats, rec.description.clone()));
        proof {
            expected = expected.push((DetailLabel::Repeats, rec.description@));
        }
        assert(row_views(rows@) =~= expected);
    }
    let meeting = meeting_url(event);
    if let Some(u) = &event.url {
        let same = match &meeting {
            Some(m) => *m == *u,
            None => false,
        };
        rows.push((if same { DetailLabel::Meeting } else { DetailLabel::Url }, u.clone()));
        proof {
            expected = expected.push((if meeting_v == Some(u@) { DetailLabel::Meeting } else { DetailLabel::Url }, u@));
        }
        assert(row_views(rows@) =~= expected);
    }
    if let Some(m) = meeting {
        let same = match &event.url {
            Some(u) => *u == m,
            None => false,
        };
        if !same {
            rows.push((DetailLabel::Meeting, m));
            proof {
                expected = expected.push((DetailLabel::Meeting, m@));
            }
            assert(row_views(rows@) =~= expected);
        }
    }
    rows
}

/// The height of the details box: its lines and the border, at least 18 rows.
pub open spec fn detail_height_of(lines: int) -> int {
    let n = if lines <= u16::MAX { lines } else { u16::MAX as int };
    let h = if n + 2 <= u16::MAX { n + 2 } else { u16::MAX as int };
    if h >= 18 { h } else { 18 }
}

/// The height of the details box (see `detail_height_of`).
pub fn detail_height(lines: usize) -> (r: u16)
    ensures
        r == detail_height_of(lines as int),
{
    let n: u16 = if lines <= 65535 { lines as u16 } else { 65535 };
    let h: u16 = if n <= 65533 { n + 2 } else { 65535 };
    if h >= 18 { h } else { 18 }
}

/// The part of a list that a box of 14 rows shows: from 12 before the selected entry (or
/// the start) for 14 entries, as a range of indexes.
pub open spec fn list_window_of(selected: int, len: int) -> (int, int) {
    let start = less(selected, 12);
    (start, if start + 14 <= len { start + 14 } else if len >= start { len } else { start })
}

/// The part of a list that a box shows (see `list_window_of`).
pub fn list_window(selected: usize, len: usize) -> (r: (usize, usize))
    ensures
        (r.0 as int, r.1 as int) == list_window_of(selected as int, len as int),
{
    let start: usize = if selected >= 12 { selected - 12 } else { 0 };
    let end: usize = if start <= len && len - start >= 14 {
        start + 14
    } else if len >= start {
        len
    } else {
        start
    };
    (start, end)
}

/// The height of the calendar picker's box: its lines and the border, at most 18 rows.
pub open spec fn picker_height_of(lines: int) -> int {
    let n = if lines <= u16::MAX { lines } else { 10 };
    let h = if n + 2 <= u16::MAX { n + 2 } else { u16::MAX as int };
    if h <= 18 { h } else { 18 }
}

/// The height of the calendar picker's box (see `picker_height_of`).
pub fn picker_height(lines: usize) -> (r: u16)
    ensures
        r == picker_height_of(lines as int),
{
    let n: u16 = if lines <= 65535 { lines as u16 } else { 10 };
    let h: u16 = if n <= 65533 { n + 2 } else { 65535 };
    if h <= 18 { h } else { 18 }
}

/// Appends the decimal digits of `n`.
pub fn push_count(s: &mut String, n: usize)
    ensures
        final(s)@ == old(s)@ + decimal(n as nat),
    decreases n,
{
    if n >= 10 {
        push_count(s, n / 10);
    }
    let d = (n % 10) as u8 + 48;
    s.push(d as char);
    proof {
        assert(digit((n % 10) as nat) == d as char);
    }
}

/// The title of the search box: the number of results, with "result" in the plural unless
/// there is exactly one.
pub open spec fn search_title_of(count: nat) -> Seq<char> {
    " Search · "@ + decimal(count) + " result"@ + (if count == 1 { ""@ } else { "s"@ }) + " "@
}

/// The title of the search box (see `search_title_of`).
pub fn search_title(count: usize) -> (r: String)
    ensures
        r@ == search_title_of(count as nat),
{
    let mut s = String::new();
    push_str(&mut s, " Search · ");
    push_count(&mut s, count);
    push_str(&mut s, " result");
    if count != 1 {
        push_str(&mut s, "s");
    }
    push_str(&mut s, " ");
    proof {
        reveal_strlit("");
    }
    assert(s@ =~= search_title_of(count as nat));
    s
}

/// The text of an editor label, padded to the width of the label column.
pub fn editor_label_text(field: EditorField) -> (r: &'static str)
    ensures
        r@ == match field {
            EditorField::Title => "Title     "@,
            EditorField::Calendar => "Calendar  "@,
            EditorField::Date => "Date      "@,
            EditorField::Start => "Start     "@,
            EditorField::End => "End       "@,
            EditorField::AllDay => "All day   "@,
            EditorField::Location => "Location  "@,
            EditorField::Notes => "Notes     "@,
        },
{
    match field {
        EditorField::Title => "Title     ",
        EditorField::Calendar => "Calendar  ",
        EditorField::Date => "Date      ",
        EditorField::Start => "Start     ",
        EditorField::End => "End       ",
        EditorField::AllDay => "All day   ",
        EditorField::Location => "Location  ",
        EditorField::Notes => "Notes     ",
    }
}

/// The rows of the editor, one per field in tab order, with the text each shows: the title
/// with a block cursor while it has the focus, the calendar's name, the texts as typed, and
/// a check box for all day.
pub open spec fn editor_rows_of(ed: EventEditor, calendar: Seq<char>) -> Seq<(EditorField, Seq<char>)> {
    seq![
        (EditorField::Title, ed.title@ + if ed.field == EditorField::Title { "█"@ } else { ""@ }),
        (EditorField::Calendar, calendar),
        (EditorField::Date, ed.date@),
        (EditorField::Start, ed.start@),
        (EditorField::End, ed.end@),
        (EditorField::AllDay, if ed.all_day { "[x]"@ } else { "[ ]"@ }),
        (EditorField::Location, ed.location@),
        (EditorField::Notes, ed.notes@),
    ]
}

/// The plain-value form of editor rows.
pub open spec fn editor_row_views(r: Seq<(EditorField, String)>) -> Seq<(EditorField, Seq<char>)> {
    r.map_values(|p: (EditorField, String)| (p.0, p.1@))
}

/// The rows of the open editor (see `editor_rows_of`), and whether it edits an existing
/// event; `None` when no editor is open.
pub fn editor_rows(app: &App) -> (r: Option<(Vec<(EditorField, String)>, bool)>)
    ensures
        match app.editor {
            None => r is None,
            Some(ed) => r matches Some((rows, editing)) && editing == ed.editing is Some
                && editor_row_views(rows@) == editor_rows_of(ed, calendar_name_of(*app, ed.calendar_id@)),
        },
{
    match &app.editor {
        None => None,
        Some(ed) => {
            let name = match app.calendar(&ed.calendar_id) {
                Some(c) => c.name.clone(),
                None => String::from_str("Unknown"),
            };
            let mut title = ed.title.clone();
            if ed.field == EditorField::Title {
                push_str(&mut title, "█");
            }
            let check = if ed.all_day {
                String::from_str("[x]")
            } else {
                String::from_str("[ ]")
            };
            proof {
                reveal_strlit("Unknown");
                reveal_strlit("");
            }
            let mut rows: Vec<(EditorField, String)> = Vec::new();
            rows.push((EditorField::Title, title));
            rows.push((EditorField::Calendar, name));
            rows.push((EditorField::Date, ed.date.clone()));
            rows.push((EditorField::Start, ed.start.clone()));
            rows.push((EditorField::End, ed.end.clone()));
            rows.push((EditorField::AllDay, check));
            rows.push((EditorField::Location, ed.location.clone()));
            rows.push((EditorField::Notes, ed.notes.clone()));
            assert(editor_row_views(rows@) =~= editor_rows_of(*ed, calendar_name_of(*app, ed.calendar_id@)));
            Some((rows, ed.editing.is_some()))
        },
    }
}

/// The names of the shown weekdays, in the order of the grid's columns.
pub open spec fn weekday_labels_of(show_weekends: bool, sunday: bool) -> Seq<Seq<char>> {
    if !show_weekends {
        seq!["MON"@, "TUE"@, "WED"@, "THU"@, "FRI"@]
    } else if sunday {
        seq!["SUN"@, "MON"@, "TUE"@, "WED"@, "THU"@, "FRI"@, "SAT"@]
    } else {
        seq!["MON"@, "TUE"@, "WED"@, "THU"@, "FRI"@, "SAT"@, "SUN"@]
    }
}

/// The names of the shown weekdays (see `weekday_labels_of`).
pub fn weekday_labels(app: &App) -> (r: Vec<&'static str>)
    ensures
        r@.map_values(|l: &'static str| l@) == weekday_labels_of(app.config.show_weekends, app.sunday_first()),
{
    let r = if !app.config.show_weekends {
        vec!["MON", "TUE", "WED", "THU", "FRI"]
    } else if starts_on_sunday(&app.config) {
        vec!["SUN", "MON", "TUE", "WED", "THU", "FRI", "SAT"]
    } else {
        vec!["MON", "TUE", "WED", "THU", "FRI", "SAT", "SUN"]
    };
    assert(r@.map_values(|l: &'static str| l@) =~= weekday_labels_of(app.config.show_weekends, app.sunday_first()));
    r
}

/// A line of the agenda.
#[derive(Clone, Copy, Debug, PartialEq, Eq, Structural)]
pub enum AgendaRow {
    /// The heading of a day.
    Heading(Day),
    /// The line of a day without events.
    NoEvents,
    /// The event at this index of the visible events.
    Event(usize),
    /// The empty line after a day.
    Blank,
}

/// The indexes of the events of `s` that show on day `date`, in order.
pub open spec fn indexes_on(s: Seq<EventView>, date: int) -> Seq<int>
    decreases s.len(),
{
    if s.len() == 0 {
        Seq::empty()
    } else {
        let prev = indexes_on(s.drop_last(), date);
        if crate::app::occurs_on(s.last(), date) {
            prev.push(s.len() - 1)
        } else {
            prev
        }
    }
}

/// The indexes of the visible events that show on `date`, in order: what a month cell lists
/// (see `indexes_on`).
pub fn day_events(visible: &Vec<Event>, date: Day) -> (r: Vec<usize>)
    ensures
        r@.map_values(|i: usize| i as int) == indexes_on(event_views(visible@), date.n as int),
{
    let ghost s = event_views(visible@);
    let mut r: Vec<usize> = Vec::new();
    let mut k: usize = 0;
    assert(s.take(0) =~= Seq::<EventView>::empty());
    while k < visible.len()
        invariant
            k <= visible.len(),
            s == event_views(visible@),
            r@.map_values(|i: usize| i as int) == indexes_on(s.take(k as int), date.n as int),
        decreases visible.len() - k,
    {
        let ghost before = r@.map_values(|i: usize| i as int);
        assert(s.take(k + 1).drop_last() =~= s.take(k as int));
        assert(s.take(k + 1).last() == s[k as int]);
        if crate::app::event_occurs_on(&visible[k], date) {
            r.push(k);
            assert(r@.map_values(|i: usize| i as int) =~= before.push(k as int));
        }
        k = k + 1;
    }
    assert(s.take(k as int) =~= s);
    r
}

/// One day of the agenda: its heading, its events (or the line saying there are none), and
/// an empty line.
pub open spec fn agenda_day(s: Seq<EventView>, date: int) -> Seq<AgendaRow> {
    let idx = indexes_on(s, date);
    seq![AgendaRow::Heading(Day { n: date as i32 })] + (if idx.len() == 0 {
        seq![AgendaRow::NoEvents]
    } else {
        idx.map_values(|i: int| AgendaRow::Event(i as usize))
    }) + seq![AgendaRow::Blank]
}

/// The agenda's lines for `days` days from `first` on.
pub open spec fn agenda_of(s: Seq<EventView>, first: int, days: nat) -> Seq<AgendaRow>
    decreases days,
{
    if days == 0 {
        Seq::empty()
    } else {
        agenda_of(s, first, (days - 1) as nat) + agenda_day(s, first + days - 1)
    }
}

/// The last line of `rows` that shows the event with identifier `id`; 0 when none does.
pub open spec fn last_selected(rows: Seq<AgendaRow>, s: Seq<EventView>, id: Option<Seq<char>>) -> int
    decreases rows.len(),
{
    if rows.len() == 0 {
        0
    } else if rows.last() matches AgendaRow::Event(i) && id == Some(s[i as int].id) {
        rows.len() - 1
    } else {
        last_selected(rows.drop_last(), s, id)
    }
}

/// The agenda's lines for the 15 days from `first` on, and the line of the selected event
/// (see `agenda_of` and `last_selected`).
pub fn agenda_rows(visible: &Vec<Event>, first: Day, selected: &Option<crate::model::EventId>) -> (r: (Vec<AgendaRow>, usize))
    requires
        first.wf(),
        first.n + 14 <= MAX_DAY,
    ensures
        r.0@ == agenda_of(event_views(visible@), first.n as int, 15),
        r.1 == last_selected(
            r.0@,
            event_views(visible@),
            match selected {
                Some(id) => Some(id@),
                None => None,
            },
        ),
{
    let ghost s = event_views(visible@);
    let ghost sid = match selected {
        Some(id) => Some(id@),
        None => None::<Seq<char>>,
    };
    let mut rows: Vec<AgendaRow> = Vec::new();
    let mut line: usize = 0;
    let mut d: i32 = 0;
    while d < 15
        invariant
            0 <= d <= 15,
            first.wf(),
            first.n + 14 <= MAX_DAY,
            s == event_views(visible@),
            sid == match selected {
                Some(id) => Some(id@),
                None => None::<Seq<char>>,
            },
            rows@ == agenda_of(s, first.n as int, d as nat),
            line == last_selected(rows@, s, sid),
        decreases 15 - d,
    {
        let date = Day { n: first.n + d };
        let ghost before = rows@;
        proof {
            assert(before.push(AgendaRow::Heading(date)).drop_last() =~= before);
        }
        rows.push(AgendaRow::Heading(date));
        let mut any = false;
        let mut k: usize = 0;
        assert(s.take(0) =~= Seq::<EventView>::empty());
        while k < visible.len()
            invariant
                k <= visible.len(),
                0 <= d < 15,
                first.n + 14 <= MAX_DAY,
                date.n == first.n + d,
                s == event_views(visible@),
                sid == match selected {
                    Some(id) => Some(id@),
                    None => None::<Seq<char>>,
                },
                rows@ == before + seq![AgendaRow::Heading(date)]
                    + indexes_on(s.take(k as int), date.n as int).map_values(|i: int| AgendaRow::Event(i as usize)),
                any == (indexes_on(s.take(k as int), date.n as int).len() > 0),
                indexes_on(s.take(k as int), date.n as int).len() <= k,
                forall|j: int| 0 <= j < indexes_on(s.take(k as int), date.n as int).len()
                    ==> 0 <= #[trigger] indexes_on(s.take(k as int), date.n as int)[j] < k,
                line == last_selected(rows@, s, sid),
            decreases visible.len() - k,
        {
            let ghost prev = rows@;
            let ghost idx = indexes_on(s.take(k as int), date.n as int);
            assert(s.take(k + 1).drop_last() =~= s.take(k as int));
            assert(s.take(k + 1).last() == s[k as int]);
            if crate::app::event_occurs_on(&visible[k], date) {
                let is_selected = match selected {
                    Some(id) => visible[k].id.same(id),
                    None => false,
                };
                if is_selected {
                    line = rows.len();
                }
                rows.push(AgendaRow::Event(k));
                any = true;
                proof {
                    assert(prev.push(AgendaRow::Event(k)).drop_last() =~= prev);
                    assert(s[k as int] == visible@[k as int]@);
                    assert(idx.push(k as int).map_values(|i: int| AgendaRow::Event(i as usize))
                        =~= idx.map_values(|i: int| AgendaRow::Event(i as usize)).push(AgendaRow::Event(k)));
                    assert(rows@ =~= before + seq![AgendaRow::Heading(date)]
                        + idx.push(k as int).map_values(|i: int| AgendaRow::Event(i as usize)));
                }
            }
            k = k + 1;
        }
        assert(s.take(k as int) =~= s);
        let ghost idx = indexes_on(s, date.n as int);
        if !any {
            let ghost prev = rows@;
            rows.push(AgendaRow::NoEvents);
            proof {
                assert(prev.push(AgendaRow::NoEvents).drop_last() =~= prev);
                assert(rows@.last() == AgendaRow::NoEvents);
                assert(last_selected(rows@, s, sid) == last_selected(prev, s, sid));
            }
        }
        let ghost prev = rows@;
        rows.push(AgendaRow::Blank);
        proof {
            assert(prev.push(AgendaRow::Blank).drop_last() =~= prev);
            assert(rows@.last() == AgendaRow::Blank);
            assert(last_selected(rows@, s, sid) == last_selected(prev, s, sid));
            assert(agenda_of(s, first.n as int, (d + 1) as nat) == agenda_of(s, first.n as int, d as nat)
                + agenda_day(s, first.n + d));
            assert(rows@ =~= agenda_of(s, first.n as int, (d + 1) as nat));
        }
        d = d + 1;
    }
    (rows, line)
}

/// The short English name of the weekday counted from Monday (0), in capitals: chrono's `%a`
/// in upper case.
pub open spec fn weekday_abbrev(w: int) -> Seq<char> {
    if w == 0 {
        "MON"@
    } else if w == 1 {
        "TUE"@
    } else if w == 2 {
        "WED"@
    } else if w == 3 {
        "THU"@
    } else if w == 4 {
        "FRI"@
    } else if w == 5 {
        "SAT"@
    } else {
        "SUN"@
    }
}

/// The label over a day's column of the week: its weekday and its day of the month in two
/// digits, with a space on each side.
pub open spec fn day_header_of(n: int) -> Seq<char> {
    " "@ + weekday_abbrev(crate::date::weekday_from_monday(n)) + " "@ + padded2(
        ymd_of(n).2 as nat,
    ) + " "@
}

/// The label over a day's column of the week (see `day_header_of`).
pub fn day_header(day: Day) -> (r: String)
    requires
        day.wf(),
    ensures
        r@ == day_header_of(day.n as int),
{
    let w = day.weekday_from_monday();
    let (_, _, d) = day.ymd();
    let name = if w == 0 {
        "MON"
    } else if w == 1 {
        "TUE"
    } else if w == 2 {
        "WED"
    } else if w == 3 {
        "THU"
    } else if w == 4 {
        "FRI"
    } else if w == 5 {
        "SAT"
    } else {
        "SUN"
    };
    let mut s = String::new();
    push_str(&mut s, " ");
    push_str(&mut s, name);
    push_str(&mut s, " ");
    push_padded2(&mut s, d);
    push_str(&mut s, " ");
    assert(s@ =~= day_header_of(day.n as int));
    s
}

/// What the second all-day row of a day adds after its title: " +N" for the N all-day
/// events that the two rows leave out; nothing on the first row or when all fit.
pub open spec fn all_day_overflow_of(row: int, count: int) -> Seq<char> {
    if row == 1 && count > 2 {
        " +"@ + decimal((count - 2) as nat)
    } else {
        ""@
    }
}

/// What an all-day row adds after its title (see `all_day_overflow_of`).
pub fn all_day_overflow(row: usize, count: usize) -> (r: String)
    ensures
        r@ == all_day_overflow_of(row as int, count as int),
{
    let mut s = String::new();
    proof {
        reveal_strlit("");
    }
    if row == 1 && count > 2 {
        push_str(&mut s, " +");
        push_count(&mut s, count - 2);
    }
    assert(s@ =~= all_day_overflow_of(row as int, count as int));
    s
}

/// The minutes of the hour marks beside the week grid: every second hour from the hour of
/// `start` to the hour of `end`, those that lie between `start` and `end`.
pub open spec fn hour_ticks_of(h: int, last: int, start: int, end: int) -> Seq<int>
    decreases last + 2 - h,
{
    if h > last {
        Seq::empty()
    } else {
        let rest = hour_ticks_of(h + 2, last, start, end);
        if start <= h * 60 <= end {
            seq![h * 60] + rest
        } else {
            rest
        }
    }
}

/// The minutes of the hour marks (see `hour_ticks_of`).
pub fn hour_ticks(start: u16, end: u16) -> (r: Vec<u16>)
    ensures
        r@.map_values(|m: u16| m as int) == hour_ticks_of((start / 60) as int, (end / 60) as int, start as int, end as int),
{
    let last = end / 60;
    let mut h: u16 = start / 60;
    let mut r: Vec<u16> = Vec::new();
    let ghost all = hour_ticks_of((start / 60) as int, last as int, start as int, end as int);
    assert(r@.map_values(|m: u16| m as int) + hour_ticks_of(h as int, last as int, start as int, end as int) =~= all);
    while h <= last
        invariant
            last == end / 60,
            all == hour_ticks_of((start / 60) as int, last as int, start as int, end as int),
            r@.map_values(|m: u16| m as int) + hour_ticks_of(h as int, last as int, start as int, end as int) == all,
        decreases last + 2 - h,
    {
        let ghost before = r@.map_values(|m: u16| m as int);
        let ghost rest = hour_ticks_of(h + 2, last as int, start as int, end as int);
        let minutes: u16 = h * 60;
        if start <= minutes && minutes <= end {
            r.push(minutes);
            assert(r@.map_values(|m: u16| m as int) =~= before.push(h * 60));
            assert(before + (seq![h * 60] + rest) =~= before.push(h * 60) + rest);
        }
        h = h + 2;
    }
    assert(hour_ticks_of(h as int, last as int, start as int, end as int) =~= Seq::<int>::empty());
    assert(r@.map_values(|m: u16| m as int) =~= all);
    r
}

/// The row of an hour mark: the row of its minutes (see `grid_row_at`), kept above the
/// grid's last row.
pub open spec fn tick_row_at(minutes: int, visible_start: int, grid_top: int, grid_height: int, span: int) -> int {
    let offset = (minutes - visible_start) * grid_height / span;
    let o = if offset <= u16::MAX {
        offset
    } else {
        0
    };
    grid_top + if o <= less(grid_height, 1) {
        o
    } else {
        less(grid_height, 1)
    }
}

/// The row of an hour mark (see `tick_row_at`).
pub fn tick_row(minutes: u16, visible_start: u16, grid_top: u16, grid_height: u16, span: u32) -> (r: u16)
    requires
        visible_start <= minutes,
        span >= 1,
        tick_row_at(minutes as int, visible_start as int, grid_top as int, grid_height as int, span as int)
            <= u16::MAX,
    ensures
        r == tick_row_at(minutes as int, visible_start as int, grid_top as int, grid_height as int, span as int),
{
    let d: u64 = (minutes - visible_start) as u64;
    assert(d * (grid_height as u64) <= 65535 * 65535) by (nonlinear_arith)
        requires
            d <= 65535,
            grid_height <= 65535,
    ;
    let offset: u64 = d * grid_height as u64 / span as u64;
    let o: u16 = if offset <= 65535 {
        offset as u16
    } else {
        0
    };
    let limit: u16 = if grid_height >= 1 {
        grid_height - 1
    } else {
        0
    };
    grid_top + if o <= limit {
        o
    } else {
        limit
    }
}

/// The weekday's name in capitals (see `weekday_name`).
pub open spec fn weekday_caps(w: int) -> Seq<char> {
    if w == 0 {
        "MONDAY"@
    } else if w == 1 {
        "TUESDAY"@
    } else if w == 2 {
        "WEDNESDAY"@
    } else if w == 3 {
        "THURSDAY"@
    } else if w == 4 {
        "FRIDAY"@
    } else if w == 5 {
        "SATURDAY"@
    } else {
        "SUNDAY"@
    }
}

/// The month's name in capitals (see `month_name`).
pub open spec fn month_caps(m: int) -> Seq<char> {
    if m == 1 {
        "JANUARY"@
    } else if m == 2 {
        "FEBRUARY"@
    } else if m == 3 {
        "MARCH"@
    } else if m == 4 {
        "APRIL"@
    } else if m == 5 {
        "MAY"@
    } else if m == 6 {
        "JUNE"@
    } else if m == 7 {
        "JULY"@
    } else if m == 8 {
        "AUGUST"@
    } else if m == 9 {
        "SEPTEMBER"@
    } else if m == 10 {
        "OCTOBER"@
    } else if m == 11 {
        "NOVEMBER"@
    } else {
        "DECEMBER"@
    }
}

/// The weekday's name in capitals (see `weekday_caps`).
fn weekday_caps_str(w: u32) -> (r: &'static str)
    ensures
        r@ == weekday_caps(w as int),
{
    if w == 0 {
        "MONDAY"
    } else if w == 1 {
        "TUESDAY"
    } else if w == 2 {
        "WEDNESDAY"
    } else if w == 3 {
        "THURSDAY"
    } else if w == 4 {
        "FRIDAY"
    } else if w == 5 {
        "SATURDAY"
    } else {
        "SUNDAY"
    }
}

/// The month's name in capitals (see `month_caps`).
fn month_caps_str(m: u32) -> (r: &'static str)
    ensures
        r@ == month_caps(m as int),
{
    if m == 1 {
        "JANUARY"
    } else if m == 2 {
        "FEBRUARY"
    } else if m == 3 {
        "MARCH"
    } else if m == 4 {
        "APRIL"
    } else if m == 5 {
        "MAY"
    } else if m == 6 {
        "JUNE"
    } else if m == 7 {
        "JULY"
    } else if m == 8 {
        "AUGUST"
    } else if m == 9 {
        "SEPTEMBER"
    } else if m == 10 {
        "OCTOBER"
    } else if m == 11 {
        "NOVEMBER"
    } else {
        "DECEMBER"
    }
}

/// The month's name (see `month_name`).
fn month_name_str(m: u32) -> (r: &'static str)
    ensures
        r@ == month_name(m as int),
{
    if m == 1 {
        "January"
    } else if m == 2 {
        "February"
    } else if m == 3 {
        "March"
    } else if m == 4 {
        "April"
    } else if m == 5 {
        "May"
    } else if m == 6 {
        "June"
    } else if m == 7 {
        "July"
    } else if m == 8 {
        "August"
    } else if m == 9 {
        "September"
    } else if m == 10 {
        "October"
    } else if m == 11 {
        "November"
    } else {
        "December"
    }
}

/// The heading of a day in the agenda: chrono's `%A %-d %B` in capitals — the weekday, the
/// day of the month without padding and the month.
pub open spec fn agenda_heading_of(n: int) -> Seq<char> {
    let (y, m, d) = ymd_of(n);
    weekday_caps(crate::date::weekday_from_monday(n)) + " "@ + decimal(d as nat) + " "@ + month_caps(m)
}

/// The heading of a day in the agenda (see `agenda_heading_of`).
pub fn agenda_heading(day: Day) -> (r: String)
    requires
        day.wf(),
    ensures
        r@ == agenda_heading_of(day.n as int),
{
    let w = day.weekday_from_monday();
    let (_, m, d) = day.ymd();
    let mut s = String::new();
    push_str(&mut s, weekday_caps_str(w));
    push_str(&mut s, " ");
    push_decimal(&mut s, d);
    push_str(&mut s, " ");
    push_str(&mut s, month_caps_str(m));
    assert(s@ =~= agenda_heading_of(day.n as int));
    s
}

/// An integer as Rust writes it: its digits, after a minus when it is negative.
pub open spec fn int_text(v: int) -> Seq<char> {
    if v < 0 {
        "-"@ + decimal((-v) as nat)
    } else {
        decimal(v as nat)
    }
}

/// Appends a year as chrono's `%Y` writes it (see `year_text`).
pub fn push_year(s: &mut String, y: i32)
    ensures
        final(s)@ == old(s)@ + year_text(y as int),
{
    let ghost start = old(s)@;
    let magnitude: u32 = if y < 0 {
        (-(y as i64)) as u32
    } else {
        y as u32
    };
    if y > 9999 {
        push_str(s, "+");
        push_decimal(s, magnitude);
    } else {
        if y < 0 {
            push_str(s, "-");
        }
        if magnitude < 10 {
            push_str(s, "000");
        } else if magnitude < 100 {
            push_str(s, "00");
        } else if magnitude < 1000 {
            push_str(s, "0");
        }
        push_decimal(s, magnitude);
    }
    assert(s@ =~= start + year_text(y as int));
}

/// The period that the header names: for the week, the cursor's month and year and the
/// ISO week number of the week's first day in two digits; for the month, chrono's `%B %Y`;
/// for the agenda, the cursor's day in the configured date format and "→ 14 days". `None`
/// where chrono cannot write the day in the configured format.
pub open spec fn header_period_of(app: App, week_first: int) -> Option<Seq<char>> {
    let (y, m, d) = ymd_of(app.cursor_date.n as int);
    match app.view {
        View::Week => Some(
            month_name(m) + " "@ + int_text(y) + "  ·  W"@ + padded2(iso_week_of(week_first) as nat),
        ),
        View::Month => Some(month_name(m) + " "@ + year_text(y)),
        View::Agenda => match date_format_text(app.cursor_date.n as int, app.config.date_format@) {
            Some(t) => Some(t + " → 14 days"@),
            None => None,
        },
    }
}

/// The period that the header names (see `header_period_of`).
pub fn header_period(app: &App) -> (r: Option<String>)
    requires
        app.wf(),
        app.view == View::Week ==> app.cursor_date.n - week_offset(
            app.sunday_first(),
            app.cursor_date.n as int,
        ) >= MIN_DAY,
    ensures
        opt_view(r) == header_period_of(
            *app,
            app.cursor_date.n - week_offset(app.sunday_first(), app.cursor_date.n as int),
        ),
{
    let (y, m, _) = app.cursor_date.ymd();
    match app.view {
        View::Week => {
            let first = app.week_start();
            let week = iso_week_number(first);
            let mut s = String::new();
            push_str(&mut s, month_name_str(m));
            push_str(&mut s, " ");
            if y < 0 {
                push_str(&mut s, "-");
            }
            let magnitude: u32 = if y < 0 {
                (-(y as i64)) as u32
            } else {
                y as u32
            };
            push_decimal(&mut s, magnitude);
            push_str(&mut s, "  ·  W");
            push_padded2(&mut s, week);
            assert(s@ =~= header_period_of(
                *app,
                app.cursor_date.n - week_offset(app.sunday_first(), app.cursor_date.n as int),
            )->Some_0);
            Some(s)
        },
        View::Month => {
            let mut s = String::new();
            push_str(&mut s, month_name_str(m));
            push_str(&mut s, " ");
            push_year(&mut s, y);
            assert(s@ =~= header_period_of(
                *app,
                app.cursor_date.n - week_offset(app.sunday_first(), app.cursor_date.n as int),
            )->Some_0);
            Some(s)
        },
        View::Agenda => match format_date_with(app.cursor_date, app.config.date_format.as_str()) {
            Some(mut s) => {
                let ghost t = s@;
                push_str(&mut s, " → 14 days");
                assert(s@ =~= t + " → 14 days"@);
                Some(s)
            },
            None => None,
        },
    }
}

/// The name of the view shown in the header.
pub fn view_label(view: View) -> (r: &'static str)
    ensures
        r@ == match view {
            View::Week => "WEEK"@,
            View::Month => "MONTH"@,
            View::Agenda => "AGENDA"@,
        },
{
    match view {
        View::Week => "WEEK",
        View::Month => "MONTH",
        View::Agenda => "AGENDA",
    }
}

} // verus!
