//! A month calendar with a day cursor, single-day or range selection.
use vstd::prelude::*;
use crate::context::{rect_hit_left_down, Context, Response};
use crate::context::widgets_interactive::collections::click_rect;
use crate::event::{Event, KeyCode, KeyEvent, KeyEventKind, KeyModifiers, MouseButton, MouseKind};
use crate::command::Command;
use crate::context::{plain_container, plain_container_args};
use crate::context::widgets_display::text::{decimal, digit_char, digit_str, is_plain_text, pad2, push_decimal, push_pad2};
use crate::style::{fg_style, rect_contains, with_mods, Direction, Modifiers, Rect, Style, Theme, BOLD};

verus! {

/// Whether `y` is a leap year of the Gregorian calendar.
pub open spec fn is_leap(y: int) -> bool {
    (y % 4 == 0 && y % 100 != 0) || y % 400 == 0
}

/// The number of days of month `m` (1 to 12) of year `y`.
pub open spec fn month_days(y: int, m: int) -> int {
    if m == 2 {
        if is_leap(y) { 29 } else { 28 }
    } else if m == 4 || m == 6 || m == 9 || m == 11 {
        30
    } else {
        31
    }
}

/// A calendar day as year, month and day.
pub type Day = (int, int, int);

/// Whether `d` names a day that exists.
pub open spec fn valid_day(d: Day) -> bool {
    1 <= d.1 <= 12 && 1 <= d.2 <= month_days(d.0, d.1)
}

/// The day after `d`.
pub open spec fn next_day(d: Day) -> Day {
    if d.2 < month_days(d.0, d.1) {
        (d.0, d.1, d.2 + 1)
    } else if d.1 == 12 {
        (d.0 + 1, 1, 1)
    } else {
        (d.0, d.1 + 1, 1)
    }
}

/// The day before `d`.
pub open spec fn prev_day(d: Day) -> Day {
    if d.2 > 1 {
        (d.0, d.1, d.2 - 1)
    } else if d.1 == 1 {
        (d.0 - 1, 12, 31)
    } else {
        (d.0, d.1 - 1, month_days(d.0, d.1 - 1))
    }
}

/// The day `n` days after `d`.
pub open spec fn days_after(d: Day, n: nat) -> Day
    decreases n,
{
    if n == 0 { d } else { next_day(days_after(d, (n - 1) as nat)) }
}

/// The day `n` days before `d`.
pub open spec fn days_before(d: Day, n: nat) -> Day
    decreases n,
{
    if n == 0 { d } else { prev_day(days_before(d, (n - 1) as nat)) }
}

/// The day `delta` days from `d`: later for a positive `delta`.
pub open spec fn moved_by(d: Day, delta: int) -> Day {
    if delta >= 0 { days_after(d, delta as nat) } else { days_before(d, (-delta) as nat) }
}



proof fn lemma_after_valid(d: Day, n: nat)
    requires
        valid_day(d),
    ensures
        valid_day(days_after(d, n)),
    decreases n,
{
    if n > 0 {
        lemma_after_valid(d, (n - 1) as nat);
    }
}

proof fn lemma_before_valid(d: Day, n: nat)
    requires
        valid_day(d),
    ensures
        valid_day(days_before(d, n)),
    decreases n,
{
    if n > 0 {
        lemma_before_valid(d, (n - 1) as nat);
    }
}

/// Stepping `a` days and then `b` more is stepping `a + b` days.
proof fn lemma_after_add(d: Day, a: nat, b: nat)
    ensures
        days_after(days_after(d, a), b) == days_after(d, a + b),
    decreases b,
{
    if b > 0 {
        lemma_after_add(d, a, (b - 1) as nat);
    }
}

proof fn lemma_before_add(d: Day, a: nat, b: nat)
    ensures
        days_before(days_before(d, a), b) == days_before(d, a + b),
    decreases b,
{
    if b > 0 {
        lemma_before_add(d, a, (b - 1) as nat);
    }
}

/// Within a month, `k` days on is `k` more in the day of the month.
proof fn lemma_after_in_month(d: Day, k: nat)
    requires
        valid_day(d),
        d.2 + k <= month_days(d.0, d.1),
    ensures
        days_after(d, k) == (d.0, d.1, d.2 + k),
    decreases k,
{
    if k > 0 {
        lemma_after_in_month(d, (k - 1) as nat);
    }
}

/// Within a month, `k` days back is `k` less in the day of the month.
proof fn lemma_before_in_month(d: Day, k: nat)
    requires
        valid_day(d),
        d.2 - k >= 1,
    ensures
        days_before(d, k) == (d.0, d.1, d.2 - k),
    decreases k,
{
    if k > 0 {
        lemma_before_in_month(d, (k - 1) as nat);
    }
}

/// The day before the day after `d` is `d`, and the other way round.
pub proof fn lemma_step_undo(d: Day)
    requires
        valid_day(d),
    ensures
        prev_day(next_day(d)) == d,
        next_day(prev_day(d)) == d,
{
}

/// Moving forward `n` days and back `n` days returns to the same day.
pub proof fn lemma_move_round_trip(d: Day, n: nat)
    requires
        valid_day(d),
    ensures
        days_before(days_after(d, n), n) == d,
        days_after(days_before(d, n), n) == d,
    decreases n,
{
    if n > 0 {
        let m = (n - 1) as nat;
        lemma_move_round_trip(d, m);
        lemma_after_valid(d, m);
        lemma_before_valid(d, m);
        lemma_step_undo(days_after(d, m));
        lemma_before_add(days_after(d, n), 1, m);
        assert(days_before(days_after(d, n), 0) == days_after(d, n));
        assert(days_after(d, n) == next_day(days_after(d, m)));
        assert(days_before(days_after(d, n), 1) == days_after(d, m));
        lemma_step_undo(days_before(d, m));
        lemma_after_add(days_before(d, n), 1, m);
        assert(days_after(days_before(d, n), 0) == days_before(d, n));
        assert(days_before(d, n) == prev_day(days_before(d, m)));
        assert(days_after(days_before(d, n), 1) == days_before(d, m));
    }
}


/// The day number of `(y, m, d)` counted from 1970-01-01 (day 0).
pub open spec fn days_from_civil(y: int, m: int, d: int) -> int {
    let y2 = if m <= 2 { y - 1 } else { y };
    let era = y2 / 400;
    let yoe = y2 - era * 400;
    let mp = if m > 2 { m - 3 } else { m + 9 };
    let doy = (153 * mp + 2) / 5 + d - 1;
    let doe = yoe * 365 + yoe / 4 - yoe / 100 + doy;
    era * 146097 + doe - 719468
}

/// The weekday of the first of month `m` of year `y`, Monday being 0.
pub open spec fn first_weekday(y: int, m: int) -> int {
    (days_from_civil(y, m, 1) + 3) % 7
}

/// Whole 400-year cycles added to a year add to its cycle number and leave
/// its year within the cycle.
proof fn lemma_cycle_shift(a: int, k: int)
    requires
        k >= 0,
    ensures
        (a + 400 * k) / 400 == a / 400 + k,
        (a + 400 * k) - ((a + 400 * k) / 400) * 400 == a - (a / 400) * 400,
{
    let q = a / 400;
    let r = a % 400;
    vstd::arithmetic::div_mod::lemma_fundamental_div_mod(a, 400);
    vstd::arithmetic::div_mod::lemma_fundamental_div_mod_converse(a + 400 * k, 400, q + k, r);
}

/// The shifted day count has the weekday of the true one.
proof fn lemma_weekday_shift(y: int, m: int, total: int)
    requires
        1 <= m <= 12,
        total == days_from_civil(y, m, 1) + 719468 + 5_368_710 * 146097,
    ensures
        (total + 2) % 7 == first_weekday(y, m),
{
    let d = days_from_civil(y, m, 1);
    assert(total + 2 == (d + 3) + 7 * (102781 + 5_368_710 * 20871) - 0);
    vstd::arithmetic::div_mod::lemma_mod_multiples_vanish((102781 + 5_368_710 * 20871) as int, d + 3, 7);
}

/// The number of days of month `month` (1 to 12) of `year`.
pub fn days_in_month(year: i32, month: u32) -> (r: u32)
    requires
        1 <= month <= 12,
    ensures
        r == month_days(year as int, month as int),
{
    if month == 2 {
        let leap = (year % 4 == 0 && year % 100 != 0) || year % 400 == 0;
        if leap { 29 } else { 28 }
    } else if month == 4 || month == 6 || month == 9 || month == 11 {
        30
    } else {
        31
    }
}

/// The weekday (Monday 0 to Sunday 6) of the first of `month` of `year`.
pub fn first_weekday_of(year: i32, month: u32) -> (r: u32)
    requires
        1 <= month <= 12,
    ensures
        r == first_weekday(year as int, month as int),
{
    // Shifted by whole 400-year cycles (146097 days, a multiple of 7) so
    // that every quantity is non-negative.
    let shift: u64 = 5_368_710;
    let y2: i64 = if month <= 2 { year as i64 - 1 } else { year as i64 };
    let ys: u64 = (y2 + 400 * shift as i64) as u64;
    let era: u64 = ys / 400;
    proof {
        lemma_cycle_shift(y2 as int, 5_368_710);
        assert(era as int == (y2 as int) / 400 + 5_368_710);
    }
    let yoe: u64 = ys - era * 400;
    let mp: u64 = if month > 2 { month as u64 - 3 } else { month as u64 + 9 };
    let doy: u64 = (153 * mp + 2) / 5;
    let doe: u64 = yoe * 365 + yoe / 4 - yoe / 100 + doy;
    let total: u64 = era * 146097 + doe;
    proof {
        lemma_cycle_shift(y2 as int, 5_368_710);
        lemma_weekday_shift(year as int, month as int, total as int);
    }
    ((total + 2) % 7) as u32
}

/// The three-letter English name of month `m`; `???` outside 1 to 12.
pub fn calendar_month_name(month: u32) -> (r: &'static str)
    ensures
        r@ == month_name(month as int),
{
    proof {
        reveal_strlit("Jan"); reveal_strlit("Feb"); reveal_strlit("Mar"); reveal_strlit("Apr");
        reveal_strlit("May"); reveal_strlit("Jun"); reveal_strlit("Jul"); reveal_strlit("Aug");
        reveal_strlit("Sep"); reveal_strlit("Oct"); reveal_strlit("Nov"); reveal_strlit("Dec");
        reveal_strlit("???");
    }
    match month {
        1 => "Jan",
        2 => "Feb",
        3 => "Mar",
        4 => "Apr",
        5 => "May",
        6 => "Jun",
        7 => "Jul",
        8 => "Aug",
        9 => "Sep",
        10 => "Oct",
        11 => "Nov",
        12 => "Dec",
        _ => "???",
    }
}

/// The abbreviated name of month `m`.
pub open spec fn month_name(m: int) -> Seq<char> {
    if m == 1 { "Jan"@ } else if m == 2 { "Feb"@ } else if m == 3 { "Mar"@ } else if m == 4 { "Apr"@ }
    else if m == 5 { "May"@ } else if m == 6 { "Jun"@ } else if m == 7 { "Jul"@ } else if m == 8 { "Aug"@ }
    else if m == 9 { "Sep"@ } else if m == 10 { "Oct"@ } else if m == 11 { "Nov"@ } else if m == 12 { "Dec"@ }
    else { "???"@ }
}


/// A calendar date.
#[derive(Debug, Clone, Copy, PartialEq, Eq, Structural)]
pub struct CalDate {
    pub year: i32,
    pub month: u32,
    pub day: u32,
}

impl CalDate {
    pub open spec fn as_day(&self) -> Day {
        (self.year as int, self.month as int, self.day as int)
    }
}

/// Whether a calendar picks one day or a range of days.
#[derive(Debug, Clone, Copy, PartialEq, Eq, Structural)]
pub enum CalendarSelect {
    Single,
    Range,
}

/// A month calendar: the month shown, the day cursor, and what is selected.
#[derive(Clone, Copy)]
pub struct CalendarState {
    pub year: i32,
    /// 1 (January) to 12.
    pub month: u32,
    /// Day of the shown month the keyboard cursor is on.
    pub cursor_day: u32,
    /// Day of the shown month picked in single-day mode.
    pub selected_day: Option<u32>,
    pub mode: CalendarSelect,
    /// First endpoint picked in range mode.
    pub anchor: Option<CalDate>,
    /// Second endpoint picked in range mode.
    pub extent: Option<CalDate>,
    /// Show an `HH:MM` row under the days.
    pub time_enabled: bool,
    pub hour: u32,
    pub minute: u32,
}

impl CalendarState {
    /// The state's internal consistency: a real month, with the cursor on
    /// one of its days.
    pub open spec fn wf(&self) -> bool {
        &&& 1 <= self.month <= 12
        &&& 1 <= self.cursor_day <= month_days(self.year as int, self.month as int)
    }

    /// The day the cursor is on.
    pub open spec fn cursor(&self) -> Day {
        (self.year as int, self.month as int, self.cursor_day as int)
    }

    /// `month` of `year` in single-day mode, the cursor on its first day,
    /// nothing selected, no time row.
    pub fn from_ym(year: i32, month: u32) -> (s: Self)
        requires
            1 <= month <= 12,
        ensures
            s.wf(),
            s.year == year && s.month == month && s.cursor_day == 1,
            s.selected_day is None && s.mode == CalendarSelect::Single,
            s.anchor is None && s.extent is None,
            !s.time_enabled && s.hour == 0 && s.minute == 0,
    {
        CalendarState {
            year,
            month,
            cursor_day: 1,
            selected_day: None,
            mode: CalendarSelect::Single,
            anchor: None,
            extent: None,
            time_enabled: false,
            hour: 0,
            minute: 0,
        }
    }

    /// The number of days of `month` (1 to 12) of `year`.
    pub fn days_in_month(year: i32, month: u32) -> (r: u32)
        requires
            1 <= month <= 12,
        ensures
            r == month_days(year as int, month as int),
    {
        days_in_month(year, month)
    }

    /// The weekday of the first of `month` of `year`, Monday 0 to Sunday 6.
    pub fn first_weekday(year: i32, month: u32) -> (r: u32)
        requires
            1 <= month <= 12,
        ensures
            r == first_weekday(year as int, month as int),
    {
        first_weekday_of(year, month)
    }

    /// Switch to range selection.
    pub fn with_range(&mut self)
        ensures
            *final(self) == (CalendarState { mode: CalendarSelect::Range, ..*old(self) }),
    {
        self.mode = CalendarSelect::Range;
    }

    /// Show the `HH:MM` row.
    pub fn with_time(&mut self)
        ensures
            *final(self) == (CalendarState { time_enabled: true, ..*old(self) }),
    {
        self.time_enabled = true;
    }

    /// The day under the cursor as a date.
    pub fn cursor_date(&self) -> (d: CalDate)
        ensures
            d == (CalDate { year: self.year, month: self.month, day: self.cursor_day }),
    {
        CalDate { year: self.year, month: self.month, day: self.cursor_day }
    }
}

/// The cursor moved `delta` days: within a month by the day, across months
/// and years as the calendar runs.
pub fn calendar_move_cursor_by_days(state: &mut CalendarState, delta: i32)
    requires
        old(state).wf(),
        delta > i32::MIN,
        i32::MIN <= moved_by(old(state).cursor(), delta as int).0 <= i32::MAX,
    ensures
        final(state).wf(),
        final(state).cursor() == moved_by(old(state).cursor(), delta as int),
        *final(state) == (CalendarState {
            year: final(state).year,
            month: final(state).month,
            cursor_day: final(state).cursor_day,
            ..*old(state)
        }),
{
    let ghost target = moved_by(old(state).cursor(), delta as int);
    let mut remaining: i32 = delta;
    proof {
        lemma_moved_years(old(state).cursor(), delta as int);
    }
    while remaining != 0
        invariant
            state.wf(),
            target == moved_by(old(state).cursor(), delta as int),
            moved_by(state.cursor(), remaining as int) == target,
            remaining > i32::MIN,
            delta >= 0 ==> remaining >= 0 && old(state).year <= state.year <= target.0,
            delta < 0 ==> remaining <= 0 && target.0 <= state.year <= old(state).year,
            i32::MIN <= target.0 <= i32::MAX,
            *state == (CalendarState { year: state.year, month: state.month, cursor_day: state.cursor_day, ..*old(state) }),
        decreases (if remaining >= 0 { remaining as int } else { -remaining as int }),
    {
        let ghost here = state.cursor();
        let days = days_in_month(state.year, state.month);
        if remaining > 0 {
            let forward = (days - state.cursor_day) as i32;
            if remaining <= forward {
                proof {
                    lemma_after_in_month(here, remaining as nat);
                    assert(moved_by(here, remaining as int) == days_after(here, remaining as nat));
                }
                state.cursor_day = state.cursor_day + remaining as u32;
                proof {
                    assert(state.cursor() == (here.0, here.1, here.2 + remaining));
                    assert(moved_by(here, remaining as int) == target);
                    assert(state.cursor() == target);
                }
                return;
            }
            proof {
                lemma_after_in_month(here, forward as nat);
                lemma_after_add(here, forward as nat, 1);
                assert(days_after(days_after(here, forward as nat), 1) == next_day(days_after(here, forward as nat)));
                lemma_after_add(here, (forward + 1) as nat, (remaining - forward - 1) as nat);
                lemma_after_valid(here, (forward + 1) as nat);
                lemma_years_after(here, (forward + 1) as nat, (remaining - forward - 1) as nat);
            }
            remaining = remaining - (forward + 1);
            if state.month == 12 {
                state.month = 1;
                state.year = state.year + 1;
            } else {
                state.month = state.month + 1;
            }
            state.cursor_day = 1;
        } else {
            let backward = (state.cursor_day - 1) as i32;
            if -remaining <= backward {
                proof {
                    lemma_before_in_month(here, (-remaining) as nat);
                    assert(moved_by(here, remaining as int) == days_before(here, (-remaining) as nat));
                }
                state.cursor_day = state.cursor_day - (-remaining) as u32;
                proof {
                    assert(state.cursor() == (here.0, here.1, here.2 + remaining));
                    assert(moved_by(here, remaining as int) == target);
                    assert(state.cursor() == target);
                }
                return;
            }
            proof {
                lemma_before_in_month(here, backward as nat);
                lemma_before_add(here, backward as nat, 1);
                assert(days_before(days_before(here, backward as nat), 1) == prev_day(days_before(here, backward as nat)));
                lemma_before_add(here, (backward + 1) as nat, (-remaining - backward - 1) as nat);
                lemma_before_valid(here, (backward + 1) as nat);
                lemma_years_before(here, (backward + 1) as nat, (-remaining - backward - 1) as nat);
            }
            remaining = remaining + (backward + 1);
            if state.month == 1 {
                state.month = 12;
                state.year = state.year - 1;
            } else {
                state.month = state.month - 1;
            }
            state.cursor_day = days_in_month(state.year, state.month);
        }
    }
}

/// Moving forward never goes back a year, and the other way round.
proof fn lemma_years_after(d: Day, a: nat, b: nat)
    ensures
        d.0 <= days_after(d, a).0 <= days_after(d, a + b).0,
    decreases a + b,
{
    if b > 0 {
        lemma_years_after(d, a, (b - 1) as nat);
    } else if a > 0 {
        lemma_years_after(d, (a - 1) as nat, 0);
    }
}

proof fn lemma_years_before(d: Day, a: nat, b: nat)
    ensures
        d.0 >= days_before(d, a).0 >= days_before(d, a + b).0,
    decreases a + b,
{
    if b > 0 {
        lemma_years_before(d, a, (b - 1) as nat);
    } else if a > 0 {
        lemma_years_before(d, (a - 1) as nat, 0);
    }
}

proof fn lemma_moved_years(d: Day, delta: int)
    ensures
        delta >= 0 ==> d.0 <= moved_by(d, delta).0,
        delta <= 0 ==> moved_by(d, delta).0 <= d.0,
{
    if delta >= 0 {
        lemma_years_after(d, delta as nat, 0);
    } else {
        lemma_years_before(d, (-delta) as nat, 0);
    }
}





/// `a` is on or before `b`.
pub open spec fn day_le(a: Day, b: Day) -> bool {
    a.0 < b.0 || (a.0 == b.0 && (a.1 < b.1 || (a.1 == b.1 && a.2 <= b.2)))
}

fn date_le(a: CalDate, b: CalDate) -> (r: bool)
    ensures
        r == day_le(a.as_day(), b.as_day()),
{
    a.year < b.year || (a.year == b.year && (a.month < b.month || (a.month == b.month && a.day <= b.day)))
}

impl CalendarState {
    /// The previous month, the cursor kept on a day it has; the earliest
    /// month an `i32` year can name stays.
    pub fn prev_month(&mut self)
        requires
            old(self).wf(),
        ensures
            final(self).wf(),
            old(self).month == 1 && old(self).year == i32::MIN ==> *final(self) == *old(self),
            !(old(self).month == 1 && old(self).year == i32::MIN) ==> {
                let (y, m) = if old(self).month == 1 { (old(self).year - 1, 12int) } else {
                    (old(self).year as int, old(self).month - 1) };
                &&& final(self).year == y && final(self).month == m
                &&& final(self).cursor_day == if old(self).cursor_day <= month_days(y, m) {
                    old(self).cursor_day as int } else { month_days(y, m) }
                &&& *final(self) == (CalendarState { year: final(self).year, month: final(self).month,
                    cursor_day: final(self).cursor_day, ..*old(self) })
            },
    {
        if self.month == 1 {
            if self.year == i32::MIN {
                return;
            }
            self.month = 12;
            self.year = self.year - 1;
        } else {
            self.month = self.month - 1;
        }
        let days = days_in_month(self.year, self.month);
        if self.cursor_day > days {
            self.cursor_day = days;
        }
    }

    /// The next month, the cursor kept on a day it has; the latest month
    /// an `i32` year can name stays.
    pub fn next_month(&mut self)
        requires
            old(self).wf(),
        ensures
            final(self).wf(),
            old(self).month == 12 && old(self).year == i32::MAX ==> *final(self) == *old(self),
            !(old(self).month == 12 && old(self).year == i32::MAX) ==> {
                let (y, m) = if old(self).month == 12 { (old(self).year + 1, 1int) } else {
                    (old(self).year as int, old(self).month + 1) };
                &&& final(self).year == y && final(self).month == m
                &&& final(self).cursor_day == if old(self).cursor_day <= month_days(y, m) {
                    old(self).cursor_day as int } else { month_days(y, m) }
                &&& *final(self) == (CalendarState { year: final(self).year, month: final(self).month,
                    cursor_day: final(self).cursor_day, ..*old(self) })
            },
    {
        if self.month == 12 {
            if self.year == i32::MAX {
                return;
            }
            self.month = 1;
            self.year = self.year + 1;
        } else {
            self.month = self.month + 1;
        }
        let days = days_in_month(self.year, self.month);
        if self.cursor_day > days {
            self.cursor_day = days;
        }
    }

    /// Start a range at the cursor: it becomes the anchor and the range has
    /// no other end yet.
    pub fn set_anchor_to_cursor(&mut self)
        ensures
            *final(self) == (CalendarState {
                anchor: Some(CalDate { year: old(self).year, month: old(self).month, day: old(self).cursor_day }),
                extent: None,
                ..*old(self)
            }),
    {
        self.anchor = Some(self.cursor_date());
        self.extent = None;
    }

    /// Move the range's other end to the cursor; with no anchor yet the
    /// cursor becomes the anchor.
    pub fn extend_to_cursor(&mut self)
        ensures
            old(self).anchor is None ==> *final(self) == (CalendarState {
                anchor: Some(CalDate { year: old(self).year, month: old(self).month, day: old(self).cursor_day }),
                ..*old(self)
            }),
            old(self).anchor is Some ==> *final(self) == (CalendarState {
                extent: Some(CalDate { year: old(self).year, month: old(self).month, day: old(self).cursor_day }),
                ..*old(self)
            }),
    {
        if self.anchor.is_none() {
            self.anchor = Some(self.cursor_date());
        } else {
            self.extent = Some(self.cursor_date());
        }
    }

    /// Whether `cell` is an end of the range.
    pub fn is_range_endpoint(&self, cell: CalDate) -> (r: bool)
        ensures
            r == (self.anchor == Some(cell) || self.extent == Some(cell)),
    {
        let a = match self.anchor { Some(a) => a == cell, None => false };
        let e = match self.extent { Some(e) => e == cell, None => false };
        a || e
    }

    /// The range from its earlier to its later end, once both are set.
    pub fn selected_range(&self) -> (r: Option<(CalDate, CalDate)>)
        ensures
            match (self.anchor, self.extent) {
                (Some(a), Some(e)) => r == Some(if day_le(a.as_day(), e.as_day()) { (a, e) } else { (e, a) }),
                _ => r is None,
            },
    {
        match (self.anchor, self.extent) {
            (Some(a), Some(e)) => if date_le(a, e) { Some((a, e)) } else { Some((e, a)) },
            _ => None,
        }
    }

    /// Whether `cell` lies in the range, ends included.
    pub fn in_range(&self, cell: CalDate) -> (r: bool)
        ensures
            r == match (self.anchor, self.extent) {
                (Some(a), Some(e)) => {
                    let (lo, hi) = if day_le(a.as_day(), e.as_day()) { (a, e) } else { (e, a) };
                    day_le(lo.as_day(), cell.as_day()) && day_le(cell.as_day(), hi.as_day())
                },
                _ => false,
            },
    {
        match self.selected_range() {
            Some((lo, hi)) => date_le(lo, cell) && date_le(cell, hi),
            None => false,
        }
    }
}


/// Up to four weeks forward land in the same month or early in the next.
proof fn lemma_forward_shape(d: Day, k: nat)
    requires
        valid_day(d),
        k <= 28,
    ensures
        ({
            let r = days_after(d, k);
            (d.2 + k <= month_days(d.0, d.1) && r == (d.0, d.1, d.2 + k))
            || (d.2 + k > month_days(d.0, d.1) && 1 <= r.2 <= k
                && r == (if d.1 == 12 { (d.0 + 1, 1, r.2) } else { (d.0, d.1 + 1, r.2) }))
        }),
    decreases k,
{
    if k > 0 {
        lemma_forward_shape(d, (k - 1) as nat);
    }
}

/// Up to four weeks back land in the same month or late in the one before.
proof fn lemma_backward_shape(d: Day, k: nat)
    requires
        valid_day(d),
        k <= 28,
    ensures
        ({
            let r = days_before(d, k);
            let (py, pm) = if d.1 == 1 { (d.0 - 1, 12int) } else { (d.0, d.1 - 1) };
            (d.2 - k >= 1 && r == (d.0, d.1, d.2 - k))
            || (d.2 - k < 1 && month_days(py, pm) - k + 1 <= r.2 <= month_days(py, pm) && r == (py, pm, r.2))
        }),
    decreases k,
{
    if k > 0 {
        lemma_backward_shape(d, (k - 1) as nat);
    }
}

/// Whether moving the cursor `delta` days (at most a week) would leave the
/// years an `i32` can name.
pub open spec fn leaves_years(s: CalendarState, delta: int) -> bool {
    (delta > 0 && s.year == i32::MAX && s.month == 12 && s.cursor_day + delta > 31)
        || (delta < 0 && s.year == i32::MIN && s.month == 1 && s.cursor_day + delta < 1)
}

/// `s` with its cursor moved `delta` days, unless that leaves the years an
/// `i32` can name.
pub open spec fn moved_state(s: CalendarState, delta: int) -> CalendarState {
    if leaves_years(s, delta) {
        s
    } else {
        let d = moved_by(s.cursor(), delta);
        CalendarState { year: d.0 as i32, month: d.1 as u32, cursor_day: d.2 as u32, ..s }
    }
}

/// `s` shown one month earlier (see [`CalendarState::prev_month`]).
pub open spec fn earlier_month(s: CalendarState) -> CalendarState {
    if s.month == 1 && s.year == i32::MIN {
        s
    } else {
        let (y, m) = if s.month == 1 { (s.year - 1, 12int) } else { (s.year as int, s.month - 1) };
        let c = if s.cursor_day <= month_days(y, m) { s.cursor_day as int } else { month_days(y, m) };
        CalendarState { year: y as i32, month: m as u32, cursor_day: c as u32, ..s }
    }
}

/// `s` shown one month later (see [`CalendarState::next_month`]).
pub open spec fn later_month(s: CalendarState) -> CalendarState {
    if s.month == 12 && s.year == i32::MAX {
        s
    } else {
        let (y, m) = if s.month == 12 { (s.year + 1, 1int) } else { (s.year as int, s.month + 1) };
        let c = if s.cursor_day <= month_days(y, m) { s.cursor_day as int } else { month_days(y, m) };
        CalendarState { year: y as i32, month: m as u32, cursor_day: c as u32, ..s }
    }
}

/// `s` with the range started at its cursor.
pub open spec fn anchored(s: CalendarState) -> CalendarState {
    CalendarState { anchor: Some(CalDate { year: s.year, month: s.month, day: s.cursor_day }), extent: None, ..s }
}

/// `s` with the range's other end at its cursor.
pub open spec fn extended(s: CalendarState) -> CalendarState {
    let c = CalDate { year: s.year, month: s.month, day: s.cursor_day };
    if s.anchor is None { CalendarState { anchor: Some(c), ..s } } else { CalendarState { extent: Some(c), ..s } }
}

/// Days a key moves the cursor: Left/`h` back one, Right/`l` on one, Up a
/// week back, Down a week on; 0 for other keys.
pub open spec fn key_delta(code: KeyCode) -> int {
    match code {
        KeyCode::Left | KeyCode::Char('h') | KeyCode::Char('H') => -1,
        KeyCode::Right | KeyCode::Char('l') | KeyCode::Char('L') => 1,
        KeyCode::Up => -7,
        KeyCode::Down => 7,
        _ => 0,
    }
}

/// The keys a focused calendar claims.
pub open spec fn calendar_codes() -> Seq<KeyCode> {
    seq![KeyCode::Left, KeyCode::Char('h'), KeyCode::Char('H'), KeyCode::Right, KeyCode::Char('l'),
        KeyCode::Char('L'), KeyCode::Up, KeyCode::Down, KeyCode::Char('['), KeyCode::Char(']'), KeyCode::Enter,
        KeyCode::Char(' ')]
}

/// One key press applied to a calendar.
pub open spec fn calendar_key(s: CalendarState, k: KeyEvent) -> CalendarState {
    let shift = k.modifiers.spec_contains(KeyModifiers(1));
    let range = s.mode == CalendarSelect::Range;
    let d = key_delta(k.code);
    if d != 0 {
        let m = moved_state(s, d);
        if range && shift { extended(m) } else { m }
    } else {
        match k.code {
            KeyCode::Char('[') => earlier_month(s),
            KeyCode::Char(']') => later_month(s),
            KeyCode::Enter | KeyCode::Char(' ') => if range {
                if shift { extended(s) } else { anchored(s) }
            } else {
                CalendarState { selected_day: Some(s.cursor_day), ..s }
            },
            _ => s,
        }
    }
}

/// The unclaimed key presses among the first `n` events applied in order.
pub open spec fn calendar_keys(events: Seq<Event>, consumed: Seq<bool>, n: nat, s: CalendarState) -> CalendarState
    decreases n,
{
    if n == 0 {
        s
    } else {
        let prev = calendar_keys(events, consumed, (n - 1) as nat, s);
        if consumed[n - 1] {
            prev
        } else {
            match events[n - 1] {
                Event::Key(k) => if k.kind == KeyEventKind::Press { calendar_key(prev, k) } else { prev },
                _ => prev,
            }
        }
    }
}

proof fn lemma_moved_state_wf(s: CalendarState, delta: int)
    requires
        s.wf(),
        -7 <= delta <= 7,
    ensures
        moved_state(s, delta).wf(),
        !leaves_years(s, delta) ==> i32::MIN <= moved_by(s.cursor(), delta).0 <= i32::MAX,
{
    let d = s.cursor();
    if delta >= 0 {
        lemma_forward_shape(d, delta as nat);
        lemma_after_valid(d, delta as nat);
    } else {
        lemma_backward_shape(d, (-delta) as nat);
        lemma_before_valid(d, (-delta) as nat);
    }
}

proof fn lemma_calendar_key_wf(s: CalendarState, k: KeyEvent)
    requires
        s.wf(),
    ensures
        calendar_key(s, k).wf(),
{
    let d = key_delta(k.code);
    if d != 0 {
        lemma_moved_state_wf(s, d);
    }
}

/// Keys keep the calendar on a real day of a real month.
pub proof fn lemma_calendar_keys_wf(events: Seq<Event>, consumed: Seq<bool>, n: nat, s: CalendarState)
    requires
        s.wf(),
    ensures
        calendar_keys(events, consumed, n, s).wf(),
    decreases n,
{
    if n > 0 {
        lemma_calendar_keys_wf(events, consumed, (n - 1) as nat, s);
        let prev = calendar_keys(events, consumed, (n - 1) as nat, s);
        match events[n - 1] {
            Event::Key(k) => lemma_calendar_key_wf(prev, k),
            _ => {},
        }
    }
}

impl CalendarState {
    /// Move the cursor `delta` days (at most a week), unless that leaves the
    /// years an `i32` can name.
    fn move_days(&mut self, delta: i32)
        requires
            old(self).wf(),
            -7 <= delta <= 7,
        ensures
            *final(self) == moved_state(*old(self), delta as int),
            final(self).wf(),
    {
        let leaves = (delta > 0 && self.year == i32::MAX && self.month == 12 && self.cursor_day as i64 + delta as i64 > 31)
            || (delta < 0 && self.year == i32::MIN && self.month == 1 && self.cursor_day as i64 + (delta as i64) < 1);
        proof {
            lemma_moved_state_wf(*old(self), delta as int);
        }
        if leaves {
            return;
        }
        calendar_move_cursor_by_days(self, delta);
    }

    /// Apply one key press (see [`calendar_key`]); whether the key belongs
    /// to the calendar.
    fn apply_key(&mut self, k: &KeyEvent) -> (claimed: bool)
        requires
            old(self).wf(),
        ensures
            *final(self) == calendar_key(*old(self), *k),
            final(self).wf(),
            claimed == calendar_codes().contains(k.code),
    {
        proof {
            lemma_calendar_key_wf(*old(self), *k);
        }
        let shift = k.modifiers.contains(KeyModifiers::SHIFT());
        let range = self.mode == CalendarSelect::Range;
        let delta: i32 = match k.code {
            KeyCode::Left => -1,
            KeyCode::Right => 1,
            KeyCode::Up => -7,
            KeyCode::Down => 7,
            KeyCode::Char(c) => if c == 'h' || c == 'H' { -1 } else if c == 'l' || c == 'L' { 1 } else { 0 },
            _ => 0,
        };
        let ghost cc = calendar_codes();
        if delta != 0 {
            self.move_days(delta);
            if range && shift {
                self.extend_to_cursor();
            }
            proof {
                match k.code {
                    KeyCode::Left => assert(cc[0] == k.code),
                    KeyCode::Right => assert(cc[3] == k.code),
                    KeyCode::Up => assert(cc[6] == k.code),
                    KeyCode::Down => assert(cc[7] == k.code),
                    KeyCode::Char(c) => {
                        if c == 'h' { assert(cc[1] == k.code); } else if c == 'H' { assert(cc[2] == k.code); }
                        else if c == 'l' { assert(cc[4] == k.code); } else { assert(cc[5] == k.code); }
                    },
                    _ => {},
                }
            }
            return true;
        }
        match k.code {
            KeyCode::Char(c) => {
                if c == '[' {
                    self.prev_month();
                    proof { assert(cc[8] == k.code); }
                    true
                } else if c == ']' {
                    self.next_month();
                    proof { assert(cc[9] == k.code); }
                    true
                } else if c == ' ' {
                    if range {
                        if shift { self.extend_to_cursor(); } else { self.set_anchor_to_cursor(); }
                    } else {
                        self.selected_day = Some(self.cursor_day);
                    }
                    proof { assert(cc[11] == k.code); }
                    true
                } else {
                    proof {
                        if cc.contains(k.code) {
                            let w = choose|w: int| 0 <= w < cc.len() && cc[w] == k.code;
                            assert(0 <= w < 12);
                        }
                    }
                    false
                }
            },
            KeyCode::Enter => {
                if range {
                    if shift { self.extend_to_cursor(); } else { self.set_anchor_to_cursor(); }
                } else {
                    self.selected_day = Some(self.cursor_day);
                }
                proof { assert(cc[10] == k.code); }
                true
            },
            _ => {
                proof {
                    if cc.contains(k.code) {
                        let w = choose|w: int| 0 <= w < cc.len() && cc[w] == k.code;
                        assert(0 <= w < 12);
                    }
                }
                false
            },
        }
    }
}


/// `s` with day `day` of its month picked by a click: the cursor goes there
/// and, in range mode, the range starts there (or, with Shift, ends there);
/// otherwise the day is selected.
pub open spec fn clicked_day(s: CalendarState, day: int, shift: bool) -> CalendarState {
    let s2 = CalendarState { cursor_day: day as u32, ..s };
    if s.mode == CalendarSelect::Range {
        if shift { extended(s2) } else { anchored(s2) }
    } else {
        CalendarState { selected_day: Some(day as u32), ..s2 }
    }
}

/// A left click at `(x, y)` inside `rect`, the calendar's area last frame:
/// the first three cells of the title row go a month back, the last three
/// a month on; on the day grid (rows 2 to 7, three cells a day) it picks
/// that day. `None` when the click hits none of these.
pub open spec fn calendar_click(s: CalendarState, x: int, y: int, shift: bool, rect: Rect) -> Option<CalendarState> {
    let rx = x - rect.x;
    let ry = y - rect.y;
    if ry == 0 && rx <= 2 {
        Some(earlier_month(s))
    } else if ry == 0 && rx + 3 >= rect.width {
        Some(later_month(s))
    } else if ry < 2 || ry >= 8 || rx >= 21 {
        None
    } else {
        let idx = (ry - 2) * 7 + rx / 3;
        let first = first_weekday(s.year as int, s.month as int);
        let day = idx - first + 1;
        if idx < first || day > month_days(s.year as int, s.month as int) {
            None
        } else {
            Some(clicked_day(s, day, shift))
        }
    }
}

/// The click carried by event `e` on a calendar drawn at `rect`, if any.
pub open spec fn calendar_event_click(s: CalendarState, e: Event, rect: Rect) -> Option<CalendarState> {
    if rect_hit_left_down(e, rect) {
        let m = e->Mouse_0;
        calendar_click(s, m.x as int, m.y as int, m.modifiers.spec_contains(KeyModifiers(1)), rect)
    } else {
        None
    }
}

/// The unclaimed clicks among the first `n` events applied in order.
pub open spec fn calendar_clicks(events: Seq<Event>, claimed: Seq<bool>, n: nat, s: CalendarState, rect: Rect)
    -> CalendarState
    decreases n,
{
    if n == 0 {
        s
    } else {
        let prev = calendar_clicks(events, claimed, (n - 1) as nat, s, rect);
        if claimed[n - 1] {
            prev
        } else {
            match calendar_event_click(prev, events[n - 1], rect) {
                Some(next) => next,
                None => prev,
            }
        }
    }
}

proof fn lemma_click_wf(s: CalendarState, x: int, y: int, shift: bool, rect: Rect)
    requires
        s.wf(),
    ensures
        calendar_click(s, x, y, shift, rect) matches Some(n) ==> n.wf(),
{
}

impl CalendarState {
    /// Apply a left click at `(x, y)` inside `rect` (see [`calendar_click`]);
    /// whether it hit something.
    fn apply_click(&mut self, x: u32, y: u32, shift: bool, rect: Rect) -> (hit: bool)
        requires
            old(self).wf(),
            rect_contains(rect, x, y),
        ensures
            final(self).wf(),
            match calendar_click(*old(self), x as int, y as int, shift, rect) {
                Some(n) => hit && *final(self) == n,
                None => !hit && *final(self) == *old(self),
            },
    {
        proof {
            lemma_click_wf(*old(self), x as int, y as int, shift, rect);
        }
        let rx: u32 = x - rect.x;
        let ry: u32 = y - rect.y;
        if ry == 0 && rx <= 2 {
            self.prev_month();
            return true;
        }
        if ry == 0 && rx as u64 + 3 >= rect.width as u64 {
            self.next_month();
            return true;
        }
        if ry < 2 || ry >= 8 || rx >= 21 {
            return false;
        }
        let idx: u32 = (ry - 2) * 7 + rx / 3;
        let first = first_weekday_of(self.year, self.month);
        let days = days_in_month(self.year, self.month);
        if idx < first {
            return false;
        }
        let day = idx - first + 1;
        if day > days {
            return false;
        }
        self.cursor_day = day;
        if self.mode == CalendarSelect::Range {
            if shift {
                self.extend_to_cursor();
            } else {
                self.set_anchor_to_cursor();
            }
        } else {
            self.selected_day = Some(day);
        }
        true
    }
}

impl Context {
    /// Apply this frame's unclaimed key presses to a focused calendar,
    /// claiming its keys.
    fn calendar_handle_keys(&mut self, state: &mut CalendarState)
        requires
            old(self).wf(),
            old(state).wf(),
        ensures
            final(self).wf(),
            final(state).wf(),
            *final(state) == calendar_keys(old(self).events@, old(self).consumed@, old(self).events@.len() as nat,
                *old(state)),
            forall|i: int| 0 <= i < final(self).consumed@.len() ==> #[trigger] final(self).consumed@[i]
                == (old(self).consumed@[i] || old(self).live_press_in(i, calendar_codes())),
            final(self).consumed@.len() == old(self).consumed@.len(),
            *final(self) == (Context { consumed: final(self).consumed, ..*old(self) }),
    {
        let n = self.events.len();
        let mut i: usize = 0;
        while i < n
            invariant
                n == self.events@.len(),
                i <= n,
                self.wf(),
                state.wf(),
                self.consumed@.len() == n,
                *self == (Context { consumed: self.consumed, ..*old(self) }),
                *state == calendar_keys(old(self).events@, old(self).consumed@, i as nat, *old(state)),
                forall|j: int| 0 <= j < n ==> #[trigger] self.consumed@[j] == (old(self).consumed@[j]
                    || (j < i && old(self).live_press_in(j, calendar_codes()))),
            decreases n - i,
        {
            if !self.consumed[i] {
                match &self.events[i] {
                    Event::Key(k) => {
                        if k.kind == KeyEventKind::Press {
                            let claim = state.apply_key(k);
                            if claim {
                                self.consumed.set(i, true);
                            }
                        }
                    },
                    _ => {},
                }
            }
            i = i + 1;
        }
    }

    /// Apply this frame's unclaimed left clicks on slot `id`'s previous
    /// rectangle, claiming the ones that hit the calendar's controls.
    fn calendar_handle_clicks(&mut self, state: &mut CalendarState, id: usize)
        requires
            old(self).wf(),
            old(state).wf(),
        ensures
            final(self).wf(),
            final(state).wf(),
            match click_rect(*old(self), id as int) {
                None => *final(self) == *old(self) && *final(state) == *old(state),
                Some(rect) => {
                    &&& *final(state) == calendar_clicks(old(self).events@, old(self).consumed@,
                        old(self).events@.len() as nat, *old(state), rect)
                    &&& final(self).consumed@.len() == old(self).consumed@.len()
                    &&& *final(self) == (Context { consumed: final(self).consumed, ..*old(self) })
                    &&& forall|i: int| 0 <= i < final(self).consumed@.len() ==> (#[trigger] final(self).consumed@[i]
                        == (old(self).consumed@[i] || (!old(self).consumed@[i] && calendar_event_click(
                            calendar_clicks(old(self).events@, old(self).consumed@, i as nat, *old(state), rect),
                            old(self).events@[i], rect) is Some)))
                },
            },
    {
        if self.is_blocked() || id >= self.prev_hit_map.len() {
            return;
        }
        let rect = self.prev_hit_map[id];
        let n = self.events.len();
        let mut i: usize = 0;
        while i < n
            invariant
                n == self.events@.len(),
                i <= n,
                self.wf(),
                state.wf(),
                self.consumed@.len() == n,
                click_rect(*old(self), id as int) == Some(rect),
                *self == (Context { consumed: self.consumed, ..*old(self) }),
                *state == calendar_clicks(old(self).events@, old(self).consumed@, i as nat, *old(state), rect),
                forall|j: int| 0 <= j < n ==> (#[trigger] self.consumed@[j] == (old(self).consumed@[j]
                    || (j < i && !old(self).consumed@[j] && calendar_event_click(
                        calendar_clicks(old(self).events@, old(self).consumed@, j as nat, *old(state), rect),
                        old(self).events@[j], rect) is Some))),
            decreases n - i,
        {
            let ghost before = *state;
            if !self.consumed[i] {
                match &self.events[i] {
                    Event::Mouse(m) => {
                        if m.kind == MouseKind::Down(MouseButton::Left) && rect.contains(m.x, m.y) {
                            let shift = m.modifiers.contains(KeyModifiers::SHIFT());
                            let hit = state.apply_click(m.x, m.y, shift, rect);
                            if hit {
                                self.consumed.set(i, true);
                            }
                        }
                    },
                    _ => {},
                }
            }
            proof {
                assert(calendar_clicks(old(self).events@, old(self).consumed@, (i + 1) as nat, *old(state), rect)
                    == (if old(self).consumed@[i as int] { before } else {
                        match calendar_event_click(before, old(self).events@[i as int], rect) {
                            Some(next) => next,
                            None => before,
                        }
                    }));
            }
            i = i + 1;
        }
    }
}


/// `y` in decimal, with a minus sign when negative.
pub open spec fn year_text(y: int) -> Seq<char> {
    if y < 0 { seq!['-'] + decimal((-y) as nat) } else { decimal(y as nat) }
}

/// The title of the shown month: the year, a space, the month's name.
pub open spec fn calendar_title(s: CalendarState) -> Seq<char> {
    year_text(s.year as int) + seq![' '] + month_name(s.month as int)
}

/// The header of weekday column `col`, Monday first.
pub open spec fn weekday_label(col: int) -> Seq<char> {
    if col == 0 { seq!['M', 'o', ' '] } else if col == 1 { seq!['T', 'u', ' '] } else if col == 2 { seq!['W', 'e', ' '] }
    else if col == 3 { seq!['T', 'h', ' '] } else if col == 4 { seq!['F', 'r', ' '] } else if col == 5 { seq!['S', 'a', ' '] }
    else { seq!['S', 'u', ' '] }
}

/// A day cell: the day right-aligned in two cells, then a space.
pub open spec fn day_cell_text(day: int) -> Seq<char> {
    (if day < 10 { seq![' ', digit_char(day as nat)] } else { decimal(day as nat) }) + seq![' ']
}

/// Whether `cell` lies in the range of `s`, ends included.
pub open spec fn range_has(s: CalendarState, cell: CalDate) -> bool {
    match (s.anchor, s.extent) {
        (Some(a), Some(e)) => {
            let (lo, hi) = if day_le(a.as_day(), e.as_day()) { (a, e) } else { (e, a) };
            day_le(lo.as_day(), cell.as_day()) && day_le(cell.as_day(), hi.as_day())
        },
        _ => false,
    }
}

/// The style of day `day`'s cell: range ends (or the selected day) in the
/// selection colors, the inside of a range on the surface color, the cursor
/// bold in the primary color.
pub open spec fn day_cell_style(s: CalendarState, t: Theme, day: int) -> Style {
    let cell = CalDate { year: s.year, month: s.month, day: day as u32 };
    let selected = Style { fg: Some(t.selected_fg), bg: Some(t.selected_bg), modifiers: Modifiers(0) };
    let cursor = with_mods(fg_style(t.primary), BOLD);
    if s.mode == CalendarSelect::Range {
        if s.anchor == Some(cell) || s.extent == Some(cell) {
            selected
        } else if range_has(s, cell) {
            Style { fg: Some(t.text), bg: Some(t.surface), modifiers: Modifiers(0) }
        } else if s.cursor_day == day {
            cursor
        } else {
            fg_style(t.text)
        }
    } else if s.selected_day == Some(day as u32) {
        selected
    } else if s.cursor_day == day {
        cursor
    } else {
        fg_style(t.text)
    }
}

/// `c` is the cell of week `w`, column `col` of the grid of `s`.
pub open spec fn is_grid_cell(c: Command, s: CalendarState, t: Theme, w: int, col: int) -> bool {
    let idx = w * 7 + col;
    let first = first_weekday(s.year as int, s.month as int);
    let days = month_days(s.year as int, s.month as int);
    if idx < first || idx >= first + days {
        is_plain_text(c, seq![' ', ' ', ' '], fg_style(t.text_dim))
    } else {
        is_plain_text(c, day_cell_text(idx - first + 1), day_cell_style(s, t, idx - first + 1))
    }
}

/// The title row and weekday header row of a calendar, from `at` in `c`.
pub open spec fn calendar_head(c: Seq<Command>, at: int, s: CalendarState, t: Theme) -> bool {
    &&& c[at] == Command::BeginContainer(plain_container(Direction::Column, 0, t.border))
    &&& c[at + 1] == Command::BeginContainer(plain_container(Direction::Row, #[verifier::truncate] (t.spacing.0 as i32), t.border))
    &&& is_plain_text(c[at + 2], seq!['◀'], fg_style(t.text))
    &&& is_plain_text(c[at + 3], calendar_title(s), with_mods(fg_style(t.text), BOLD))
    &&& is_plain_text(c[at + 4], seq!['▶'], fg_style(t.text))
    &&& c[at + 5] == Command::EndContainer
    &&& c[at + 6] == Command::BeginContainer(plain_container(Direction::Row, 0, t.border))
    &&& forall|col: int| 0 <= col < 7 ==> is_plain_text(#[trigger] c[at + 7 + col], weekday_label(col),
        with_mods(fg_style(t.text_dim), BOLD))
    &&& c[at + 14] == Command::EndContainer
}

/// Week row `w` of a calendar's grid, from `at` in `c`.
pub open spec fn calendar_week(c: Seq<Command>, at: int, s: CalendarState, t: Theme, w: int) -> bool {
    &&& c[at] == Command::BeginContainer(plain_container(Direction::Row, 0, t.border))
    &&& forall|col: int| 0 <= col < 7 ==> is_grid_cell(#[trigger] c[at + 1 + col], s, t, w, col)
    &&& c[at + 8] == Command::EndContainer
}

/// The whole calendar for `s` drawn from `at` to the end of `c`: head, six
/// week rows, the time row when enabled, and the closing of the column.
pub open spec fn calendar_drawn(c: Seq<Command>, at: int, s: CalendarState, t: Theme) -> bool {
    let e = at + 69;
    &&& calendar_head(c, at, s, t)
    &&& forall|w: int| 0 <= w < 6 ==> #[trigger] calendar_week(c, at + 15 + 9 * w, s, t, w)
    &&& if s.time_enabled {
        &&& c.len() == e + 2
        &&& is_plain_text(c[e], pad2(s.hour as nat) + seq![':'] + pad2(s.minute as nat), with_mods(fg_style(t.text), BOLD))
        &&& c[e + 1] == Command::EndContainer
    } else {
        &&& c.len() == e + 1
        &&& c[e] == Command::EndContainer
    }
}


fn year_string(y: i32) -> (r: String)
    ensures
        r@ == year_text(y as int),
{
    let mut out = String::new();
    if y < 0 {
        out.append("-");
        proof {
            reveal_strlit("-");
        }
        let a: u128 = (0 - (y as i64)) as u128;
        push_decimal(&mut out, a);
    } else {
        push_decimal(&mut out, y as u128);
    }
    out
}

fn day_cell_string(day: u32) -> (r: String)
    requires
        1 <= day <= 31,
    ensures
        r@ == day_cell_text(day as int),
{
    let mut out = String::new();
    proof {
        reveal_strlit(" ");
    }
    if day < 10 {
        out.append(" ");
        out.append(digit_str(day as u128));
    } else {
        push_decimal(&mut out, day as u128);
    }
    out.append(" ");
    out
}

fn day_cell_style_exec(s: &CalendarState, t: Theme, day: u32) -> (r: Style)
    ensures
        r == day_cell_style(*s, t, day as int),
{
    let cell = CalDate { year: s.year, month: s.month, day };
    let selected = Style::new().fg(t.selected_fg).bg(t.selected_bg);
    let cursor = Style::new().fg(t.primary).bold();
    proof {
        crate::style::lemma_single_flags();
    }
    if s.mode == CalendarSelect::Range {
        if s.is_range_endpoint(cell) {
            selected
        } else if s.in_range(cell) {
            Style::new().bg(t.surface).fg(t.text)
        } else if s.cursor_day == day {
            cursor
        } else {
            Style::new().fg(t.text)
        }
    } else if s.selected_day == Some(day) {
        selected
    } else if s.cursor_day == day {
        cursor
    } else {
        Style::new().fg(t.text)
    }
}

fn weekday_str(col: usize) -> (r: &'static str)
    requires
        col < 7,
    ensures
        r@ == weekday_label(col as int),
{
    proof {
        reveal_strlit("Mo "); reveal_strlit("Tu "); reveal_strlit("We "); reveal_strlit("Th ");
        reveal_strlit("Fr "); reveal_strlit("Sa "); reveal_strlit("Su ");
    }
    if col == 0 { "Mo " } else if col == 1 { "Tu " } else if col == 2 { "We " } else if col == 3 { "Th " }
    else if col == 4 { "Fr " } else if col == 5 { "Sa " } else { "Su " }
}

impl Context {
    /// Draw the title row and weekday header of a calendar.
    fn calendar_head_draw(&mut self, s: &CalendarState)
        requires
            old(self).wf(),
            s.wf(),
        ensures
            final(self).wf(),
            final(self).commands@.len() == old(self).commands@.len() + 15,
            final(self).commands@.take(old(self).commands@.len() as int) == old(self).commands@,
            calendar_head(final(self).commands@, old(self).commands@.len() as int, *s, old(self).theme),
            *final(self) == (Context { commands: final(self).commands, last_text_idx: None, ..*old(self) }),
    {
        let t = self.theme;
        let ghost n = self.commands@.len() as int;
        let mut title = year_string(s.year);
        title.append(" ");
        title.append(calendar_month_name(s.month));
        proof {
            reveal_strlit(" ");
            reveal_strlit("◀");
            reveal_strlit("▶");
            assert("◀"@ =~= seq!['◀']);
            assert("▶"@ =~= seq!['▶']);
            crate::style::lemma_single_flags();
            assert(title@ == calendar_title(*s));
        }
        let gap = #[verifier::truncate] (t.spacing.xs() as i32);
        self.begin_container(plain_container_args(Direction::Column, 0, t.border));
        let ghost s1 = self.commands@;
        self.begin_container(plain_container_args(Direction::Row, gap, t.border));
        let ghost s2 = self.commands@;
        self.styled("◀", Style::new().fg(t.text));
        let ghost s3 = self.commands@;
        self.styled(title.as_str(), Style::new().bold().fg(t.text));
        let ghost s4 = self.commands@;
        self.styled("▶", Style::new().fg(t.text));
        let ghost s5 = self.commands@;
        self.end_container();
        let ghost s6 = self.commands@;
        self.begin_container(plain_container_args(Direction::Row, 0, t.border));
        proof {
            let c = self.commands@;
            assert(s1 == old(self).commands@.push(Command::BeginContainer(plain_container(Direction::Column, 0, t.border))));
            assert(s2 == s1.push(Command::BeginContainer(plain_container(Direction::Row, gap, t.border))));
            assert(s3.drop_last() == s2);
            assert(s4.drop_last() == s3);
            assert(s5.drop_last() == s4);
            assert(s6 == s5.push(Command::EndContainer));
            assert(c == s6.push(Command::BeginContainer(plain_container(Direction::Row, 0, t.border))));
            assert forall|j: int| 0 <= j < n implies c[j] == old(self).commands@[j] by {
                assert(c[j] == s6[j]);
                assert(s6[j] == s5[j]);
                assert(s5[j] == s4[j]);
                assert(s4[j] == s3[j]);
                assert(s3[j] == s2[j]);
                assert(s2[j] == s1[j]);
            }
            assert(c.take(n) =~= old(self).commands@);
            assert(c[n] == s6[n] && s6[n] == s5[n] && s5[n] == s4[n] && s4[n] == s3[n] && s3[n] == s2[n] && s2[n] == s1[n]);
            assert(c[n + 1] == s6[n + 1] && s6[n + 1] == s5[n + 1] && s5[n + 1] == s4[n + 1] && s4[n + 1] == s3[n + 1]
                && s3[n + 1] == s2[n + 1]);
            assert(c[n + 2] == s6[n + 2] && s6[n + 2] == s5[n + 2] && s5[n + 2] == s4[n + 2] && s4[n + 2] == s3[n + 2]);
            assert(c[n + 3] == s6[n + 3] && s6[n + 3] == s5[n + 3] && s5[n + 3] == s4[n + 3]);
            assert(c[n + 4] == s6[n + 4] && s6[n + 4] == s5[n + 4]);
            assert(c[n + 5] == s6[n + 5]);
        }
        let mut col: usize = 0;
        while col < 7
            invariant
                self.wf(),
                n == old(self).commands@.len(),
                col <= 7,
                self.commands@.len() == n + 7 + col,
                t == old(self).theme,
                self.commands@.take(n) == old(self).commands@,
                self.commands@[n] == Command::BeginContainer(plain_container(Direction::Column, 0, t.border)),
                self.commands@[n + 1] == Command::BeginContainer(plain_container(Direction::Row, gap, t.border)),
                is_plain_text(self.commands@[n + 2], seq!['◀'], fg_style(t.text)),
                is_plain_text(self.commands@[n + 3], calendar_title(*s), with_mods(fg_style(t.text), BOLD)),
                is_plain_text(self.commands@[n + 4], seq!['▶'], fg_style(t.text)),
                self.commands@[n + 5] == Command::EndContainer,
                self.commands@[n + 6] == Command::BeginContainer(plain_container(Direction::Row, 0, t.border)),
                forall|j: int| 0 <= j < col ==> is_plain_text(#[trigger] self.commands@[n + 7 + j], weekday_label(j),
                    with_mods(fg_style(t.text_dim), BOLD)),
                *self == (Context { commands: self.commands, last_text_idx: self.last_text_idx, ..*old(self) }),
            decreases 7 - col,
        {
            let ghost before = self.commands@;
            self.styled(weekday_str(col), Style::new().fg(t.text_dim).bold());
            proof {
                assert(self.commands@.drop_last() == before);
                assert forall|j: int| 0 <= j < before.len() implies self.commands@[j] == before[j] by {
                    assert(self.commands@.drop_last()[j] == self.commands@[j]);
                }
                assert(self.commands@.take(n) =~= before.take(n));
                assert forall|j: int| 0 <= j < col + 1 implies is_plain_text(#[trigger] self.commands@[n + 7 + j],
                    weekday_label(j), with_mods(fg_style(t.text_dim), BOLD)) by {
                    if j < col {
                        assert(self.commands@[n + 7 + j] == before[n + 7 + j]);
                    } else {
                        assert(self.commands@[n + 7 + j] == self.commands@.last());
                    }
                }
            }
            col = col + 1;
        }
        let ghost before = self.commands@;
        self.end_container();
        proof {
            assert(self.commands@.drop_last() == before);
            assert forall|j: int| 0 <= j < before.len() implies self.commands@[j] == before[j] by {
                assert(self.commands@.drop_last()[j] == self.commands@[j]);
            }
            assert(self.commands@.take(n) =~= before.take(n));
        }
    }

    /// Draw week row `w` of the grid of `s`.
    fn calendar_week_draw(&mut self, s: &CalendarState, w: u32, first: u32, days: u32)
        requires
            old(self).wf(),
            s.wf(),
            w < 6,
            first == first_weekday(s.year as int, s.month as int),
            days == month_days(s.year as int, s.month as int),
        ensures
            final(self).wf(),
            final(self).commands@.len() == old(self).commands@.len() + 9,
            final(self).commands@.take(old(self).commands@.len() as int) == old(self).commands@,
            calendar_week(final(self).commands@, old(self).commands@.len() as int, *s, old(self).theme, w as int),
            *final(self) == (Context { commands: final(self).commands, last_text_idx: None, ..*old(self) }),
    {
        let t = self.theme;
        let ghost n = self.commands@.len() as int;
        proof {
            reveal_strlit("   ");
            assert("   "@ =~= seq![' ', ' ', ' ']);
        }
        self.begin_container(plain_container_args(Direction::Row, 0, t.border));
        proof {
            assert(self.commands@.take(n) =~= old(self).commands@);
        }
        let mut col: u32 = 0;
        while col < 7
            invariant
                self.wf(),
                n == old(self).commands@.len(),
                col <= 7,
                w < 6,
                s.wf(),
                first == first_weekday(s.year as int, s.month as int),
                days == month_days(s.year as int, s.month as int),
                "   "@ == seq![' ', ' ', ' '],
                self.commands@.len() == n + 1 + col,
                t == old(self).theme,
                self.commands@.take(n) == old(self).commands@,
                self.commands@[n] == Command::BeginContainer(plain_container(Direction::Row, 0, t.border)),
                forall|j: int| 0 <= j < col ==> is_grid_cell(#[trigger] self.commands@[n + 1 + j], *s, t, w as int, j),
                *self == (Context { commands: self.commands, last_text_idx: self.last_text_idx, ..*old(self) }),
            decreases 7 - col,
        {
            let ghost before = self.commands@;
            let idx = w * 7 + col;
            if idx < first || idx >= first + days {
                self.styled("   ", Style::new().fg(t.text_dim));
            } else {
                let day = idx - first + 1;
                let text = day_cell_string(day);
                let style = day_cell_style_exec(s, t, day);
                self.styled(text.as_str(), style);
            }
            proof {
                assert(self.commands@.drop_last() == before);
                assert forall|j: int| 0 <= j < before.len() implies self.commands@[j] == before[j] by {
                    assert(self.commands@.drop_last()[j] == self.commands@[j]);
                }
                assert(self.commands@.take(n) =~= before.take(n));
                assert(self.commands@[n + 1 + col] == self.commands@.last());
                assert forall|j: int| 0 <= j < col + 1 implies is_grid_cell(#[trigger] self.commands@[n + 1 + j], *s, t,
                    w as int, j) by {
                    if j < col {
                        assert(self.commands@[n + 1 + j] == before[n + 1 + j]);
                    }
                }
            }
            col = col + 1;
        }
        let ghost before = self.commands@;
        self.end_container();
        proof {
            assert(self.commands@.drop_last() == before);
            assert forall|j: int| 0 <= j < before.len() implies self.commands@[j] == before[j] by {
                assert(self.commands@.drop_last()[j] == self.commands@[j]);
            }
            assert(self.commands@.take(n) =~= before.take(n));
        }
    }
}


/// `s` with its cursor moved onto a day of its month and its selected day
/// capped at the month's last day.
pub open spec fn clamped(s: CalendarState) -> CalendarState {
    let md = month_days(s.year as int, s.month as int);
    CalendarState {
        cursor_day: (if s.cursor_day < 1 { 1 } else if s.cursor_day > md { md } else { s.cursor_day as int }) as u32,
        selected_day: match s.selected_day {
            Some(d) => Some((if d > md { md } else { d as int }) as u32),
            None => None,
        },
        ..s
    }
}

/// The calendar once it has handled its keys (when focused).
pub open spec fn calendar_keyed(c: Context, s: CalendarState, focused: bool) -> CalendarState {
    if focused { calendar_keys(c.events@, c.consumed@, c.events@.len() as nat, s) } else { s }
}

/// The claimed flags once a calendar has handled its keys.
pub open spec fn calendar_claimed(c: Context, focused: bool) -> Seq<bool> {
    Seq::new(c.consumed@.len(), |i: int| c.consumed@[i] || (focused && c.live_press_in(i, calendar_codes())))
}

/// The calendar once it has also handled its clicks on slot `id`.
pub open spec fn calendar_clicked(c: Context, claimed: Seq<bool>, s: CalendarState, id: int) -> CalendarState {
    match click_rect(c, id) {
        None => s,
        Some(rect) => calendar_clicks(c.events@, claimed, c.events@.len() as nat, s, rect),
    }
}

/// Whether a calendar's click handling claims event `i`.
pub open spec fn calendar_click_claims(c: Context, claimed: Seq<bool>, s: CalendarState, id: int, i: int) -> bool {
    match click_rect(c, id) {
        None => false,
        Some(rect) => !claimed[i] && calendar_event_click(calendar_clicks(c.events@, claimed, i as nat, s, rect),
            c.events@[i], rect) is Some,
    }
}

impl Context {
    /// Draw the calendar for `s`.
    fn calendar_render(&mut self, s: &CalendarState)
        requires
            old(self).wf(),
            s.wf(),
        ensures
            final(self).wf(),
            final(self).commands@.take(old(self).commands@.len() as int) == old(self).commands@,
            calendar_drawn(final(self).commands@, old(self).commands@.len() as int, *s, old(self).theme),
            *final(self) == (Context { commands: final(self).commands, last_text_idx: None, ..*old(self) }),
    {
        let t = self.theme;
        let ghost n = self.commands@.len() as int;
        self.calendar_head_draw(s);
        let first = first_weekday_of(s.year, s.month);
        let days = days_in_month(s.year, s.month);
        let mut w: u32 = 0;
        while w < 6
            invariant
                self.wf(),
                s.wf(),
                w <= 6,
                n == old(self).commands@.len(),
                t == old(self).theme,
                first == first_weekday(s.year as int, s.month as int),
                days == month_days(s.year as int, s.month as int),
                self.commands@.len() == n + 15 + 9 * w,
                self.commands@.take(n) == old(self).commands@,
                calendar_head(self.commands@, n, *s, t),
                forall|v: int| 0 <= v < w ==> #[trigger] calendar_week(self.commands@, n + 15 + 9 * v, *s, t, v),
                *self == (Context { commands: self.commands, last_text_idx: None, ..*old(self) }),
            decreases 6 - w,
        {
            let ghost before = self.commands@;
            self.calendar_week_draw(s, w, first, days);
            proof {
                let c = self.commands@;
                assert forall|j: int| 0 <= j < before.len() implies c[j] == before[j] by {
                    assert(c.take(before.len() as int)[j] == c[j]);
                }
                assert(c.take(n) =~= old(self).commands@);
                assert(calendar_head(c, n, *s, t)) by {
                    assert forall|col: int| 0 <= col < 7 implies is_plain_text(#[trigger] c[n + 7 + col], weekday_label(col),
                        with_mods(fg_style(t.text_dim), BOLD)) by {
                        assert(c[n + 7 + col] == before[n + 7 + col]);
                    }
                }
                assert forall|v: int| 0 <= v < w + 1 implies #[trigger] calendar_week(c, n + 15 + 9 * v, *s, t, v) by {
                    if v < w {
                        assert(calendar_week(before, n + 15 + 9 * v, *s, t, v));
                        assert(n + 15 + 9 * v + 8 < before.len()) by (nonlinear_arith)
                            requires v < w, before.len() == n + 15 + 9 * w;
                        assert forall|col: int| 0 <= col < 7 implies is_grid_cell(#[trigger] c[n + 15 + 9 * v + 1 + col], *s,
                            t, v, col) by {
                            assert(c[n + 15 + 9 * v + 1 + col] == before[n + 15 + 9 * v + 1 + col]);
                        }
                    }
                }
            }
            w = w + 1;
        }
        let ghost grid = self.commands@;
        if s.time_enabled {
            let mut time = String::new();
            push_pad2(&mut time, s.hour as u128);
            time.append(":");
            push_pad2(&mut time, s.minute as u128);
            proof {
                reveal_strlit(":");
                crate::style::lemma_single_flags();
                assert(time@ =~= pad2(s.hour as nat) + seq![':'] + pad2(s.minute as nat));
            }
            self.styled(time.as_str(), Style::new().fg(t.text).bold());
        }
        let ghost timed = self.commands@;
        self.end_container();
        proof {
            let c = self.commands@;
            assert(c.drop_last() == timed);
            assert(timed.len() >= grid.len());
            assert forall|j: int| 0 <= j < grid.len() implies c[j] == grid[j] by {
                assert(c[j] == timed[j]);
                if s.time_enabled {
                    assert(timed.drop_last()[j] == timed[j]);
                }
            }
            assert(c.take(n) =~= old(self).commands@);
            if s.time_enabled {
                assert(c[n + 69] == timed[n + 69]);
                assert(timed[n + 69] == timed.last());
                assert(c[n + 70] == c.last());
            } else {
                assert(c[n + 69] == c.last());
            }
            assert(calendar_head(c, n, *s, t)) by {
                assert forall|col: int| 0 <= col < 7 implies is_plain_text(#[trigger] c[n + 7 + col], weekday_label(col),
                    with_mods(fg_style(t.text_dim), BOLD)) by {
                    assert(c[n + 7 + col] == grid[n + 7 + col]);
                }
            }
            assert forall|v: int| 0 <= v < 6 implies #[trigger] calendar_week(c, n + 15 + 9 * v, *s, t, v) by {
                assert(calendar_week(grid, n + 15 + 9 * v, *s, t, v));
                assert(n + 15 + 9 * v + 8 < grid.len());
                assert forall|col: int| 0 <= col < 7 implies is_grid_cell(#[trigger] c[n + 15 + 9 * v + 1 + col], *s,
                    t, v, col) by {
                    assert(c[n + 15 + 9 * v + 1 + col] == grid[n + 15 + 9 * v + 1 + col]);
                }
            }
        }
    }
}


impl Context {
    /// A month calendar date picker. When focused: Left/`h` and Right/`l`
    /// move the cursor a day, Up and Down a week, `[` and `]` a month; Enter
    /// or Space selects the cursor's day, or in range mode starts a range
    /// there (with Shift: ends it there), and Shift with a move extends the
    /// range. A click on the title's arrows changes the month; a click on a
    /// day picks it. Draws the title, weekday header, six weeks and the
    /// optional time row. The response is changed when the selection did.
    #[verifier::rlimit(100)]
    #[verifier::spinoff_prover]
    pub fn calendar(&mut self, state: &mut CalendarState) -> (r: Response)
        requires
            old(self).wf(),
            1 <= old(state).month <= 12,
        ensures
            final(self).wf(),
            final(state).wf(),
            ({
                let focused = old(self).next_focusable_is_focused();
                let id = old(self).interaction_count as int;
                let base = old(self).spec_response_for(id);
                let s0 = clamped(*old(state));
                let claimed = calendar_claimed(*old(self), focused);
                let s1 = calendar_keyed(*old(self), s0, focused);
                let s2 = calendar_clicked(*old(self), claimed, s1, id);
                let n = old(self).commands@.len() as int;
                let m = if focused { 1int } else { 0int };
                let c = final(self).commands@;
                &&& *final(state) == s2
                &&& r == Response {
                    focused,
                    changed: s2.selected_day != s0.selected_day || s2.anchor != s0.anchor || s2.extent != s0.extent
                        || s2.hour != s0.hour || s2.minute != s0.minute,
                    ..base
                }
                &&& final(self).consumed@.len() == old(self).consumed@.len()
                &&& forall|i: int| 0 <= i < final(self).consumed@.len() ==> #[trigger] final(self).consumed@[i]
                    == (claimed[i] || calendar_click_claims(*old(self), claimed, s1, id, i))
                &&& c.take(n) == old(self).commands@
                &&& (focused ==> c[n] == Command::FocusMarker(old(self).focus_count))
                &&& c[n + m] == Command::InteractionMarker(id as usize)
                &&& calendar_drawn(c, n + m + 1, s2, old(self).theme)
                &&& *final(self) == (Context {
                    commands: final(self).commands,
                    consumed: final(self).consumed,
                    focus_count: crate::context::widgets_interactive::selection::sat_inc_usize(old(self).focus_count),
                    interaction_count: crate::context::widgets_interactive::selection::sat_inc_usize(
                        old(self).interaction_count),
                    last_text_idx: None,
                    ..*old(self)
                })
            }),
    {
        let id = self.interaction_count;
        let (focused, base) = self.open_control();
        let ghost opened = *self;
        let md = days_in_month(state.year, state.month);
        if state.cursor_day < 1 {
            state.cursor_day = 1;
        } else if state.cursor_day > md {
            state.cursor_day = md;
        }
        match state.selected_day {
            Some(d) => {
                if d > md {
                    state.selected_day = Some(md);
                }
            },
            None => {},
        }
        proof {
            assert(*state == clamped(*old(state)));
        }
        let old_selected = state.selected_day;
        let old_anchor = state.anchor;
        let old_extent = state.extent;
        let old_hour = state.hour;
        let old_minute = state.minute;
        if focused {
            self.calendar_handle_keys(state);
        }
        proof {
            assert(self.consumed@ =~= calendar_claimed(*old(self), focused));
            assert(calendar_keys(opened.events@, opened.consumed@, opened.events@.len() as nat, clamped(*old(state)))
                == calendar_keys(old(self).events@, old(self).consumed@, old(self).events@.len() as nat, clamped(*old(state))));
        }
        let ghost keyed = *self;
        let ghost s1 = *state;
        self.calendar_handle_clicks(state, id);
        proof {
            assert(click_rect(keyed, id as int) == click_rect(*old(self), id as int));
        }
        let ghost before_render = *self;
        self.calendar_render(state);
        proof {
            let m = if focused { 1int } else { 0int };
            let n = old(self).commands@.len() as int;
            let nb = before_render.commands@.len() as int;
            assert(nb == n + m + 1);
            assert forall|k: int| 0 <= k < nb implies self.commands@[k] == before_render.commands@[k] by {
                assert(self.commands@.take(nb)[k] == before_render.commands@[k]);
            }
            assert(self.commands@.take(n) =~= old(self).commands@) by {
                assert forall|k: int| 0 <= k < n implies self.commands@[k] == old(self).commands@[k] by {
                    assert(before_render.commands@[k] == opened.commands@[k]);
                    if focused {
                        assert(opened.commands@[k] == old(self).commands@.push(Command::FocusMarker(old(self).focus_count))[k]);
                    } else {
                        assert(opened.commands@[k] == old(self).commands@.push(Command::InteractionMarker(old(self).interaction_count))[k]);
                    }
                }
            }
            assert(self.commands@[n + m] == before_render.commands@[n + m]);
            if focused {
                assert(self.commands@[n] == before_render.commands@[n]);
            }
        }
        let changed = state.selected_day != old_selected || state.anchor != old_anchor || state.extent != old_extent
            || state.hour != old_hour || state.minute != old_minute;
        Response { focused, changed, ..base }
    }
}



/// The Gregorian month lengths: April, June, September and November have
/// 30 days; January, March, May, July, August, October and December 31;
/// February 29 in a leap year and 28 otherwise; so a year has 365 days,
/// 366 in a leap year.
pub proof fn lemma_month_lengths(y: int)
    ensures
        month_days(y, 4) == 30 && month_days(y, 6) == 30 && month_days(y, 9) == 30 && month_days(y, 11) == 30,
        month_days(y, 1) == 31 && month_days(y, 3) == 31 && month_days(y, 5) == 31 && month_days(y, 7) == 31
            && month_days(y, 8) == 31 && month_days(y, 10) == 31 && month_days(y, 12) == 31,
        month_days(y, 2) == (if is_leap(y) { 29int } else { 28int }),
        month_days(y, 1) + month_days(y, 2) + month_days(y, 3) + month_days(y, 4) + month_days(y, 5)
            + month_days(y, 6) + month_days(y, 7) + month_days(y, 8) + month_days(y, 9) + month_days(y, 10)
            + month_days(y, 11) + month_days(y, 12) == 365 + (if is_leap(y) { 1int } else { 0int }),
{
}


/// The cursor keys walk the calendar day by day: Right (or `l`) goes to the
/// next day and Left (or `h`) to the day before, across month and year
/// ends; Down goes a week on and Up a week back; the selection stays. Held
/// without Shift, and unless the move would leave the years an `i32` names.
pub proof fn lemma_calendar_day_keys(s: CalendarState, k: KeyEvent)
    requires
        s.wf(),
        !k.modifiers.spec_contains(KeyModifiers(1)),
    ensures
        ({
            let r = calendar_key(s, k);
            &&& (k.code == KeyCode::Right || k.code == KeyCode::Char('l')) && !leaves_years(s, 1)
                ==> r.cursor() == next_day(s.cursor())
            &&& (k.code == KeyCode::Left || k.code == KeyCode::Char('h')) && !leaves_years(s, -1)
                ==> r.cursor() == prev_day(s.cursor())
            &&& k.code == KeyCode::Down && !leaves_years(s, 7) ==> r.cursor() == days_after(s.cursor(), 7)
            &&& k.code == KeyCode::Up && !leaves_years(s, -7) ==> r.cursor() == days_before(s.cursor(), 7)
            &&& key_delta(k.code) != 0 ==> r.selected_day == s.selected_day && r.mode == s.mode
        }),
{
    let d = s.cursor();
    let delta = key_delta(k.code);
    if delta != 0 && !leaves_years(s, delta) {
        lemma_moved_state_wf(s, delta);
        let m = moved_by(d, delta);
        if delta >= 0 {
            lemma_after_valid(d, delta as nat);
        } else {
            lemma_before_valid(d, (-delta) as nat);
        }
        assert(valid_day(m));
        let r = calendar_key(s, k);
        assert(r == moved_state(s, delta));
        assert(r.cursor() == m);
        if delta == 1 {
            assert(days_after(d, 1) == next_day(days_after(d, 0)));
        }
        if delta == -1 {
            assert(days_before(d, 1) == prev_day(days_before(d, 0)));
        }
    }
}

/// `]` shows the next month and `[` the one before, across year ends,
/// keeping the cursor on the same day number when the month has it and on
/// its last day otherwise; `[` after `]` returns to the month shown.
pub proof fn lemma_calendar_month_keys(s: CalendarState)
    requires
        s.wf(),
        !(s.month == 12 && s.year == i32::MAX),
    ensures
        ({
            let n = later_month(s);
            let (y, m) = if s.month == 12 { (s.year + 1, 1int) } else { (s.year as int, s.month + 1) };
            &&& n.year == y && n.month == m
            &&& n.cursor_day == (if s.cursor_day <= month_days(y, m) { s.cursor_day as int } else { month_days(y, m) })
            &&& earlier_month(n).year == s.year && earlier_month(n).month == s.month
        }),
{
}

/// In single-day mode Enter and Space pick the day under the cursor and
/// move nothing.
pub proof fn lemma_calendar_enter_picks_cursor(s: CalendarState, k: KeyEvent)
    requires
        s.mode == CalendarSelect::Single,
        k.code == KeyCode::Enter || k.code == KeyCode::Char(' '),
    ensures
        calendar_key(s, k).selected_day == Some(s.cursor_day),
        calendar_key(s, k).cursor() == s.cursor(),
{
}

} // verus!
