//! Calendar arithmetic for the date picker: leap years, month lengths,
//! day of week (Zeller's congruence), month stepping and the 6×7 month
//! grid, plus the picker's selection and drag-gesture rules.
use vstd::prelude::*;
use crate::text::{decimal, push_char, push_decimal, push_str};

verus! {

/// A plain calendar date — year, month (1–12) and day (1–31).
#[derive(Clone, Copy, Debug, PartialEq, Eq, Structural, PartialOrd, Ord, Hash)]
pub struct SimpleDate {
    pub year: i32,
    pub month: u8,
    pub day: u8,
}

pub open spec fn clamp_int(v: int, lo: int, hi: int) -> int {
    if v < lo { lo } else if v > hi { hi } else { v }
}

/// The date [`SimpleDate::new`] builds: month clamped to 1–12, day to 1–31.
pub open spec fn date_of(year: i32, month: u8, day: u8) -> SimpleDate {
    SimpleDate { year, month: clamp_int(month as int, 1, 12) as u8, day: clamp_int(day as int, 1, 31) as u8 }
}

/// Gregorian leap-year rule.
pub open spec fn leap_year(year: int) -> bool {
    (year % 4 == 0 && year % 100 != 0) || year % 400 == 0
}

/// Days in `month` of `year`; an out-of-range month counts 30.
pub open spec fn month_length(year: int, month: int) -> int {
    if month == 1 || month == 3 || month == 5 || month == 7 || month == 8 || month == 10 || month == 12 {
        31
    } else if month == 4 || month == 6 || month == 9 || month == 11 {
        30
    } else if month == 2 {
        if leap_year(year) { 29 } else { 28 }
    } else {
        30
    }
}

/// Division rounding toward zero (Rust's `/` on signed integers).
pub open spec fn tdiv(a: int, b: int) -> int {
    if a >= 0 { a / b } else { -((-a) / b) }
}

/// Remainder of [`tdiv`] (Rust's `%` on signed integers).
pub open spec fn trem(a: int, b: int) -> int {
    a - b * tdiv(a, b)
}

/// Zeller's congruence for the Gregorian calendar evaluated with Rust's
/// truncating integer operations, rotated so that 0 = Sunday … 6 = Saturday.
pub open spec fn zeller(year: int, month: int, day: int) -> int {
    let y = if month < 3 { year - 1 } else { year };
    let m = if month < 3 { month + 12 } else { month };
    let k = trem(y, 100);
    let j = tdiv(y, 100);
    let h = trem(day + (13 * (m + 1)) / 5 + k + tdiv(k, 4) + tdiv(j, 4) + 5 * j, 7);
    (h + 6) % 7
}

/// The years for which the weekday computation cannot overflow.
pub open spec fn weekday_year_ok(year: i32, month: u8) -> bool {
    month < 3 ==> year > i32::MIN
}

/// `a` comes before `b` in calendar order (year, then month, then day).
pub open spec fn date_lt(a: SimpleDate, b: SimpleDate) -> bool {
    a.year < b.year || (a.year == b.year && (a.month < b.month || (a.month == b.month && a.day < b.day)))
}

pub open spec fn date_le(a: SimpleDate, b: SimpleDate) -> bool {
    date_lt(a, b) || a == b
}

/// The date one month earlier ([`SimpleDate::prev_month`]).
pub open spec fn prev_month_of(d: SimpleDate) -> SimpleDate {
    if d.month == 1 { date_of((d.year - 1) as i32, 12, d.day) } else { date_of(d.year, (d.month - 1) as u8, d.day) }
}

/// The date one month later ([`SimpleDate::next_month`]).
pub open spec fn next_month_of(d: SimpleDate) -> SimpleDate {
    if d.month == 12 { date_of((d.year + 1) as i32, 1, d.day) } else { date_of(d.year, (d.month + 1) as u8, d.day) }
}

/// `prev_month` neither overflows the year nor underflows the month.
pub open spec fn can_step_back(d: SimpleDate) -> bool {
    d.month != 0 && (d.month == 1 ==> d.year > i32::MIN)
}

/// `next_month` neither overflows the year nor the month.
pub open spec fn can_step_forward(d: SimpleDate) -> bool {
    d.month != 255 && (d.month == 12 ==> d.year < i32::MAX)
}

/// `year * 12 + month - 1`.
pub open spec fn month_ordinal_of(d: SimpleDate) -> int {
    d.year * 12 + (d.month - 1)
}

impl SimpleDate {
    pub fn new(year: i32, month: u8, day: u8) -> (r: SimpleDate)
        ensures
            r == date_of(year, month, day),
    {
        let m = if month < 1 { 1 } else if month > 12 { 12 } else { month };
        let d = if day < 1 { 1 } else if day > 31 { 31 } else { day };
        SimpleDate { year, month: m, day: d }
    }

    pub fn is_leap_year(year: i32) -> (r: bool)
        ensures
            r == leap_year(year as int),
    {
        let r4 = year % 4;
        let r100 = year % 100;
        let r400 = year % 400;
        proof {
            lemma_trunc_rem_zero(year as int, 4);
            lemma_trunc_rem_zero(year as int, 100);
            lemma_trunc_rem_zero(year as int, 400);
        }
        (r4 == 0 && r100 != 0) || r400 == 0
    }

    pub fn days_in_month(year: i32, month: u8) -> (r: u8)
        ensures
            r as int == month_length(year as int, month as int),
    {
        if month == 1 || month == 3 || month == 5 || month == 7 || month == 8 || month == 10 || month == 12 {
            31
        } else if month == 4 || month == 6 || month == 9 || month == 11 {
            30
        } else if month == 2 {
            if Self::is_leap_year(year) { 29 } else { 28 }
        } else {
            30
        }
    }

    /// 0 = Sunday … 6 = Saturday, via Zeller's congruence (Gregorian).
    pub fn day_of_week(year: i32, month: u8, day: u8) -> (r: u8)
        requires
            weekday_year_ok(year, month),
        ensures
            r as int == zeller(year as int, month as int, day as int),
            r < 7,
    {
        let y: i32 = if month < 3 { year - 1 } else { year };
        let m: i32 = if month < 3 { month as i32 + 12 } else { month as i32 };
        let k: i32 = y % 100;
        let j: i32 = y / 100;
        proof {
            lemma_tdiv_bound(y as int, 100);
            lemma_tdiv_bound(k as int, 4);
            lemma_tdiv_bound(j as int, 4);
        }
        let h: i32 = (day as i32 + (13 * (m + 1)) / 5 + k + k / 4 + j / 4 + 5 * j) % 7;
        let t: i32 = (h + 6) % 7;
        let e: i32 = if t < 0 { t + 7 } else { t };
        proof {
            assert(-7 < t < 7);
            assert(e as int == (h + 6) % 7) by {
                assert(-6 <= h <= 6);
            }
        }
        e as u8
    }

    pub fn prev_month(self) -> (r: SimpleDate)
        requires
            can_step_back(self),
        ensures
            r == prev_month_of(self),
    {
        if self.month == 1 { Self::new(self.year - 1, 12, self.day) } else { Self::new(self.year, self.month - 1, self.day) }
    }

    pub fn next_month(self) -> (r: SimpleDate)
        requires
            can_step_forward(self),
        ensures
            r == next_month_of(self),
    {
        if self.month == 12 { Self::new(self.year + 1, 1, self.day) } else { Self::new(self.year, self.month + 1, self.day) }
    }

    pub fn prev_year(self) -> (r: SimpleDate)
        requires
            self.year > i32::MIN,
        ensures
            r == date_of((self.year - 1) as i32, self.month, self.day),
    {
        Self::new(self.year - 1, self.month, self.day)
    }

    pub fn next_year(self) -> (r: SimpleDate)
        requires
            self.year < i32::MAX,
        ensures
            r == date_of((self.year + 1) as i32, self.month, self.day),
    {
        Self::new(self.year + 1, self.month, self.day)
    }

    /// Absolute month index `year * 12 + (month - 1)`.
    pub fn month_ordinal(self) -> (r: i32)
        requires
            i32::MIN <= self.year * 12 <= i32::MAX,
            i32::MIN <= month_ordinal_of(self) <= i32::MAX,
        ensures
            r as int == month_ordinal_of(self),
    {
        self.year * 12 + (self.month as i32 - 1)
    }

    /// Inverse of [`Self::month_ordinal`]; the day is 1.
    pub fn from_month_ordinal(ord: i32) -> (r: SimpleDate)
        ensures
            r == date_of((ord as int / 12) as i32, (ord as int % 12 + 1) as u8, 1),
    {
        let q: i32 = ord / 12;
        let rm: i32 = ord % 12;
        let (qq, rr): (i32, i32) = if rm < 0 { (q - 1, rm + 12) } else { (q, rm) };
        proof {
            lemma_euclid_from_trunc(ord as int, 12);
        }
        Self::new(qq, (rr + 1) as u8, 1)
    }

    /// The month's English name (`month` clamped to 1–12).
    pub fn month_name(month: u8) -> (r: &'static str)
        ensures
            r@ == month_name_of(clamp_int(month as int, 1, 12)),
    {
        let m = if month < 1 { 1 } else if month > 12 { 12 } else { month };
        if m == 1 { "January" } else if m == 2 { "February" } else if m == 3 { "March" }
        else if m == 4 { "April" } else if m == 5 { "May" } else if m == 6 { "June" }
        else if m == 7 { "July" } else if m == 8 { "August" } else if m == 9 { "September" }
        else if m == 10 { "October" } else if m == 11 { "November" } else { "December" }
    }

    /// Calendar-order `<=` (the derived ordering: year, month, day).
    pub fn is_on_or_before(self, other: SimpleDate) -> (r: bool)
        ensures
            r == date_le(self, other),
    {
        self.year < other.year || (self.year == other.year && (self.month < other.month || (self.month == other.month && self.day <= other.day)))
    }
}

/// English month names, 1 = January.
pub open spec fn month_name_of(m: int) -> Seq<char> {
    if m == 1 { "January"@ } else if m == 2 { "February"@ } else if m == 3 { "March"@ }
    else if m == 4 { "April"@ } else if m == 5 { "May"@ } else if m == 6 { "June"@ }
    else if m == 7 { "July"@ } else if m == 8 { "August"@ } else if m == 9 { "September"@ }
    else if m == 10 { "October"@ } else if m == 11 { "November"@ } else { "December"@ }
}

// ───────────────────────── arithmetic lemmas ─────────────────────────

pub open spec fn abs_int(a: int) -> int {
    if a < 0 { -a } else { a }
}

pub proof fn lemma_trunc_rem_zero(a: int, d: int)
    requires
        d > 0,
    ensures
        (trem(a, d) == 0) == (a % d == 0),
{
    if a < 0 {
        let b = -a;
        assert(trem(a, d) == -(b % d)) by (nonlinear_arith)
            requires b == -a, a < 0, d > 0, trem(a, d) == a - d * tdiv(a, d), tdiv(a, d) == -(b / d);
        if b % d == 0 {
            let k = b / d;
            vstd::arithmetic::div_mod::lemma_fundamental_div_mod(b, d);
            assert(a == (-k) * d + 0) by (nonlinear_arith)
                requires b == d * k + 0, a == -b;
            vstd::arithmetic::div_mod::lemma_fundamental_div_mod_converse(a, d, -k, 0);
        }
        if a % d == 0 {
            let k = a / d;
            vstd::arithmetic::div_mod::lemma_fundamental_div_mod(a, d);
            assert(b == (-k) * d + 0) by (nonlinear_arith)
                requires a == d * k + 0, a == -b;
            vstd::arithmetic::div_mod::lemma_fundamental_div_mod_converse(b, d, -k, 0);
        }
    } else {
        vstd::arithmetic::div_mod::lemma_fundamental_div_mod(a, d);
    }
}

pub proof fn lemma_tdiv_bound(a: int, d: int)
    requires
        d > 0,
    ensures
        -abs_int(a) <= d * tdiv(a, d) <= abs_int(a),
        -abs_int(a) <= tdiv(a, d) <= abs_int(a),
        -d < trem(a, d) < d,
        (a >= 0 ==> trem(a, d) >= 0) && (a < 0 ==> trem(a, d) <= 0),
        a == d * tdiv(a, d) + trem(a, d),
{
    let q = tdiv(a, d);
    if a >= 0 {
        assert(q == a / d);
        assert(0 <= d * q <= a && a - d * q < d && 0 <= q <= a) by (nonlinear_arith)
            requires a >= 0, d > 0, q == a / d;
    } else {
        let b = -a;
        let qb = b / d;
        assert(q == -qb);
        assert(0 <= d * qb <= b && b - d * qb < d && 0 <= qb <= b) by (nonlinear_arith)
            requires b > 0, d > 0, qb == b / d;
        assert(d * q == -(d * qb)) by (nonlinear_arith)
            requires q == -qb;
    }
}

pub proof fn lemma_euclid_from_trunc(a: int, d: int)
    requires
        d > 0,
    ensures
        trem(a, d) < 0 ==> a / d == tdiv(a, d) - 1 && a % d == trem(a, d) + d,
        trem(a, d) >= 0 ==> a / d == tdiv(a, d) && a % d == trem(a, d),
{
    lemma_tdiv_bound(a, d);
    let q = tdiv(a, d);
    let r = trem(a, d);
    assert(a == d * q + r);
    assert((q - 1) * d + (r + d) == d * q + r && q * d + r == d * q + r) by (nonlinear_arith);
    if r < 0 {
        vstd::arithmetic::div_mod::lemma_fundamental_div_mod_converse(a, d, q - 1, r + d);
    } else {
        vstd::arithmetic::div_mod::lemma_fundamental_div_mod_converse(a, d, q, r);
    }
}


// ───────────────────────── the month grid ─────────────────────────

/// Weekday of the 1st of `view`'s month.
pub open spec fn first_weekday(view: SimpleDate) -> int {
    zeller(view.year as int, view.month as int, 1)
}

/// The 1-based day of `view`'s month that grid slot `slot` shows (it may
/// spill before day 1 or past the last day).
pub open spec fn slot_day(view: SimpleDate, slot: usize) -> int {
    (slot as i32) as int - first_weekday(view) + 1
}

/// The date shown in grid slot `slot` of `view`'s 6×7 month page, and
/// whether it belongs to `view`'s month (rather than a neighbour month).
pub open spec fn slot_date_spec(view: SimpleDate, slot: usize) -> (SimpleDate, bool) {
    let di = slot_day(view, slot);
    let days = month_length(view.year as int, view.month as int);
    if di < 1 {
        let pm = prev_month_of(view);
        (date_of(pm.year, pm.month, (month_length(pm.year as int, pm.month as int) + di) as u8), false)
    } else if di > days {
        let nm = next_month_of(view);
        (date_of(nm.year, nm.month, (di - days) as u8), false)
    } else {
        (date_of(view.year, view.month, di as u8), true)
    }
}

/// The inputs on which [`slot_date`] neither overflows nor steps a month
/// past the representable range.
pub open spec fn slot_ok(view: SimpleDate, slot: usize) -> bool {
    let di = slot_day(view, slot);
    &&& weekday_year_ok(view.year, view.month)
    &&& i32::MIN <= (slot as i32) as int - first_weekday(view)
    &&& di <= i32::MAX
    &&& (di < 1 ==> can_step_back(view))
    &&& (di > month_length(view.year as int, view.month as int) ==> can_step_forward(view))
}

/// The `SimpleDate` occupying grid `slot` of `view`'s month page, plus
/// whether it belongs to `view`'s month.
pub fn slot_date(view: SimpleDate, slot: usize) -> (r: (SimpleDate, bool))
    requires
        slot_ok(view, slot),
    ensures
        r == slot_date_spec(view, slot),
{
    let first = SimpleDate::day_of_week(view.year, view.month, 1) as i32;
    let di = #[verifier::truncate] (slot as i32) - first + 1;
    let days = SimpleDate::days_in_month(view.year, view.month) as i32;
    if di < 1 {
        let pm = view.prev_month();
        let pd = SimpleDate::days_in_month(pm.year, pm.month) as i32;
        (SimpleDate::new(pm.year, pm.month, #[verifier::truncate] ((pd + di) as u8)), false)
    } else if di > days {
        let nm = view.next_month();
        (SimpleDate::new(nm.year, nm.month, #[verifier::truncate] ((di - days) as u8)), false)
    } else {
        (SimpleDate::new(view.year, view.month, #[verifier::truncate] (di as u8)), true)
    }
}

/// Week rows `view`'s month occupies: those holding at least one of its days.
pub open spec fn rows_in_month_spec(view: SimpleDate) -> int {
    (first_weekday(view) + month_length(view.year as int, view.month as int) - 1) / 7 + 1
}

/// How many week rows `view`'s month actually occupies (4–6).
pub fn rows_in_month(view: SimpleDate) -> (r: usize)
    requires
        weekday_year_ok(view.year, view.month),
    ensures
        r as int == rows_in_month_spec(view),
        4 <= r <= 6,
{
    let first = SimpleDate::day_of_week(view.year, view.month, 1) as usize;
    let days = SimpleDate::days_in_month(view.year, view.month) as usize;
    (first + days - 1) / 7 + 1
}

/// The range after tapping `d`: no range or a complete one starts afresh;
/// an open start is completed, the earlier date first.
pub open spec fn next_range_spec(cur: Option<(SimpleDate, Option<SimpleDate>)>, d: SimpleDate) -> (SimpleDate, Option<SimpleDate>) {
    match cur {
        None => (d, None),
        Some((s, Some(_))) => (d, None),
        Some((s, None)) => if date_le(s, d) { (s, Some(d)) } else { (d, Some(s)) },
    }
}

/// Pure range-transition rule shared by tap dispatch and tests.
pub fn next_range_for(cur: Option<(SimpleDate, Option<SimpleDate>)>, d: SimpleDate) -> (r: (SimpleDate, Option<SimpleDate>))
    ensures
        r == next_range_spec(cur, d),
{
    match cur {
        None => (d, None),
        Some((_, Some(_))) => (d, None),
        Some((s, None)) => if s.is_on_or_before(d) { (s, Some(d)) } else { (d, Some(s)) },
    }
}

/// The grid row a pointer row/column maps to, clamped into the month.
pub open spec fn cell_slot(view: SimpleDate, col: i32, row: i32) -> usize {
    let rows = rows_in_month_spec(view);
    let c = clamp_int(col as int, 0, 6);
    let r = clamp_int(row as int, 0, rows - 1);
    (r * 7 + c) as usize
}

/// The day under grid cell (`col`, `row`) of `view`, whether it is in
/// `view`'s month, and whether the pointer is above / below the month's
/// rows (rows past the month's real extent count as below).
pub open spec fn day_at_cell_spec(view: SimpleDate, col: i32, row: i32) -> (SimpleDate, bool, bool, bool) {
    let rows = rows_in_month_spec(view);
    let (d, in_cur) = slot_date_spec(view, cell_slot(view, col, row));
    (d, in_cur, row < 0, row >= rows)
}

pub open spec fn cell_ok(view: SimpleDate, col: i32, row: i32) -> bool {
    weekday_year_ok(view.year, view.month) && slot_ok(view, cell_slot(view, col, row))
}

/// Maps a grid cell (column and row already floored from content-space
/// coordinates) to the day under it.
pub fn day_at_cell(view: SimpleDate, col: i32, row: i32) -> (r: (SimpleDate, bool, bool, bool))
    requires
        cell_ok(view, col, row),
    ensures
        r == day_at_cell_spec(view, col, row),
{
    let rows = rows_in_month(view) as i32;
    let above = row < 0;
    let below = row >= rows;
    let c = if col < 0 { 0 } else if col > 6 { 6 } else { col };
    let r = if row < 0 { 0 } else if row > rows - 1 { rows - 1 } else { row };
    let (d, in_cur) = slot_date(view, (r * 7 + c) as usize);
    (d, in_cur, above, below)
}


// ───────────────────────── the picker ─────────────────────────

/// How the calendar selects — a single day or a start→end range.
#[derive(Clone, Copy, Debug, PartialEq, Eq, Structural)]
pub enum SelectionMode {
    Single,
    Range,
}

/// Which way month-to-month transitions slide.
#[derive(Clone, Copy, Debug, PartialEq, Eq, Structural)]
pub enum PageAxis {
    Horizontal,
    Vertical,
}

impl Default for SelectionMode {
    fn default() -> (r: SelectionMode)
        ensures
            r == SelectionMode::Single,
    {
        SelectionMode::Single
    }
}

impl Default for PageAxis {
    fn default() -> (r: PageAxis)
        ensures
            r == PageAxis::Horizontal,
    {
        PageAxis::Horizontal
    }
}

/// The selection state of a month calendar: the month shown, the single
/// selection, today's mark, the selectable bounds, the mode and the range.
/// (Colours and callbacks belong to the rendering layer.)
#[derive(Clone, Copy, Debug)]
pub struct DatePicker {
    pub viewed_month: SimpleDate,
    pub selected: Option<SimpleDate>,
    pub today: Option<SimpleDate>,
    pub min: Option<SimpleDate>,
    pub max: Option<SimpleDate>,
    pub mode: SelectionMode,
    pub range: Option<(SimpleDate, Option<SimpleDate>)>,
    pub axis: PageAxis,
}

/// `d` lies outside the selectable bounds.
pub open spec fn disabled_spec(min: Option<SimpleDate>, max: Option<SimpleDate>, d: SimpleDate) -> bool {
    (min matches Some(m) && date_lt(d, m)) || (max matches Some(m) && date_lt(m, d))
}

/// How a day number is marked.
#[derive(Clone, Copy, Debug, PartialEq, Eq, Structural)]
pub enum DayMark {
    /// On a filled accent disc: the selected day, or a range endpoint.
    Filled,
    /// Inside an outline ring: today, in the shown month.
    TodayRing,
    Plain,
}

/// The ink of a day number.
#[derive(Clone, Copy, Debug, PartialEq, Eq, Structural)]
pub enum DayInk {
    /// Drawn over the accent disc.
    OnAccent,
    /// A neighbour month's day, or a day outside the bounds.
    Muted,
    Normal,
}

/// One day cell of a month page.
#[derive(Clone, Copy, Debug, PartialEq, Eq, Structural)]
pub struct DayCell {
    pub date: SimpleDate,
    pub in_month: bool,
    pub disabled: bool,
    pub mark: DayMark,
    pub ink: DayInk,
}

pub open spec fn day_cell_spec(p: DatePicker, view: SimpleDate, slot: usize) -> DayCell {
    let date = slot_date_spec(view, slot).0;
    let in_month = slot_date_spec(view, slot).1;
    let disabled = disabled_spec(p.min, p.max, date);
    let is_range = p.mode == SelectionMode::Range;
    let endpoint = is_range && (p.range matches Some((s, e)) && (s == date || e == Some(date)));
    let single = !is_range && in_month && p.selected == Some(date);
    let filled = endpoint || single;
    DayCell {
        date,
        in_month,
        disabled,
        mark: if filled {
            DayMark::Filled
        } else if in_month && p.today == Some(date) {
            DayMark::TodayRing
        } else {
            DayMark::Plain
        },
        ink: if filled {
            DayInk::OnAccent
        } else if !in_month || disabled {
            DayInk::Muted
        } else {
            DayInk::Normal
        },
    }
}

/// How a day cell is marked in Range mode with the range from `s` to `e`
/// (`None` while the end is still being picked): the cells of both ends are
/// drawn filled, on the accent, wherever they fall; any other cell is never
/// filled, and is ringed when it is today in the viewed month, muted when it
/// lies outside the month or the bounds, and plain otherwise.
pub proof fn law_range_ends_are_filled(
    p: DatePicker,
    view: SimpleDate,
    slot: usize,
    s: SimpleDate,
    e: Option<SimpleDate>,
)
    requires
        p.mode == SelectionMode::Range,
        p.range == Some((s, e)),
    ensures
        ({
            let c = day_cell_spec(p, view, slot);
            &&& c.date == s ==> c.mark == DayMark::Filled && c.ink == DayInk::OnAccent
            &&& e == Some(c.date) ==> c.mark == DayMark::Filled && c.ink == DayInk::OnAccent
            &&& (c.date != s && e != Some(c.date)) ==> {
                &&& c.mark != DayMark::Filled
                &&& c.ink != DayInk::OnAccent
                &&& (c.mark == DayMark::TodayRing <==> (c.in_month && p.today == Some(c.date)))
                &&& (c.ink == DayInk::Muted <==> (!c.in_month || c.disabled))
            }
        }),
{
}

/// In Single mode only the selected day of the viewed month is filled, and a
/// cell is filled exactly when it is drawn on the accent.
pub proof fn law_single_selection_is_filled(p: DatePicker, view: SimpleDate, slot: usize)
    requires
        p.mode == SelectionMode::Single,
    ensures
        ({
            let c = day_cell_spec(p, view, slot);
            &&& (c.mark == DayMark::Filled <==> (c.in_month && p.selected == Some(c.date)))
            &&& (c.mark == DayMark::Filled <==> c.ink == DayInk::OnAccent)
        }),
{
}

/// The grid slot of column `col` in week row `row`.
pub open spec fn week_slot(row: usize, col: usize) -> usize {
    (row * 7 + col) as usize
}

/// Column `col` of week row `row` on `view`'s page shows a day within `s..=e`.
pub open spec fn in_band(view: SimpleDate, row: usize, col: usize, s: SimpleDate, e: SimpleDate) -> bool {
    let d = slot_date_spec(view, week_slot(row, col)).0;
    date_le(s, d) && date_le(d, e)
}

fn outside_bounds(min: Option<SimpleDate>, max: Option<SimpleDate>, d: SimpleDate) -> (r: bool)
    ensures
        r == disabled_spec(min, max, d),
{
    let below = match min {
        Some(m) => !m.is_on_or_before(d),
        None => false,
    };
    let above = match max {
        Some(m) => !d.is_on_or_before(m),
        None => false,
    };
    below || above
}

/// First year of the twelve-year window shown for `year`: the multiple of
/// twelve at or below it.
pub open spec fn year_window_of(year: int) -> int {
    year - year % 12
}

/// `n` in decimal, with a leading `-` when negative.
pub open spec fn signed_decimal(n: int) -> Seq<char> {
    if n < 0 {
        seq!['-'] + decimal((-n) as nat)
    } else {
        decimal(n as nat)
    }
}

fn push_signed(s: &mut String, n: i32)
    ensures
        final(s)@ == old(s)@ + signed_decimal(n as int),
{
    if n < 0 {
        push_char(s, '-');
        let m: u64 = (-(n as i64)) as u64;
        push_decimal(s, m);
        proof {
            assert(old(s)@.push('-') + decimal(m as nat) =~= old(s)@ + signed_decimal(n as int));
        }
    } else {
        push_decimal(s, n as u64);
    }
}

/// The year window to show: the one remembered (`stored`), or, when none
/// is (`0`), the window holding `viewed_year`.
pub fn year_window_base(viewed_year: i32, stored: i32) -> (r: i32)
    requires
        stored != 0 || year_window_of(viewed_year as int) >= i32::MIN,
    ensures
        r == if stored == 0 { year_window_of(viewed_year as int) } else { stored as int },
{
    if stored != 0 {
        return stored;
    }
    let t = viewed_year % 12;
    proof {
        lemma_euclid_from_trunc(viewed_year as int, 12);
        assert(t == trem(viewed_year as int, 12));
    }
    let m = if t < 0 { t + 12 } else { t };
    viewed_year - m
}

/// The calendar header: `Month Year` for a month page, `base – base+11`
/// for the year picker.
pub open spec fn header_text(month: SimpleDate, years_mode: bool, base: i32) -> Seq<char> {
    if years_mode {
        signed_decimal(base as int) + " \u{2013} "@ + signed_decimal(base + 11)
    } else {
        month_name_of(clamp_int(month.month as int, 1, 12)) + " "@ + signed_decimal(month.year as int)
    }
}

impl DatePicker {
    pub fn new(viewed_month: SimpleDate) -> (r: DatePicker)
        ensures
            r == (DatePicker {
                viewed_month,
                selected: None,
                today: None,
                min: None,
                max: None,
                mode: SelectionMode::Single,
                range: None,
                axis: PageAxis::Horizontal,
            }),
    {
        DatePicker {
            viewed_month,
            selected: None,
            today: None,
            min: None,
            max: None,
            mode: SelectionMode::Single,
            range: None,
            axis: PageAxis::Horizontal,
        }
    }

    pub fn selected(self, d: SimpleDate) -> (r: DatePicker)
        ensures
            r == (DatePicker { selected: Some(d), ..self }),
    {
        DatePicker { selected: Some(d), ..self }
    }

    pub fn today(self, d: SimpleDate) -> (r: DatePicker)
        ensures
            r == (DatePicker { today: Some(d), ..self }),
    {
        DatePicker { today: Some(d), ..self }
    }

    pub fn min_date(self, d: SimpleDate) -> (r: DatePicker)
        ensures
            r == (DatePicker { min: Some(d), ..self }),
    {
        DatePicker { min: Some(d), ..self }
    }

    pub fn max_date(self, d: SimpleDate) -> (r: DatePicker)
        ensures
            r == (DatePicker { max: Some(d), ..self }),
    {
        DatePicker { max: Some(d), ..self }
    }

    /// Selection mode — `Single` (default) or `Range`.
    pub fn mode(self, m: SelectionMode) -> (r: DatePicker)
        ensures
            r == (DatePicker { mode: m, ..self }),
    {
        DatePicker { mode: m, ..self }
    }

    /// The current (start, end) selection; switches to `Range` mode.
    pub fn range(self, start: SimpleDate, end: Option<SimpleDate>) -> (r: DatePicker)
        ensures
            r == (DatePicker { mode: SelectionMode::Range, range: Some((start, end)), ..self }),
    {
        DatePicker { mode: SelectionMode::Range, range: Some((start, end)), ..self }
    }

    /// Direction month transitions slide.
    pub fn axis(self, a: PageAxis) -> (r: DatePicker)
        ensures
            r == (DatePicker { axis: a, ..self }),
    {
        DatePicker { axis: a, ..self }
    }

    /// The range a tap on `d` would produce.
    pub fn next_range(&self, d: SimpleDate) -> (r: (SimpleDate, Option<SimpleDate>))
        ensures
            r == next_range_spec(self.range, d),
    {
        next_range_for(self.range, d)
    }

    /// `d` is before `min` or after `max`.
    pub fn is_disabled(&self, d: SimpleDate) -> (r: bool)
        ensures
            r == disabled_spec(self.min, self.max, d),
    {
        outside_bounds(self.min, self.max, d)
    }

    /// The header label: `Month Year` for the month shown, or the year
    /// window `base – base+11` in the year picker.
    pub fn header_label(&self, years_mode: bool, base: i32) -> (r: String)
        requires
            years_mode ==> base + 11 <= i32::MAX,
        ensures
            r@ == header_text(self.viewed_month, years_mode, base),
    {
        let mut s = String::new();
        if years_mode {
            push_signed(&mut s, base);
            push_str(&mut s, " \u{2013} ");
            push_signed(&mut s, base + 11);
        } else {
            push_str(&mut s, SimpleDate::month_name(self.viewed_month.month));
            push_str(&mut s, " ");
            push_signed(&mut s, self.viewed_month.year);
        }
        proof {
            assert(s@ =~= header_text(self.viewed_month, years_mode, base));
        }
        s
    }

    /// The day cell in grid slot `slot` of `view`'s page, as the calendar
    /// draws it.
    pub fn day_cell(&self, view: SimpleDate, slot: usize) -> (r: DayCell)
        requires
            slot_ok(view, slot),
        ensures
            r == day_cell_spec(*self, view, slot),
    {
        let (date, in_month) = slot_date(view, slot);
        let disabled = self.is_disabled(date);
        let is_range = match self.mode {
            SelectionMode::Range => true,
            SelectionMode::Single => false,
        };
        let endpoint = is_range && match self.range {
            Some((s, e)) => s == date || match e {
                Some(x) => x == date,
                None => false,
            },
            None => false,
        };
        let single = !is_range && in_month && match self.selected {
            Some(x) => x == date,
            None => false,
        };
        let filled = endpoint || single;
        let is_today = match self.today {
            Some(x) => x == date,
            None => false,
        };
        let mark = if filled {
            DayMark::Filled
        } else if in_month && is_today {
            DayMark::TodayRing
        } else {
            DayMark::Plain
        };
        let ink = if filled {
            DayInk::OnAccent
        } else if !in_month || disabled {
            DayInk::Muted
        } else {
            DayInk::Normal
        };
        DayCell { date, in_month, disabled, mark, ink }
    }

    /// The stretch of week row `row` (of `view`'s page) that the selected
    /// range covers: its first and last column, and whether those are the
    /// range's true start and end. `None` unless a complete range is
    /// selected in range mode and touches the row.
    pub fn range_band(&self, view: SimpleDate, row: usize) -> (r: Option<(usize, usize, bool, bool)>)
        requires
            row < 6,
            forall|c: usize| c < 7 ==> #[trigger] slot_ok(view, week_slot(row, c)),
        ensures
            match (self.mode, self.range) {
                (SelectionMode::Range, Some((s, Some(e)))) => match r {
                    Some((lo, hi, lo_is_start, hi_is_end)) => {
                        &&& lo <= hi < 7
                        &&& in_band(view, row, lo, s, e)
                        &&& in_band(view, row, hi, s, e)
                        &&& forall|c: usize| c < lo ==> !in_band(view, row, c, s, e)
                        &&& forall|c: usize| hi < c < 7 ==> !in_band(view, row, c, s, e)
                        &&& lo_is_start == (slot_date_spec(view, week_slot(row, lo)).0 == s)
                        &&& hi_is_end == (slot_date_spec(view, week_slot(row, hi)).0 == e)
                    },
                    None => forall|c: usize| c < 7 ==> !in_band(view, row, c, s, e),
                },
                _ => r is None,
            },
    {
        match (self.mode, self.range) {
            (SelectionMode::Range, Some((s, Some(e)))) => {
                let mut lo: Option<usize> = None;
                let mut hi: usize = 0;
                let mut col: usize = 0;
                while col < 7
                    invariant
                        col <= 7,
                        row < 6,
                        forall|c: usize| c < 7 ==> #[trigger] slot_ok(view, week_slot(row, c)),
                        match lo {
                            None => forall|c: usize| c < col ==> !in_band(view, row, c, s, e),
                            Some(l) => {
                                &&& l <= hi < col
                                &&& in_band(view, row, l, s, e)
                                &&& in_band(view, row, hi, s, e)
                                &&& forall|c: usize| c < l ==> !in_band(view, row, c, s, e)
                                &&& forall|c: usize| hi < c < col ==> !in_band(view, row, c, s, e)
                            },
                        },
                    decreases 7 - col,
                {
                    proof {
                        assert(slot_ok(view, week_slot(row, col)));
                    }
                    let (d, _) = slot_date(view, row * 7 + col);
                    if s.is_on_or_before(d) && d.is_on_or_before(e) {
                        if lo.is_none() {
                            lo = Some(col);
                        }
                        hi = col;
                    }
                    col = col + 1;
                }
                match lo {
                    Some(l) => {
                        proof {
                            assert(slot_ok(view, week_slot(row, l)));
                            assert(slot_ok(view, week_slot(row, hi)));
                        }
                        let (ld, _) = slot_date(view, row * 7 + l);
                        let (hd, _) = slot_date(view, row * 7 + hi);
                        Some((l, hi, ld == s, hd == e))
                    },
                    None => None,
                }
            },
            _ => None,
        }
    }

    /// What the body's press/drag gesture needs from the picker.
    pub fn gesture_config(&self, has_on_select: bool) -> (r: GestureConfig)
        ensures
            r == (GestureConfig {
                is_range: self.mode == SelectionMode::Range,
                range: self.range,
                min: self.min,
                max: self.max,
                has_on_select,
            }),
    {
        GestureConfig {
            is_range: self.mode == SelectionMode::Range,
            range: self.range,
            min: self.min,
            max: self.max,
            has_on_select,
        }
    }
}

// ───────────────────────── the press/drag gesture ─────────────────────────

/// Auto-page every this many drag moves spent past the top/bottom edge.
pub const EDGE_PAGE_EVERY: u32 = 5;

/// The picker settings one gesture runs under.
#[derive(Clone, Copy, Debug)]
pub struct GestureConfig {
    pub is_range: bool,
    pub range: Option<(SimpleDate, Option<SimpleDate>)>,
    pub min: Option<SimpleDate>,
    pub max: Option<SimpleDate>,
    /// Whether a selection callback is installed.
    pub has_on_select: bool,
}

/// Per-gesture scratch state for one press→release: the month the pointer
/// is over, the anchor day, whether a drag selected anything, and the moves
/// spent in the edge zone since the last auto-page.
#[derive(Clone, Copy, Debug)]
pub struct DragState {
    pub view: SimpleDate,
    pub anchor: Option<SimpleDate>,
    pub moved: bool,
    pub edge_ticks: u32,
}

impl DragState {
    /// The state at press-down over `view`.
    pub fn new(view: SimpleDate) -> (r: DragState)
        ensures
            r == (DragState { view, anchor: None, moved: false, edge_ticks: 0 }),
    {
        DragState { view, anchor: None, moved: false, edge_ticks: 0 }
    }
}

/// What a gesture step asks the picker's owner to do.
#[derive(Clone, Copy, Debug, PartialEq, Eq, Structural)]
pub enum PickerEffect {
    /// Show this month.
    MonthChange(SimpleDate),
    /// Report the selection `(start, end)`.
    Select(SimpleDate, Option<SimpleDate>),
}

/// The month a pointer past the top (`above`) or bottom edge pages to.
pub open spec fn edge_month(view: SimpleDate, above: bool) -> SimpleDate {
    if above { prev_month_of(view) } else { next_month_of(view) }
}

/// One pointer event of the gesture over grid cell (`col`, `row`): the
/// first event is the press (tap semantics); later ones are drag moves.
pub open spec fn gesture_step_spec(cfg: GestureConfig, st: DragState, col: i32, row: i32) -> (DragState, Seq<PickerEffect>) {
    let view = st.view;
    let (date, in_cur, above, below) = day_at_cell_spec(view, col, row);
    if st.anchor is None {
        let st1 = DragState { anchor: Some(date), ..st };
        if above || below {
            let nm = edge_month(view, above);
            (DragState { view: nm, ..st1 }, seq![PickerEffect::MonthChange(nm)])
        } else {
            let (st2, e1) = if !in_cur {
                let nm = date_of(date.year, date.month, 1);
                (DragState { view: nm, ..st1 }, seq![PickerEffect::MonthChange(nm)])
            } else {
                (st1, Seq::<PickerEffect>::empty())
            };
            if disabled_spec(cfg.min, cfg.max, date) || !cfg.has_on_select {
                (st2, e1)
            } else if cfg.is_range {
                let (ns, ne) = next_range_spec(cfg.range, date);
                (st2, e1.push(PickerEffect::Select(ns, ne)))
            } else {
                (st2, e1.push(PickerEffect::Select(date, None)))
            }
        }
    } else {
        let anchor = st.anchor->0;
        let sel = cfg.is_range && date != anchor && cfg.has_on_select && !disabled_spec(cfg.min, cfg.max, date);
        let st1 = if sel { DragState { moved: true, ..st } } else { st };
        let e1 = if sel {
            if date_le(anchor, date) {
                seq![PickerEffect::Select(anchor, Some(date))]
            } else {
                seq![PickerEffect::Select(date, Some(anchor))]
            }
        } else {
            Seq::<PickerEffect>::empty()
        };
        if cfg.is_range && (above || below) {
            if st1.edge_ticks + 1 >= EDGE_PAGE_EVERY {
                let nm = edge_month(view, above);
                (DragState { edge_ticks: 0, view: nm, ..st1 }, e1.push(PickerEffect::MonthChange(nm)))
            } else {
                (DragState { edge_ticks: (st1.edge_ticks + 1) as u32, ..st1 }, e1)
            }
        } else {
            (DragState { edge_ticks: 0, ..st1 }, e1)
        }
    }
}

/// The inputs on which a gesture step stays within the representable
/// calendar.
pub open spec fn gesture_ok(st: DragState, col: i32, row: i32) -> bool {
    let (date, in_cur, above, below) = day_at_cell_spec(st.view, col, row);
    &&& cell_ok(st.view, col, row)
    &&& st.edge_ticks < u32::MAX
    &&& (above ==> can_step_back(st.view))
    &&& (below ==> can_step_forward(st.view))
}

/// One pointer event of the date body's press/drag gesture: returns the new
/// gesture state and the month changes and selections to report, in order.
pub fn gesture_step(cfg: &GestureConfig, st: DragState, col: i32, row: i32) -> (r: (DragState, Vec<PickerEffect>))
    requires
        gesture_ok(st, col, row),
    ensures
        (r.0, r.1@) == gesture_step_spec(*cfg, st, col, row),
{
    let view = st.view;
    let (date, in_cur, above, below) = day_at_cell(view, col, row);
    let mut effects: Vec<PickerEffect> = Vec::new();
    let mut s = st;
    if st.anchor.is_none() {
        s.anchor = Some(date);
        if above || below {
            let nm = if above { view.prev_month() } else { view.next_month() };
            s.view = nm;
            effects.push(PickerEffect::MonthChange(nm));
            proof {
                assert(effects@ =~= seq![PickerEffect::MonthChange(nm)]);
            }
            return (s, effects);
        }
        if !in_cur {
            let nm = SimpleDate::new(date.year, date.month, 1);
            s.view = nm;
            effects.push(PickerEffect::MonthChange(nm));
        }
        let ghost e1 = effects@;
        proof {
            if !in_cur {
                assert(e1 =~= seq![PickerEffect::MonthChange(date_of(date.year, date.month, 1))]);
            } else {
                assert(e1 =~= Seq::<PickerEffect>::empty());
            }
        }
        if outside_bounds(cfg.min, cfg.max, date) || !cfg.has_on_select {
            return (s, effects);
        }
        if cfg.is_range {
            let (ns, ne) = next_range_for(cfg.range, date);
            effects.push(PickerEffect::Select(ns, ne));
        } else {
            effects.push(PickerEffect::Select(date, None));
        }
        return (s, effects);
    }
    let anchor = match st.anchor {
        Some(a) => a,
        None => date,
    };
    let sel = cfg.is_range && date != anchor && cfg.has_on_select && !outside_bounds(cfg.min, cfg.max, date);
    if sel {
        s.moved = true;
        if anchor.is_on_or_before(date) {
            effects.push(PickerEffect::Select(anchor, Some(date)));
        } else {
            effects.push(PickerEffect::Select(date, Some(anchor)));
        }
    }
    let ghost e1 = effects@;
    proof {
        if sel {
            if date_le(anchor, date) {
                assert(e1 =~= seq![PickerEffect::Select(anchor, Some(date))]);
            } else {
                assert(e1 =~= seq![PickerEffect::Select(date, Some(anchor))]);
            }
        } else {
            assert(e1 =~= Seq::<PickerEffect>::empty());
        }
    }
    if cfg.is_range && (above || below) {
        s.edge_ticks = s.edge_ticks + 1;
        if s.edge_ticks >= EDGE_PAGE_EVERY {
            s.edge_ticks = 0;
            let nm = if above { view.prev_month() } else { view.next_month() };
            s.view = nm;
            effects.push(PickerEffect::MonthChange(nm));
        }
    } else {
        s.edge_ticks = 0;
    }
    (s, effects)
}


// ───────────────────────── laws ─────────────────────────

/// A month is identified by its ordinal: converting a valid date to its
/// month ordinal and back gives the first of the same month.
pub proof fn law_month_ordinal_roundtrip(d: SimpleDate)
    requires
        1 <= d.month <= 12,
        i32::MIN <= month_ordinal_of(d) <= i32::MAX,
    ensures
        date_of((month_ordinal_of(d) / 12) as i32, (month_ordinal_of(d) % 12 + 1) as u8, 1) == date_of(d.year, d.month, 1),
{
    let ord = month_ordinal_of(d);
    assert(ord == d.year * 12 + (d.month - 1));
    vstd::arithmetic::div_mod::lemma_fundamental_div_mod_converse(ord, 12, d.year as int, d.month - 1);
}

/// Stepping a valid date one month forward advances its month ordinal by
/// one, and stepping back again restores the date.
pub proof fn law_next_month_steps_ordinal(d: SimpleDate)
    requires
        1 <= d.month <= 12,
        1 <= d.day <= 31,
        can_step_forward(d),
    ensures
        month_ordinal_of(next_month_of(d)) == month_ordinal_of(d) + 1,
        can_step_back(next_month_of(d)),
        prev_month_of(next_month_of(d)) == d,
{
}

/// Stepping a valid date one month back and forward again restores it.
pub proof fn law_prev_then_next(d: SimpleDate)
    requires
        1 <= d.month <= 12,
        1 <= d.day <= 31,
        can_step_back(d),
    ensures
        can_step_forward(prev_month_of(d)),
        next_month_of(prev_month_of(d)) == d,
        month_ordinal_of(prev_month_of(d)) == month_ordinal_of(d) - 1,
{
}

/// Within a month, each day falls one weekday after the previous one: the
/// weekday of day `day` is the weekday of the 1st advanced by `day - 1`.
pub proof fn law_weekday_advances_by_day(year: int, month: int, day: int)
    ensures
        zeller(year, month, day) == (zeller(year, month, 1) + day - 1) % 7,
{
    let y = if month < 3 { year - 1 } else { year };
    let m = if month < 3 { month + 12 } else { month };
    let k = trem(y, 100);
    let j = tdiv(y, 100);
    let c = (13 * (m + 1)) / 5 + k + tdiv(k, 4) + tdiv(j, 4) + 5 * j;
    let s1 = 1 + c;
    let sd = day + c;
    lemma_tdiv_bound(s1, 7);
    lemma_tdiv_bound(sd, 7);
    // (trem(s, 7) + 6) % 7 == (s + 6) % 7
    vstd::arithmetic::div_mod::lemma_mod_multiples_vanish(tdiv(s1, 7), trem(s1, 7) + 6, 7);
    vstd::arithmetic::div_mod::lemma_mod_multiples_vanish(tdiv(sd, 7), trem(sd, 7) + 6, 7);
    assert(7 * tdiv(s1, 7) + (trem(s1, 7) + 6) == s1 + 6);
    assert(7 * tdiv(sd, 7) + (trem(sd, 7) + 6) == sd + 6);
    assert(zeller(year, month, 1) == (s1 + 6) % 7);
    assert(zeller(year, month, day) == (sd + 6) % 7);
    vstd::arithmetic::div_mod::lemma_add_mod_noop_right(day - 1, s1 + 6, 7);
    assert((s1 + 6) % 7 + (day - 1) == (day - 1) + (s1 + 6) % 7);
    assert(sd + 6 == (day - 1) + (s1 + 6));
}

/// The calendar day after `year-month-day`: the next day of the month, else
/// the 1st of the next month, and after December 31 January 1 of the next
/// year.
pub open spec fn next_day(year: int, month: int, day: int) -> (int, int, int) {
    if day < month_length(year, month) {
        (year, month, day + 1)
    } else if month < 12 {
        (year, month + 1, 1)
    } else {
        (year + 1, 1, 1)
    }
}

/// The month term of Zeller's sum, for the shifted month `m` (3 … 14).
pub open spec fn zeller_month_term(m: int) -> int {
    (13 * (m + 1)) / 5
}

/// The year term of Zeller's sum, for the shifted year `y`.
pub open spec fn zeller_year_term(y: int) -> int {
    y % 100 + (y % 100) / 4 + (y / 100) / 4 + 5 * (y / 100)
}

/// Zeller's sum for a date of a year from 1 on, before it is taken mod 7.
pub open spec fn zeller_sum(year: int, month: int, day: int) -> int {
    let y = if month < 3 { year - 1 } else { year };
    let m = if month < 3 { month + 12 } else { month };
    day + zeller_month_term(m) + zeller_year_term(y) + 6
}

/// The number of days from year 0 to the start of year `y`, mod 7, in the
/// usual form.
pub open spec fn gregorian_shift(y: int) -> int {
    y + y / 4 - y / 100 + y / 400
}

proof fn lemma_zeller_is_sum(year: int, month: int, day: int)
    requires
        year >= 1,
        1 <= month <= 12,
        day >= 1,
    ensures
        zeller(year, month, day) == zeller_sum(year, month, day) % 7,
{
    let y = if month < 3 { year - 1 } else { year };
    let m = if month < 3 { month + 12 } else { month };
    lemma_tdiv_bound(y, 100);
    lemma_euclid_from_trunc(y, 100);
    let k = trem(y, 100);
    let j = tdiv(y, 100);
    assert(k == y % 100 && j == y / 100);
    lemma_tdiv_bound(k, 4);
    lemma_euclid_from_trunc(k, 4);
    lemma_tdiv_bound(j, 4);
    lemma_euclid_from_trunc(j, 4);
    assert(tdiv(k, 4) == k / 4 && tdiv(j, 4) == j / 4);
    assert(zeller_month_term(m) >= 0) by (nonlinear_arith)
        requires m >= 3;
    let s = day + (13 * (m + 1)) / 5 + k + tdiv(k, 4) + tdiv(j, 4) + 5 * j;
    assert(k >= 0 && j >= 0 && k / 4 >= 0 && j / 4 >= 0) by (nonlinear_arith)
        requires k == y % 100, j == y / 100, y >= 0;
    assert(s >= 0);
    lemma_tdiv_bound(s, 7);
    lemma_euclid_from_trunc(s, 7);
    vstd::arithmetic::div_mod::lemma_add_mod_noop(s, 6, 7);
    assert(zeller_sum(year, month, day) == s + 6);
}

proof fn lemma_year_term_shift(y: int)
    requires
        y >= 0,
    ensures
        zeller_year_term(y) == gregorian_shift(y) - 119 * (y / 100),
{
    let j = y / 100;
    let r = y % 100;
    vstd::arithmetic::div_mod::lemma_fundamental_div_mod(y, 100);
    assert(y == r + 25 * j * 4) by (nonlinear_arith)
        requires y == 100 * j + r;
    vstd::arithmetic::div_mod::lemma_hoist_over_denominator(r, 25 * j, 4);
    assert(y / 4 == r / 4 + 25 * j);
    vstd::arithmetic::div_mod::lemma_div_denominator(y, 100, 4);
    assert(y / 400 == j / 4);
}

proof fn lemma_div_step(y: int, d: int)
    requires
        y >= 1,
        d > 0,
    ensures
        y / d - (y - 1) / d == (if y % d == 0 { 1int } else { 0int }),
{
    let q = (y - 1) / d;
    let r = (y - 1) % d;
    vstd::arithmetic::div_mod::lemma_fundamental_div_mod(y - 1, d);
    assert(0 <= r < d);
    if r == d - 1 {
        assert(y == (q + 1) * d + 0) by (nonlinear_arith)
            requires y - 1 == d * q + r, r == d - 1;
        vstd::arithmetic::div_mod::lemma_fundamental_div_mod_converse(y, d, q + 1, 0);
    } else {
        assert(y == q * d + (r + 1)) by (nonlinear_arith)
            requires y - 1 == d * q + r;
        vstd::arithmetic::div_mod::lemma_fundamental_div_mod_converse(y, d, q, r + 1);
    }
}

proof fn lemma_gregorian_step(y: int)
    requires
        y >= 1,
    ensures
        gregorian_shift(y) - gregorian_shift(y - 1) == 1 + (if leap_year(y) { 1int } else { 0int }),
{
    lemma_div_step(y, 4);
    lemma_div_step(y, 100);
    lemma_div_step(y, 400);
    if y % 400 == 0 {
        vstd::arithmetic::div_mod::lemma_fundamental_div_mod(y, 400);
        assert(y == (4 * (y / 400)) * 100) by (nonlinear_arith)
            requires y == 400 * (y / 400) + 0;
        vstd::arithmetic::div_mod::lemma_mod_multiples_basic(4 * (y / 400), 100);
    }
    if y % 100 == 0 {
        vstd::arithmetic::div_mod::lemma_fundamental_div_mod(y, 100);
        assert(y == (25 * (y / 100)) * 4) by (nonlinear_arith)
            requires y == 100 * (y / 100) + 0;
        vstd::arithmetic::div_mod::lemma_mod_multiples_basic(25 * (y / 100), 4);
    }
}

/// Consecutive calendar days advance the weekday by one, across month and
/// year ends too, for every date of a year from 1 on.
pub proof fn law_weekday_next_day(year: int, month: int, day: int)
    requires
        year >= 1,
        1 <= month <= 12,
        1 <= day <= month_length(year, month),
    ensures
        0 <= zeller(year, month, day) < 7,
        zeller(next_day(year, month, day).0, next_day(year, month, day).1, next_day(year, month, day).2)
            == (zeller(year, month, day) + 1) % 7,
{
    let (y2, m2, d2) = next_day(year, month, day);
    lemma_zeller_is_sum(year, month, day);
    lemma_zeller_is_sum(y2, m2, d2);
    let a = zeller_sum(year, month, day);
    let b = zeller_sum(y2, m2, d2);
    let q: int = if day < month_length(year, month) {
        0
    } else if month == 2 {
        lemma_year_term_shift(year);
        lemma_year_term_shift(year - 1);
        lemma_gregorian_step(year);
        -8 - 17 * (year / 100 - (year - 1) / 100)
    } else {
        -4
    };
    assert(b == a + 1 + 7 * q) by {
        if day == month_length(year, month) {
            if month == 2 {
                assert(zeller_month_term(3) == 10 && zeller_month_term(14) == 39);
            } else if month == 1 {
                assert(zeller_month_term(13) == 36 && zeller_month_term(14) == 39);
            } else if month == 12 {
                assert(zeller_month_term(12) == 33 && zeller_month_term(13) == 36);
            } else {
                assert(zeller_month_term(month + 1) - zeller_month_term(month) == month_length(year, month) - 28) by {
                    assert(zeller_month_term(3) == 10 && zeller_month_term(4) == 13 && zeller_month_term(5) == 15
                        && zeller_month_term(6) == 18 && zeller_month_term(7) == 20 && zeller_month_term(8) == 23
                        && zeller_month_term(9) == 26 && zeller_month_term(10) == 28 && zeller_month_term(11) == 31
                        && zeller_month_term(12) == 33);
                }
            }
        }
    }
    vstd::arithmetic::div_mod::lemma_mod_multiples_vanish(q, a + 1, 7);
    assert(7 * q + (a + 1) == b);
    vstd::arithmetic::div_mod::lemma_add_mod_noop(a, 1, 7);
    vstd::arithmetic::div_mod::lemma_mod_bound(a, 7);
}

/// The rows a month occupies are exactly those that hold one of its days:
/// enough rows for the leading blanks plus every day, and no more.
pub proof fn law_rows_cover_the_month(view: SimpleDate)
    requires
        0 <= first_weekday(view) < 7,
    ensures
        rows_in_month_spec(view) * 7 >= first_weekday(view) + month_length(view.year as int, view.month as int),
        (rows_in_month_spec(view) - 1) * 7 < first_weekday(view) + month_length(view.year as int, view.month as int),
{
    let n = first_weekday(view) + month_length(view.year as int, view.month as int);
    vstd::arithmetic::div_mod::lemma_fundamental_div_mod(n - 1, 7);
    assert(0 <= (n - 1) % 7 < 7);
    assert(rows_in_month_spec(view) == (n - 1) / 7 + 1);
    assert(((n - 1) / 7 + 1) * 7 == 7 * ((n - 1) / 7) + 7) by (nonlinear_arith);
    assert(((n - 1) / 7) * 7 == 7 * ((n - 1) / 7)) by (nonlinear_arith);
}

/// Grid slots `first .. first + days` show the days of the viewed month in
/// order; every other slot of the 6×7 page shows a neighbour-month day.
pub proof fn law_slot_date_in_month(view: SimpleDate, slot: usize)
    requires
        slot < 42,
        0 <= first_weekday(view) < 7,
    ensures
        slot_date_spec(view, slot).1 <==> (first_weekday(view) <= slot < first_weekday(view) + month_length(view.year as int, view.month as int)),
        slot_date_spec(view, slot).1 ==> slot_date_spec(view, slot).0 == date_of(view.year, view.month, (slot - first_weekday(view) + 1) as u8),
{
    assert((slot as i32) as int == slot as int);
}

/// A completed range is always ordered: its start is on or before its end.
pub proof fn law_next_range_ordered(cur: Option<(SimpleDate, Option<SimpleDate>)>, d: SimpleDate)
    ensures
        next_range_spec(cur, d).1 matches Some(e) ==> date_le(next_range_spec(cur, d).0, e),
{
}

} // verus!
