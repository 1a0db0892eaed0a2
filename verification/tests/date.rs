use rosace_widgets::date::{
    gesture_step, next_range_for, rows_in_month, slot_date, year_window_base, DatePicker, DayInk, DayMark, DragState,
    PickerEffect, SelectionMode, SimpleDate,
};

#[test]
fn slot_date_fills_leading_and_trailing_from_neighbour_months() {
    // July 2026 starts on a Wednesday (day_of_week == 3), so slots 0..2
    // are the tail of June, slot 3 is Jul 1, and the grid overruns into
    // August after Jul 31.
    let view = SimpleDate::new(2026, 7, 1);
    assert_eq!(SimpleDate::day_of_week(2026, 7, 1), 3);
    assert_eq!(slot_date(view, 0), (SimpleDate::new(2026, 6, 28), false));
    assert_eq!(slot_date(view, 2), (SimpleDate::new(2026, 6, 30), false));
    assert_eq!(slot_date(view, 3), (SimpleDate::new(2026, 7, 1), true));
    assert_eq!(slot_date(view, 33), (SimpleDate::new(2026, 7, 31), true));
    assert_eq!(slot_date(view, 34), (SimpleDate::new(2026, 8, 1), false));
}

#[test]
fn rows_in_month_omits_all_next_month_weeks() {
    assert_eq!(rows_in_month(SimpleDate::new(2026, 7, 1)), 5);
    assert_eq!(SimpleDate::day_of_week(2026, 2, 1), 0);
    assert_eq!(rows_in_month(SimpleDate::new(2026, 2, 1)), 4);
    assert_eq!(SimpleDate::day_of_week(2026, 8, 1), 6);
    assert_eq!(rows_in_month(SimpleDate::new(2026, 8, 1)), 6);
}

#[test]
fn month_ordinal_roundtrips() {
    let d = SimpleDate::new(2026, 7, 15);
    assert_eq!(SimpleDate::from_month_ordinal(d.month_ordinal()), SimpleDate::new(2026, 7, 1));
    assert_eq!(SimpleDate::new(2026, 12, 1).month_ordinal() + 1, SimpleDate::new(2027, 1, 1).month_ordinal());
}

#[test]
fn next_range_starts_completes_and_restarts() {
    let d = |day| SimpleDate::new(2026, 7, day);
    let base = DatePicker::new(d(1));
    assert_eq!(base.next_range(d(5)), (d(5), None), "empty → start");
    let started = DatePicker::new(d(1)).range(d(5), None);
    assert_eq!(started.next_range(d(9)), (d(5), Some(d(9))), "start+later → complete");
    assert_eq!(started.next_range(d(2)), (d(2), Some(d(5))), "start+earlier → ordered");
    let complete = DatePicker::new(d(1)).range(d(5), Some(d(9)));
    assert_eq!(complete.next_range(d(12)), (d(12), None), "complete → restart");
}

#[test]
fn leap_year_math_is_correct() {
    assert!(SimpleDate::is_leap_year(2024));
    assert!(!SimpleDate::is_leap_year(2023));
    assert!(!SimpleDate::is_leap_year(1900), "divisible by 100 but not 400");
    assert!(SimpleDate::is_leap_year(2000), "divisible by 400");
}

#[test]
fn days_in_month_matches_calendar() {
    assert_eq!(SimpleDate::days_in_month(2024, 2), 29);
    assert_eq!(SimpleDate::days_in_month(2023, 2), 28);
    assert_eq!(SimpleDate::days_in_month(2024, 4), 30);
    assert_eq!(SimpleDate::days_in_month(2024, 1), 31);
}

#[test]
fn day_of_week_matches_known_dates() {
    assert_eq!(SimpleDate::day_of_week(2024, 1, 1), 1);
    assert_eq!(SimpleDate::day_of_week(2000, 1, 1), 6);
    assert_eq!(SimpleDate::day_of_week(2024, 7, 17), 3);
}

#[test]
fn month_navigation_wraps_year() {
    let d = SimpleDate::new(2024, 1, 15);
    assert_eq!(d.prev_month(), SimpleDate::new(2023, 12, 15));
    let d = SimpleDate::new(2024, 12, 15);
    assert_eq!(d.next_month(), SimpleDate::new(2025, 1, 15));
}

#[test]
fn min_max_range_disables_out_of_range_dates() {
    let dp = DatePicker::new(SimpleDate::new(2024, 7, 1))
        .min_date(SimpleDate::new(2024, 7, 10))
        .max_date(SimpleDate::new(2024, 7, 20));
    assert!(dp.is_disabled(SimpleDate::new(2024, 7, 5)));
    assert!(dp.is_disabled(SimpleDate::new(2024, 7, 25)));
    assert!(!dp.is_disabled(SimpleDate::new(2024, 7, 15)));
}

#[test]
fn month_and_year_navigation_keep_the_day_number() {
    let d = SimpleDate::new(2024, 3, 31).prev_month();
    assert_eq!((d.year, d.month, d.day), (2024, 2, 31));
    let d = SimpleDate::new(2024, 2, 29).next_year();
    assert_eq!((d.year, d.month, d.day), (2025, 2, 29));
    let d = SimpleDate::new(2024, 2, 29).prev_year();
    assert_eq!((d.year, d.month, d.day), (2023, 2, 29));
}

#[test]
fn new_clamps_month_and_day() {
    assert_eq!(SimpleDate::new(2024, 0, 0), SimpleDate::new(2024, 1, 1));
    assert_eq!(SimpleDate::new(2024, 13, 40), SimpleDate::new(2024, 12, 31));
}

#[test]
fn month_names_and_order() {
    assert_eq!(SimpleDate::month_name(1), "January");
    assert_eq!(SimpleDate::month_name(12), "December");
    assert!(SimpleDate::new(2024, 7, 1).is_on_or_before(SimpleDate::new(2024, 7, 1)));
    assert!(SimpleDate::new(2023, 12, 31).is_on_or_before(SimpleDate::new(2024, 1, 1)));
    assert!(!SimpleDate::new(2024, 1, 2).is_on_or_before(SimpleDate::new(2024, 1, 1)));
    assert_eq!(next_range_for(None, SimpleDate::new(2024, 1, 1)), (SimpleDate::new(2024, 1, 1), None));
}

#[test]
fn range_band_spans_the_selected_columns_of_each_week_row() {
    let d = |day| SimpleDate::new(2026, 7, day);
    let p = DatePicker::new(d(1)).mode(SelectionMode::Range).range(d(8), Some(d(19)));
    let view = d(1);
    assert_eq!(p.range_band(view, 0), None);
    assert_eq!(p.range_band(view, 1), Some((3, 6, true, false)));
    assert_eq!(p.range_band(view, 2), Some((0, 6, false, false)));
    assert_eq!(p.range_band(view, 3), Some((0, 0, false, true)));
    assert_eq!(p.range_band(view, 4), None);
    // An open range, or single mode, draws no band.
    let open = DatePicker::new(d(1)).mode(SelectionMode::Range).range(d(8), None);
    assert_eq!(open.range_band(view, 1), None);
    let single = DatePicker::new(d(1)).range(d(8), Some(d(19))).mode(SelectionMode::Single);
    assert_eq!(single.range_band(view, 1), None);
}

#[test]
fn day_cells_mark_selection_today_and_neighbours() {
    let d = |day| SimpleDate::new(2026, 7, day);
    let view = d(1);
    let range = DatePicker::new(view).mode(SelectionMode::Range).range(d(8), Some(d(19))).today(d(24));
    let start = range.day_cell(view, 10);
    assert_eq!(start.date, d(8));
    assert_eq!((start.mark, start.ink), (DayMark::Filled, DayInk::OnAccent));
    let inside = range.day_cell(view, 14);
    assert_eq!(inside.date, d(12));
    assert_eq!((inside.mark, inside.ink), (DayMark::Plain, DayInk::Normal));
    let today = range.day_cell(view, 26);
    assert_eq!(today.date, d(24));
    assert_eq!((today.mark, today.ink), (DayMark::TodayRing, DayInk::Normal));
    let june = range.day_cell(view, 0);
    assert_eq!((june.date, june.in_month), (SimpleDate::new(2026, 6, 28), false));
    assert_eq!((june.mark, june.ink), (DayMark::Plain, DayInk::Muted));

    let single = DatePicker::new(view).selected(d(15)).min_date(d(6));
    let chosen = single.day_cell(view, 17);
    assert_eq!(chosen.date, d(15));
    assert_eq!(chosen.mark, DayMark::Filled);
    let early = single.day_cell(view, 7);
    assert_eq!(early.date, d(5));
    assert!(early.disabled);
    assert_eq!(early.ink, DayInk::Muted);
}

#[test]
fn header_shows_the_month_or_the_year_window() {
    let p = DatePicker::new(SimpleDate::new(2026, 7, 1));
    assert_eq!(p.header_label(false, 0), "July 2026");
    assert_eq!(year_window_base(2026, 0), 2016);
    assert_eq!(year_window_base(2016, 0), 2016);
    assert_eq!(year_window_base(-1, 0), -12);
    assert_eq!(year_window_base(2026, 1990), 1990);
    assert_eq!(p.header_label(true, 2016), "2016 \u{2013} 2027");
    assert_eq!(p.header_label(true, -12), "-12 \u{2013} -1");
    let bc = DatePicker::new(SimpleDate::new(-44, 3, 15));
    assert_eq!(bc.header_label(false, 0), "March -44");
}

#[test]
fn a_press_then_drag_selects_a_range_and_pages_at_the_edge() {
    let d = |day| SimpleDate::new(2026, 7, day);
    let view = d(1);
    let cfg = DatePicker::new(view).mode(SelectionMode::Range).gesture_config(true);
    // Press on Jul 8 (column 3, row 1): starts a range.
    let (st, fx) = gesture_step(&cfg, DragState::new(view), 3, 1);
    assert_eq!(fx, vec![PickerEffect::Select(d(8), None)]);
    assert_eq!(st.anchor, Some(d(8)));
    // Drag onto Jul 12 (column 0, row 2): reports the ordered range.
    let (st, fx) = gesture_step(&cfg, st, 0, 2);
    assert_eq!(fx, vec![PickerEffect::Select(d(8), Some(d(12)))]);
    assert!(st.moved);
    // Holding past the top edge pages back a month every fifth move.
    let mut st = st;
    let mut pages = Vec::new();
    for _ in 0..5 {
        let (next, fx) = gesture_step(&cfg, st, 3, -1);
        st = next;
        pages.extend(fx.into_iter().filter(|e| matches!(e, PickerEffect::MonthChange(_))));
    }
    assert_eq!(pages, vec![PickerEffect::MonthChange(SimpleDate::new(2026, 6, 1))]);
    assert_eq!(st.view, SimpleDate::new(2026, 6, 1));
    assert_eq!(st.edge_ticks, 0);
}

#[test]
fn a_press_on_a_neighbour_day_moves_the_view_then_selects() {
    let view = SimpleDate::new(2026, 7, 1);
    let cfg = DatePicker::new(view).gesture_config(true);
    // Column 0, row 0 is Jun 28.
    let (st, fx) = gesture_step(&cfg, DragState::new(view), 0, 0);
    assert_eq!(
        fx,
        vec![
            PickerEffect::MonthChange(SimpleDate::new(2026, 6, 1)),
            PickerEffect::Select(SimpleDate::new(2026, 6, 28), None),
        ]
    );
    assert_eq!(st.view, SimpleDate::new(2026, 6, 1));
    // Without a selection callback nothing is selected.
    let quiet = DatePicker::new(view).gesture_config(false);
    let (_, fx) = gesture_step(&quiet, DragState::new(view), 3, 1);
    assert!(fx.is_empty());
}

#[test]
fn weekday_advances_across_month_and_year_ends() {
    // (date, next date) pairs at month and year ends, leap and common years.
    let pairs = [
        ((2023, 12, 31), (2024, 1, 1)),
        ((2024, 1, 31), (2024, 2, 1)),
        ((2024, 2, 29), (2024, 3, 1)),
        ((2023, 2, 28), (2023, 3, 1)),
        ((1900, 2, 28), (1900, 3, 1)),
        ((2000, 2, 29), (2000, 3, 1)),
        ((1, 12, 31), (2, 1, 1)),
        ((2026, 4, 30), (2026, 5, 1)),
    ];
    for ((y, m, d), (y2, m2, d2)) in pairs {
        let a = SimpleDate::day_of_week(y, m, d);
        let b = SimpleDate::day_of_week(y2, m2, d2);
        assert!(a < 7);
        assert_eq!(b, (a + 1) % 7, "{}-{}-{} to {}-{}-{}", y, m, d, y2, m2, d2);
    }
    // 2024-01-01 was a Monday, 2000-03-01 a Wednesday.
    assert_eq!(SimpleDate::day_of_week(2024, 1, 1), 1);
    assert_eq!(SimpleDate::day_of_week(2000, 3, 1), 3);
}
