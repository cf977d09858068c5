use slt::command::Command;
use slt::context::{CalDate, CalendarSelect, CalendarState, Context};
use slt::event::{Event, KeyCode, KeyModifiers};
use slt::style::Rect;

fn texts(ctx: &Context) -> Vec<String> {
    ctx.commands
        .iter()
        .filter_map(|c| match c {
            Command::Text { content, .. } => Some(content.clone()),
            _ => None,
        })
        .collect()
}

fn focused(events: Vec<Event>) -> Context {
    let mut ctx = Context::new(40, 12, events);
    ctx.prev_focus_count = 1;
    ctx.focus_index = 0;
    ctx
}

#[test]
fn month_lengths_follow_leap_years() {
    assert_eq!(CalendarState::days_in_month(2024, 2), 29);
    assert_eq!(CalendarState::days_in_month(2023, 2), 28);
    assert_eq!(CalendarState::days_in_month(1900, 2), 28);
    assert_eq!(CalendarState::days_in_month(2000, 2), 29);
    assert_eq!(CalendarState::days_in_month(2024, 4), 30);
    assert_eq!(CalendarState::days_in_month(2024, 12), 31);
}

#[test]
fn first_weekday_is_monday_based() {
    // 2024-03-01 was a Friday, 1970-01-01 a Thursday, 2000-01-01 a Saturday.
    assert_eq!(CalendarState::first_weekday(2024, 3), 4);
    assert_eq!(CalendarState::first_weekday(1970, 1), 3);
    assert_eq!(CalendarState::first_weekday(2000, 1), 5);
    assert_eq!(CalendarState::first_weekday(-1, 1), 4);
}

#[test]
fn calendar_draws_title_header_and_grid() {
    let mut cal = CalendarState::from_ym(2024, 3);
    let mut ctx = Context::new(40, 12, Vec::new());
    let _ = ctx.calendar(&mut cal);
    let t = texts(&ctx);
    assert_eq!(t[0], "◀");
    assert_eq!(t[1], "2024 Mar");
    assert_eq!(t[2], "▶");
    assert_eq!(&t[3..10], &["Mo ", "Tu ", "We ", "Th ", "Fr ", "Sa ", "Su "]);
    // Friday first: four blank cells, then " 1 ".
    assert_eq!(&t[10..15], &["   ", "   ", "   ", "   ", " 1 "]);
    assert_eq!(t.len(), 3 + 7 + 42);
    assert!(t.contains(&"31 ".to_string()));
}

#[test]
fn calendar_keys_cross_months_and_select() {
    let mut cal = CalendarState::from_ym(2024, 1);
    cal.cursor_day = 31;
    let mut ctx = focused(vec![Event::key(KeyCode::Right), Event::key(KeyCode::Enter)]);
    let r = ctx.calendar(&mut cal);
    assert_eq!((cal.year, cal.month, cal.cursor_day), (2024, 2, 1));
    assert_eq!(cal.selected_day, Some(1));
    assert!(r.changed);
    assert!(ctx.consumed[0] && ctx.consumed[1]);
}

#[test]
fn calendar_week_back_crosses_the_year() {
    let mut cal = CalendarState::from_ym(2024, 1);
    cal.cursor_day = 3;
    let mut ctx = focused(vec![Event::key(KeyCode::Up)]);
    let r = ctx.calendar(&mut cal);
    assert_eq!((cal.year, cal.month, cal.cursor_day), (2023, 12, 27));
    assert!(!r.changed);
}

#[test]
fn calendar_month_keys_clamp_cursor() {
    let mut cal = CalendarState::from_ym(2024, 1);
    cal.cursor_day = 31;
    let mut ctx = focused(vec![Event::key_char(']')]);
    let _ = ctx.calendar(&mut cal);
    assert_eq!((cal.year, cal.month, cal.cursor_day), (2024, 2, 29));
    let mut back = focused(vec![Event::key_char('['), Event::key_char('[')]);
    let _ = back.calendar(&mut cal);
    assert_eq!((cal.year, cal.month, cal.cursor_day), (2023, 12, 29));
}

#[test]
fn calendar_range_with_shift_extends() {
    let mut cal = CalendarState::from_ym(2024, 3);
    cal.with_range();
    cal.cursor_day = 10;
    let shift_right = Event::key_mod(KeyCode::Right, KeyModifiers::SHIFT());
    let mut ctx = focused(vec![Event::key(KeyCode::Enter), shift_right.clone(), shift_right]);
    let r = ctx.calendar(&mut cal);
    assert!(r.changed);
    let a = CalDate { year: 2024, month: 3, day: 10 };
    let e = CalDate { year: 2024, month: 3, day: 12 };
    assert_eq!(cal.anchor, Some(a));
    assert_eq!(cal.extent, Some(e));
    assert_eq!(cal.selected_range(), Some((a, e)));
    assert!(cal.in_range(CalDate { year: 2024, month: 3, day: 11 }));
    assert!(!cal.in_range(CalDate { year: 2024, month: 3, day: 13 }));
    assert_eq!(cal.mode, CalendarSelect::Range);
}

#[test]
fn calendar_click_picks_day_and_arrows_change_month() {
    let mut cal = CalendarState::from_ym(2024, 3);
    // Grid row 2 is the first week: column 4 (cells 12..15) holds the 1st.
    let mut ctx = Context::new(40, 12, vec![Event::mouse_click(13, 7)]);
    ctx.prev_hit_map = vec![Rect { x: 0, y: 5, width: 21, height: 9 }];
    let r = ctx.calendar(&mut cal);
    assert_eq!(cal.selected_day, Some(1));
    assert!(r.changed);
    let mut prev = Context::new(40, 12, vec![Event::mouse_click(1, 5)]);
    prev.prev_hit_map = vec![Rect { x: 0, y: 5, width: 21, height: 9 }];
    let _ = prev.calendar(&mut cal);
    assert_eq!((cal.year, cal.month), (2024, 2));
}

#[test]
fn calendar_time_row() {
    let mut cal = CalendarState::from_ym(2024, 3);
    cal.with_time();
    cal.hour = 9;
    cal.minute = 5;
    let mut ctx = Context::new(40, 12, Vec::new());
    let _ = ctx.calendar(&mut cal);
    let t = texts(&ctx);
    assert_eq!(t[t.len() - 1], "09:05");
}
