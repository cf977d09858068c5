use slt::command::Command;
use slt::context::{Context, RichLogState};
use slt::event::{Event, KeyCode};
use slt::style::{Rect, Style};

fn log_of(n: usize) -> RichLogState {
    let mut log = RichLogState::new();
    for i in 0..n {
        log.push(vec![(format!("line {i}"), Style::new())]);
    }
    log
}

fn lines(ctx: &Context) -> Vec<String> {
    ctx.commands
        .iter()
        .filter_map(|c| match c {
            Command::RichText { segments, .. } => Some(segments.iter().map(|(s, _)| s.clone()).collect::<String>()),
            Command::Text { content, .. } => Some(content.clone()),
            _ => None,
        })
        .collect()
}

fn focused(events: Vec<Event>) -> Context {
    let mut ctx = Context::new(40, 7, events);
    ctx.prev_focus_count = 1;
    ctx.focus_index = 0;
    ctx
}

#[test]
fn rich_log_follows_the_end() {
    let mut log = log_of(10);
    // 7 rows: 5 inside the border, one of them for the position line.
    let mut ctx = Context::new(40, 7, Vec::new());
    let r = ctx.rich_log(&mut log);
    assert_eq!(log.scroll_offset, 6);
    assert_eq!(lines(&ctx), vec!["line 6", "line 7", "line 8", "line 9", "7-10 / 10"]);
    assert!(!r.changed);
}

#[test]
fn rich_log_keys_scroll_within_bounds() {
    let mut log = log_of(10);
    let mut ctx = focused(vec![Event::key(KeyCode::Home), Event::key(KeyCode::Down), Event::key_char('j')]);
    let r = ctx.rich_log(&mut log);
    assert_eq!(log.scroll_offset, 2);
    assert!(r.changed);
    assert_eq!(lines(&ctx)[0], "line 2");
    let mut more = focused(vec![Event::key(KeyCode::PageDown)]);
    let _ = more.rich_log(&mut log);
    assert_eq!(log.scroll_offset, 6);
    let mut up = focused(vec![Event::key(KeyCode::PageUp), Event::key(KeyCode::Up)]);
    let _ = up.rich_log(&mut log);
    assert_eq!(log.scroll_offset, 0);
}

#[test]
fn rich_log_wheel_scrolls_over_its_area() {
    let mut log = log_of(10);
    log.scroll_offset = 3;
    let mut ctx = Context::new(40, 7, vec![Event::scroll_up(2, 2), Event::scroll_down(30, 30)]);
    ctx.prev_hit_map = vec![Rect { x: 0, y: 0, width: 20, height: 7 }];
    let _ = ctx.rich_log(&mut log);
    assert_eq!(log.scroll_offset, 2);
    assert!(ctx.consumed[0]);
    assert!(!ctx.consumed[1]);
}

#[test]
fn rich_log_short_log_shows_everything() {
    let mut log = log_of(3);
    let mut ctx = Context::new(40, 7, Vec::new());
    let _ = ctx.rich_log(&mut log);
    assert_eq!(log.scroll_offset, 0);
    assert_eq!(lines(&ctx), vec!["line 0", "line 1", "line 2"]);
}
