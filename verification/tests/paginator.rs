use slt::command::Command;
use slt::context::{Context, PaginatorState, PaginatorStyle};
use slt::event::{Event, KeyCode};
use slt::style::Rect;

fn texts(ctx: &Context) -> Vec<String> {
    ctx.commands
        .iter()
        .filter_map(|c| match c {
            Command::Text { content, .. } => Some(content.clone()),
            _ => None,
        })
        .collect()
}

fn focused(events: Vec<Event>) -> Context {
    let mut ctx = Context::new(40, 5, events);
    ctx.prev_focus_count = 1;
    ctx.focus_index = 0;
    ctx
}

#[test]
fn paginator_counts_pages_and_bounds() {
    let mut s = PaginatorState::new(42, 10);
    assert_eq!(s.total_pages(), 5);
    assert_eq!(s.page_bounds(), (0, 10));
    s.set_page(9);
    assert_eq!(s.page, 4);
    assert_eq!(s.page_bounds(), (40, 42));
    s.next_page();
    assert_eq!(s.page, 4);
    assert_eq!(PaginatorState::new(0, 10).total_pages(), 0);
    assert_eq!(PaginatorState::new(5, 0).total_pages(), 5);
}

#[test]
fn paginator_keys_turn_pages_and_counter_shows() {
    let mut s = PaginatorState::new(42, 10);
    let mut ctx = focused(vec![Event::key(KeyCode::Right), Event::key_char('l'), Event::key(KeyCode::PageUp)]);
    let r = ctx.paginator(&mut s);
    assert_eq!(s.page, 1);
    assert!(r.changed);
    assert_eq!(texts(&ctx), vec!["2/5"]);
    assert!(ctx.consumed.iter().all(|c| *c));
}

#[test]
fn paginator_dots_and_clicks() {
    let mut s = PaginatorState::new(30, 10);
    s.style = PaginatorStyle::Dots;
    let mut ctx = Context::new(40, 5, vec![Event::mouse_click(12, 2)]);
    ctx.prev_hit_map = vec![Rect { x: 10, y: 2, width: 3, height: 1 }];
    let r = ctx.paginator(&mut s);
    assert_eq!(s.page, 2);
    assert!(r.changed);
    assert_eq!(texts(&ctx), vec!["○", "○", "●"]);
}

#[test]
fn paginator_counter_click_halves() {
    let mut s = PaginatorState::new(42, 10);
    s.page = 2;
    // "3/5" is three cells wide: the first cell goes back, the others on.
    let mut ctx = Context::new(40, 5, vec![Event::mouse_click(0, 0)]);
    ctx.prev_hit_map = vec![Rect { x: 0, y: 0, width: 10, height: 1 }];
    let _ = ctx.paginator(&mut s);
    assert_eq!(s.page, 1);
    let mut on = Context::new(40, 5, vec![Event::mouse_click(2, 0)]);
    on.prev_hit_map = vec![Rect { x: 0, y: 0, width: 10, height: 1 }];
    let _ = on.paginator(&mut s);
    assert_eq!(s.page, 2);
}
