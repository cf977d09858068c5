use slt::context::{Context, ListState};
use slt::event::{Event, KeyCode, KeyModifiers};

/// A frame in which the list is the focused widget.
fn focused_frame(events: Vec<Event>) -> Context {
    let mut ctx = Context::new(20, 6, events);
    ctx.prev_focus_count = 1;
    ctx.focus_index = 0;
    ctx
}

#[test]
fn shift_down_reorders_selected_item() {
    let mut state = ListState::new(vec!["alpha", "beta", "gamma"]);
    state.selected = 0;
    let mut ctx = focused_frame(vec![Event::key_mod(KeyCode::Down, KeyModifiers::SHIFT())]);
    let r = ctx.list_reorderable(&mut state);
    assert_eq!(r.reordered, Some((0, 1)));
    assert_eq!(state.items, vec!["beta", "alpha", "gamma"]);
    assert_eq!(state.selected, 1);
    assert_eq!(state.selected_item(), Some("alpha"));
}

#[test]
fn alt_up_reorders_selected_item() {
    let mut state = ListState::new(vec!["one", "two", "three"]);
    state.selected = 2;
    let mut ctx = focused_frame(vec![Event::key_mod(KeyCode::Up, KeyModifiers::ALT())]);
    let reordered = ctx.list_reorderable(&mut state).reordered;
    assert_eq!(reordered, Some((2, 1)));
    assert_eq!(state.items, vec!["one", "three", "two"]);
    assert_eq!(state.selected, 1);
}

#[test]
fn shift_up_at_top_is_a_noop() {
    let mut state = ListState::new(vec!["a", "b", "c"]);
    state.selected = 0;
    let mut ctx = focused_frame(vec![Event::key_mod(KeyCode::Up, KeyModifiers::SHIFT())]);
    let reordered = ctx.list_reorderable(&mut state).reordered;
    assert_eq!(reordered, None);
    assert_eq!(state.items, vec!["a", "b", "c"]);
    assert_eq!(state.selected, 0);
}

#[test]
fn plain_down_navigates_without_reordering() {
    let mut state = ListState::new(vec!["a", "b", "c"]);
    state.selected = 0;
    let mut ctx = focused_frame(vec![Event::key(KeyCode::Down)]);
    let reordered = ctx.list_reorderable(&mut state).reordered;
    assert_eq!(reordered, None);
    assert_eq!(state.items, vec!["a", "b", "c"]);
    assert_eq!(state.selected, 1);
}
