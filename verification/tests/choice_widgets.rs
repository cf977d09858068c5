use slt::command::Command;
use slt::context::{Breadcrumb, Context, GridColumn, MultiSelectState, RadioState, TabsState};
use slt::event::{Event, KeyCode};
use slt::style::{Color, Rect, BOLD, DIM, UNDERLINE};

fn texts(ctx: &Context) -> Vec<String> {
    ctx.commands
        .iter()
        .filter_map(|c| match c {
            Command::Text { content, .. } => Some(content.clone()),
            _ => None,
        })
        .collect()
}

fn focused(events: Vec<Event>) -> Context {
    let mut ctx = Context::new(40, 10, events);
    ctx.prev_focus_count = 1;
    ctx.focus_index = 0;
    ctx
}

#[test]
fn definition_list_right_aligns_keys() {
    let mut ctx = Context::new(40, 10, Vec::new());
    let _ = ctx.definition_list(&[("Name", "slt"), ("Version", "1.0"), ("", "x")]);
    assert_eq!(
        texts(&ctx),
        vec!["   Name", "  ", "slt", "Version", "  ", "1.0", "       ", "  ", "x"]
    );
    match &ctx.commands[4] {
        Command::Text { style, .. } => {
            assert_eq!(style.fg, Some(ctx.theme.text_dim));
            assert!(style.modifiers.0 & DIM != 0);
        }
        _ => panic!("expected the key text"),
    }
    assert_eq!(ctx.commands.len(), 3 + 6 * 3);
}

#[test]
fn definition_list_empty_draws_empty_column() {
    let mut ctx = Context::new(40, 10, Vec::new());
    let _ = ctx.definition_list(&[]);
    assert_eq!(ctx.commands.len(), 3);
}

#[test]
fn accordion_opens_on_enter_and_shows_body() {
    let mut open = false;
    let mut ctx = focused(vec![Event::key(KeyCode::Enter)]);
    let r = ctx.accordion("Details", &mut open, |ui| {
        ui.text("inside");
    });
    assert!(open);
    assert!(r.changed);
    assert!(r.focused);
    assert_eq!(texts(&ctx), vec!["▾", " Details", "inside"]);
    assert!(ctx.consumed[0]);
}

#[test]
fn accordion_closed_hides_body() {
    let mut open = false;
    let mut ctx = Context::new(40, 10, Vec::new());
    let r = ctx.accordion("Details", &mut open, |ui| {
        ui.text("inside");
    });
    assert!(!open);
    assert!(!r.changed);
    assert_eq!(texts(&ctx), vec!["▸", " Details"]);
}

#[test]
fn accordion_click_closes_after_icon_drawn() {
    let mut open = true;
    let mut ctx = Context::new(40, 10, Vec::new());
    ctx.prev_hit_map = vec![Rect { x: 0, y: 0, width: 20, height: 1 }];
    ctx.click_pos = Some((2, 0));
    let r = ctx.accordion("Details", &mut open, |ui| {
        ui.text("inside");
    });
    assert!(!open);
    assert!(r.clicked && r.changed);
    // The icon was drawn before the click was applied.
    assert_eq!(texts(&ctx), vec!["▾", " Details"]);
}

#[test]
fn empty_state_action_reports_button_press() {
    let mut ctx = focused(vec![Event::key(KeyCode::Enter)]);
    let r = ctx.empty_state_action("No items", "Add one", "Add");
    assert!(r.clicked);
    assert!(r.changed);
    assert_eq!(texts(&ctx), vec!["No items", "Add one", "[ Add ]"]);
    let mut idle = Context::new(40, 10, Vec::new());
    let r = idle.empty_state_action("No items", "Add one", "Add");
    assert!(!r.clicked && !r.changed);
}

#[test]
fn radio_moves_with_keys_and_marks_choice() {
    let mut state = RadioState::new(vec!["low", "mid", "high"]);
    let mut ctx = focused(vec![Event::key(KeyCode::Down), Event::key_char(' ')]);
    let r = ctx.radio(&mut state);
    assert_eq!(state.selected, 1);
    assert!(r.changed);
    assert!(ctx.consumed[0] && ctx.consumed[1]);
    assert_eq!(texts(&ctx), vec!["  ○ low", "▸ ● mid", "  ○ high"]);
}

#[test]
fn radio_click_chooses_row() {
    let mut state = RadioState::new(vec!["low", "mid", "high"]);
    let mut ctx = Context::new(40, 10, vec![Event::mouse_click(1, 4)]);
    ctx.prev_hit_map = vec![Rect { x: 0, y: 2, width: 10, height: 3 }];
    let r = ctx.radio(&mut state);
    assert_eq!(state.selected, 2);
    assert!(r.changed);
    assert_eq!(texts(&ctx), vec!["  ○ low", "  ○ mid", "  ● high"]);
}

#[test]
fn radio_empty_draws_nothing() {
    let mut state = RadioState::new(Vec::new());
    state.selected = 4;
    let mut ctx = Context::new(40, 10, Vec::new());
    let _ = ctx.radio(&mut state);
    assert!(ctx.commands.is_empty());
    assert_eq!(state.selected, 4);
}

#[test]
fn tabs_wrap_with_arrow_keys() {
    let mut state = TabsState::new(vec!["One", "Two", "Three"]);
    let mut ctx = focused(vec![Event::key(KeyCode::Left)]);
    let r = ctx.tabs(&mut state);
    assert_eq!(state.selected, 2);
    assert!(r.changed);
    assert_eq!(texts(&ctx), vec!["[ One ]", "[ Two ]", "[ Three ]"]);
    match &ctx.commands[ctx.commands.len() - 2] {
        Command::Text { style, .. } => {
            assert_eq!(style.modifiers.0, BOLD | UNDERLINE);
        }
        _ => panic!("expected the active tab"),
    }
    let mut next = focused(vec![Event::key(KeyCode::Right)]);
    let _ = next.tabs(&mut state);
    assert_eq!(state.selected, 0);
}

#[test]
fn tabs_click_selects_tab_under_pointer() {
    let mut state = TabsState::new(vec!["One", "Two"]);
    // "[ One ]" spans columns 0..7, a gap at 7, "[ Two ]" from 8.
    let mut ctx = Context::new(40, 10, vec![Event::mouse_click(13, 1), Event::mouse_click(12, 1)]);
    ctx.prev_hit_map = vec![Rect { x: 5, y: 1, width: 20, height: 1 }];
    let r = ctx.tabs(&mut state);
    assert_eq!(state.selected, 1);
    assert!(r.changed);
    assert!(ctx.consumed[0]);
    assert!(!ctx.consumed[1]);
    let mut back = Context::new(40, 10, vec![Event::mouse_click(11, 1)]);
    back.prev_hit_map = vec![Rect { x: 5, y: 1, width: 20, height: 1 }];
    let _ = back.tabs(&mut state);
    assert_eq!(state.selected, 0);
    assert!(back.consumed[0]);
}

#[test]
fn tabs_empty_resets_selection() {
    let mut state = TabsState::new(Vec::new());
    state.selected = 3;
    let mut ctx = Context::new(40, 10, Vec::new());
    let r = ctx.tabs(&mut state);
    assert_eq!(state.selected, 0);
    assert!(!r.changed);
    assert!(ctx.commands.is_empty());
}

fn shape(ctx: &Context) -> String {
    ctx.commands
        .iter()
        .map(|c| match c {
            Command::BeginContainer(_) => "(".to_string(),
            Command::EndContainer => ")".to_string(),
            Command::InteractionMarker(_) => "#".to_string(),
            Command::Text { content, .. } => content.clone(),
            _ => "?".to_string(),
        })
        .collect::<Vec<_>>()
        .join("")
}

#[test]
fn grid_wraps_children_into_rows() {
    let mut ctx = Context::new(40, 10, Vec::new());
    let _ = ctx.grid(2, |ui| {
        ui.text("a");
        ui.text("b");
        ui.text("c");
    });
    assert_eq!(shape(&ctx), "#(((a)(b))((c)))");
    assert!(ctx.last_text_idx.is_none());
    // Two rows and three cells reserve their slots after the grid's own.
    assert_eq!(ctx.interaction_count, 1 + 2 + 3);
}

#[test]
fn grid_keeps_nested_containers_whole() {
    let mut ctx = Context::new(40, 10, Vec::new());
    let _ = ctx.grid(3, |ui| {
        let _ = ui.col(|ui| {
            ui.text("x");
            ui.text("y");
        });
        ui.text("z");
    });
    assert_eq!(shape(&ctx), "#(((#(xy))(z)))");
}

#[test]
fn grid_with_applies_column_rules() {
    let mut ctx = Context::new(40, 10, Vec::new());
    let _ = ctx.grid_with(&[GridColumn::Fixed(8), GridColumn::Grow(3), GridColumn::Percent(25)], |ui| {
        ui.text("a");
        ui.text("b");
        ui.text("c");
    });
    let cells: Vec<_> = ctx
        .commands
        .iter()
        .filter_map(|c| match c {
            Command::BeginContainer(args) if args.grow != 0 || args.constraints.min_width.is_some()
                || args.constraints.width_pct.is_some() => Some((args.grow, args.constraints.min_width, args.constraints.width_pct)),
            _ => None,
        })
        .collect();
    assert_eq!(cells, vec![(0, Some(8), None), (3, None, None), (0, None, Some(25))]);
}

#[test]
fn multi_select_toggles_with_space_and_click() {
    let mut state = MultiSelectState::new(vec!["a", "b", "c"]);
    let mut ctx = focused(vec![Event::key(KeyCode::Down), Event::key_char(' ')]);
    let r = ctx.multi_select(&mut state);
    assert_eq!(state.cursor, 1);
    assert_eq!(state.selected, vec![false, true, false]);
    assert!(r.changed);
    assert_eq!(texts(&ctx), vec!["  [ ] a", "▸ [x] b", "  [ ] c"]);
    let mut click = Context::new(40, 10, vec![Event::mouse_click(1, 2)]);
    click.prev_hit_map = vec![Rect { x: 0, y: 0, width: 10, height: 3 }];
    let _ = click.multi_select(&mut state);
    assert_eq!(state.cursor, 2);
    assert_eq!(state.selected, vec![false, true, true]);
    assert_eq!(texts(&click), vec!["  [ ] a", "  [x] b", "  [x] c"]);
}

#[test]
fn breadcrumb_links_and_last_segment() {
    let mut ctx = focused(vec![Event::key(KeyCode::Enter)]);
    let r = ctx.breadcrumb(&["Home", "Settings", "Profile"]);
    // The first link holds focus and takes the Enter press.
    assert_eq!(r.clicked_segment, Some(0));
    assert!(ctx.consumed[0]);
    assert_eq!(texts(&ctx), vec!["Home", " › ", "Settings", " › ", "Profile"]);
    let bar = Breadcrumb::new(&["a", "b"]).separator(" > ").color(Color::Red);
    let mut plain = Context::new(40, 10, Vec::new());
    let r = plain.breadcrumb_bar(&bar);
    assert_eq!(r.clicked_segment, None);
    assert_eq!(texts(&plain), vec!["a", " > ", "b"]);
    match &plain.commands[3] {
        Command::Text { style, .. } => {
            assert_eq!(style.fg, Some(Color::Red));
            assert_eq!(style.modifiers.0, UNDERLINE);
        }
        _ => panic!("expected the link"),
    }
}
