use slt::command::Command;
use slt::context::{
    Anchor, AlertLevel, ButtonVariant, Context, FormField, ListState, ModalOptions, ScreenNav, TextInputState,
    Trend, validators,
};
use slt::event::{Event, KeyCode, KeyModifiers};
use slt::style::{Color, Rect, Theme, BOLD};

fn texts(ctx: &Context) -> Vec<String> {
    ctx.commands
        .iter()
        .filter_map(|c| match c {
            Command::Text { content, .. } => Some(content.clone()),
            _ => None,
        })
        .collect()
}

fn focused(events: Vec<Event>) -> Context {
    let mut ctx = Context::new(40, 10, events);
    ctx.prev_focus_count = 1;
    ctx.focus_index = 0;
    ctx
}

#[test]
fn chord_completes_across_frames_and_fires_once() {
    let mut ctx = Context::new(20, 4, vec![Event::key_char('g')]);
    assert!(!ctx.key_chord("gg"));
    let pending = ctx.chord_pending.clone();
    let mut next = Context::new(20, 4, vec![Event::key_char('g')]);
    next.chord_pending = pending;
    assert!(next.key_chord("gg"));
    assert!(next.consumed[0]);
    assert!(next.chord_pending.is_empty());
    let mut later = Context::new(20, 4, Vec::new());
    later.chord_pending = next.chord_pending.clone();
    assert!(!later.key_chord("gg"));
}

#[test]
fn chord_overlap_keeps_trailing_key() {
    let mut ctx = Context::new(20, 4, vec![Event::key_char('g'), Event::key_char('x'), Event::key_char('g')]);
    assert!(!ctx.key_chord("gg"));
    assert_eq!(ctx.chord_pending, vec!['g']);
}

#[test]
fn chord_leader_token_is_space() {
    let events = vec![Event::key_char(' '), Event::key_char('f'), Event::key_char('f')];
    let mut ctx = Context::new(20, 4, events);
    assert!(ctx.key_chord("<leader>ff"));
    assert!(ctx.consumed[2]);
    assert!(!ctx.consumed[0]);
}

#[test]
fn chord_times_out() {
    let mut ctx = Context::new(20, 4, vec![Event::key_char('g')]);
    ctx.chord_pending = vec!['g'];
    ctx.chord_last_tick = 0;
    ctx.tick = 100;
    assert!(!ctx.key_chord_timeout("gg", 15));
    assert_eq!(ctx.chord_pending, vec!['g']);
    assert_eq!(ctx.chord_last_tick, 100);
    let mut empty = Context::new(20, 4, vec![Event::key_char('g')]);
    assert!(!empty.key_chord(""));
}

#[test]
fn overlay_at_offset_insets_towards_center() {
    let mut ctx = Context::new(40, 10, Vec::new());
    let _ = ctx.overlay_at_offset(Anchor::BottomRight, 2, 1, |ui| {
        ui.text("v1");
    });
    let opened = ctx.commands.iter().find_map(|c| match c {
        Command::BeginContainer(args) => Some(*args),
        _ => None,
    });
    let args = opened.expect("anchored column");
    assert_eq!(args.margin.right, 2);
    assert_eq!(args.margin.bottom, 1);
    assert_eq!(args.margin.left, 0);
    assert_eq!(args.margin.top, 0);
    assert!(matches!(ctx.commands[1], Command::BeginOverlay { modal: false }));
    assert!(matches!(ctx.commands.last(), Some(Command::EndOverlay)));

    let mut centered = Context::new(40, 10, Vec::new());
    let _ = centered.overlay_at_offset(Anchor::Center, -2, -1, |ui| {
        ui.text("x");
    });
    let args = centered.commands.iter().find_map(|c| match c {
        Command::BeginContainer(args) => Some(*args),
        _ => None,
    }).unwrap();
    assert_eq!((args.margin.left, args.margin.right, args.margin.top, args.margin.bottom), (0, 2, 0, 1));

    let mut edge = Context::new(40, 10, Vec::new());
    let _ = edge.overlay_at_offset(Anchor::TopLeft, -3, -3, |_ui| {});
    let args = edge.commands.iter().find_map(|c| match c {
        Command::BeginContainer(args) => Some(*args),
        _ => None,
    }).unwrap();
    assert_eq!((args.margin.left, args.margin.right, args.margin.top, args.margin.bottom), (0, 0, 0, 0));
}

#[test]
fn modal_tab_trap_pulls_focus_inside() {
    let mut ctx = Context::new(40, 10, Vec::new());
    ctx.prev_focus_count = 3;
    ctx.focus_index = 0;
    let _ = ctx.button("background");
    let _ = ctx.modal_with(ModalOptions { tab_trap: true }, |ui| {
        let _ = ui.button("ok");
        let _ = ui.button("cancel");
    });
    assert_eq!(ctx.modal_focus_count, 2);
    assert_eq!(ctx.focus_index, 1);
    assert!(ctx.modal_active);

    let mut free = Context::new(40, 10, Vec::new());
    free.prev_focus_count = 3;
    free.focus_index = 0;
    let _ = free.button("background");
    let _ = free.modal(|ui| {
        let _ = ui.button("ok");
    });
    assert_eq!(free.focus_index, 0);
}

#[test]
fn separator_draws_dim_border_rule() {
    let mut ctx = Context::new(40, 10, Vec::new());
    let _ = ctx.separator();
    match &ctx.commands[1] {
        Command::Text { content, style, .. } => {
            assert_eq!(content.chars().count(), 200);
            assert!(content.chars().all(|c| c == '─'));
            assert_eq!(style.fg, Some(Theme::dark().border));
        }
        _ => panic!("expected the rule"),
    }
}

#[test]
fn help_bar_separates_pairs() {
    let mut ctx = Context::new(40, 10, Vec::new());
    let _ = ctx.help(&[("q", "quit"), ("?", "help")]);
    assert_eq!(texts(&ctx), vec!["q", "quit", "·", "?", "help"]);
    let mut empty = Context::new(40, 10, Vec::new());
    let _ = empty.help(&[]);
    assert!(empty.commands.is_empty());
}

#[test]
fn alert_dismissed_by_x_when_focused() {
    let mut ctx = focused(vec![Event::key_char('x')]);
    let r = ctx.alert("disk full", AlertLevel::Warning);
    assert!(r.clicked);
    assert!(r.focused);
    assert!(ctx.consumed[0]);
    assert_eq!(texts(&ctx), vec![" ⚠ ", "disk full", " [×] "]);
}

#[test]
fn stat_trend_shows_arrow() {
    let mut ctx = Context::new(40, 10, Vec::new());
    let _ = ctx.stat_trend("MRR", "$24.5k", Trend::Up);
    assert_eq!(texts(&ctx), vec!["MRR", "$24.5k", " ↑"]);
}

#[test]
fn empty_state_centers_title_and_description() {
    let mut ctx = Context::new(40, 10, Vec::new());
    let _ = ctx.empty_state("No items yet", "Press 'a' to add one");
    assert_eq!(texts(&ctx), vec!["No items yet", "Press 'a' to add one"]);
}

#[test]
fn checkbox_and_toggle_flip_on_space() {
    let mut checked = false;
    let mut ctx = focused(vec![Event::key_char(' ')]);
    let r = ctx.checkbox("agree", &mut checked);
    assert!(checked);
    assert!(r.changed);
    assert_eq!(texts(&ctx), vec!["▸ [x]", "agree"]);

    let mut on = true;
    let mut ctx = focused(vec![Event::key(KeyCode::Enter)]);
    let _ = ctx.toggle("wifi", &mut on);
    assert!(!on);
    assert_eq!(texts(&ctx), vec!["▸ wifi", "━━● OFF"]);
}

#[test]
fn button_variants_label_text() {
    let mut ctx = Context::new(40, 10, Vec::new());
    let _ = ctx.button_with("Save", ButtonVariant::Primary);
    let _ = ctx.button_with("Go", ButtonVariant::Default);
    let _ = ctx.form_submit("Send");
    assert_eq!(texts(&ctx), vec![" Save ", "[ Go ]", " Send "]);
    let mut pressed = focused(vec![Event::key(KeyCode::Enter)]);
    assert!(pressed.button("ok").clicked);
}

#[test]
fn list_click_selects_row() {
    let mut state = ListState::new(vec!["a", "b", "c"]);
    let mut ctx = Context::new(20, 6, vec![Event::mouse_click(3, 7)]);
    ctx.prev_hit_map = vec![Rect { x: 0, y: 5, width: 10, height: 3 }];
    let r = ctx.list(&mut state);
    assert_eq!(state.selected, 2);
    assert!(r.changed);
    assert!(ctx.consumed[0]);
}

#[test]
fn list_keys_clamp_at_ends() {
    let mut state = ListState::new(vec!["a", "b"]);
    state.selected = 5;
    let mut ctx = focused(vec![Event::key(KeyCode::Down), Event::key_char('j')]);
    let _ = ctx.list(&mut state);
    assert_eq!(state.selected, 1);
    assert_eq!(texts(&ctx), vec!["  a", "▸ b"]);
}

#[test]
fn text_input_paste_and_limit() {
    let mut input = TextInputState::new();
    input.max_length = Some(3);
    let mut ctx = focused(vec![Event::paste("ab\u{7}c"), Event::key_char('d')]);
    let _ = ctx.text_input(&mut input);
    assert_eq!(input.value, "abc");
    assert_eq!(input.cursor, 3);
    assert!(ctx.consumed[0] && ctx.consumed[1]);
}

#[test]
fn text_input_enter_submits() {
    let mut input = TextInputState::new();
    input.value = "hi".to_string();
    let mut ctx = focused(vec![Event::key(KeyCode::Enter)]);
    let r = ctx.text_input(&mut input);
    assert!(r.submitted);
    assert!(!r.changed);
}

#[test]
fn text_input_shortcut_is_not_typed() {
    let mut input = TextInputState::new();
    let mut ctx = focused(vec![Event::key_mod(KeyCode::Char('s'), KeyModifiers::CONTROL())]);
    let _ = ctx.text_input(&mut input);
    assert_eq!(input.value, "");
    assert!(!ctx.consumed[0]);
}

#[test]
fn email_validator_accepts_address() {
    let mut field = FormField::new("Email").validate(validators::email());
    field.input.value = "a@b.co".to_string();
    assert!(field.run_validators());
    assert_eq!(field.error, None);
    field.input.value = "a@b".to_string();
    assert!(!field.run_validators());
    assert_eq!(field.error.as_deref(), Some("invalid email"));
}

#[test]
fn timer_display_shows_hours() {
    let mut ctx = Context::new(20, 4, Vec::new());
    ctx.timer_display_millis(3_723_450);
    assert_eq!(texts(&ctx), vec!["01:02:03.45"]);
}

#[test]
fn divider_checked_draws_like_divider() {
    let mut ctx = Context::new(10, 4, Vec::new());
    assert!(ctx.divider_text_checked("ab").is_some());
    assert_eq!(texts(&ctx).concat(), "─── ab ───");
}

#[test]
fn screen_navigation_is_queued() {
    let mut ctx = Context::new(10, 4, Vec::new());
    ctx.screen_nav_depth = 1;
    ctx.push_screen("settings");
    ctx.pop_screen();
    ctx.reset_screen();
    assert_eq!(ctx.pending_screen_nav.len(), 3);
    assert!(matches!(&ctx.pending_screen_nav[0], ScreenNav::Push(s) if s == "settings"));
    assert!(matches!(ctx.pending_screen_nav[1], ScreenNav::Pop));
    assert!(matches!(ctx.pending_screen_nav[2], ScreenNav::Reset));
}

#[test]
fn group_hover_needs_mouse_and_name() {
    let mut ctx = Context::new(10, 4, vec![Event::mouse_move(1, 1)]);
    ctx.hovered_groups = vec!["card".to_string()];
    assert!(ctx.is_group_hovered("card"));
    assert!(!ctx.is_group_hovered("other"));
    ctx.group_stack = vec!["card".to_string()];
    ctx.text("title").group_hover_fg(Color::Red);
    match &ctx.commands[0] {
        Command::Text { style, .. } => assert_eq!(style.fg, Some(Color::Red)),
        _ => panic!(),
    }
    ctx.prev_focus_count = 2;
    ctx.focus_index = 3;
    ctx.prev_focus_groups = vec![None, Some("card".to_string())];
    assert!(ctx.is_group_focused("card"));
}

#[test]
fn col_wraps_children() {
    let mut ctx = Context::new(10, 4, Vec::new());
    let _ = ctx.col(|ui| {
        ui.text("a").bold();
    });
    assert!(matches!(ctx.commands[0], Command::InteractionMarker(0)));
    assert!(matches!(ctx.commands[1], Command::BeginContainer(_)));
    match &ctx.commands[2] {
        Command::Text { style, .. } => assert!(style.modifiers.contains(BOLD)),
        _ => panic!(),
    }
    assert!(matches!(ctx.commands[3], Command::EndContainer));
}
