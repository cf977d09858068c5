use slt::command::Command;
use slt::context::{Context, TextInputState};
use slt::event::{Event, KeyCode};

/// Text of every text-like command, in draw order, one per line.
fn drawn(ctx: &Context) -> String {
    let mut out = String::new();
    for cmd in &ctx.commands {
        if let Command::Text { content, .. } = cmd {
            out.push_str(content);
            out.push('\n');
        }
    }
    out
}

/// Run one frame in which the input is the focused widget.
fn focused_frame(input: &mut TextInputState, events: Vec<Event>) -> Context {
    let mut ctx = Context::new(40, 10, events);
    ctx.prev_focus_count = 1;
    ctx.focus_index = 0;
    let _ = ctx.text_input(input);
    ctx
}

fn has_lone_regional_indicator(s: &str) -> bool {
    let count = s.chars().filter(|c| ('\u{1F1E6}'..='\u{1F1FF}').contains(c)).count();
    count % 2 == 1
}

#[test]
fn text_input_shows_matched_suggestions_for_prefix() {
    let mut input = TextInputState::new();
    input.set_suggestions(vec!["hello".into(), "help".into(), "world".into()]);
    let events = vec![Event::key_char('h'), Event::key_char('e'), Event::key_char('l')];
    let ctx = focused_frame(&mut input, events);
    let out = drawn(&ctx);
    assert!(out.contains("hello"));
    assert!(out.contains("help"));
    assert!(!out.contains("world"));
    assert_eq!(input.matched_suggestions().len(), 2);
}

#[test]
fn text_input_tab_accepts_top_suggestion() {
    let mut input = TextInputState::new();
    input.set_suggestions(vec!["hello".into(), "help".into(), "world".into()]);
    let events = vec![
        Event::key_char('h'),
        Event::key_char('e'),
        Event::key_char('l'),
        Event::key(KeyCode::Tab),
    ];
    let _ = focused_frame(&mut input, events);
    assert_eq!(input.value, "hello");
    assert!(!input.show_suggestions);
}

#[test]
fn text_input_empty_value_shows_no_suggestions() {
    let mut input = TextInputState::new();
    input.set_suggestions(vec!["hello".into(), "help".into(), "world".into()]);
    let mut ctx = Context::new(40, 10, Vec::new());
    let _ = ctx.text_input(&mut input);
    let out = drawn(&ctx);
    assert!(!out.contains("hello"));
    assert!(!out.contains("help"));
    assert!(!out.contains("world"));
    assert!(input.matched_suggestions().is_empty());
    assert!(!input.show_suggestions);
}

#[test]
fn text_input_cursor_grapheme() {
    let mut input = TextInputState::new();
    input.value = "🇰🇷x".to_string();
    input.cursor = 0;

    let _ = focused_frame(&mut input, vec![Event::key(KeyCode::Right)]);
    assert_eq!(input.cursor, 1);

    let _ = focused_frame(&mut input, vec![Event::key(KeyCode::Right)]);
    assert_eq!(input.cursor, 2);

    let _ = focused_frame(&mut input, vec![Event::key(KeyCode::Backspace)]);
    assert_eq!(input.value, "🇰🇷", "Backspace cut the wrong unit");
    assert_eq!(input.cursor, 1);
    assert!(!has_lone_regional_indicator(&input.value));

    let _ = focused_frame(&mut input, vec![Event::key(KeyCode::Backspace)]);
    assert_eq!(input.value, "", "flag was not removed as one cluster");
    assert_eq!(input.cursor, 0);
}

#[test]
fn text_input_ascii_cursor_unchanged() {
    let mut input = TextInputState::new();
    input.value = "abc".to_string();
    input.cursor = 0;
    let events = vec![
        Event::key(KeyCode::Right),
        Event::key(KeyCode::Right),
        Event::key(KeyCode::Backspace),
    ];
    let _ = focused_frame(&mut input, events);
    assert_eq!(input.value, "ac");
    assert_eq!(input.cursor, 1);
}
