use slt::command::Command;
use slt::context::{Context, StreamingMarkdownState, StreamingTextState};

fn texts(ctx: &Context) -> Vec<String> {
    ctx.commands
        .iter()
        .filter_map(|c| match c {
            Command::Text { content, .. } => Some(content.clone()),
            _ => None,
        })
        .collect()
}

#[test]
fn streaming_markdown_skips_state_writes_when_unchanged() {
    let mut state = StreamingMarkdownState::new();
    state.start();
    state.push("hello world\n");
    state.streaming = false;

    let mut ctx = Context::new(40, 4, Vec::new());
    let _ = ctx.streaming_markdown(&mut state);
    assert!(!state.in_code_block);
    assert!(state.code_block_lang.is_empty());

    let mut again = Context::new(40, 4, Vec::new());
    let _ = again.streaming_markdown(&mut state);
    assert!(!state.in_code_block);
    assert!(state.code_block_lang.is_empty());
}

#[test]
fn streaming_markdown_tracks_open_fence_and_cursor() {
    let mut state = StreamingMarkdownState::new();
    state.start();
    state.push("# Hello\n- **streaming** markdown\n```rust\nlet x = 1;");
    let mut ctx = Context::new(40, 10, Vec::new());
    let _ = ctx.streaming_markdown(&mut state);
    assert!(state.in_code_block);
    assert_eq!(state.code_block_lang, "rust");
    // The first frame advances the tick to 1: the cursor shows.
    assert_eq!(state.cursor_tick, 1);
    assert!(state.cursor_visible);
    let t = texts(&ctx);
    assert_eq!(t[0], "Hello");
    assert!(t.contains(&"  ┌─code:rust─".to_string()));
    assert!(t.contains(&"let x = 1;".to_string()));
    assert!(t.contains(&"▌".to_string()));
}

#[test]
fn streaming_markdown_closing_fence_resets_language() {
    let mut state = StreamingMarkdownState::new();
    state.push("```\ncode\n```\n");
    let mut ctx = Context::new(40, 10, Vec::new());
    let _ = ctx.streaming_markdown(&mut state);
    assert!(!state.in_code_block);
    assert!(state.code_block_lang.is_empty());
    let t = texts(&ctx);
    assert_eq!(t[0], "  ┌─code─");
    assert_eq!(t[t.len() - 1], "  └────");
}

#[test]
fn streaming_markdown_empty_while_streaming_shows_cursor_only() {
    let mut state = StreamingMarkdownState::new();
    state.start();
    let mut ctx = Context::new(40, 10, Vec::new());
    let _ = ctx.streaming_markdown(&mut state);
    assert_eq!(texts(&ctx), vec!["▌"]);
    assert_eq!(ctx.commands.len(), 1);
}

#[test]
fn streaming_text_blinks_every_eight_ticks() {
    let mut state = StreamingTextState::new();
    state.start();
    state.push("Hello from ");
    state.push("the AI!");
    let mut ctx = Context::new(40, 10, Vec::new());
    let _ = ctx.streaming_text(&mut state);
    assert_eq!(texts(&ctx), vec!["Hello from the AI!", "▌"]);
    state.cursor_tick = 7;
    let mut next = Context::new(40, 10, Vec::new());
    let _ = next.streaming_text(&mut state);
    assert_eq!(state.cursor_tick, 8);
    assert!(!state.cursor_visible);
    assert_eq!(texts(&next), vec!["Hello from the AI!"]);
    state.finish();
    let mut done = Context::new(40, 10, Vec::new());
    let _ = done.streaming_text(&mut state);
    assert_eq!(state.cursor_tick, 8);
}
