use slt::command::Command;
use slt::context::Context;
use slt::event::{Event, KeyCode};
use slt::style::{BOLD, ITALIC};

fn shape(ctx: &Context) -> Vec<String> {
    ctx.commands
        .iter()
        .map(|c| match c {
            Command::BeginContainer(_) => "(".to_string(),
            Command::EndContainer => ")".to_string(),
            Command::InteractionMarker(_) => "#".to_string(),
            Command::FocusMarker(_) => "@".to_string(),
            Command::Text { content, .. } => format!("t:{content}"),
            Command::RichText { segments, .. } => {
                let parts: Vec<String> = segments.iter().map(|(s, _)| s.clone()).collect();
                format!("r:{}", parts.join("|"))
            }
            Command::Link { text, url, .. } => format!("l:{text}->{url}"),
            _ => "?".to_string(),
        })
        .collect()
}

#[test]
fn markdown_headings_rules_and_blank_lines() {
    let mut ctx = Context::new(80, 20, Vec::new());
    let _ = ctx.markdown("# Title\n\n## Sub\n---\n### Small");
    assert_eq!(
        shape(&ctx),
        vec!["(", "t:Title", "t: ", "t:Sub", &format!("t:{}", "─".repeat(40)), "t:Small", ")"]
    );
    match &ctx.commands[1] {
        Command::Text { style, .. } => {
            assert_eq!(style.fg, Some(ctx.theme.primary));
            assert_eq!(style.modifiers.0, BOLD);
        }
        _ => panic!("expected the heading"),
    }
    // The column reserves one interaction slot of its own.
    assert_eq!(ctx.interaction_count, 1);
}

#[test]
fn markdown_inline_spans_become_rich_text() {
    let mut ctx = Context::new(80, 20, Vec::new());
    let _ = ctx.markdown("plain **bold** and *it* `code`");
    assert_eq!(shape(&ctx), vec!["(", "r:plain |bold| and |it| |code", ")"]);
    match &ctx.commands[1] {
        Command::RichText { segments, wrap, .. } => {
            assert!(*wrap);
            assert_eq!(segments[1].1.modifiers.0, BOLD);
            assert_eq!(segments[3].1.modifiers.0, ITALIC);
            assert_eq!(segments[5].1.fg, Some(ctx.theme.accent));
        }
        _ => panic!("expected rich text"),
    }
}

#[test]
fn markdown_single_run_keeps_source_text() {
    let mut ctx = Context::new(80, 20, Vec::new());
    let _ = ctx.markdown("**only bold**");
    // One styled run: the line is drawn as it stands, wrapping.
    assert_eq!(shape(&ctx), vec!["(", "t:**only bold**", ")"]);
}

#[test]
fn markdown_lists_and_quotes() {
    let mut ctx = Context::new(80, 20, Vec::new());
    let _ = ctx.markdown("- one\n* two\n3. three\n> said");
    assert_eq!(
        shape(&ctx),
        vec!["(", "r:  • |one", "r:  • |two", "r:  3. |three", "#", "(", "t:│ ", "t:said", ")", ")"]
    );
}

#[test]
fn markdown_code_block_keeps_lines() {
    let mut ctx = Context::new(80, 20, Vec::new());
    let _ = ctx.markdown("```rust\n  let x = 1;\n| a | b |\n```\nafter");
    assert_eq!(shape(&ctx), vec!["(", "#", "(", "t:  let x = 1;", "t:| a | b |", ")", "t:after", ")"]);
    match &ctx.commands[2] {
        Command::BeginContainer(args) => assert_eq!(args.bg_color, Some(ctx.theme.surface)),
        _ => panic!("expected the code box"),
    }
}

#[test]
fn markdown_unclosed_code_block_draws_lines() {
    let mut ctx = Context::new(80, 20, Vec::new());
    let _ = ctx.markdown("```\nfn main() {}");
    assert_eq!(shape(&ctx), vec!["(", "t:fn main() {}", ")"]);
}

#[test]
fn markdown_table_is_boxed_with_aligned_columns() {
    let mut ctx = Context::new(80, 20, Vec::new());
    let _ = ctx.markdown("| Name | Qty |\n|---|---|\n| **apple** | 3 |");
    let s = shape(&ctx);
    assert_eq!(s[1], "t:┌───────┬─────┐");
    assert_eq!(s[s.len() - 2], "t:└───────┴─────┘");
    assert!(s.contains(&"t:├───────┼─────┤".to_string()));
    assert!(s.contains(&"t:Name".to_string()));
    // Data cells keep their inline formatting; widths use the stripped text.
    assert!(s.contains(&"t:apple".to_string()));
}

#[test]
fn markdown_links_register_focus_and_queue_on_enter() {
    let mut ctx = Context::new(80, 20, vec![Event::key(KeyCode::Enter)]);
    ctx.prev_focus_count = 1;
    ctx.focus_index = 0;
    let _ = ctx.markdown("see [docs](https://example.com) now");
    let s = shape(&ctx);
    assert!(s.contains(&"l:docs->https://example.com".to_string()));
    assert_eq!(ctx.pending_urls, vec!["https://example.com".to_string()]);
    assert!(ctx.consumed[0]);
}

#[test]
fn markdown_image_shows_alt_text() {
    let mut ctx = Context::new(80, 20, Vec::new());
    let _ = ctx.markdown("![logo](logo.png) here");
    assert_eq!(shape(&ctx), vec!["(", "r:logo| here", ")"]);
}

#[test]
fn markdown_trims_unicode_white_space() {
    let mut ctx = Context::new(80, 20, Vec::new());
    let _ = ctx.markdown("\u{3000}\u{a0}# Title\u{2003}");
    assert_eq!(shape(&ctx), vec!["(", "t:Title", ")"]);
}
