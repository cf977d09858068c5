use slt::command::Command;
use slt::context::Context;
use slt::event::Event;
use slt::style::{Align, Color, Theme, BOLD, DIM};
use std::time::Duration;

/// Text of every text-like command, in draw order.
fn drawn_text(ctx: &Context) -> String {
    let mut out = String::new();
    for cmd in &ctx.commands {
        match cmd {
            Command::Text { content, .. } => out.push_str(content),
            Command::RichText { segments, .. } => {
                for (s, _) in segments {
                    out.push_str(s);
                }
            }
            _ => {}
        }
    }
    out
}

/// The segments of the first rich-text command.
fn rich_segments(ctx: &Context) -> Vec<(String, slt::style::Style)> {
    for cmd in &ctx.commands {
        if let Command::RichText { segments, .. } = cmd {
            return segments.clone();
        }
    }
    panic!("no rich text command");
}

#[test]
fn gradient_text_renders_content() {
    let mut ctx = Context::new(20, 4, Vec::new());
    ctx.text("ABCD").gradient(Color::Red, Color::Blue);
    assert!(drawn_text(&ctx).contains("ABCD"));
}

#[test]
fn timer_display_formats_minutes_seconds_centis() {
    let mut ctx = Context::new(20, 4, Vec::new());
    ctx.timer_display(Duration::from_secs(83) + Duration::from_millis(450));
    assert!(drawn_text(&ctx).contains("01:23.45"));
}

fn confirm_with_click(x: u32, start: bool) -> (bool, bool) {
    let mut answer = start;
    let mut ctx = Context::new(40, 4, vec![Event::mouse_click(x, 0)]);
    let r = ctx.confirm("ok?", &mut answer);
    (r.clicked, answer)
}

#[test]
fn confirm_click_yes_registers_yes() {
    let (clicked, answer) = confirm_with_click(4, false);
    assert!(clicked, "click at yes_start should register");
    assert!(answer, "answer should be true");
}

#[test]
fn confirm_click_yes_right_boundary_does_not_hit_no() {
    let (clicked, _) = confirm_with_click(9, false);
    assert!(!clicked, "click between [Yes] and [No] (col 9) should not register");
}

#[test]
fn confirm_click_no_registers_no() {
    let (clicked, answer) = confirm_with_click(10, true);
    assert!(clicked, "click at no_start should register");
    assert!(!answer, "answer should be false");
}

#[test]
fn confirm_click_beyond_no_does_not_register() {
    let (clicked, answer) = confirm_with_click(20, true);
    assert!(!clicked, "click past no_end should not register");
    assert!(answer, "answer should remain unchanged");
}

#[test]
fn divider_text_centers_label_evenly() {
    let mut ctx = Context::new(20, 4, Vec::new());
    let _ = ctx.divider_text("Hi");
    assert_eq!(drawn_text(&ctx), "──────── Hi ────────", "label should be centered");
}

#[test]
fn divider_text_odd_width_right_takes_extra() {
    let mut ctx = Context::new(21, 4, Vec::new());
    let _ = ctx.divider_text("Hi");
    assert_eq!(drawn_text(&ctx), "──────── Hi ─────────", "right side gets +1 on odd width");
}

#[test]
fn two_stop_gradient_uses_documented_endpoint_order() {
    let red = Color::Rgb(255, 0, 0);
    let blue = Color::Rgb(0, 0, 255);
    let mut ctx = Context::new(20, 4, Vec::new());
    ctx.text("ABC").gradient(red, blue);
    let segs = rich_segments(&ctx);
    assert_eq!(segs[0].1.fg, Some(red));
    assert_eq!(segs[1].1.fg, Some(Color::Rgb(128, 0, 128)));
    assert_eq!(segs[2].1.fg, Some(blue));
}

#[test]
fn bg_gradient_applies_to_background() {
    let red = Color::Rgb(255, 0, 0);
    let blue = Color::Rgb(0, 0, 255);
    let mut ctx = Context::new(20, 4, Vec::new());
    ctx.text("ABC").bg_gradient(red, blue);
    let segs = rich_segments(&ctx);
    assert_eq!(segs[0].1.bg, Some(red), "first column bg = from");
    assert_eq!(segs[2].1.bg, Some(blue), "last column bg = to");
    assert_eq!(segs[1].1.bg, Some(Color::Rgb(128, 0, 128)), "middle column bg = halfway blend");
}

#[test]
fn style_and_constraints_after_gradient_update_rich_text() {
    let mut ctx = Context::new(20, 4, Vec::new());
    ctx.text("ABC")
        .gradient(Color::Red, Color::Blue)
        .bold()
        .fg(Color::Green)
        .bg(Color::Black)
        .w(8)
        .m(1)
        .align(Align::End);
    let segs = rich_segments(&ctx);
    assert_eq!(segs.len(), 3);
    for (_, style) in &segs {
        assert_eq!(style.fg, Some(Color::Green));
        assert_eq!(style.bg, Some(Color::Black));
        assert!(style.modifiers.contains(BOLD));
    }
    match &ctx.commands[0] {
        Command::RichText { align, margin, constraints, .. } => {
            assert_eq!(*align, Align::End);
            assert_eq!(margin.left, 1);
            assert_eq!(margin.top, 1);
            assert_eq!(constraints.min_width, Some(8));
            assert_eq!(constraints.max_width, Some(8));
        }
        _ => panic!("expected rich text"),
    }
}

#[test]
fn dim_uses_theme_color_only_for_inherited_foreground() {
    let theme = Theme::dark();
    let mut ctx = Context::new(20, 4, Vec::new());
    ctx.set_theme(theme);
    ctx.text("inherited").dim();
    ctx.text("explicit").fg(Color::Red).dim();
    let style_of = |i: usize| match &ctx.commands[i] {
        Command::Text { style, .. } => *style,
        _ => panic!("expected text"),
    };
    assert_eq!(style_of(0).fg, Some(theme.text_dim));
    assert_eq!(style_of(1).fg, Some(Color::Red));
    assert!(style_of(0).modifiers.contains(BOLD) == false);
    assert!(style_of(0).modifiers.contains(DIM));
    assert!(style_of(1).modifiers.contains(DIM));
}

#[test]
fn gradient_positions_follow_grapheme_cell_width() {
    let mut ctx = Context::new(20, 4, Vec::new());
    ctx.text("界A").gradient(Color::Red, Color::Blue);
    let segs = rich_segments(&ctx);
    assert_eq!(segs.len(), 2);
    assert_eq!(segs[0].1.fg, Some(Color::Red));
    assert_eq!(segs[1].1.fg, Some(Color::Blue));
}

#[test]
fn line_wrap_without_links_compacts_to_rich_text() {
    let mut ctx = Context::new(80, 24, Vec::<Event>::new());
    ctx.line_wrap(|ui| {
        ui.text("hello ");
        ui.text("world").bold();
    });
    assert!(matches!(ctx.commands.as_slice(), [Command::RichText { .. }]));
}

#[test]
fn line_wrap_with_links_keeps_interactive_commands() {
    let mut ctx = Context::new(80, 24, Vec::<Event>::new());
    ctx.line_wrap(|ui| {
        ui.text("Visit ");
        ui.link("Docs", "https://docs.rs");
    });
    assert!(matches!(ctx.commands.first(), Some(Command::WrapMarker(0))));
    assert!(matches!(ctx.commands.get(1), Some(Command::BeginContainer(_))));
    assert!(ctx
        .commands
        .iter()
        .any(|cmd| matches!(cmd, Command::Link { text, .. } if text == "Docs")));
    assert!(matches!(ctx.commands.last(), Some(Command::EndContainer)));
}
