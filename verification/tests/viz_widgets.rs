use slt::command::Command;
use slt::context::Context;

fn drawn_cells(ctx: &Context) -> String {
    let mut out = String::new();
    for c in ctx.commands.iter() {
        match c {
            Command::Text { content, .. } => out.push_str(content),
            Command::RichText { segments, .. } => {
                for (s, _) in segments.iter() {
                    out.push_str(s);
                }
            }
            _ => {}
        }
    }
    out
}

#[test]
fn test_qr_code() {
    let mut ctx = Context::new(60, 30, Vec::new());
    let _ = ctx.qr_code("hello");
    let output = drawn_cells(&ctx);
    assert!(output.contains('▀') || output.contains('█'));
}

#[test]
fn qr_code_box_is_sized_by_module_count() {
    let mut ctx = Context::new(60, 30, Vec::new());
    let _ = ctx.qr_code("hello");
    // "hello" fits a version 1 code: 21 modules, 23 with the quiet zone.
    match &ctx.commands[0] {
        Command::BeginContainer(args) => {
            assert_eq!(args.constraints.min_width, Some(23));
            assert_eq!(args.constraints.max_height, Some(12));
        }
        _ => panic!("expected a container"),
    }
    assert_eq!(ctx.commands.len(), 14);
    match &ctx.commands[1] {
        Command::RichText { segments, .. } => {
            assert_eq!(segments.len(), 23);
            // The first cell row is quiet zone above the first module row, whose
            // corner module is dark (finder pattern).
            assert_eq!(segments[0].1.fg, Some(ctx.theme.bg));
            assert_eq!(segments[1].1.fg, Some(ctx.theme.bg));
            assert_eq!(segments[1].1.bg, Some(ctx.theme.text));
        }
        _ => panic!("expected a row of cells"),
    }
    assert!(matches!(ctx.commands[13], Command::EndContainer));
}
