use slt::command::Command;
use slt::context::{CommandPaletteState, Context, PaletteCommand};
use slt::event::{Event, KeyCode, KeyModifiers};

fn texts(ctx: &Context) -> Vec<String> {
    ctx.commands
        .iter()
        .filter_map(|c| match c {
            Command::Text { content, .. } => Some(content.clone()),
            _ => None,
        })
        .collect()
}

fn cmd(label: &str, description: &str, shortcut: Option<&str>) -> PaletteCommand {
    PaletteCommand {
        label: label.to_string(),
        description: description.to_string(),
        shortcut: shortcut.map(|s| s.to_string()),
    }
}

fn palette() -> CommandPaletteState {
    let mut state = CommandPaletteState::new(vec![
        cmd("Open File", "Open a file from disk", Some("Ctrl+O")),
        cmd("Save File", "", Some("Ctrl+S")),
        cmd("Quit", "Leave the program", None),
    ]);
    state.open = true;
    state
}

#[test]
fn command_palette_closed_does_nothing() {
    let mut state = palette();
    state.open = false;
    let mut ctx = Context::new(80, 24, vec![Event::key(KeyCode::Enter)]);
    let r = ctx.command_palette(&mut state);
    assert!(!r.changed);
    assert!(ctx.commands.is_empty());
    assert!(!ctx.consumed[0]);
}

#[test]
fn command_palette_draws_rows_and_description() {
    let mut state = palette();
    let mut ctx = Context::new(80, 24, vec![]);
    let r = ctx.command_palette(&mut state);
    assert!(!r.changed);
    assert_eq!(
        texts(&ctx),
        vec![
            "Type to search...",
            "▸ Open File  (Ctrl+O)",
            "    Open a file from disk",
            "  Save File  (Ctrl+S)",
            "  Quit",
        ]
    );
    assert!(matches!(ctx.commands.last(), Some(Command::EndOverlay)));
}

#[test]
fn command_palette_enter_picks_filtered_command() {
    let mut state = palette();
    let mut ctx = Context::new(
        80,
        24,
        vec![Event::key_char('f'), Event::key_char('i'), Event::key(KeyCode::Down), Event::key(KeyCode::Enter)],
    );
    let r = ctx.command_palette(&mut state);
    assert_eq!(state.input, "fi");
    assert_eq!(state.cursor, 2);
    assert_eq!(state.last_selected, Some(1));
    assert!(!state.open);
    assert!(r.changed);
    assert!(ctx.consumed.iter().all(|c| *c));
}

#[test]
fn command_palette_esc_closes_and_nothing_matches() {
    let mut state = palette();
    let mut ctx = Context::new(80, 24, vec![Event::key_char('z'), Event::key(KeyCode::Esc)]);
    let r = ctx.command_palette(&mut state);
    assert!(!state.open);
    assert!(!r.changed);
    assert_eq!(state.last_selected, None);
    assert_eq!(texts(&ctx), vec!["z", "  No matching commands"]);
}

#[test]
fn command_palette_backspace_and_paste_edit_query() {
    let mut state = palette();
    state.input = "qx".to_string();
    state.cursor = 2;
    let mut ctx = Context::new(80, 24, vec![Event::key(KeyCode::Backspace), Event::paste("ui\u{7}")]);
    let _ = ctx.command_palette(&mut state);
    assert_eq!(state.input, "qui");
    assert_eq!(state.cursor, 3);
    assert_eq!(state.selected, 0);
    assert_eq!(texts(&ctx)[1], "▸ Quit");
}

#[test]
fn command_palette_ignores_global_shortcuts() {
    let mut state = palette();
    let mut ctx = Context::new(80, 24, vec![Event::key_mod(KeyCode::Char('s'), KeyModifiers::CONTROL())]);
    let _ = ctx.command_palette(&mut state);
    assert_eq!(state.input, "");
    assert!(!ctx.consumed[0]);
}

#[test]
fn command_palette_matching_ignores_case() {
    let mut state = palette();
    state.input = "FILE".to_string();
    assert_eq!(state.matching_indices(), vec![0, 1]);
    state.input = String::new();
    assert_eq!(state.matching_indices(), vec![0, 1, 2]);
}
