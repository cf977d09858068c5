use slt::command::Command;
use slt::context::{Context, FileEntry, FilePickerState};
use slt::event::{Event, KeyCode};

fn texts(ctx: &Context) -> Vec<String> {
    ctx.commands
        .iter()
        .filter_map(|c| match c {
            Command::Text { content, .. } => Some(content.clone()),
            _ => None,
        })
        .collect()
}

fn focused(events: Vec<Event>) -> Context {
    let mut ctx = Context::new(40, 12, events);
    ctx.prev_focus_count = 1;
    ctx.focus_index = 0;
    ctx
}

fn entry(name: &str, path: &str, is_dir: bool, size: u64) -> FileEntry {
    FileEntry { name: name.to_string(), path: path.to_string(), is_dir, size }
}

fn listed() -> FilePickerState {
    let mut state = FilePickerState::new("/home/u");
    state.entries = vec![
        entry("docs", "/home/u/docs", true, 0),
        entry("a.txt", "/home/u/a.txt", false, 42),
    ];
    state.dirty = false;
    state
}

#[test]
fn file_picker_draws_directory_and_entries() {
    let mut ctx = Context::new(40, 12, vec![]);
    let mut state = listed();
    let r = ctx.file_picker(&mut state);
    assert!(!r.changed);
    ctx.file_picker_view(&state, false);
    assert_eq!(texts(&ctx), vec!["Dir: /home/u", "▸ docs", "  a.txt  42 B"]);
}

#[test]
fn file_picker_empty_listing_says_so() {
    let mut ctx = Context::new(40, 12, vec![]);
    let state = FilePickerState::new("/tmp");
    ctx.file_picker_view(&state, false);
    assert_eq!(texts(&ctx), vec!["Dir: /tmp", "(empty)"]);
}

#[test]
fn file_picker_enter_picks_a_file() {
    let mut ctx = focused(vec![Event::key(KeyCode::Down), Event::key(KeyCode::Enter)]);
    let mut state = listed();
    let r = ctx.file_picker(&mut state);
    assert!(r.changed);
    assert!(r.focused);
    assert_eq!(state.selected, 1);
    assert_eq!(state.selected_file.as_deref(), Some("/home/u/a.txt"));
    assert!(!state.dirty);
}

#[test]
fn file_picker_enter_opens_a_directory() {
    let mut ctx = focused(vec![Event::key(KeyCode::Enter)]);
    let mut state = listed();
    let r = ctx.file_picker(&mut state);
    assert!(!r.changed);
    assert_eq!(state.current_dir, "/home/u/docs");
    assert_eq!(state.selected, 0);
    assert!(state.dirty);
    assert_eq!(state.selected_file, None);
}

#[test]
fn file_picker_backspace_goes_to_parent() {
    let mut ctx = focused(vec![Event::key(KeyCode::Backspace)]);
    let mut state = listed();
    let _ = ctx.file_picker(&mut state);
    assert_eq!(state.current_dir, "/home");
    assert!(state.dirty);
    assert!(ctx.consumed.iter().all(|c| *c));
}

#[test]
fn file_picker_backspace_at_root_stays() {
    let mut ctx = focused(vec![Event::key(KeyCode::Backspace)]);
    let mut state = FilePickerState::new("/");
    state.dirty = false;
    let _ = ctx.file_picker(&mut state);
    assert_eq!(state.current_dir, "/");
    assert!(!state.dirty);
}

#[test]
fn file_picker_h_toggles_hidden_and_esc_clears_pick() {
    let mut ctx = focused(vec![Event::key(KeyCode::Down), Event::key_char('h'), Event::key(KeyCode::Esc)]);
    let mut state = listed();
    state.selected_file = Some("/home/u/a.txt".to_string());
    let _ = ctx.file_picker(&mut state);
    assert!(state.show_hidden);
    assert_eq!(state.selected, 0);
    assert!(state.dirty);
    assert_eq!(state.selected_file, None);
}

#[test]
fn file_picker_ignores_keys_without_focus() {
    let mut ctx = Context::new(40, 12, vec![Event::key(KeyCode::Enter)]);
    let mut state = listed();
    state.selected = 7;
    let r = ctx.file_picker(&mut state);
    assert!(!r.focused);
    assert_eq!(state.selected, 1);
    assert_eq!(state.selected_file, None);
    assert!(!ctx.consumed[0]);
}

#[test]
fn file_picker_listing_hides_dot_names() {
    let mut state = FilePickerState::new("/home/u");
    state.set_listing(vec![
        entry(".git", "/home/u/.git", true, 0),
        entry("docs", "/home/u/docs", true, 0),
        entry(".env", "/home/u/.env", false, 3),
        entry("a.txt", "/home/u/a.txt", false, 42),
    ]);
    assert!(!state.dirty);
    let names: Vec<String> = state.entries.iter().map(|e| e.name.clone()).collect();
    assert_eq!(names, vec!["docs", "a.txt"]);
    state.show_hidden = true;
    state.set_listing(vec![entry(".git", "/home/u/.git", true, 0), entry("docs", "/home/u/docs", true, 0)]);
    let names: Vec<String> = state.entries.iter().map(|e| e.name.clone()).collect();
    assert_eq!(names, vec![".git", "docs"]);
}
