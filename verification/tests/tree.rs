use slt::command::Command;
use slt::context::{Context, DirectoryTreeState, TreeItem, TreeState};
use slt::event::{Event, KeyCode};

fn item(label: &str, depth: usize, expanded: bool) -> TreeItem {
    TreeItem { label: label.to_string(), depth, expanded }
}

fn sample() -> TreeState {
    TreeState {
        items: vec![item("src", 0, true), item("lib.rs", 1, false), item("ui", 1, false), item("mod.rs", 2, false), item("README", 0, false)],
        selected: 0,
    }
}

fn texts(ctx: &Context) -> Vec<String> {
    ctx.commands
        .iter()
        .filter_map(|c| match c {
            Command::Text { content, .. } => Some(content.clone()),
            _ => None,
        })
        .collect()
}

fn focused(events: Vec<Event>) -> Context {
    let mut ctx = Context::new(40, 10, events);
    ctx.prev_focus_count = 1;
    ctx.focus_index = 0;
    ctx
}

#[test]
fn tree_shows_open_branches_only() {
    let mut s = sample();
    assert_eq!(s.flatten(), vec![0, 1, 2, 4]);
    let mut ctx = Context::new(40, 10, Vec::new());
    let r = ctx.tree(&mut s);
    assert!(!r.changed);
    assert_eq!(texts(&ctx), vec![" ▾ src", "     lib.rs", "   ▸ ui", "   README"]);
}

#[test]
fn tree_keys_open_and_close() {
    let mut s = sample();
    let mut ctx = focused(vec![Event::key(KeyCode::Down), Event::key(KeyCode::Down), Event::key(KeyCode::Enter)]);
    let r = ctx.tree(&mut s);
    assert!(r.changed);
    assert_eq!(s.selected, 2);
    assert!(s.items[2].expanded);
    assert_eq!(s.flatten(), vec![0, 1, 2, 3, 4]);
    assert_eq!(texts(&ctx)[2], "▸  ▾ ui");
    let mut left = focused(vec![Event::key(KeyCode::Left)]);
    let _ = left.tree(&mut s);
    assert!(!s.items[2].expanded);
    assert!(left.consumed[0]);
}

#[test]
fn tree_empty_draws_nothing() {
    let mut s = TreeState { items: Vec::new(), selected: 3 };
    let mut ctx = Context::new(40, 10, Vec::new());
    let r = ctx.tree(&mut s);
    assert!(!r.changed);
    assert!(ctx.commands.is_empty());
    assert_eq!(s.selected, 3);
}

#[test]
fn directory_tree_draws_guides_and_connectors() {
    let mut d = DirectoryTreeState { tree: sample(), show_icons: false };
    d.tree.items[2].expanded = true;
    let mut ctx = Context::new(40, 10, Vec::new());
    let _ = ctx.directory_tree(&mut d);
    assert_eq!(
        texts(&ctx),
        vec!["  src", "  │   ├── lib.rs", "  │   └── ui", "  │       └── mod.rs", "  README"]
    );
}

#[test]
fn directory_tree_right_opens_and_left_closes() {
    let mut d = DirectoryTreeState { tree: sample(), show_icons: true };
    d.tree.selected = 2;
    let mut ctx = focused(vec![Event::key(KeyCode::Right)]);
    let r = ctx.directory_tree(&mut d);
    assert!(r.changed);
    assert!(d.tree.items[2].expanded);
    assert_eq!(texts(&ctx)[2], "▸ │   └── ▾ ui");
    let mut again = focused(vec![Event::key(KeyCode::Right), Event::key(KeyCode::Left)]);
    let _ = again.directory_tree(&mut d);
    assert!(!d.tree.items[2].expanded);
}

#[test]
fn tree_right_only_expands() {
    let mut s = sample();
    let mut ctx = focused(vec![Event::key(KeyCode::Right)]);
    let r = ctx.tree(&mut s);
    // The root is already open: Right leaves it open.
    assert!(s.items[0].expanded);
    assert!(!r.changed);
    assert!(ctx.consumed[0]);
    s.selected = 2;
    let mut open = focused(vec![Event::key(KeyCode::Right)]);
    let _ = open.tree(&mut s);
    assert!(s.items[2].expanded);
}

#[test]
fn tree_down_then_up_reports_change() {
    let mut s = sample();
    let mut ctx = focused(vec![Event::key(KeyCode::Down), Event::key(KeyCode::Up)]);
    let r = ctx.tree(&mut s);
    assert_eq!(s.selected, 0);
    assert!(r.changed);
    let mut d = DirectoryTreeState { tree: sample(), show_icons: false };
    let mut ctx = focused(vec![Event::key(KeyCode::Down), Event::key(KeyCode::Up)]);
    let r = ctx.directory_tree(&mut d);
    assert_eq!(d.tree.selected, 0);
    assert!(r.changed);
}
