use slt::event::{Event, KeyCode, KeyEventKind, KeyModifiers, MouseButton, MouseKind};

#[test]
fn test_key_char() {
    let e = Event::key_char('q');
    if let Event::Key(k) = e {
        assert!(matches!(k.code, KeyCode::Char('q')));
        assert_eq!(k.modifiers, KeyModifiers::NONE());
        assert!(matches!(k.kind, KeyEventKind::Press));
    } else {
        panic!("Expected Key event");
    }
}

#[test]
fn test_key() {
    let e = Event::key(KeyCode::Enter);
    if let Event::Key(k) = e {
        assert!(matches!(k.code, KeyCode::Enter));
        assert_eq!(k.modifiers, KeyModifiers::NONE());
        assert!(matches!(k.kind, KeyEventKind::Press));
    } else {
        panic!("Expected Key event");
    }
}

#[test]
fn test_key_ctrl() {
    let e = Event::key_ctrl('s');
    if let Event::Key(k) = e {
        assert!(matches!(k.code, KeyCode::Char('s')));
        assert_eq!(k.modifiers, KeyModifiers::CONTROL());
        assert!(matches!(k.kind, KeyEventKind::Press));
    } else {
        panic!("Expected Key event");
    }
}

#[test]
fn test_key_mod() {
    let modifiers = KeyModifiers(KeyModifiers::SHIFT().0 | KeyModifiers::ALT().0);
    let e = Event::key_mod(KeyCode::Tab, modifiers);
    if let Event::Key(k) = e {
        assert!(matches!(k.code, KeyCode::Tab));
        assert_eq!(k.modifiers, modifiers);
        assert!(matches!(k.kind, KeyEventKind::Press));
    } else {
        panic!("Expected Key event");
    }
}

#[test]
fn test_resize() {
    let e = Event::resize(80, 24);
    assert!(matches!(e, Event::Resize(80, 24)));
}

#[test]
fn test_mouse_click() {
    let e = Event::mouse_click(10, 5);
    if let Event::Mouse(m) = e {
        assert!(matches!(m.kind, MouseKind::Down(MouseButton::Left)));
        assert_eq!(m.x, 10);
        assert_eq!(m.y, 5);
        assert_eq!(m.modifiers, KeyModifiers::NONE());
    } else {
        panic!("Expected Mouse event");
    }
}

#[test]
fn test_mouse_move() {
    let e = Event::mouse_move(10, 5);
    if let Event::Mouse(m) = e {
        assert!(matches!(m.kind, MouseKind::Moved));
        assert_eq!(m.x, 10);
        assert_eq!(m.y, 5);
        assert_eq!(m.modifiers, KeyModifiers::NONE());
    } else {
        panic!("Expected Mouse event");
    }
}

#[test]
fn test_paste() {
    let e = Event::paste("hello");
    assert!(matches!(e, Event::Paste(s) if s == "hello"));
}
