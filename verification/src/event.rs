//! Terminal input events.
//!
//! The event types delivered to the UI each frame: keyboard, mouse, resize,
//! paste, and focus events, plus the small constructors and predicates that
//! tests and widgets use to build and inspect them.
use vstd::prelude::*;

verus! {

/// A terminal input event.
#[non_exhaustive]
#[derive(Debug, Clone, PartialEq, Eq)]
pub enum Event {
    /// A keyboard event.
    Key(KeyEvent),
    /// A mouse event.
    Mouse(MouseEvent),
    /// The terminal was resized to the given `(columns, rows)`.
    Resize(u32, u32),
    /// Pasted text (bracketed paste). May contain newlines.
    Paste(String),
    /// The terminal window gained focus.
    FocusGained,
    /// The terminal window lost focus.
    FocusLost,
}

/// A keyboard event with key code and modifiers.
#[non_exhaustive]
#[derive(Debug, Clone, Copy, PartialEq, Eq, Structural)]
pub struct KeyEvent {
    /// The key that was pressed.
    pub code: KeyCode,
    /// Modifier keys held at the time of the press.
    pub modifiers: KeyModifiers,
    /// The type of key event.
    pub kind: KeyEventKind,
}

/// The type of key event.
#[non_exhaustive]
#[derive(Debug, Clone, Copy, PartialEq, Eq, Structural)]
pub enum KeyEventKind {
    /// Key was pressed.
    Press,
    /// Key was released.
    Release,
    /// Key is being held/repeated.
    Repeat,
}

/// Key identifier.
#[non_exhaustive]
#[derive(Debug, Clone, Copy, PartialEq, Eq, Structural)]
pub enum KeyCode {
    /// A printable character.
    Char(char),
    /// Enter / Return key.
    Enter,
    /// Backspace key.
    Backspace,
    /// Tab key (forward tab).
    Tab,
    /// Shift+Tab (back tab).
    BackTab,
    /// Escape key.
    Esc,
    /// Up arrow key.
    Up,
    /// Down arrow key.
    Down,
    /// Left arrow key.
    Left,
    /// Right arrow key.
    Right,
    /// Home key.
    Home,
    /// End key.
    End,
    /// Page Up key.
    PageUp,
    /// Page Down key.
    PageDown,
    /// Delete (forward delete) key.
    Delete,
    /// Insert key.
    Insert,
    /// Null key.
    Null,
    /// Caps Lock key.
    CapsLock,
    /// Scroll Lock key.
    ScrollLock,
    /// Num Lock key.
    NumLock,
    /// Print Screen key.
    PrintScreen,
    /// Pause/Break key.
    Pause,
    /// Menu / context menu key.
    Menu,
    /// Keypad center key.
    KeypadBegin,
    /// Function key; the inner number is the key's index.
    F(u8),
}

/// Modifier keys held during a key press, stored as bit flags.
#[derive(Debug, Clone, Copy, PartialEq, Eq, Default, Structural)]
pub struct KeyModifiers(pub u8);

impl KeyModifiers {
    /// No modifier keys held.
    #[allow(non_snake_case)]
    pub fn NONE() -> (m: KeyModifiers)
        ensures
            m.0 == 0,
    {
        KeyModifiers(0)
    }
    /// Shift key held.
    #[allow(non_snake_case)]
    pub fn SHIFT() -> (m: KeyModifiers)
        ensures
            m.0 == 1,
    {
        KeyModifiers(1)
    }
    /// Control key held.
    #[allow(non_snake_case)]
    pub fn CONTROL() -> (m: KeyModifiers)
        ensures
            m.0 == 2,
    {
        KeyModifiers(2)
    }
    /// Alt / Option key held.
    #[allow(non_snake_case)]
    pub fn ALT() -> (m: KeyModifiers)
        ensures
            m.0 == 4,
    {
        KeyModifiers(4)
    }
    /// Super key.
    #[allow(non_snake_case)]
    pub fn SUPER() -> (m: KeyModifiers)
        ensures
            m.0 == 8,
    {
        KeyModifiers(8)
    }
    /// Hyper modifier.
    #[allow(non_snake_case)]
    pub fn HYPER() -> (m: KeyModifiers)
        ensures
            m.0 == 16,
    {
        KeyModifiers(16)
    }
    /// Meta modifier.
    #[allow(non_snake_case)]
    pub fn META() -> (m: KeyModifiers)
        ensures
            m.0 == 32,
    {
        KeyModifiers(32)
    }

    /// Whether every bit of `other` is set in `self`.
    pub open spec fn spec_contains(self, other: KeyModifiers) -> bool {
        self.0 & other.0 == other.0
    }

    /// Returns `true` if all bits in `other` are set in `self`.
    #[verifier::when_used_as_spec(spec_contains)]
    pub fn contains(self, other: KeyModifiers) -> (r: bool)
        ensures
            r == self.spec_contains(other),
    {
        (self.0 & other.0) == other.0
    }
}

/// A mouse event with position and kind.
#[non_exhaustive]
#[derive(Debug, Clone, Copy, PartialEq, Eq, Structural)]
pub struct MouseEvent {
    /// The type of mouse action that occurred.
    pub kind: MouseKind,
    /// Column, zero-based.
    pub x: u32,
    /// Row, zero-based.
    pub y: u32,
    /// Modifier keys held at the time of the event.
    pub modifiers: KeyModifiers,
    /// Pixel-level x coordinate, if available.
    pub pixel_x: Option<u16>,
    /// Pixel-level y coordinate, if available.
    pub pixel_y: Option<u16>,
}

/// The type of mouse event.
#[non_exhaustive]
#[derive(Debug, Clone, Copy, PartialEq, Eq, Structural)]
pub enum MouseKind {
    /// A mouse button was pressed.
    Down(MouseButton),
    /// A mouse button was released.
    Up(MouseButton),
    /// The mouse was moved while a button was held.
    Drag(MouseButton),
    /// The scroll wheel was rotated upward.
    ScrollUp,
    /// The scroll wheel was rotated downward.
    ScrollDown,
    /// The scroll wheel was rotated leftward.
    ScrollLeft,
    /// The scroll wheel was rotated rightward.
    ScrollRight,
    /// The mouse was moved without any button held.
    Moved,
}

/// Mouse button identifier.
#[non_exhaustive]
#[derive(Debug, Clone, Copy, PartialEq, Eq, Structural)]
pub enum MouseButton {
    /// Primary (left) mouse button.
    Left,
    /// Secondary (right) mouse button.
    Right,
    /// Middle mouse button.
    Middle,
}

/// The press event of `code` with the given modifiers.
pub open spec fn press(code: KeyCode, modifiers: KeyModifiers) -> Event {
    Event::Key(KeyEvent { code, modifiers, kind: KeyEventKind::Press })
}

/// A mouse event of `kind` at `(x, y)` with no modifiers and no pixel position.
pub open spec fn plain_mouse(kind: MouseKind, x: u32, y: u32) -> Event {
    Event::Mouse(MouseEvent {
        kind,
        x,
        y,
        modifiers: KeyModifiers(0),
        pixel_x: None,
        pixel_y: None,
    })
}

impl Event {
    /// Create a key press event for a character.
    pub fn key_char(c: char) -> (e: Event)
        ensures
            e == press(KeyCode::Char(c), KeyModifiers(0)),
    {
        Event::Key(KeyEvent {
            code: KeyCode::Char(c),
            modifiers: KeyModifiers::NONE(),
            kind: KeyEventKind::Press,
        })
    }

    /// Create a key press event for a special key.
    pub fn key(code: KeyCode) -> (e: Event)
        ensures
            e == press(code, KeyModifiers(0)),
    {
        Event::Key(KeyEvent { code, modifiers: KeyModifiers::NONE(), kind: KeyEventKind::Press })
    }

    /// Create a key press event with Ctrl modifier.
    pub fn key_ctrl(c: char) -> (e: Event)
        ensures
            e == press(KeyCode::Char(c), KeyModifiers(2)),
    {
        Event::Key(KeyEvent {
            code: KeyCode::Char(c),
            modifiers: KeyModifiers::CONTROL(),
            kind: KeyEventKind::Press,
        })
    }

    /// Create a key press event with custom modifiers.
    pub fn key_mod(code: KeyCode, modifiers: KeyModifiers) -> (e: Event)
        ensures
            e == press(code, modifiers),
    {
        Event::Key(KeyEvent { code, modifiers, kind: KeyEventKind::Press })
    }

    /// Create a terminal resize event.
    pub fn resize(width: u32, height: u32) -> (e: Event)
        ensures
            e == Event::Resize(width, height),
    {
        Event::Resize(width, height)
    }

    /// Create a left mouse click event at (x, y).
    pub fn mouse_click(x: u32, y: u32) -> (e: Event)
        ensures
            e == plain_mouse(MouseKind::Down(MouseButton::Left), x, y),
    {
        Event::Mouse(MouseEvent {
            kind: MouseKind::Down(MouseButton::Left),
            x,
            y,
            modifiers: KeyModifiers::NONE(),
            pixel_x: None,
            pixel_y: None,
        })
    }

    /// Create a mouse move event at the given position.
    pub fn mouse_move(x: u32, y: u32) -> (e: Event)
        ensures
            e == plain_mouse(MouseKind::Moved, x, y),
    {
        Event::Mouse(MouseEvent {
            kind: MouseKind::Moved,
            x,
            y,
            modifiers: KeyModifiers::NONE(),
            pixel_x: None,
            pixel_y: None,
        })
    }

    /// Create a scroll up event at the given position.
    pub fn scroll_up(x: u32, y: u32) -> (e: Event)
        ensures
            e == plain_mouse(MouseKind::ScrollUp, x, y),
    {
        Event::Mouse(MouseEvent {
            kind: MouseKind::ScrollUp,
            x,
            y,
            modifiers: KeyModifiers::NONE(),
            pixel_x: None,
            pixel_y: None,
        })
    }

    /// Create a scroll down event at the given position.
    pub fn scroll_down(x: u32, y: u32) -> (e: Event)
        ensures
            e == plain_mouse(MouseKind::ScrollDown, x, y),
    {
        Event::Mouse(MouseEvent {
            kind: MouseKind::ScrollDown,
            x,
            y,
            modifiers: KeyModifiers::NONE(),
            pixel_x: None,
            pixel_y: None,
        })
    }

    /// Create a key release event for a character.
    pub fn key_release(c: char) -> (e: Event)
        ensures
            e == Event::Key(
                KeyEvent {
                    code: KeyCode::Char(c),
                    modifiers: KeyModifiers(0),
                    kind: KeyEventKind::Release,
                },
            ),
    {
        Event::Key(KeyEvent {
            code: KeyCode::Char(c),
            modifiers: KeyModifiers::NONE(),
            kind: KeyEventKind::Release,
        })
    }

    /// Create a paste event with the given text.
    pub fn paste(text: &str) -> (e: Event)
        ensures
            e matches Event::Paste(s) && s@ == text@,
    {
        Event::Paste(text.to_owned())
    }

    /// Returns the key event data if this is a `Key` variant.
    pub fn as_key(&self) -> (r: Option<&KeyEvent>)
        ensures
            match self {
                Event::Key(k) => r == Some(k),
                _ => r is None,
            },
    {
        match self {
            Event::Key(k) => Some(k),
            _ => None,
        }
    }

    /// Returns the mouse event data if this is a `Mouse` variant.
    pub fn as_mouse(&self) -> (r: Option<&MouseEvent>)
        ensures
            match self {
                Event::Mouse(m) => r == Some(m),
                _ => r is None,
            },
    {
        match self {
            Event::Mouse(m) => Some(m),
            _ => None,
        }
    }

    /// Returns `(columns, rows)` if this is a `Resize` variant.
    pub fn as_resize(&self) -> (r: Option<(u32, u32)>)
        ensures
            match self {
                Event::Resize(w, h) => r == Some((*w, *h)),
                _ => r is None,
            },
    {
        match self {
            Event::Resize(w, h) => Some((*w, *h)),
            _ => None,
        }
    }

    /// Returns the pasted text if this is a `Paste` variant.
    pub fn as_paste(&self) -> (r: Option<&str>)
        ensures
            match self {
                Event::Paste(s) => r matches Some(t) && t@ == s@,
                _ => r is None,
            },
    {
        match self {
            Event::Paste(s) => Some(s.as_str()),
            _ => None,
        }
    }

    /// Returns `true` if this is a `Key` event.
    pub fn is_key(&self) -> (r: bool)
        ensures
            r == (self is Key),
    {
        matches!(self, Event::Key(_))
    }

    /// Returns `true` if this is a `Mouse` event.
    pub fn is_mouse(&self) -> (r: bool)
        ensures
            r == (self is Mouse),
    {
        matches!(self, Event::Mouse(_))
    }
}

impl KeyEvent {
    /// Whether this is a plain press (no modifiers) of `code`.
    pub open spec fn spec_is_code(&self, code: KeyCode) -> bool {
        self.code == code && self.modifiers.0 == 0 && self.kind == KeyEventKind::Press
    }

    /// Returns `true` if this is a press of the given character (no modifiers).
    pub fn is_char(&self, c: char) -> (r: bool)
        ensures
            r == self.spec_is_code(KeyCode::Char(c)),
    {
        self.code == KeyCode::Char(c) && self.modifiers == KeyModifiers::NONE() && self.kind
            == KeyEventKind::Press
    }

    /// Returns `true` if this is Ctrl+`c`.
    pub fn is_ctrl_char(&self, c: char) -> (r: bool)
        ensures
            r == (self.code == KeyCode::Char(c) && self.modifiers.0 == 2 && self.kind
                == KeyEventKind::Press),
    {
        self.code == KeyCode::Char(c) && self.modifiers == KeyModifiers::CONTROL() && self.kind
            == KeyEventKind::Press
    }

    /// Returns `true` if this is a press of the given key code (no modifiers).
    pub fn is_code(&self, code: KeyCode) -> (r: bool)
        ensures
            r == self.spec_is_code(code),
    {
        self.code == code && self.modifiers == KeyModifiers::NONE() && self.kind
            == KeyEventKind::Press
    }
}

impl MouseEvent {
    /// Create a new MouseEvent with all fields.
    pub fn new(
        kind: MouseKind,
        x: u32,
        y: u32,
        modifiers: KeyModifiers,
        pixel_x: Option<u16>,
        pixel_y: Option<u16>,
    ) -> (m: MouseEvent)
        ensures
            m == (MouseEvent { kind, x, y, modifiers, pixel_x, pixel_y }),
    {
        MouseEvent { kind, x, y, modifiers, pixel_x, pixel_y }
    }

    /// Whether `kind` is one of the four wheel directions.
    pub open spec fn spec_is_scroll(&self) -> bool {
        ||| self.kind is ScrollUp
        ||| self.kind is ScrollDown
        ||| self.kind is ScrollLeft
        ||| self.kind is ScrollRight
    }

    /// Returns true if this is a scroll event.
    pub fn is_scroll(&self) -> (r: bool)
        ensures
            r == self.spec_is_scroll(),
    {
        matches!(
            self.kind,
            MouseKind::ScrollUp | MouseKind::ScrollDown | MouseKind::ScrollLeft
                | MouseKind::ScrollRight
        )
    }
}

impl KeyEvent {
    /// A key event of `kind` for `code` with `modifiers` held.
    pub fn new(code: KeyCode, modifiers: KeyModifiers, kind: KeyEventKind) -> (k: KeyEvent)
        ensures
            k == (KeyEvent { code, modifiers, kind }),
    {
        KeyEvent { code, modifiers, kind }
    }
}

/// The modifier bits of a set of held keys.
pub open spec fn modifier_bits(shift: bool, control: bool, alt: bool, sup: bool, hyper: bool, meta: bool) -> u8 {
    (if shift { 1u8 } else { 0u8 }) | (if control { 2u8 } else { 0u8 }) | (if alt { 4u8 } else { 0u8 })
        | (if sup { 8u8 } else { 0u8 }) | (if hyper { 16u8 } else { 0u8 }) | (if meta { 32u8 } else { 0u8 })
}

impl KeyModifiers {
    /// The modifiers for the held keys given.
    pub fn from_flags(shift: bool, control: bool, alt: bool, sup: bool, hyper: bool, meta: bool) -> (m: KeyModifiers)
        ensures
            m.0 == modifier_bits(shift, control, alt, sup, hyper, meta),
            m.spec_contains(KeyModifiers(1)) == shift,
            m.spec_contains(KeyModifiers(2)) == control,
            m.spec_contains(KeyModifiers(4)) == alt,
            m.spec_contains(KeyModifiers(8)) == sup,
            m.spec_contains(KeyModifiers(16)) == hyper,
            m.spec_contains(KeyModifiers(32)) == meta,
    {
        let a: u8 = if shift { 1 } else { 0 };
        let b: u8 = if control { 2 } else { 0 };
        let c: u8 = if alt { 4 } else { 0 };
        let d: u8 = if sup { 8 } else { 0 };
        let e: u8 = if hyper { 16 } else { 0 };
        let f: u8 = if meta { 32 } else { 0 };
        let bits = a | b | c | d | e | f;
        proof {
            assert(bits & 1 == 1 <==> a == 1) by (bit_vector)
                requires bits == a | b | c | d | e | f, a == 0 || a == 1, b == 0 || b == 2, c == 0 || c == 4,
                    d == 0 || d == 8, e == 0 || e == 16, f == 0 || f == 32;
            assert(bits & 2 == 2 <==> b == 2) by (bit_vector)
                requires bits == a | b | c | d | e | f, a == 0 || a == 1, b == 0 || b == 2, c == 0 || c == 4,
                    d == 0 || d == 8, e == 0 || e == 16, f == 0 || f == 32;
            assert(bits & 4 == 4 <==> c == 4) by (bit_vector)
                requires bits == a | b | c | d | e | f, a == 0 || a == 1, b == 0 || b == 2, c == 0 || c == 4,
                    d == 0 || d == 8, e == 0 || e == 16, f == 0 || f == 32;
            assert(bits & 8 == 8 <==> d == 8) by (bit_vector)
                requires bits == a | b | c | d | e | f, a == 0 || a == 1, b == 0 || b == 2, c == 0 || c == 4,
                    d == 0 || d == 8, e == 0 || e == 16, f == 0 || f == 32;
            assert(bits & 16 == 16 <==> e == 16) by (bit_vector)
                requires bits == a | b | c | d | e | f, a == 0 || a == 1, b == 0 || b == 2, c == 0 || c == 4,
                    d == 0 || d == 8, e == 0 || e == 16, f == 0 || f == 32;
            assert(bits & 32 == 32 <==> f == 32) by (bit_vector)
                requires bits == a | b | c | d | e | f, a == 0 || a == 1, b == 0 || b == 2, c == 0 || c == 4,
                    d == 0 || d == 8, e == 0 || e == 16, f == 0 || f == 32;
        }
        KeyModifiers(bits)
    }
}

} // verus!
