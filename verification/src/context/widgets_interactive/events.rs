//! Queries over the frame's input events, plus the context's small getters
//! and setters.
use vstd::prelude::*;
use crate::context::Context;
use crate::event::{Event, KeyCode, KeyEventKind, KeyModifiers, MouseButton, MouseKind};
use crate::style::{Breakpoint, Color, DebugLayer, Spacing, Theme, ThemeColor};

verus! {

/// Whether `e` is a key event of `kind` for `code`, holding every modifier of
/// `mods` when `mods` is given.
pub open spec fn key_matches(e: Event, code: KeyCode, kind: KeyEventKind, mods: Option<KeyModifiers>) -> bool {
    &&& e matches Event::Key(k)
    &&& k.kind == kind
    &&& k.code == code
    &&& (mods matches Some(m) ==> k.modifiers.spec_contains(m))
}

/// The event predicate of [`key_matches`].
pub open spec fn key_pred(code: KeyCode, kind: KeyEventKind, mods: Option<KeyModifiers>) -> spec_fn(Event) -> bool {
    |e: Event| key_matches(e, code, kind, mods)
}

/// The predicate "is a mouse event of `kind`".
pub open spec fn mouse_pred(kind: MouseKind) -> spec_fn(Event) -> bool {
    |e: Event| e matches Event::Mouse(m) && m.kind == kind
}

/// The predicate "is a paste event".
pub open spec fn paste_pred() -> spec_fn(Event) -> bool {
    |e: Event| e is Paste
}

/// The position of a mouse event (meaningless for other events).
pub open spec fn mouse_xy(e: Event) -> (u32, u32) {
    match e {
        Event::Mouse(m) => (m.x, m.y),
        _ => (0, 0),
    }
}

/// The breakpoint of a terminal `w` columns wide.
pub open spec fn breakpoint_of(w: u32) -> Breakpoint {
    if w < 40 {
        Breakpoint::Xs
    } else if w < 80 {
        Breakpoint::Sm
    } else if w < 120 {
        Breakpoint::Md
    } else if w < 160 {
        Breakpoint::Lg
    } else {
        Breakpoint::Xl
    }
}

/// The unclaimed events among the first `n`, in order.
pub open spec fn live_events(events: Seq<Event>, consumed: Seq<bool>, n: nat) -> Seq<Event>
    decreases n,
{
    if n == 0 {
        Seq::empty()
    } else {
        let prev = live_events(events, consumed, (n - 1) as nat);
        if !consumed[n - 1] {
            prev.push(events[n - 1])
        } else {
            prev
        }
    }
}

fn event_is_key(e: &Event, code: KeyCode, kind: KeyEventKind, mods: Option<KeyModifiers>) -> (r: bool)
    ensures
        r == key_matches(*e, code, kind, mods),
{
    match e {
        Event::Key(k) => {
            k.kind == kind && k.code == code && match mods {
                Some(m) => k.modifiers.contains(m),
                None => true,
            }
        },
        _ => false,
    }
}

impl Context {
    /// Whether some unclaimed event satisfies `p`.
    pub open spec fn live_where(&self, p: spec_fn(Event) -> bool) -> bool {
        exists|i: int| self.live(i) && #[trigger] p(self.events@[i])
    }

    /// Event `i` is the first unclaimed event satisfying `p`.
    pub open spec fn first_live(&self, i: int, p: spec_fn(Event) -> bool) -> bool {
        &&& self.live(i)
        &&& p(self.events@[i])
        &&& forall|j: int| 0 <= j < i ==> !(self.live(j) && #[trigger] p(self.events@[j]))
    }

    /// Index of the first unclaimed key event matching `code`, `kind` and `mods`.
    fn find_live_key(&self, code: KeyCode, kind: KeyEventKind, mods: Option<KeyModifiers>) -> (r: Option<usize>)
        requires
            self.wf(),
        ensures
            match r {
                Some(i) => self.first_live(i as int, key_pred(code, kind, mods)),
                None => !self.live_where(key_pred(code, kind, mods)),
            },
    {
        let ghost p = key_pred(code, kind, mods);
        let n = self.events.len();
        let mut i: usize = 0;
        while i < n
            invariant
                self.wf(),
                n == self.events@.len(),
                i <= n,
                p == key_pred(code, kind, mods),
                forall|j: int| 0 <= j < i ==> !(self.live(j) && #[trigger] p(self.events@[j])),
            decreases n - i,
        {
            if !self.consumed[i] && event_is_key(&self.events[i], code, kind, mods) {
                return Some(i);
            }
            i = i + 1;
        }
        None
    }

    /// Index of the first unclaimed mouse event of `kind`.
    fn find_live_mouse(&self, kind: MouseKind) -> (r: Option<usize>)
        requires
            self.wf(),
        ensures
            match r {
                Some(i) => self.first_live(i as int, mouse_pred(kind)),
                None => !self.live_where(mouse_pred(kind)),
            },
    {
        let ghost p = mouse_pred(kind);
        let n = self.events.len();
        let mut i: usize = 0;
        while i < n
            invariant
                self.wf(),
                n == self.events@.len(),
                i <= n,
                p == mouse_pred(kind),
                forall|j: int| 0 <= j < i ==> !(self.live(j) && #[trigger] p(self.events@[j])),
            decreases n - i,
        {
            if !self.consumed[i] {
                match &self.events[i] {
                    Event::Mouse(m) => {
                        if m.kind == kind {
                            return Some(i);
                        }
                    },
                    _ => {},
                }
            }
            i = i + 1;
        }
        None
    }

    /// Whether an unclaimed key event matches, honouring the modal guard when `guarded`.
    fn any_key(&self, code: KeyCode, kind: KeyEventKind, mods: Option<KeyModifiers>, guarded: bool) -> (r: bool)
        requires
            self.wf(),
        ensures
            r == (!(guarded && self.blocked()) && self.live_where(key_pred(code, kind, mods))),
    {
        if guarded && self.is_blocked() {
            return false;
        }
        self.find_live_key(code, kind, mods).is_some()
    }

    /// Position of the first unclaimed mouse event of `kind`, honouring the modal guard.
    fn first_mouse_pos(&self, kind: MouseKind) -> (r: Option<(u32, u32)>)
        requires
            self.wf(),
        ensures
            self.blocked() ==> r is None,
            !self.blocked() ==> match r {
                Some(p) => exists|i: int| self.first_live(i, mouse_pred(kind)) && p == mouse_xy(self.events@[i]),
                None => !self.live_where(mouse_pred(kind)),
            },
    {
        if self.is_blocked() {
            return None;
        }
        match self.find_live_mouse(kind) {
            Some(i) => match &self.events[i] {
                Event::Mouse(m) => Some((m.x, m.y)),
                _ => None,
            },
            None => None,
        }
    }

    /// Check if a character key was pressed this frame and not yet claimed.
    pub fn key(&self, c: char) -> (r: bool)
        requires
            self.wf(),
        ensures
            r == (!self.blocked() && self.live_where(key_pred(KeyCode::Char(c), KeyEventKind::Press, None))),
    {
        self.any_key(KeyCode::Char(c), KeyEventKind::Press, None, true)
    }

    /// Check if a specific key code was pressed this frame and not yet claimed.
    pub fn key_code(&self, code: KeyCode) -> (r: bool)
        requires
            self.wf(),
        ensures
            r == (!self.blocked() && self.live_where(key_pred(code, KeyEventKind::Press, None))),
    {
        self.any_key(code, KeyEventKind::Press, None, true)
    }

    /// Like [`key_code`](Self::key_code) but ignoring the modal guard.
    pub fn raw_key_code(&self, code: KeyCode) -> (r: bool)
        requires
            self.wf(),
        ensures
            r == self.live_where(key_pred(code, KeyEventKind::Press, None)),
    {
        self.any_key(code, KeyEventKind::Press, None, false)
    }

    /// Check if a character key was released this frame and not yet claimed.
    pub fn key_release(&self, c: char) -> (r: bool)
        requires
            self.wf(),
        ensures
            r == (!self.blocked() && self.live_where(key_pred(KeyCode::Char(c), KeyEventKind::Release, None))),
    {
        self.any_key(KeyCode::Char(c), KeyEventKind::Release, None, true)
    }

    /// Check if a specific key code was released this frame and not yet claimed.
    pub fn key_code_release(&self, code: KeyCode) -> (r: bool)
        requires
            self.wf(),
        ensures
            r == (!self.blocked() && self.live_where(key_pred(code, KeyEventKind::Release, None))),
    {
        self.any_key(code, KeyEventKind::Release, None, true)
    }

    /// Check if a character key with (at least) the given modifiers was pressed.
    pub fn key_mod(&self, c: char, modifiers: KeyModifiers) -> (r: bool)
        requires
            self.wf(),
        ensures
            r == (!self.blocked() && self.live_where(key_pred(KeyCode::Char(c), KeyEventKind::Press, Some(modifiers)))),
    {
        self.any_key(KeyCode::Char(c), KeyEventKind::Press, Some(modifiers), true)
    }

    /// Like [`key_mod`](Self::key_mod) but ignoring the modal guard.
    pub fn raw_key_mod(&self, c: char, modifiers: KeyModifiers) -> (r: bool)
        requires
            self.wf(),
        ensures
            r == self.live_where(key_pred(KeyCode::Char(c), KeyEventKind::Press, Some(modifiers))),
    {
        self.any_key(KeyCode::Char(c), KeyEventKind::Press, Some(modifiers), false)
    }

    /// Claim the first unclaimed press of `code`; `true` if one was found.
    fn consume_press(&mut self, code: KeyCode) -> (r: bool)
        requires
            old(self).wf(),
        ensures
            final(self).wf(),
            r == (!old(self).blocked() && old(self).live_where(key_pred(code, KeyEventKind::Press, None))),
            r ==> exists|i: int|
                old(self).first_live(i, key_pred(code, KeyEventKind::Press, None))
                    && final(self).consumed@ == old(self).consumed@.update(i, true),
            !r ==> final(self).consumed@ == old(self).consumed@,
            *final(self) == (Context { consumed: final(self).consumed, ..*old(self) }),
    {
        if self.is_blocked() {
            return false;
        }
        match self.find_live_key(code, KeyEventKind::Press, None) {
            Some(i) => {
                self.consumed.set(i, true);
                true
            },
            None => false,
        }
    }

    /// Claim the first unclaimed press of character `c`; `true` if one was found.
    pub fn consume_key(&mut self, c: char) -> (r: bool)
        requires
            old(self).wf(),
        ensures
            final(self).wf(),
            r == (!old(self).blocked() && old(self).live_where(key_pred(KeyCode::Char(c), KeyEventKind::Press, None))),
            r ==> exists|i: int|
                old(self).first_live(i, key_pred(KeyCode::Char(c), KeyEventKind::Press, None))
                    && final(self).consumed@ == old(self).consumed@.update(i, true),
            !r ==> final(self).consumed@ == old(self).consumed@,
            *final(self) == (Context { consumed: final(self).consumed, ..*old(self) }),
    {
        self.consume_press(KeyCode::Char(c))
    }

    /// Claim the first unclaimed press of `code`; `true` if one was found.
    pub fn consume_key_code(&mut self, code: KeyCode) -> (r: bool)
        requires
            old(self).wf(),
        ensures
            final(self).wf(),
            r == (!old(self).blocked() && old(self).live_where(key_pred(code, KeyEventKind::Press, None))),
            r ==> exists|i: int|
                old(self).first_live(i, key_pred(code, KeyEventKind::Press, None))
                    && final(self).consumed@ == old(self).consumed@.update(i, true),
            !r ==> final(self).consumed@ == old(self).consumed@,
            *final(self) == (Context { consumed: final(self).consumed, ..*old(self) }),
    {
        self.consume_press(code)
    }

    /// Position of the first unclaimed left-button press, if any.
    pub fn mouse_down(&self) -> (r: Option<(u32, u32)>)
        requires
            self.wf(),
        ensures
            self.blocked() ==> r is None,
            !self.blocked() ==> match r {
                Some(p) => exists|i: int|
                    self.first_live(i, mouse_pred(MouseKind::Down(MouseButton::Left))) && p == mouse_xy(self.events@[i]),
                None => !self.live_where(mouse_pred(MouseKind::Down(MouseButton::Left))),
            },
    {
        self.first_mouse_pos(MouseKind::Down(MouseButton::Left))
    }

    /// Position of the first unclaimed left-button drag, if any.
    pub fn mouse_drag(&self) -> (r: Option<(u32, u32)>)
        requires
            self.wf(),
        ensures
            self.blocked() ==> r is None,
            !self.blocked() ==> match r {
                Some(p) => exists|i: int|
                    self.first_live(i, mouse_pred(MouseKind::Drag(MouseButton::Left))) && p == mouse_xy(self.events@[i]),
                None => !self.live_where(mouse_pred(MouseKind::Drag(MouseButton::Left))),
            },
    {
        self.first_mouse_pos(MouseKind::Drag(MouseButton::Left))
    }

    /// Position of the first unclaimed left-button release, if any.
    pub fn mouse_up(&self) -> (r: Option<(u32, u32)>)
        requires
            self.wf(),
        ensures
            self.blocked() ==> r is None,
            !self.blocked() ==> match r {
                Some(p) => exists|i: int|
                    self.first_live(i, mouse_pred(MouseKind::Up(MouseButton::Left))) && p == mouse_xy(self.events@[i]),
                None => !self.live_where(mouse_pred(MouseKind::Up(MouseButton::Left))),
            },
    {
        self.first_mouse_pos(MouseKind::Up(MouseButton::Left))
    }

    /// Position of the first unclaimed press of `button`, if any.
    pub fn mouse_down_button(&self, button: MouseButton) -> (r: Option<(u32, u32)>)
        requires
            self.wf(),
        ensures
            self.blocked() ==> r is None,
            !self.blocked() ==> match r {
                Some(p) => exists|i: int| self.first_live(i, mouse_pred(MouseKind::Down(button))) && p == mouse_xy(self.events@[i]),
                None => !self.live_where(mouse_pred(MouseKind::Down(button))),
            },
    {
        self.first_mouse_pos(MouseKind::Down(button))
    }

    /// Position of the first unclaimed drag with `button`, if any.
    pub fn mouse_drag_button(&self, button: MouseButton) -> (r: Option<(u32, u32)>)
        requires
            self.wf(),
        ensures
            self.blocked() ==> r is None,
            !self.blocked() ==> match r {
                Some(p) => exists|i: int| self.first_live(i, mouse_pred(MouseKind::Drag(button))) && p == mouse_xy(self.events@[i]),
                None => !self.live_where(mouse_pred(MouseKind::Drag(button))),
            },
    {
        self.first_mouse_pos(MouseKind::Drag(button))
    }

    /// Position of the first unclaimed release of `button`, if any.
    pub fn mouse_up_button(&self, button: MouseButton) -> (r: Option<(u32, u32)>)
        requires
            self.wf(),
        ensures
            self.blocked() ==> r is None,
            !self.blocked() ==> match r {
                Some(p) => exists|i: int| self.first_live(i, mouse_pred(MouseKind::Up(button))) && p == mouse_xy(self.events@[i]),
                None => !self.live_where(mouse_pred(MouseKind::Up(button))),
            },
    {
        self.first_mouse_pos(MouseKind::Up(button))
    }

    /// The current mouse cursor position, if known.
    pub fn mouse_pos(&self) -> (r: Option<(u32, u32)>)
        ensures
            r == self.mouse_pos,
    {
        self.mouse_pos
    }

    /// The text of the first unclaimed paste event, if any.
    pub fn paste(&self) -> (r: Option<&str>)
        requires
            self.wf(),
        ensures
            self.blocked() ==> r is None,
            !self.blocked() ==> match r {
                Some(t) => exists|i: int|
                    self.first_live(i, paste_pred()) && (self.events@[i] matches Event::Paste(s) && s@ == t@),
                None => !self.live_where(paste_pred()),
            },
    {
        if self.is_blocked() {
            return None;
        }
        let ghost p = paste_pred();
        let n = self.events.len();
        let mut i: usize = 0;
        while i < n
            invariant
                self.wf(),
                n == self.events@.len(),
                i <= n,
                p == paste_pred(),
                !self.blocked(),
                forall|j: int| 0 <= j < i ==> !(self.live(j) && #[trigger] p(self.events@[j])),
            decreases n - i,
        {
            if !self.consumed[i] {
                match &self.events[i] {
                    Event::Paste(text) => {
                        assert(self.first_live(i as int, p));
                        return Some(text.as_str());
                    },
                    _ => {},
                }
            }
            i = i + 1;
        }
        None
    }

    /// Whether an unclaimed wheel-up event occurred this frame.
    pub fn scroll_up(&self) -> (r: bool)
        requires
            self.wf(),
        ensures
            r == (!self.blocked() && self.live_where(mouse_pred(MouseKind::ScrollUp))),
    {
        !self.is_blocked() && self.find_live_mouse(MouseKind::ScrollUp).is_some()
    }

    /// Whether an unclaimed wheel-down event occurred this frame.
    pub fn scroll_down(&self) -> (r: bool)
        requires
            self.wf(),
        ensures
            r == (!self.blocked() && self.live_where(mouse_pred(MouseKind::ScrollDown))),
    {
        !self.is_blocked() && self.find_live_mouse(MouseKind::ScrollDown).is_some()
    }

    /// Whether an unclaimed wheel-left event occurred this frame.
    pub fn scroll_left(&self) -> (r: bool)
        requires
            self.wf(),
        ensures
            r == (!self.blocked() && self.live_where(mouse_pred(MouseKind::ScrollLeft))),
    {
        !self.is_blocked() && self.find_live_mouse(MouseKind::ScrollLeft).is_some()
    }

    /// Whether an unclaimed wheel-right event occurred this frame.
    pub fn scroll_right(&self) -> (r: bool)
        requires
            self.wf(),
        ensures
            r == (!self.blocked() && self.live_where(mouse_pred(MouseKind::ScrollRight))),
    {
        !self.is_blocked() && self.find_live_mouse(MouseKind::ScrollRight).is_some()
    }

    /// The unclaimed events in order, or none while the modal guard applies.
    pub fn events(&self) -> (r: Vec<&Event>)
        requires
            self.wf(),
        ensures
            self.blocked() ==> r@.len() == 0,
            !self.blocked() ==> r@.len() == live_events(self.events@, self.consumed@, self.events@.len()).len(),
            !self.blocked() ==> forall|k: int|
                0 <= k < r@.len() ==> *r@[k] == live_events(self.events@, self.consumed@, self.events@.len())[k],
    {
        if self.is_blocked() {
            return Vec::new();
        }
        self.raw_events()
    }

    /// The unclaimed events in order, ignoring the modal guard.
    pub fn raw_events(&self) -> (r: Vec<&Event>)
        requires
            self.wf(),
        ensures
            r@.len() == live_events(self.events@, self.consumed@, self.events@.len()).len(),
            forall|k: int|
                0 <= k < r@.len() ==> *r@[k] == live_events(self.events@, self.consumed@, self.events@.len())[k],
    {
        let mut out: Vec<&Event> = Vec::new();
        let n = self.events.len();
        let mut i: usize = 0;
        while i < n
            invariant
                self.wf(),
                n == self.events@.len(),
                i <= n,
                out@.len() == live_events(self.events@, self.consumed@, i as nat).len(),
                forall|k: int|
                    0 <= k < out@.len() ==> *out@[k] == live_events(self.events@, self.consumed@, i as nat)[k],
            decreases n - i,
        {
            if !self.consumed[i] {
                out.push(&self.events[i]);
            }
            i = i + 1;
        }
        out
    }

    /// Ask the run loop to exit after this frame.
    pub fn quit(&mut self)
        ensures
            *final(self) == (Context { should_quit: true, ..*old(self) }),
    {
        self.should_quit = true;
    }

    /// Queue `text` for the system clipboard.
    pub fn copy_to_clipboard(&mut self, text: &str)
        ensures
            final(self).clipboard_text matches Some(t) && t@ == text@,
            *final(self) == (Context { clipboard_text: final(self).clipboard_text, ..*old(self) }),
    {
        self.clipboard_text = Some(text.to_owned());
    }

    /// The current theme.
    pub fn theme(&self) -> (t: &Theme)
        ensures
            *t == self.theme,
    {
        &self.theme
    }

    /// Resolve a color token against the current theme.
    pub fn color(&self, token: ThemeColor) -> (c: Color)
        ensures
            c == self.theme.spec_resolve(token),
    {
        self.theme.resolve(token)
    }

    /// The theme's spacing scale.
    pub fn spacing(&self) -> (s: Spacing)
        ensures
            s == self.theme.spacing,
    {
        self.theme.spacing
    }

    /// Replace the theme for everything drawn afterwards.
    pub fn set_theme(&mut self, theme: Theme)
        ensures
            *final(self) == (Context { theme, ..*old(self) }),
    {
        self.theme = theme;
    }

    /// Whether dark mode is active.
    pub fn is_dark_mode(&self) -> (r: bool)
        ensures
            r == self.dark_mode,
    {
        self.dark_mode
    }

    /// Turn dark mode on or off.
    pub fn set_dark_mode(&mut self, dark: bool)
        ensures
            *final(self) == (Context { dark_mode: dark, ..*old(self) }),
    {
        self.dark_mode = dark;
    }

    /// Terminal width in cells.
    pub fn width(&self) -> (r: u32)
        ensures
            r == self.area_width,
    {
        self.area_width
    }

    /// The width class of the terminal.
    pub fn breakpoint(&self) -> (r: Breakpoint)
        ensures
            r == breakpoint_of(self.area_width),
    {
        let w = self.area_width;
        if w < 40 {
            Breakpoint::Xs
        } else if w < 80 {
            Breakpoint::Sm
        } else if w < 120 {
            Breakpoint::Md
        } else if w < 160 {
            Breakpoint::Lg
        } else {
            Breakpoint::Xl
        }
    }

    /// Terminal height in cells.
    pub fn height(&self) -> (r: u32)
        ensures
            r == self.area_height,
    {
        self.area_height
    }

    /// Frame counter.
    pub fn tick(&self) -> (r: u64)
        ensures
            r == self.tick,
    {
        self.tick
    }

    /// Whether the layout debugger is on.
    pub fn debug_enabled(&self) -> (r: bool)
        ensures
            r == self.debug,
    {
        self.debug
    }

    /// Which layers the debug overlay outlines.
    pub fn debug_layer(&self) -> (r: DebugLayer)
        ensures
            r == self.debug_layer,
    {
        self.debug_layer
    }

    /// Choose which layers the debug overlay outlines.
    pub fn set_debug_layer(&mut self, layer: DebugLayer)
        ensures
            *final(self) == (Context { debug_layer: layer, ..*old(self) }),
    {
        self.debug_layer = layer;
    }
}

} // verus!
